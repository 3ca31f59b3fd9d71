use tension_core::session::arena::{
    canary_expected, class_name, control_layout_hash, control_magic, control_region_count,
    control_state, layout_hash, read_callbacks, region_name, regions, ring_bytes, ring_header,
    ring_offset, set_control_fault_code, set_control_nonce, set_control_state, types, u32_at,
    verify_band_is_zero, verify_canary_lattice, write_canary_lattice, write_control_block,
    write_manifest, write_region_table, write_ring_header, write_session_info, zero_band,
    CallbacksRecord, LayoutError, SessionInfoValues, ABI_VERSION, BUFFER_POOL_OFFSET,
    CALLBACKS_ABI_VERSION, CALLBACKS_ON_BATCH, CALLBACKS_ON_EVENT, CALLBACKS_SIZE,
    CALLBACKS_SLOTS, CALLBACKS_SLOT_COUNT, CANARY_BLOCK, CANARY_STRIDE, CLASS_COUNT,
    CONTROL_ABI_VERSION, CONTROL_FAULT_CODE, CONTROL_FAULT_DETAIL, CONTROL_FLAGS,
    CONTROL_FORMAT_VERSION, CONTROL_LAYOUT_HASH, CONTROL_MAGIC, CONTROL_MANIFEST_LEN,
    CONTROL_MANIFEST_OFF, CONTROL_OFFSET, CONTROL_REGION_COUNT, CONTROL_REGION_TABLE_OFF,
    CONTROL_SCHEMA_VERSION, CONTROL_SESSION_NONCE, CONTROL_SIZE, CONTROL_STATE,
    CONTROL_TOTAL_SIZE, DEFAULT_RING_CAPACITIES, EVENT_RECORD_SIZE, EVENT_TABLE_OFFSET,
    EVENT_TABLE_SIZE, FRAME_STATE_OFFSET, HEADER_PAGE_SIZE, JOB_OFFSET, LAYOUT_FLOOR, MAGIC,
    MANIFEST_ENTRY_SIZE, MANIFEST_LEN, MANIFEST_OFFSET, MATERIAL_OFFSET, RD_BYTES,
    RD_GUEST_WRITES, RD_SESSION_WRITES, RD_WRITES_ONCE, REGION_BUFFER_POOL, REGION_CONTROL,
    REGION_COUNT, REGION_DESC_SIZE, REGION_EVENT_TABLE, REGION_FRAME_STATE, REGION_JOB,
    REGION_MATERIAL, REGION_NAMES, REGION_RENDERABLE, REGION_RESOURCE, REGION_RESOURCE_REQ,
    REGION_SCENE, REGION_SESSION_INFO, REGION_STRING, REGION_TABLE_OFFSET, RENDERABLE_OFFSET,
    RESOURCE_OFFSET, RESOURCE_REQ_OFFSET, RING_HEADER_SIZE, SCENE_OFFSET, SESSION_INFO_ABI_VERSION,
    SESSION_INFO_ARENA_SIZE, SESSION_INFO_CLASS_CAPACITY, SESSION_INFO_CLASS_COUNT,
    SESSION_INFO_FLAGS, SESSION_INFO_INITIAL_PAGES, SESSION_INFO_LAYOUT_HASH, SESSION_INFO_MAGIC,
    SESSION_INFO_MAX_ARENA_SIZE, SESSION_INFO_MAX_PAGES, SESSION_INFO_MEMORY_BASE,
    SESSION_INFO_OFFSET, SESSION_INFO_OPEN_NONCE, SESSION_INFO_REGION_COUNT,
    SESSION_INFO_SCHEMA_VERSION, SESSION_INFO_SIZE, STATE_READY, STATE_UNINIT, STRING_OFFSET,
};

/// An arena the size of the frozen layout, which is the smallest legal one.
fn arena() -> Vec<u8> {
    vec![0u8; LAYOUT_FLOOR]
}

#[test]
fn header_page_offsets_match_the_design_note() {
    assert_eq!(CONTROL_OFFSET, 0x000);
    assert_eq!(CONTROL_SIZE, 256);
    assert_eq!(SESSION_INFO_OFFSET, 0x100);
    assert_eq!(SESSION_INFO_SIZE, 128);
    assert_eq!(REGION_TABLE_OFFSET, 0x200);
    assert_eq!(REGION_DESC_SIZE, 24);
    assert_eq!(MANIFEST_ENTRY_SIZE, 8);
    assert_eq!(HEADER_PAGE_SIZE, 0x1000);
    assert_eq!(MANIFEST_OFFSET, 0x320);
    assert_eq!(MANIFEST_LEN, 72);
    // The whole header page fits inside the reserved first page, with room
    // for the descriptor table to grow before a region has to move.
    assert!(MANIFEST_OFFSET + MANIFEST_LEN < HEADER_PAGE_SIZE);
}

#[test]
fn control_block_field_offsets_match_the_design_note() {
    assert_eq!(CONTROL_MAGIC, 0);
    assert_eq!(CONTROL_FORMAT_VERSION, 8);
    assert_eq!(CONTROL_SCHEMA_VERSION, 10);
    assert_eq!(CONTROL_ABI_VERSION, 12);
    assert_eq!(CONTROL_FLAGS, 14);
    assert_eq!(CONTROL_TOTAL_SIZE, 16);
    assert_eq!(CONTROL_LAYOUT_HASH, 20);
    assert_eq!(CONTROL_REGION_COUNT, 24);
    assert_eq!(CONTROL_REGION_TABLE_OFF, 28);
    assert_eq!(CONTROL_MANIFEST_OFF, 32);
    assert_eq!(CONTROL_MANIFEST_LEN, 36);
    assert_eq!(CONTROL_STATE, 160);
    assert_eq!(CONTROL_FAULT_CODE, 164);
    assert_eq!(CONTROL_FAULT_DETAIL, 168);
    assert_eq!(CONTROL_SESSION_NONCE, 176);
    // The guest-owned header ends where the session-owned tail begins.
    assert!(CONTROL_MANIFEST_LEN + 4 <= CONTROL_STATE);
    assert_eq!(CONTROL_SESSION_NONCE + 8, 184);
    assert!(184 <= CONTROL_SIZE - 8);
}

#[test]
fn session_info_field_offsets_match_the_design_note() {
    assert_eq!(SESSION_INFO_MAGIC, 0);
    assert_eq!(SESSION_INFO_ABI_VERSION, 8);
    assert_eq!(SESSION_INFO_SCHEMA_VERSION, 10);
    assert_eq!(SESSION_INFO_FLAGS, 12);
    assert_eq!(SESSION_INFO_ARENA_SIZE, 16);
    assert_eq!(SESSION_INFO_MAX_ARENA_SIZE, 20);
    assert_eq!(SESSION_INFO_MEMORY_BASE, 24);
    assert_eq!(SESSION_INFO_INITIAL_PAGES, 28);
    assert_eq!(SESSION_INFO_MAX_PAGES, 32);
    assert_eq!(SESSION_INFO_LAYOUT_HASH, 36);
    assert_eq!(SESSION_INFO_REGION_COUNT, 40);
    assert_eq!(SESSION_INFO_CLASS_COUNT, 44);
    assert_eq!(SESSION_INFO_CLASS_CAPACITY, 48);
    assert_eq!(SESSION_INFO_OPEN_NONCE, 88);
    // The ten capacities and the nonce fit, with eight reserved words.
    assert_eq!(SESSION_INFO_CLASS_CAPACITY + CLASS_COUNT * 4, SESSION_INFO_OPEN_NONCE);
    assert_eq!(SESSION_INFO_OPEN_NONCE + 8 + 8 * 4, SESSION_INFO_SIZE);
}

#[test]
fn region_band_offsets_and_floor_match_the_design_note() {
    assert_eq!(FRAME_STATE_OFFSET, 0x1000);
    assert_eq!(JOB_OFFSET, 0x2000);
    assert_eq!(RESOURCE_OFFSET, 0xE000);
    assert_eq!(EVENT_TABLE_OFFSET, 0x1A000);
    assert_eq!(STRING_OFFSET, 0x7A000);
    assert_eq!(RESOURCE_REQ_OFFSET, 0x17A020);
    assert_eq!(SCENE_OFFSET, 0x186020);
    assert_eq!(MATERIAL_OFFSET, 0x1C6020);
    assert_eq!(RENDERABLE_OFFSET, 0x1D6020);
    assert_eq!(BUFFER_POOL_OFFSET, 0x1F6020);
    assert_eq!(LAYOUT_FLOOR, 0x5F6020);
    assert_eq!(LAYOUT_FLOOR, 6_250_528);
    // §5.2's arithmetic: ~5.96 MiB of frozen layout inside an 8 MiB ceiling.
    assert!(LAYOUT_FLOOR < 8 * 1024 * 1024);
    assert_eq!(8 * 1024 * 1024 - LAYOUT_FLOOR, 2_138_080);
}

#[test]
fn every_region_is_aligned_and_in_order() {
    for (index, region) in regions().iter().enumerate() {
        assert_eq!(region.kind as usize, index, "kind == index");
        assert_eq!(
            region.offset as usize % region.align as usize,
            0,
            "region {index} is aligned to {}",
            region.align
        );
        assert!(region.size > 0);
        assert_eq!(region.size as usize % 16, 0, "sizes pad to 16");
    }
    // The band is contiguous, in kind order, from the header page up.
    assert_eq!(regions()[2].offset as usize, HEADER_PAGE_SIZE);
    for index in 3..REGION_COUNT {
        let previous = &regions()[index - 1];
        assert_eq!(
            regions()[index].offset as usize,
            previous.offset as usize + previous.size as usize,
            "region {index} follows {}",
            index - 1
        );
    }
    assert_eq!(
        regions()[REGION_COUNT - 1].offset as usize + regions()[REGION_COUNT - 1].size as usize,
        LAYOUT_FLOOR
    );
}

#[test]
fn the_region_kind_constants_match_the_table() {
    // The names the adapter header and `region_lookup` use, pinned against
    // the table's own `kind` fields so the two can never drift.
    let kinds = [
        REGION_CONTROL,
        REGION_SESSION_INFO,
        REGION_FRAME_STATE,
        REGION_JOB,
        REGION_RESOURCE,
        REGION_EVENT_TABLE,
        REGION_STRING,
        REGION_RESOURCE_REQ,
        REGION_SCENE,
        REGION_MATERIAL,
        REGION_RENDERABLE,
        REGION_BUFFER_POOL,
    ];
    assert_eq!(kinds.len(), REGION_COUNT);
    for (index, kind) in kinds.iter().enumerate() {
        assert_eq!(*kind, index as u32, "kind {index} is its own index");
        assert_eq!(regions()[index].kind, *kind, "the table agrees at {index}");
    }
}

#[test]
fn region_directions_are_the_frozen_ones() {
    assert_eq!(
        regions()[0].flags,
        RD_SESSION_WRITES | RD_WRITES_ONCE,
        "CONTROL"
    );
    assert_eq!(
        regions()[1].flags,
        RD_SESSION_WRITES | RD_WRITES_ONCE,
        "SESSION_INFO"
    );
    for kind in [2, 3, 4, 5] {
        assert_eq!(regions()[kind].flags, RD_SESSION_WRITES, "session-written");
    }
    assert_eq!(
        regions()[6].flags,
        RD_GUEST_WRITES | RD_SESSION_WRITES,
        "STRING has two disjoint halves"
    );
    for kind in [7, 8, 9, 10] {
        assert_eq!(regions()[kind].flags, RD_GUEST_WRITES, "guest-written");
    }
    assert_eq!(
        regions()[11].flags,
        RD_GUEST_WRITES | RD_BYTES,
        "BUFFER_POOL is bytes, not records"
    );
}

#[test]
fn region_table_is_written_at_a_24_byte_stride() {
    let mut arena = arena();
    write_region_table(&mut arena).expect("region table");

    for (index, region) in regions().iter().enumerate() {
        let at = REGION_TABLE_OFFSET + index * REGION_DESC_SIZE;
        assert_eq!(u32_at(&arena, at), region.kind, "entry {index} kind");
        assert_eq!(u32_at(&arena, at + 4), region.flags, "entry {index} flags");
        assert_eq!(u32_at(&arena, at + 8), region.offset, "entry {index} offset");
        assert_eq!(u32_at(&arena, at + 12), region.size, "entry {index} size");
        assert_eq!(u32_at(&arena, at + 16), region.align, "entry {index} align");
        assert_eq!(u32_at(&arena, at + 20), 0, "entry {index} reserved is zero");
    }
    // The table ends exactly where the manifest begins.
    assert_eq!(REGION_TABLE_OFFSET + REGION_COUNT * REGION_DESC_SIZE, MANIFEST_OFFSET);
}

#[test]
fn control_block_round_trips() {
    let mut arena = arena();
    write_control_block(&mut arena, 8 * 1024 * 1024).expect("control block");

    assert_eq!(control_magic(&arena), MAGIC);
    assert_eq!(control_layout_hash(&arena), layout_hash());
    assert_eq!(control_region_count(&arena), REGION_COUNT as u32);
    assert_eq!(u32_at(&arena, CONTROL_OFFSET + CONTROL_TOTAL_SIZE), 8 * 1024 * 1024);
    assert_eq!(
        u32_at(&arena, CONTROL_OFFSET + CONTROL_REGION_TABLE_OFF),
        REGION_TABLE_OFFSET as u32
    );
    assert_eq!(u32_at(&arena, CONTROL_OFFSET + CONTROL_MANIFEST_OFF), MANIFEST_OFFSET as u32);
    assert_eq!(u32_at(&arena, CONTROL_OFFSET + CONTROL_MANIFEST_LEN), MANIFEST_LEN as u32);
    // UNINIT until an open succeeds; the tail is the session's.
    assert_eq!(u32_at(&arena, CONTROL_OFFSET + CONTROL_STATE), STATE_UNINIT);
    assert_eq!(u32_at(&arena, CONTROL_OFFSET + CONTROL_FAULT_CODE), 0);
    assert_eq!(u32_at(&arena, CONTROL_OFFSET + CONTROL_SESSION_NONCE), 0);

    let small = write_control_block(&mut arena[..64], 4096);
    assert!(matches!(small, Err(LayoutError::BufferTooSmall { .. })));
}

#[test]
fn session_info_round_trips() {
    let mut arena = arena();
    let values = SessionInfoValues {
        arena_size: LAYOUT_FLOOR as u32,
        max_arena_size: 8 * 1024 * 1024,
        memory_base: 8 * 1024 * 1024,
        initial_pages: 130,
        max_pages: 256,
        open_nonce: 0x1234_5678_9ABC_DEF1,
        class_capacities: DEFAULT_RING_CAPACITIES,
    };
    write_session_info(&mut arena, &values).expect("session info");

    assert_eq!(u32_at(&arena, SESSION_INFO_OFFSET + SESSION_INFO_ARENA_SIZE), values.arena_size);
    assert_eq!(
        u32_at(&arena, SESSION_INFO_OFFSET + SESSION_INFO_MAX_ARENA_SIZE),
        values.max_arena_size
    );
    assert_eq!(
        u32_at(&arena, SESSION_INFO_OFFSET + SESSION_INFO_MEMORY_BASE),
        values.memory_base
    );
    assert_eq!(
        u32_at(&arena, SESSION_INFO_OFFSET + SESSION_INFO_LAYOUT_HASH),
        layout_hash()
    );
    assert_eq!(
        u32_at(&arena, SESSION_INFO_OFFSET + SESSION_INFO_CLASS_COUNT),
        CLASS_COUNT as u32
    );
    for (index, capacity) in DEFAULT_RING_CAPACITIES.iter().enumerate() {
        assert_eq!(
            u32_at(&arena, SESSION_INFO_OFFSET + SESSION_INFO_CLASS_CAPACITY + index * 4),
            *capacity,
            "class {index} capacity"
        );
    }
    // The open nonce is what a re-open changes, so a stale arena is
    // distinguishable from a live one.
    assert_eq!(
        u64::from_le_bytes(
            arena[SESSION_INFO_OFFSET + SESSION_INFO_OPEN_NONCE
                ..SESSION_INFO_OFFSET + SESSION_INFO_OPEN_NONCE + 8]
                .try_into()
                .expect("eight bytes")
        ),
        values.open_nonce
    );
}

#[test]
fn ring_headers_round_trip() {
    let mut arena = arena();
    let capacities = DEFAULT_RING_CAPACITIES;
    for class in 0..CLASS_COUNT {
        write_ring_header(&mut arena, ring_offset(&capacities, class), capacities[class])
            .expect("ring header");
    }
    for class in 0..CLASS_COUNT {
        let header = ring_header(&arena, ring_offset(&capacities, class));
        assert_eq!(header.head, 0, "class {class}");
        assert_eq!(header.tail, 0, "class {class}");
        assert_eq!(header.capacity, capacities[class], "class {class}");
        assert_eq!(header.stride, EVENT_RECORD_SIZE as u32, "class {class}");
        assert_eq!(header.generation, 0, "class {class}");
        assert_eq!(header.dropped, 0, "class {class}");
        assert_eq!(header.delivered, 0, "class {class}");
    }
    // A short slice is refused rather than half-written.
    assert!(matches!(
        write_ring_header(&mut arena[..RING_HEADER_SIZE - 8], EVENT_TABLE_OFFSET, 16),
        Err(LayoutError::BufferTooSmall { .. })
    ));
}

#[test]
fn callbacks_records_round_trip() {
    let mut arena = arena();
    let at = LAYOUT_FLOOR - 64; // a scratch spot, not a real place a guest uses
    arena[at + CALLBACKS_ABI_VERSION..at + CALLBACKS_ABI_VERSION + 2]
        .copy_from_slice(&1u16.to_le_bytes());
    arena[at + CALLBACKS_SLOT_COUNT..at + CALLBACKS_SLOT_COUNT + 2]
        .copy_from_slice(&CALLBACKS_SLOTS.to_le_bytes());
    arena[at + CALLBACKS_ON_BATCH..at + CALLBACKS_ON_BATCH + 4]
        .copy_from_slice(&7u32.to_le_bytes());
    arena[at + CALLBACKS_ON_EVENT..at + CALLBACKS_ON_EVENT + 4]
        .copy_from_slice(&9u32.to_le_bytes());

    let record = read_callbacks(&arena, at);
    assert_eq!(record.abi_version, 1);
    assert_eq!(record.slot_count, CALLBACKS_SLOTS);
    assert_eq!(record.flags, 0);
    assert_eq!(record.on_batch, 7);
    assert_eq!(record.on_event, 9);
}

#[test]
fn control_state_is_writable_and_readable() {
    let mut arena = arena();
    write_control_block(&mut arena, 8 * 1024 * 1024).expect("control block");
    assert_eq!(control_state(&arena), STATE_UNINIT);

    set_control_state(&mut arena, STATE_READY).expect("state");
    set_control_fault_code(&mut arena, -5).expect("fault code");
    set_control_nonce(&mut arena, 0xDEAD_BEEF_0000_0001).expect("nonce");

    assert_eq!(control_state(&arena), STATE_READY);
    assert_eq!(u32_at(&arena, CONTROL_OFFSET + CONTROL_FAULT_CODE), (-5i32) as u32);
    assert_eq!(u32_at(&arena, CONTROL_OFFSET + CONTROL_FAULT_DETAIL), 0);
    assert_eq!(
        u64::from_le_bytes(
            arena[CONTROL_OFFSET + CONTROL_SESSION_NONCE
                ..CONTROL_OFFSET + CONTROL_SESSION_NONCE + 8]
                .try_into()
                .expect("eight bytes")
        ),
        0xDEAD_BEEF_0000_0001
    );
    // The guest-owned header is untouched by a tail write.
    assert_eq!(control_magic(&arena), MAGIC);
}

#[test]
fn manifest_round_trips() {
    let mut arena = arena();
    write_manifest(&mut arena).expect("manifest");
    for (index, entry) in types().iter().enumerate() {
        let at = MANIFEST_OFFSET + index * MANIFEST_ENTRY_SIZE;
        assert_eq!(u16::from_le_bytes(arena[at..at + 2].try_into().unwrap()), entry.id);
        assert_eq!(
            u16::from_le_bytes(arena[at + 2..at + 4].try_into().unwrap()),
            entry.size
        );
        assert_eq!(
            u16::from_le_bytes(arena[at + 4..at + 6].try_into().unwrap()),
            entry.align
        );
        assert_eq!(u16::from_le_bytes(arena[at + 6..at + 8].try_into().unwrap()), 0);
    }
    // The `Callbacks` entry is the one `callbacks_len` is checked against.
    let table = types();
    let callbacks = table.iter().find(|entry| entry.id == 7).expect("Callbacks entry");
    assert_eq!(callbacks.size as usize, CALLBACKS_SIZE);
}

#[test]
fn layout_hash_is_deterministic_and_stable() {
    assert_eq!(layout_hash(), layout_hash());
    assert_eq!(
        layout_hash(),
        RECORDED_LAYOUT_HASH,
        "the arena's shape, or what its fingerprint covers, changed: bump \
         FORMAT_VERSION and the SDK together, then re-record this value"
    );
}

/// The recorded hash. Re-record only with a deliberate change to the shape
/// *or* to what the fingerprint covers (`DESIGN.md` §5.1).
///
/// `303_487_325` was the value before field offsets were folded in; a
/// reordering or renaming of any field a guest reads now moves it.
const RECORDED_LAYOUT_HASH: u32 = 3_451_714_980;

#[test]
fn canary_lattice_verifies_and_detects_one_byte() {
    let mut arena = arena();
    let (start, end) = (LAYOUT_FLOOR - CANARY_STRIDE * 4, LAYOUT_FLOOR);
    write_canary_lattice(&mut arena, start, end).expect("lattice");
    assert_eq!(verify_canary_lattice(&arena, start, end), Ok(()));

    // A single flipped byte, inside a block.
    arena[start + 3] ^= 0x01;
    assert_eq!(verify_canary_lattice(&arena, start, end), Err(start));

    // A single flipped byte in the second block is reported at that block.
    arena[start + 3] ^= 0x01;
    arena[start + CANARY_STRIDE + 8] ^= 0x80;
    assert_eq!(
        verify_canary_lattice(&arena, start, end),
        Err(start + CANARY_STRIDE)
    );
}

#[test]
fn canary_blocks_are_offset_specific() {
    let mut arena = arena();
    let (start, end) = (LAYOUT_FLOOR - CANARY_STRIDE * 2, LAYOUT_FLOOR);
    write_canary_lattice(&mut arena, start, end).expect("lattice");
    // Copying one block over another must not verify: the value depends on
    // where it lives.
    let first = arena[start..start + CANARY_BLOCK].to_vec();
    arena[start + CANARY_STRIDE..start + CANARY_STRIDE + CANARY_BLOCK]
        .copy_from_slice(&first);
    assert_eq!(
        verify_canary_lattice(&arena, start, end),
        Err(start + CANARY_STRIDE)
    );
}

#[test]
fn zero_band_and_verify_band_is_zero_round_trip() {
    let mut arena = arena();
    let (start, end) = (LAYOUT_FLOOR - 4096, LAYOUT_FLOOR);
    arena[start..end].fill(0xAB);
    assert_eq!(verify_band_is_zero(&arena, start, end), Err(start));

    zero_band(&mut arena, start, end).expect("zero");
    assert_eq!(verify_band_is_zero(&arena, start, end), Ok(()));

    arena[start + 100] = 1;
    assert_eq!(verify_band_is_zero(&arena, start, end), Err(start + 100));

    let too_far = arena.len() + 1;
    assert!(matches!(
        zero_band(&mut arena, start, too_far),
        Err(LayoutError::BufferTooSmall { .. })
    ));
}

#[test]
fn ring_arithmetic_matches_the_defaults() {
    let capacities = DEFAULT_RING_CAPACITIES;
    assert_eq!(ring_offset(&capacities, 0), EVENT_TABLE_OFFSET);
    // Class 1 follows class 0's header plus its one record.
    assert_eq!(
        ring_offset(&capacities, 1),
        EVENT_TABLE_OFFSET + RING_HEADER_SIZE + EVENT_RECORD_SIZE
    );
    // The default capacities fit the region with room to spare.
    let used = ring_bytes(&capacities);
    assert!(used <= EVENT_TABLE_SIZE as u64);
    assert_eq!(
        EVENT_TABLE_SIZE as u64 - used,
        61_088,
        "the defaults leave 61 088 bytes of EVENT_TABLE unused"
    );
    assert_eq!(
        DEFAULT_RING_CAPACITIES.iter().map(|c| *c as u64).sum::<u64>(),
        10_369
    );
}

#[test]
fn the_region_names_line_up_with_the_kinds() {
    // The names are diagnostics only — nothing on the wire reads them — but
    // a name that drifts from its kind turns a refusal into a lie, so the
    // order is pinned the way the kind constants are.
    assert_eq!(REGION_NAMES.len(), REGION_COUNT);
    for (kind, region) in regions().iter().enumerate() {
        assert_eq!(region.kind as usize, kind, "kind == index");
        assert_eq!(region_name(kind as u32), REGION_NAMES[kind]);
    }
    assert_eq!(region_name(REGION_JOB), "JOB");
    assert_eq!(region_name(REGION_BUFFER_POOL), "BUFFER_POOL");
    // A kind this layout does not define has no name, and says so rather
    // than indexing out of the table.
    assert_eq!(region_name(REGION_COUNT as u32), "<unknown>");
    assert_eq!(region_name(u32::MAX), "<unknown>");
}

#[test]
fn the_names_are_not_part_of_the_shape() {
    // Renaming a region must not move the hash the guest was built against;
    // this pins that the table is outside it. (If a later round ever folds
    // names in, this test is the one that should fail first.)
    assert_eq!(layout_hash(), RECORDED_LAYOUT_HASH);
    assert_eq!(REGION_NAMES.len(), REGION_COUNT);
}

#[test]
fn an_absent_callbacks_record_is_all_slots_absent() {
    let absent = CallbacksRecord::absent();
    assert_eq!(absent.abi_version, ABI_VERSION);
    assert_eq!(absent.slot_count, 0);
    assert_eq!(absent.on_batch, 0);
    assert_eq!(absent.on_event, 0);
    // The size the config states when it means "absent" is zero, not this
    // record's size: nothing is written anywhere.
    assert_ne!(CALLBACKS_SIZE, 0);
}

/// The guest fixture pins the arena's magic, the control block's state
/// offset, where `maxArenaSize` sits in the session info, and the default
/// ceiling, each as the text the fixture spells it in.
#[test]
fn the_smoke_fixture_pins_this_builds_arena_constants() {
    assert_eq!(format!("0x{:016x}", MAGIC), "0x414e455241534e54");
    assert_eq!(format!("(i32.const {:#x})", CONTROL_STATE), "(i32.const 0xa0)");
    let ceiling_at = SESSION_INFO_OFFSET + SESSION_INFO_MAX_ARENA_SIZE;
    assert_eq!(format!("(i32.const {ceiling_at:#x})"), "(i32.const 0x114)");
    assert_eq!(format!("(i32.const {})", tension_core::session::arena::DEFAULT_MAX_ARENA_SIZE), "(i32.const 8388608)");
}
