use tension_core::session::arena::{
    layout_hash, CALLBACKS_SIZE, CLASS_COUNT, DEFAULT_RING_CAPACITIES, EVENT_RECORD_SIZE,
    JOB_OFFSET, JOB_SIZE, LAYOUT_FLOOR as FLOOR, REGION_COUNT, REGION_JOB,
};
use tension_core::session::config::{
    check_arena_relation, check_callbacks, check_layout_fit, check_ring_capacities, decode,
    encode, validate, validate_with_regions, ConfigError, RegionNeed, SessionConfig,
    KEY_ABI_VERSION, KEY_ARENA_SIZE, KEY_CALLBACKS_LEN, KEY_CALLBACKS_PTR, KEY_LAYOUT_HASH,
    KEY_MAX_ARENA_SIZE, KEY_RING_CAPACITY_BASE, RING_RECORD_STRIDE, TAG_I64,
};
use tension_core::session::EINVAL;

/// Encode one entry: key, the i64 tag, the value.
fn entry(key: u32, value: i64) -> Vec<u8> {
    let mut out = Vec::new();
    out.extend_from_slice(&key.to_le_bytes());
    out.push(TAG_I64);
    out.extend_from_slice(&value.to_le_bytes());
    out
}

/// Encode a whole stream with the library's writer.
fn enc(entries: &[(u32, i64)]) -> Vec<u8> {
    encode(entries)
}

/// A complete, valid stream: the smallest legal arena, the default
/// callbacks record in the guest's heap.
fn good() -> Vec<(u32, i64)> {
    let floor = FLOOR as i64;
    let ceiling = 8 * 1024 * 1024i64;
    vec![
        (KEY_ABI_VERSION, 1),
        (KEY_LAYOUT_HASH, layout_hash() as i64),
        (KEY_ARENA_SIZE, floor),
        (KEY_MAX_ARENA_SIZE, ceiling),
        (KEY_CALLBACKS_PTR, ceiling),
        (KEY_CALLBACKS_LEN, CALLBACKS_SIZE as i64),
    ]
}

fn decode_good() -> SessionConfig {
    decode(&enc(&good())).expect("a valid stream decodes")
}

#[test]
fn every_key_decodes() {
    let mut entries = good();
    entries.push((KEY_RING_CAPACITY_BASE + 4, 512));
    let config = decode(&enc(&entries)).expect("decodes");

    assert_eq!(config.abi_version, 1);
    assert_eq!(config.layout_hash, layout_hash());
    assert_eq!(config.arena_size, FLOOR as u32);
    assert_eq!(config.max_arena_size, 8 * 1024 * 1024);
    assert_eq!(config.callbacks_ptr, 8 * 1024 * 1024);
    assert_eq!(config.callbacks_len, CALLBACKS_SIZE as u32);
    // The stated class takes its value; the rest default.
    assert_eq!(config.ring_capacities[4], 512);
    assert!(config.ring_stated[4]);
    for class in 0..CLASS_COUNT {
        if class != 4 {
            assert_eq!(config.ring_capacities[class], DEFAULT_RING_CAPACITIES[class]);
            assert!(!config.ring_stated[class]);
        }
    }
}

#[test]
fn a_valid_stream_passes_every_check() {
    let config = decode_good();
    assert_eq!(validate(&config, 1, layout_hash()), Ok(()));
}

#[test]
fn missing_required_keys_are_named() {
    for missing in [
        KEY_ABI_VERSION,
        KEY_LAYOUT_HASH,
        KEY_ARENA_SIZE,
        KEY_MAX_ARENA_SIZE,
        KEY_CALLBACKS_PTR,
        KEY_CALLBACKS_LEN,
    ] {
        let entries: Vec<(u32, i64)> = good()
            .into_iter()
            .filter(|(key, _)| *key != missing)
            .collect();
        let error = decode(&enc(&entries)).expect_err("refused");
        if missing == KEY_ABI_VERSION {
            // Dropping the first entry leaves another key at the head, so
            // the stream is refused for the ordering rule rather than for
            // an absence — the first thing a reader checks.
            assert_eq!(error, ConfigError::AbiVersionNotFirst);
        } else {
            assert!(
                matches!(error, ConfigError::MissingKey(_)),
                "key {missing}: {error:?}"
            );
        }
        assert_eq!(error.errno(), EINVAL);
    }
}

#[test]
fn abi_version_must_be_first() {
    let mut entries = good();
    entries.swap(0, 1); // layout_hash first
    assert_eq!(decode(&enc(&entries)), Err(ConfigError::AbiVersionNotFirst));
    assert_eq!(
        decode(&enc(&entries)).expect_err("refused").errno(),
        EINVAL
    );

    // A stream with no entries at all has no `abi_version`, which is a
    // missing required key rather than a malformed stream.
    assert_eq!(decode(&enc(&[])), Err(ConfigError::MissingKey("abi_version")));
}

#[test]
fn an_unknown_key_is_ignored() {
    let mut entries = good();
    entries.push((0x0BAD, 1234)); // not a key this build knows
    let config = decode(&enc(&entries)).expect("an unknown key does not refuse");
    assert_eq!(config, decode_good());
}

#[test]
fn an_unknown_ring_class_is_refused() {
    let mut entries = good();
    entries.push((KEY_RING_CAPACITY_BASE + 12, 16));
    let error = decode(&enc(&entries)).expect_err("ring_capacity_12 is refused");
    assert_eq!(error, ConfigError::RingCapacity { class: 12 });
    assert_eq!(error.errno(), EINVAL);

    // The last valid class is accepted.
    let mut entries = good();
    entries.push((KEY_RING_CAPACITY_BASE + (CLASS_COUNT as u32 - 1), 16));
    assert!(decode(&enc(&entries)).is_ok());
}

#[test]
fn malformed_streams_are_refused() {
    // A lying entry count with nothing behind it.
    let mut lying = u32::MAX.to_le_bytes().to_vec();
    lying.extend_from_slice(&entry(KEY_ABI_VERSION, 1));
    assert!(matches!(decode(&lying), Err(ConfigError::Malformed(_))));

    // An unknown tag.
    let mut bad_tag = Vec::new();
    bad_tag.extend_from_slice(&1u32.to_le_bytes());
    bad_tag.extend_from_slice(&KEY_ABI_VERSION.to_le_bytes());
    bad_tag.push(9);
    bad_tag.extend_from_slice(&1i64.to_le_bytes());
    assert!(matches!(decode(&bad_tag), Err(ConfigError::Malformed(_))));

    // A value that does not fit its u32 carrier.
    let bad_value = enc(&[(KEY_ABI_VERSION, 1i64 << 32)]);
    assert!(matches!(decode(&bad_value), Err(ConfigError::ValueOutOfRange(_))));

    // Trailing bytes.
    let mut trailing = enc(&good());
    trailing.push(0xAB);
    assert!(matches!(decode(&trailing), Err(ConfigError::Malformed(_))));

    // A stream cut mid-entry.
    let full = enc(&good());
    for cut in [0, 1, 4, 5, 9, full.len() - 1] {
        assert!(decode(&full[..cut]).is_err(), "cut at {cut} must refuse");
    }
}

#[test]
fn a_duplicate_key_takes_its_last_value() {
    let mut entries = good();
    entries.push((KEY_ARENA_SIZE, FLOOR as i64 + 4096));
    let config = decode(&enc(&entries)).expect("decodes");
    assert_eq!(config.arena_size, FLOOR as u32 + 4096);
}

#[test]
fn abi_version_mismatch_is_named_with_both_numbers() {
    let config = decode_good();
    assert_eq!(
        validate(&config, 2, layout_hash()),
        Err(ConfigError::AbiVersion { guest: 1, session: 2 })
    );
}

#[test]
fn layout_hash_mismatch_is_named_with_both_numbers() {
    let config = decode_good();
    assert_eq!(
        validate(&config, 1, 0xDEAD_BEEF),
        Err(ConfigError::LayoutHash {
            guest: layout_hash(),
            session: 0xDEAD_BEEF
        })
    );
}

#[test]
fn c1_refuses_the_arena_relation() {
    let mut config = decode_good();
    config.arena_size = 0;
    assert!(matches!(check_arena_relation(&config), Err(ConfigError::ArenaRelation(_))));

    let mut config = decode_good();
    config.arena_size = config.max_arena_size + 16;
    assert!(matches!(check_arena_relation(&config), Err(ConfigError::ArenaRelation(_))));

    let mut config = decode_good();
    config.arena_size = FLOOR as u32 + 1; // not 16-aligned
    assert!(matches!(check_arena_relation(&config), Err(ConfigError::ArenaRelation(_))));
}

#[test]
fn c4_refuses_an_arena_below_the_frozen_layout() {
    let mut config = decode_good();
    config.arena_size = (FLOOR as u32) - 16;
    assert_eq!(
        check_layout_fit(&config),
        Err(ConfigError::LayoutFit { need: FLOOR as u64, have: FLOOR as u32 - 16 })
    );
}

#[test]
fn ring_capacities_must_be_nonzero_and_fit() {
    let mut config = decode_good();
    config.ring_capacities[3] = 0;
    assert_eq!(
        check_ring_capacities(&config),
        Err(ConfigError::RingCapacity { class: 3 })
    );

    // Capacities that cannot fit the fixed region.
    let mut config = decode_good();
    for capacity in config.ring_capacities.iter_mut() {
        *capacity = 100_000;
    }
    assert!(matches!(
        check_ring_capacities(&config),
        Err(ConfigError::RingTableFit { .. })
    ));
}

#[test]
fn the_callback_range_check_rejects_a_pointer_below_the_band() {
    let mut config = decode_good();
    config.callbacks_ptr = config.max_arena_size - 4;
    assert!(matches!(check_callbacks(&config), Err(ConfigError::Callbacks(_))));

    // Alignment.
    let mut config = decode_good();
    config.callbacks_ptr += 2;
    assert!(matches!(check_callbacks(&config), Err(ConfigError::Callbacks(_))));

    // Length.
    let mut config = decode_good();
    config.callbacks_len = CALLBACKS_SIZE as u32 - 1;
    assert!(matches!(check_callbacks(&config), Err(ConfigError::Callbacks(_))));
}

#[test]
fn the_first_failure_wins_and_later_checks_do_not_run() {
    let mut config = decode_good();
    // Everything is wrong at once: a mismatched ABI, a mismatched hash, an
    // impossible arena and callbacks.
    config.arena_size = 0;
    config.callbacks_ptr = 0;
    assert!(matches!(
        validate(&config, 2, 0xDEAD_BEEF),
        Err(ConfigError::AbiVersion { .. })
    ));

    // With the ABI right, the hash is next.
    config.abi_version = 2;
    assert!(matches!(
        validate(&config, 2, 0xDEAD_BEEF),
        Err(ConfigError::LayoutHash { .. })
    ));

    // With the hash right, C1 fires before C4 and the callbacks.
    config.layout_hash = layout_hash();
    assert!(matches!(
        validate(&config, 2, layout_hash()),
        Err(ConfigError::ArenaRelation(_))
    ));

    // With the sizes sane, C4 fires before the callbacks.
    config.arena_size = 16;
    config.max_arena_size = 16;
    assert!(matches!(
        validate(&config, 2, layout_hash()),
        Err(ConfigError::LayoutFit { .. })
    ));

    // With the layout fitting, the callbacks are the last word.
    config.arena_size = FLOOR as u32;
    config.max_arena_size = FLOOR as u32;
    config.callbacks_ptr = 0;
    assert!(matches!(
        validate(&config, 2, layout_hash()),
        Err(ConfigError::Callbacks(_))
    ));
}

#[test]
fn the_ring_stride_is_the_event_record_size() {
    assert_eq!(RING_RECORD_STRIDE, EVENT_RECORD_SIZE);
}

// ── §7.2: the regions the loaded capabilities declared ────────────────


/// One capability ("echo") declaring one region kind.
fn need(kind: u32) -> RegionNeed {
    RegionNeed {
        kind,
        adapter: "echo".to_string(),
    }
}

#[test]
fn an_empty_required_set_is_the_plain_validate() {
    let config = decode_good();
    assert_eq!(
        validate_with_regions(&config, 1, layout_hash(), &[]),
        Ok(())
    );
}

#[test]
fn a_required_region_past_the_arena_is_refused_with_its_name() {
    let mut config = decode_good();
    // The live arena ends one alignment unit before JOB does: the region an
    // adapter cached at link time would be half-writable.
    config.arena_size = (JOB_OFFSET + JOB_SIZE - 16) as u32;
    let error = validate_with_regions(&config, 1, layout_hash(), &[need(REGION_JOB)])
        .expect_err("a truncated region is refused");
    assert_eq!(
        error,
        ConfigError::RegionTruncated {
            kind: REGION_JOB,
            adapter: "echo".to_string(),
            need: (JOB_OFFSET + JOB_SIZE) as u64,
            have: (JOB_OFFSET + JOB_SIZE - 16) as u32,
        }
    );
    let text = error.message();
    assert!(text.contains("JOB"), "names the region: {text}");
    assert!(text.contains("echo"), "names the adapter: {text}");
}

#[test]
fn a_required_region_is_checked_before_the_layout_floor() {
    // The same arena is below the floor too, so this pins the *order*: the
    // capability-shaped refusal is the one the guest hears.
    let mut config = decode_good();
    config.arena_size = 4096;
    assert!(config.arena_size < FLOOR as u32, "the case needs both faults");
    assert!(matches!(
        validate_with_regions(&config, 1, layout_hash(), &[need(REGION_JOB)]),
        Err(ConfigError::RegionTruncated { .. })
    ));
    assert!(matches!(
        validate_with_regions(&config, 1, layout_hash(), &[]),
        Err(ConfigError::LayoutFit { .. })
    ));
}

#[test]
fn a_region_kind_this_layout_does_not_define_is_refused() {
    let config = decode_good();
    let error = validate_with_regions(&config, 1, layout_hash(), &[need(REGION_COUNT as u32)])
        .expect_err("an unknown kind is refused");
    assert_eq!(
        error,
        ConfigError::UnknownRegion {
            kind: REGION_COUNT as u32,
            adapter: "echo".to_string(),
        }
    );
    assert!(error.message().contains("12"));
}

#[test]
fn a_region_a_later_capability_declares_is_still_from_this_table() {
    // Every kind the check accepts has an offset the adapter was handed at
    // link time; kinds it refuses were refused there too (`-ENOENT`).
    let config = decode_good();
    for kind in 0..REGION_COUNT as u32 {
        assert_eq!(
            validate_with_regions(&config, 1, layout_hash(), &[need(kind)]),
            Ok(()),
            "kind {kind} fits the smallest legal arena"
        );
    }
}

// ── §6.1: the callbacks record may be absent ───────────────────────────

#[test]
fn an_absent_callbacks_record_is_legal() {
    let mut config = decode_good();
    config.callbacks_ptr = 0;
    config.callbacks_len = 0;
    assert_eq!(validate(&config, 1, layout_hash()), Ok(()));
}

#[test]
fn a_pointer_without_a_length_is_refused() {
    let mut config = decode_good();
    config.callbacks_len = 0;
    // The pointer says a record is there; the length says it is not.
    assert!(matches!(
        validate(&config, 1, layout_hash()),
        Err(ConfigError::Callbacks(_))
    ));
}

#[test]
fn a_length_without_a_pointer_is_refused() {
    let mut config = decode_good();
    config.callbacks_ptr = 0;
    assert!(matches!(
        validate(&config, 1, layout_hash()),
        Err(ConfigError::Callbacks(_))
    ));
}

#[test]
fn a_callbacks_length_that_is_neither_absent_nor_the_record_is_refused() {
    let mut config = decode_good();
    config.callbacks_len = 8;
    assert!(matches!(
        validate(&config, 1, layout_hash()),
        Err(ConfigError::Callbacks(_))
    ));
}
