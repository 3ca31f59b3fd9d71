use tension_core::session::arena::{
    control_magic, control_region_count, control_state, layout_hash, ring_header, ring_offset,
    CallbacksRecord, ABI_VERSION, CALLBACKS_SIZE, CLASS_COUNT, CONTROL_OFFSET,
    CONTROL_SESSION_NONCE, CONTROL_TOTAL_SIZE, DEFAULT_MAX_ARENA_SIZE, DEFAULT_RING_CAPACITIES,
    EVENT_RECORD_SIZE, LAYOUT_FLOOR, MAGIC, REGION_COUNT, SESSION_INFO_ARENA_SIZE,
    SESSION_INFO_MAX_ARENA_SIZE, SESSION_INFO_OFFSET, SESSION_INFO_OPEN_NONCE, STATE_CLOSED,
    STATE_FAULTED, STATE_READY, STATE_UNINIT,
};
use tension_core::session::config::{self, ConfigError};
use tension_core::session::{
    plan_memory, MemoryImport, ResolvedCallbacks, Session, SessionError, SessionState, EBADF,
    EBUSY, EINVAL, WASM_PAGE_BYTES,
};

/// The nonce the tests open with: any non-zero value is a legal one.
const NONCE: u64 = 0x1234_5678_9ABC_DEF1;

#[test]
fn test_state_values_match_the_arena_constants() {
    assert_eq!(SessionState::Uninit as u32, STATE_UNINIT);
    assert_eq!(SessionState::Ready as u32, STATE_READY);
    assert_eq!(SessionState::Faulted as u32, STATE_FAULTED);
    assert_eq!(SessionState::Closed as u32, STATE_CLOSED);
}

/// A guest in the shape the design assumes: `env::memory`, 132 pages
/// declared, a 4096-page maximum.
fn guest_import() -> MemoryImport {
    MemoryImport {
        module: "env".to_string(),
        name: "memory".to_string(),
        shared: false,
        minimum: 132,
        maximum: Some(4096),
    }
}

/// A session whose arena is prepared, and the memory it is prepared in.
fn setup() -> (Session, Vec<u8>) {
    let plan = plan_memory(&[guest_import()]).expect("a plan");
    let mut session = Session::new(plan);
    let mut memory = vec![0u8; plan.declared_min_pages as usize * WASM_PAGE_BYTES];
    session.prepare_arena(&mut memory).expect("prepare");
    (session, memory)
}

fn config_entries(callbacks_ptr: u32) -> Vec<(u32, i64)> {
    vec![
        (config::KEY_ABI_VERSION, ABI_VERSION as i64),
        (config::KEY_LAYOUT_HASH, layout_hash() as i64),
        (config::KEY_ARENA_SIZE, LAYOUT_FLOOR as i64),
        (config::KEY_MAX_ARENA_SIZE, DEFAULT_MAX_ARENA_SIZE as i64),
        (config::KEY_CALLBACKS_PTR, callbacks_ptr as i64),
        (config::KEY_CALLBACKS_LEN, CALLBACKS_SIZE as i64),
    ]
}

fn cfg() -> Vec<u8> {
    config::encode(&config_entries(DEFAULT_MAX_ARENA_SIZE as u32))
}

fn no_callbacks() -> CallbacksRecord {
    CallbacksRecord { abi_version: ABI_VERSION, slot_count: 0, flags: 0, on_batch: 0, on_event: 0 }
}

fn open_bytes(
    session: &mut Session,
    memory: &mut [u8],
    bytes: &[u8],
    callbacks: &CallbacksRecord,
) -> Result<(), SessionError> {
    let decoded = config::decode(bytes).map_err(SessionError::Config)?;
    session.apply_open(memory, &decoded, callbacks, ResolvedCallbacks::default(), NONCE)
}

fn open(session: &mut Session, memory: &mut [u8], callbacks: &CallbacksRecord) -> Result<(), SessionError> {
    open_bytes(session, memory, &cfg(), callbacks)
}

fn word(bytes: &[u8], at: usize) -> u32 {
    u32::from_le_bytes(bytes[at..at + 4].try_into().expect("four bytes"))
}

fn double_word(bytes: &[u8], at: usize) -> u64 {
    u64::from_le_bytes(bytes[at..at + 8].try_into().expect("eight bytes"))
}

#[test]
fn test_open_requires_uninit_state() {
    let (mut session, mut memory) = setup();
    let callbacks = no_callbacks();
    open(&mut session, &mut memory, &callbacks).expect("the first open succeeds");
    assert_eq!(session.state(), SessionState::Ready);

    let error = open(&mut session, &mut memory, &callbacks).expect_err("a second open is refused");
    assert!(matches!(error, SessionError::NotUninit { state: SessionState::Ready }));
    assert_eq!(error.errno(), EBUSY);
}

#[test]
fn test_open_refuses_faulted() {
    let (mut session, mut memory) = setup();
    session.fault();
    let error = open(&mut session, &mut memory, &no_callbacks()).expect_err("faulted open");
    assert_eq!(error.errno(), EBUSY);
    assert_eq!(session.state(), SessionState::Faulted);
}

#[test]
fn test_open_after_close_succeeds() {
    let (mut session, mut memory) = setup();
    let callbacks = no_callbacks();
    open(&mut session, &mut memory, &callbacks).expect("open");
    session.close(&mut memory).expect("close");
    assert_eq!(session.state(), SessionState::Closed);
    open(&mut session, &mut memory, &callbacks).expect("a closed session opens again");
    assert_eq!(session.state(), SessionState::Ready);
}

#[test]
fn test_open_decodes_config_and_transitions() {
    let (mut session, mut memory) = setup();
    open(&mut session, &mut memory, &no_callbacks()).expect("open");

    assert_eq!(session.state(), SessionState::Ready);
    assert_eq!(session.arena_size(), LAYOUT_FLOOR as u32);
    assert_eq!(session.max_arena_size(), DEFAULT_MAX_ARENA_SIZE as u32);

    assert_eq!(control_state(&memory), STATE_READY);
    assert_eq!(control_region_count(&memory), REGION_COUNT as u32);
    assert_eq!(word(&memory, CONTROL_OFFSET + CONTROL_TOTAL_SIZE), DEFAULT_MAX_ARENA_SIZE as u32);
    assert_eq!(
        word(&memory, SESSION_INFO_OFFSET + SESSION_INFO_MAX_ARENA_SIZE),
        DEFAULT_MAX_ARENA_SIZE as u32
    );
    assert_eq!(word(&memory, SESSION_INFO_OFFSET + SESSION_INFO_ARENA_SIZE), LAYOUT_FLOOR as u32);
    assert_ne!(double_word(&memory, SESSION_INFO_OFFSET + SESSION_INFO_OPEN_NONCE), 0);
    assert_eq!(
        double_word(&memory, CONTROL_OFFSET + CONTROL_SESSION_NONCE),
        double_word(&memory, SESSION_INFO_OFFSET + SESSION_INFO_OPEN_NONCE),
        "the two copies of the nonce agree"
    );
}

#[test]
fn test_open_refuses_bad_abi() {
    let (mut session, mut memory) = setup();
    let mut entries = config_entries(DEFAULT_MAX_ARENA_SIZE as u32);
    entries[0].1 = 2;
    let error = open_bytes(&mut session, &mut memory, &config::encode(&entries), &no_callbacks())
        .expect_err("a wrong ABI version is refused");
    assert!(matches!(error, SessionError::Config(ConfigError::AbiVersion { .. })));
    assert_eq!(error.errno(), EINVAL);
    assert_eq!(session.state(), SessionState::Uninit, "no transition on refusal");
}

#[test]
fn test_open_refuses_bad_layout_hash() {
    let (mut session, mut memory) = setup();
    let mut entries = config_entries(DEFAULT_MAX_ARENA_SIZE as u32);
    entries[1].1 = 0xDEAD_BEEF;
    let error = open_bytes(&mut session, &mut memory, &config::encode(&entries), &no_callbacks())
        .expect_err("a wrong layout hash is refused");
    match &error {
        SessionError::Config(ConfigError::LayoutHash { guest, session }) => {
            assert_eq!(*guest, 0xDEAD_BEEF);
            assert_eq!(*session, layout_hash());
        }
        other => panic!("expected a layout-hash refusal, got {other:?}"),
    }
    assert_eq!(error.errno(), EINVAL);
    let message = error.message();
    assert!(message.contains("layout_hash"), "{message}");
    assert!(message.contains("deadbeef"), "{message}");
}

#[test]
fn test_open_refuses_c1_relation() {
    let (mut session, mut memory) = setup();
    let mut entries = config_entries(DEFAULT_MAX_ARENA_SIZE as u32);
    entries[2].1 = DEFAULT_MAX_ARENA_SIZE as i64 + 16;
    let error = open_bytes(&mut session, &mut memory, &config::encode(&entries), &no_callbacks())
        .expect_err("an arena above its ceiling is refused");
    assert!(matches!(error, SessionError::Config(ConfigError::ArenaRelation(_))));
    assert_eq!(error.errno(), EINVAL);
}

#[test]
fn test_open_refuses_callbacks_in_arena() {
    let (mut session, mut memory) = setup();
    let entries = config_entries(0);
    let error = open_bytes(&mut session, &mut memory, &config::encode(&entries), &no_callbacks())
        .expect_err("a callbacks pointer inside the arena is refused");
    assert!(matches!(error, SessionError::Config(ConfigError::Callbacks(_))));
    assert_eq!(error.errno(), EINVAL);
}

#[test]
fn test_open_refuses_callbacks_wrong_length() {
    let (mut session, mut memory) = setup();
    let mut entries = config_entries(DEFAULT_MAX_ARENA_SIZE as u32);
    entries[5].1 = CALLBACKS_SIZE as i64 - 1;
    let error = open_bytes(&mut session, &mut memory, &config::encode(&entries), &no_callbacks())
        .expect_err("a callbacks_len that is not the record's size is refused");
    assert!(matches!(error, SessionError::Config(ConfigError::Callbacks(_))));
}

#[test]
fn test_open_writes_ring_headers() {
    let (mut session, mut memory) = setup();
    open(&mut session, &mut memory, &no_callbacks()).expect("open");
    let capacities = DEFAULT_RING_CAPACITIES;
    for class in 0..CLASS_COUNT {
        let header = ring_header(&memory, ring_offset(&capacities, class));
        assert_eq!(header.capacity, capacities[class], "class {class} capacity");
        assert_eq!(header.stride, EVENT_RECORD_SIZE as u32, "class {class} stride");
        assert_eq!(header.head, 0, "class {class} starts empty");
        assert_eq!(header.tail, 0, "class {class} starts empty");
        assert_eq!(header.generation, 0, "class {class}");
        assert_eq!(header.dropped, 0, "class {class}");
        assert_eq!(header.delivered, 0, "class {class}");
    }
}

#[test]
fn test_open_overrides_ring_capacities() {
    let (mut session, mut memory) = setup();
    let mut entries = config_entries(DEFAULT_MAX_ARENA_SIZE as u32);
    entries.push((config::KEY_RING_CAPACITY_BASE + 3, 128));
    let bytes = config::encode(&entries);
    open_bytes(&mut session, &mut memory, &bytes, &no_callbacks()).expect("open");

    let decoded = config::decode(&bytes).expect("decode");
    assert_eq!(decoded.ring_capacities[3], 128);
    assert!(decoded.ring_stated[3]);
    let overridden = ring_header(&memory, ring_offset(&decoded.ring_capacities, 3));
    assert_eq!(overridden.capacity, 128, "the stated capacity is the one written");
    let defaulted = ring_header(&memory, ring_offset(&decoded.ring_capacities, 4));
    assert_eq!(defaulted.capacity, DEFAULT_RING_CAPACITIES[4]);
}

#[test]
fn test_close_idempotent() {
    let (mut session, mut memory) = setup();
    open(&mut session, &mut memory, &no_callbacks()).expect("open");
    session.close(&mut memory).expect("close");
    assert_eq!(session.state(), SessionState::Closed);
    session.close(&mut memory).expect("closing twice is not an error");
    assert_eq!(session.state(), SessionState::Closed);
    assert_eq!(control_state(&memory), STATE_CLOSED);
    assert_eq!(control_magic(&memory), MAGIC);
}

#[test]
fn test_close_from_uninit() {
    let (mut session, mut memory) = setup();
    assert_eq!(session.state(), SessionState::Uninit);
    session.close(&mut memory).expect("a close before any open is allowed");
    assert_eq!(session.state(), SessionState::Closed);
}

#[test]
fn test_verb_before_open_returns_ebadf() {
    let (mut session, mut memory) = setup();
    assert_eq!(session.require_ready(), EBADF);
    session.close(&mut memory).expect("close from UNINIT");
    assert_eq!(session.require_ready(), EBADF, "CLOSED is not READY");
    open(&mut session, &mut memory, &no_callbacks()).expect("open");
    assert_eq!(session.require_ready(), 0);
}

#[test]
fn test_verify_post_instantiate_happy_path_and_corruption() {
    let (session, mut memory) = setup();
    session.verify_post_instantiate(&memory).expect("a fresh arena verifies");

    // A data segment landing inside the region band.
    memory[0x2000 + 5] = 7;
    let error = session.verify_post_instantiate(&memory).expect_err("the band is not zero");
    assert!(matches!(error, SessionError::BandNotZero { offset } if offset == 0x2005));
    memory[0x2000 + 5] = 0;

    // A canary overwritten in the reserved gap.
    memory[LAYOUT_FLOOR + 3] ^= 1;
    let error = session.verify_post_instantiate(&memory).expect_err("the lattice is broken");
    assert!(matches!(error, SessionError::Canary { offset, .. } if offset == LAYOUT_FLOOR));
    assert!(error.message().contains("canary"), "{}", error.message());
}

#[test]
fn test_create_refuses_a_foreign_import_name_and_a_cap_below_minimum() {
    let mut foreign = guest_import();
    foreign.module = "other".to_string();
    assert!(matches!(plan_memory(&[foreign]), Err(SessionError::MemoryImportName { .. })));
    assert!(matches!(plan_memory(&[]), Err(SessionError::NoMemoryImport)));
    assert!(matches!(
        plan_memory(&[guest_import(), guest_import()]),
        Err(SessionError::MultipleMemoryImports)
    ));
    let mut greedy = guest_import();
    greedy.minimum = 2048;
    greedy.maximum = None;
    assert!(matches!(
        plan_memory(&[greedy]),
        Err(SessionError::CapBelowMinimum { min: 2048, cap: 1024 })
    ));
    let mut uncapped = guest_import();
    uncapped.maximum = None;
    assert_eq!(plan_memory(&[uncapped]).expect("plan").max_pages, 1024);
}
