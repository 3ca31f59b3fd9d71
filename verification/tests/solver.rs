use tension_core::solver::config::{decode_wire, ConfigError, DecodedConfig, MAGIC};
use tension_core::solver::probe::config_source_is_wasm;

#[test]
fn probe_reads_the_source_member() {
    // accepts
    assert!(config_source_is_wasm(br#"{"method":"euler","source":"wasm","dim":1}"#));
    assert!(config_source_is_wasm(br#"{ "source" : "wasm" }"#));
    assert!(config_source_is_wasm(
        br#"{"parameters":{"relTol":1e-6},"method":"rk45","source":"wasm","dim":3}"#
    ));
    assert!(config_source_is_wasm(
        br#"{"description":"source: wasm","method":"euler","source":"wasm","dim":2,"dt":0.016}"#
    ));
    // refuses
    assert!(!config_source_is_wasm(br#"{"source":"native","dim":1}"#));
    assert!(!config_source_is_wasm(br#"{"method":"euler","dim":1}"#));
    assert!(!config_source_is_wasm(br#"{"source":"wasmish"}"#));
    assert!(!config_source_is_wasm(br#"{}"#));
    assert!(!config_source_is_wasm(br#"not json at all"#));
    // a decoy inside a free-text member must not fool it
    assert!(!config_source_is_wasm(
        br#"{"method":"euler","source":"native","dim":1,"description":"use \"source\":\"wasm\" here"}"#
    ));
    // \uXXXX is outside the escape subset, so the probe refuses it.
    assert!(!config_source_is_wasm(br#"{"source":"wa\u0073m"}"#));
}

#[test]
fn the_probe_walks_arrays_literals_and_escapes_before_the_source() {
    assert!(config_source_is_wasm(
        br#"{"t":true,"f":false,"n":null,"x":-1.5e3,"s":"x\"y","p":{"q":{}},"source":"wasm"}"#
    ));
    // An array is outside the subset: its bare token stops at the first
    // comma, and what follows is not a member.
    assert!(!config_source_is_wasm(br#"{"a":[1,2],"source":"wasm"}"#));
    // The answer comes at the member itself: the rest is not read.
    assert!(config_source_is_wasm(br#"{"source":"wasm""#));
    assert!(!config_source_is_wasm(b""));
    assert!(!config_source_is_wasm(br#"["source","wasm"]"#));
}

/// A blob as the framework writes it: the header, one slot per stated
/// parameter in bit order, then the string table.
struct Blob<'a> {
    method: &'a str,
    source: &'a str,
    description: Option<&'a str>,
    world: Option<&'a str>,
    dim: u32,
    params: Vec<(u32, u64)>,
}

impl<'a> Blob<'a> {
    fn new(method: &'a str, source: &'a str) -> Blob<'a> {
        Blob { method, source, description: None, world: None, dim: 0, params: Vec::new() }
    }

    fn bytes(&self) -> Vec<u8> {
        let mut params = self.params.clone();
        params.sort_by_key(|p| p.0);
        let bitmap: u32 = params.iter().map(|p| 1u32 << p.0).sum();
        let table_start = 64 + 8 * params.len();
        let mut table = Vec::new();
        let mut place = |text: Option<&str>| -> (u32, u32) {
            match text {
                Some(t) => {
                    let ptr = (table_start + table.len()) as u32;
                    table.extend_from_slice(&(t.len() as u32).to_le_bytes());
                    table.extend_from_slice(t.as_bytes());
                    (ptr, t.len() as u32)
                }
                None => (0, 0),
            }
        };
        let method = place(Some(self.method).filter(|m| !m.is_empty()));
        let source = place(Some(self.source).filter(|s| !s.is_empty()));
        let description = place(self.description);
        let world = place(self.world);
        let mut out = Vec::new();
        out.extend_from_slice(&MAGIC);
        out.extend_from_slice(&1u16.to_le_bytes());
        out.extend_from_slice(&1u16.to_le_bytes());
        for (ptr, len) in [method, source, description] {
            out.extend_from_slice(&ptr.to_le_bytes());
            out.extend_from_slice(&len.to_le_bytes());
        }
        out.extend_from_slice(&self.dim.to_le_bytes());
        out.extend_from_slice(&(if bitmap == 0 { 0u32 } else { 64 }).to_le_bytes());
        out.extend_from_slice(&bitmap.to_le_bytes());
        out.extend_from_slice(&world.0.to_le_bytes());
        out.extend_from_slice(&world.1.to_le_bytes());
        out.extend_from_slice(&[0u8; 8]);
        assert_eq!(out.len(), 64);
        for (_, raw) in &params {
            out.extend_from_slice(&raw.to_le_bytes());
        }
        out.extend_from_slice(&table);
        out
    }
}

#[test]
fn a_full_blob_decodes_field_for_field() {
    let mut blob = Blob::new("rk45", "wasm");
    blob.description = Some("a damped oscillator");
    blob.dim = 3;
    blob.params = vec![(0, 1e-6f64.to_bits()), (5, 20), (8, 0.5f64.to_bits())];
    let decoded = decode_wire(&blob.bytes()).expect("a valid blob");
    assert_eq!(
        decoded,
        DecodedConfig {
            method: "rk45".to_string(),
            source: "wasm".to_string(),
            description: Some("a damped oscillator".to_string()),
            dim: 3,
            rel_tol: Some(1e-6f64.to_bits()),
            iterations: Some(20),
            relaxation: Some(0.5f64.to_bits()),
            ..DecodedConfig::default()
        }
    );
    assert_eq!(decoded.parameters_bitmap(), 0b1_0010_0001);
}

#[test]
fn a_world_source_carries_its_text_and_no_dim() {
    let mut blob = Blob::new("euler", "world");
    blob.world = Some("dimensions: 2\ncomponents: []\n");
    let decoded = decode_wire(&blob.bytes()).expect("a world blob");
    assert_eq!(decoded.world.as_deref(), Some("dimensions: 2\ncomponents: []\n"));
    assert_eq!(decoded.dim, 0);
    assert_eq!(decoded.parameters_bitmap(), 0);

    blob.dim = 4;
    assert_eq!(decode_wire(&blob.bytes()), Err(ConfigError::WorldStatesDim(4)));
    blob.dim = 0;
    blob.world = None;
    assert_eq!(decode_wire(&blob.bytes()), Err(ConfigError::WorldTextMissing));

    let mut other = Blob::new("euler", "wasm");
    other.world = Some("components: []");
    assert_eq!(decode_wire(&other.bytes()), Err(ConfigError::WorldOnNonWorldSource));
}

#[test]
fn every_header_refusal_is_named() {
    let good = Blob::new("euler", "wasm").bytes();
    assert!(decode_wire(&good).is_ok());

    assert_eq!(decode_wire(&good[..10]), Err(ConfigError::TooShort { len: 10 }));

    let mut bad = good.clone();
    bad[0] = b'X';
    assert_eq!(decode_wire(&bad), Err(ConfigError::BadMagic));

    let mut bad = good.clone();
    bad[8] = 2;
    assert_eq!(decode_wire(&bad), Err(ConfigError::UnknownFormatVersion(2)));

    let mut bad = good.clone();
    bad[10] = 7;
    assert_eq!(decode_wire(&bad), Err(ConfigError::UnknownSchemaVersion(7)));

    let mut bad = good.clone();
    bad[60] = 1;
    assert_eq!(decode_wire(&bad), Err(ConfigError::ReservedNotZero));

    assert_eq!(decode_wire(&Blob::new("", "wasm").bytes()), Err(ConfigError::EmptyMethod));
    assert_eq!(decode_wire(&Blob::new("euler", "").bytes()), Err(ConfigError::EmptySource));

    let mut bad = good.clone();
    bad[44..48].copy_from_slice(&0x200u32.to_le_bytes());
    assert_eq!(decode_wire(&bad), Err(ConfigError::ReservedParameterBits(0x200)));

    let mut bad = good.clone();
    bad[40..44].copy_from_slice(&64u32.to_le_bytes());
    assert_eq!(decode_wire(&bad), Err(ConfigError::BadParametersOffset(64)));
}

#[test]
fn the_parameter_block_and_the_string_walk_are_checked() {
    // A bitmap whose block runs past the blob.
    let mut header_only = Blob::new("euler", "wasm").bytes();
    header_only.truncate(64);
    header_only[12..20].copy_from_slice(&[64, 0, 0, 0, 1, 0, 0, 0]);
    header_only[20..28].copy_from_slice(&[64, 0, 0, 0, 1, 0, 0, 0]);
    header_only[40..44].copy_from_slice(&64u32.to_le_bytes());
    header_only[44..48].copy_from_slice(&1u32.to_le_bytes());
    assert_eq!(
        decode_wire(&header_only),
        Err(ConfigError::OutOfBounds { field: "parameters block" })
    );

    // The iterations slot is a u32.
    let mut blob = Blob::new("euler", "wasm");
    blob.params = vec![(5, 1u64 << 32)];
    assert_eq!(
        decode_wire(&blob.bytes()),
        Err(ConfigError::IterationsUpperBits { slot: 1u64 << 32 })
    );

    // An entry that is not where the walk is.
    let mut bad = Blob::new("euler", "wasm").bytes();
    bad[20..24].copy_from_slice(&999u32.to_le_bytes());
    assert_eq!(decode_wire(&bad), Err(ConfigError::BadStringEntry { field: "source" }));

    // A prefix that disagrees with the header's length.
    let mut bad = Blob::new("euler", "wasm").bytes();
    bad[64] = 4;
    assert_eq!(decode_wire(&bad), Err(ConfigError::BadStringEntry { field: "method" }));

    // Bytes that are not UTF-8.
    let mut bad = Blob::new("euler", "wasm").bytes();
    bad[68] = 0xFF;
    assert_eq!(decode_wire(&bad), Err(ConfigError::BadStringEntry { field: "method" }));

    // Trailing bytes after the last entry.
    let mut bad = Blob::new("euler", "wasm").bytes();
    let len = bad.len();
    bad.push(0);
    assert_eq!(decode_wire(&bad), Err(ConfigError::TrailingBytes { walked: len, len: len + 1 }));
}

#[test]
fn the_refusals_read_as_sentences() {
    assert_eq!(ConfigError::TooShort { len: 10 }.message(), "blob is 10 bytes; the header alone is 64");
    assert_eq!(ConfigError::BadMagic.message(), "bad magic (expected TNSCONF1)");
    assert_eq!(
        ConfigError::ReservedParameterBits(0x200).message(),
        "parameters_bitmap 0x00000200 sets a reserved bit (9-31)"
    );
    assert_eq!(
        ConfigError::IterationsUpperBits { slot: 1u64 << 32 }.message(),
        "the iterations slot (0x0000000100000000) has nonzero upper four bytes"
    );
    assert_eq!(
        ConfigError::TrailingBytes { walked: 80, len: 81 }.message(),
        "the string table walks 80 of 81 bytes"
    );
    assert_eq!(
        ConfigError::WorldStatesDim(4).message(),
        "source \"world\" states dim 4; the host derives it"
    );
    assert_eq!(
        ConfigError::BadStringEntry { field: "world" }.message(),
        "world does not point at a string-table entry inside the blob"
    );
}
