use tension_core::world::compiler::{
    component_types, connection_types, emit, reserved_types, Component, Connection, FieldShape, ParsedWorld,
    ReservedKind, SCHEMA_VERSION,
};
use tension_core::world::errors::{CompileError, Span};
use tension_core::world::eval::{World, WorldError};

fn bits(values: &[f64]) -> Vec<u64> {
    values.iter().map(|v| v.to_bits()).collect()
}

/// A ball on a spring to a wall, under gravity, in two dimensions.
fn ball_on_a_spring() -> ParsedWorld {
    ParsedWorld {
        dimensions: 2,
        components: vec![
            Component::PointMass {
                name: "ball".to_string(),
                mass: 1.0f64.to_bits(),
                position: bits(&[1.5, 0.0]),
                velocity: bits(&[0.0, 0.0]),
            },
            Component::Anchor { name: "wall".to_string(), position: bits(&[0.0, 0.0]) },
        ],
        connections: vec![
            Connection::Spring {
                name: Some("s".to_string()),
                from: 0,
                to: 1,
                stiffness: 10.0f64.to_bits(),
                rest_length: 1.0f64.to_bits(),
                damping: 0.0f64.to_bits(),
            },
            Connection::Gravity { name: None, acceleration: bits(&[0.0, -9.81]) },
        ],
    }
}

fn u32_at(bytes: &[u8], at: usize) -> u32 {
    u32::from_le_bytes(bytes[at..at + 4].try_into().expect("four bytes"))
}

#[test]
fn an_emitted_world_has_the_fixed_layout() {
    let bytes = emit(&ball_on_a_spring());
    assert_eq!(&bytes[0..8], b"TNSWORLD");
    assert_eq!(u16::from_le_bytes([bytes[8], bytes[9]]), 1, "format_version");
    assert_eq!(u16::from_le_bytes([bytes[10], bytes[11]]), SCHEMA_VERSION);
    assert_eq!(bytes[12], 2, "dimensions");
    assert_eq!(u32_at(&bytes, 16), 2, "component_count");
    assert_eq!(u32_at(&bytes, 20), 2, "connection_count");
    assert_eq!(u32_at(&bytes, 24), 40, "the component table follows the header");
    // A point mass is 16 + 16d bytes and an anchor 8 + 8d.
    assert_eq!(u32_at(&bytes, 28), 40 + 48 + 24, "the connection table follows it");
    // A spring is 40 bytes and gravity 16 + 8d.
    assert_eq!(u32_at(&bytes, 32), 112 + 40 + 32, "then the name table");
    // "ball", "wall", "s", each behind its length.
    assert_eq!(bytes.len(), 184 + 8 + 8 + 5);
    assert_eq!(u32_at(&bytes, 184), 4);
    assert_eq!(&bytes[188..192], b"ball");
    // The ball's entry names the first name-table entry.
    assert_eq!(u32_at(&bytes, 40 + 4), 184);
    // The spring's endpoints; gravity's are the sentinel.
    assert_eq!((u32_at(&bytes, 112 + 8), u32_at(&bytes, 112 + 12)), (0, 1));
    assert_eq!((u32_at(&bytes, 152 + 8), u32_at(&bytes, 152 + 12)), (u32::MAX, u32::MAX));
}

#[test]
fn an_emitted_world_loads_back() {
    let bytes = emit(&ball_on_a_spring());
    let world = World::load(&bytes).expect("the compiler's own output loads");
    assert_eq!(world.dimensions(), 2);
    assert_eq!(world.dim(), 4, "position and velocity of the one moving body");
    assert_eq!(world.component_count(), 2);
    assert_eq!(world.connection_count(), 2);
    assert_eq!(world.component_table(), 40);
    assert_eq!(world.connection_table(), 112);
}

#[test]
fn a_world_with_no_names_has_no_name_table() {
    let world = ParsedWorld {
        dimensions: 3,
        components: vec![],
        connections: vec![Connection::Gravity { name: None, acceleration: bits(&[0.0, 0.0, -9.81]) }],
    };
    let bytes = emit(&world);
    assert_eq!(u32_at(&bytes, 32), 0, "no name table");
    assert_eq!(bytes.len(), 40 + 16 + 24);
    let loaded = World::load(&bytes).expect("loads");
    assert_eq!(loaded.dim(), 0);
    assert_eq!(loaded.dimensions(), 3);
}

#[test]
fn the_loader_refuses_what_the_header_gets_wrong() {
    let good = emit(&ball_on_a_spring());
    assert_eq!(World::load(&good[..20]).err(), Some(WorldError::Truncated));

    let mut bad = good.clone();
    bad[3] = b'X';
    assert_eq!(World::load(&bad).err(), Some(WorldError::BadMagic));

    let mut bad = good.clone();
    bad[8] = 2;
    assert_eq!(World::load(&bad).err(), Some(WorldError::BadVersion { found: 2 }));

    let mut bad = good.clone();
    bad[13] = 1;
    assert_eq!(World::load(&bad).err(), Some(WorldError::BadFlags));

    let mut bad = good.clone();
    bad[12] = 4;
    assert_eq!(World::load(&bad).err(), Some(WorldError::BadDimensions { found: 4 }));

    let mut bad = good.clone();
    bad[24] = 48;
    assert_eq!(World::load(&bad).err(), Some(WorldError::BadOffset));

    // Trailing bytes past the name table.
    let mut bad = good.clone();
    bad.push(0);
    assert_eq!(World::load(&bad).err(), Some(WorldError::Truncated));
}

#[test]
fn the_loader_refuses_dangling_and_degenerate_references() {
    let mut world = ball_on_a_spring();
    world.connections[0] = Connection::Spring {
        name: None,
        from: 1,
        to: 1,
        stiffness: 10.0f64.to_bits(),
        rest_length: 1.0f64.to_bits(),
        damping: 0.0f64.to_bits(),
    };
    assert_eq!(World::load(&emit(&world)).err(), Some(WorldError::BadReference { connection: 0 }));

    let mut world = ball_on_a_spring();
    world.connections[0] = Connection::Spring {
        name: None,
        from: 0,
        to: 7,
        stiffness: 10.0f64.to_bits(),
        rest_length: 1.0f64.to_bits(),
        damping: 0.0f64.to_bits(),
    };
    assert_eq!(World::load(&emit(&world)).err(), Some(WorldError::BadReference { connection: 0 }));

    // An unknown component tag cannot be sized.
    let mut bad = emit(&ball_on_a_spring());
    bad[40] = 9;
    assert_eq!(
        World::load(&bad).err(),
        Some(WorldError::UnsupportedComponent { index: 0, tag: 9, name: None })
    );
}

#[test]
fn world_refusals_read_as_sentences() {
    assert_eq!(WorldError::BadMagic.message(), "not a world file: bad magic");
    assert_eq!(
        WorldError::BadVersion { found: 2 }.message(),
        "unsupported format_version 2: this reader implements 1"
    );
    assert_eq!(WorldError::BadDimensions { found: 4 }.message(), "dimensions must be 2 or 3, found 4");
    assert_eq!(
        WorldError::DimMismatch { expected: 4, got: 3 }.message(),
        "expected 4 state slots, got 3"
    );
    assert_eq!(
        WorldError::UnsupportedConnection { index: 1, tag: 2, name: Some("hinge".to_string()) }.message(),
        "connection `hinge` (index 1): rigid constraints (`pin`) are not implemented in v1"
    );
    assert_eq!(
        WorldError::UnsupportedComponent { index: 3, tag: 9, name: None }.message(),
        "component at index 3: component type tag 9 is not implemented in v1"
    );
}

#[test]
fn the_catalogs_are_in_schema_order() {
    let components = component_types();
    let names: Vec<&str> = components.iter().map(|t| t.name).collect();
    assert_eq!(names, ["point_mass", "kinematic", "anchor"]);
    assert_eq!(components[0].fields[0].name, "mass");
    assert!(components[0].fields[0].required);
    assert_eq!(components[0].fields[0].shape, FieldShape::Positive);

    let connections = connection_types();
    let names: Vec<&str> = connections.iter().map(|t| t.name).collect();
    assert_eq!(names, ["spring", "pin", "gravity"]);
    assert_eq!(connections[0].fields[4].name, "damping");
    assert!(!connections[0].fields[4].required);
    assert_eq!(connections[0].fields[4].shape, FieldShape::NonNegative);

    let reserved = reserved_types();
    assert_eq!(reserved.len(), 4);
    assert_eq!(reserved[0].name, "collider");
    assert_eq!(reserved[0].kind, ReservedKind::Component);
    assert_eq!(reserved[3].name, "contact");
    assert_eq!(reserved[3].kind, ReservedKind::Connection);
}

#[test]
fn a_compile_error_carries_its_place() {
    let at = CompileError::at("unknown field `masss`".to_string(), 3, 5);
    assert_eq!(at.message(), "unknown field `masss`");
    assert_eq!(at.span(), Some(Span { line: 3, col: 5 }));
    assert_eq!(at.text(), "unknown field `masss` (line 3, column 5)");

    let plain = CompileError::new("no components".to_string());
    assert_eq!(plain.span(), None);
    assert_eq!(plain.text(), "no components");
}
