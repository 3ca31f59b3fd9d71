use tension_core::world::compiler::{emit, Component, Connection, ParsedWorld};
use tension_core::world::compile;
use tension_core::world::errors::Span;
use tension_core::world::eval::World;

const BALL_ON_A_SPRING: &str = "\
version: 1
dimensions: 2
components:
  - type: point_mass
    name: ball
    mass: 1.0
    position: [1.5, 0]
  - type: anchor
    name: wall
connections:
  - type: spring
    name: s
    from: ball
    to: wall
    stiffness: 10
    rest_length: 1
  - type: gravity
    acceleration: [0, -9.81]
";

fn bits(values: &[f64]) -> Vec<u64> {
    values.iter().map(|v| v.to_bits()).collect()
}

fn refusal(yaml: &str) -> String {
    let e = compile(yaml).expect_err("the world is refused");
    assert_eq!(e.span(), None, "a semantic refusal has no location");
    e.message().to_string()
}

/// The ball world with one line replaced.
fn ball_with(from: &str, to: &str) -> String {
    assert!(BALL_ON_A_SPRING.contains(from));
    BALL_ON_A_SPRING.replace(from, to)
}

#[test]
fn a_world_compiles_to_the_bytes_of_what_it_declares() {
    let bytes = compile(BALL_ON_A_SPRING).expect("compiles");
    let expected = ParsedWorld {
        dimensions: 2,
        components: vec![
            Component::PointMass {
                name: "ball".to_string(),
                mass: 1.0f64.to_bits(),
                position: bits(&[1.5, 0.0]),
                velocity: bits(&[0.0, 0.0]),
            },
            Component::Anchor { name: "wall".to_string(), position: bits(&[0.0, 0.0]) },
        ],
        connections: vec![
            Connection::Spring {
                name: Some("s".to_string()),
                from: 0,
                to: 1,
                stiffness: 10.0f64.to_bits(),
                rest_length: 1.0f64.to_bits(),
                damping: 0.0f64.to_bits(),
            },
            Connection::Gravity { name: None, acceleration: bits(&[0.0, -9.81]) },
        ],
    };
    assert_eq!(bytes, emit(&expected));
    let world = World::load(&bytes).expect("the compiler's output loads");
    assert_eq!(world.dim(), 4);
}

#[test]
fn a_template_expands_in_place_of_its_invocation() {
    let yaml = "\
version: 1
dimensions: 3
templates:
  - name: pendulum
    parameters: [bob, pivot]
    components:
      - type: point_mass
        name: $bob
        mass: 2
      - type: anchor
        name: $pivot
    connections:
      - type: spring
        from: $bob
        to: $pivot
        stiffness: 5
        rest_length: 1
components:
  - type: kinematic
    name: cart
  - template: pendulum
    args: [a, p]
  - template: pendulum
    args: [b, q]
connections:
  - type: spring
    from: cart
    to: a
    stiffness: 3
    rest_length: 0
";
    let bytes = compile(yaml).expect("compiles");
    let world = World::load(&bytes).expect("loads");
    assert_eq!(world.dimensions(), 3);
    assert_eq!(world.component_count(), 5);
    assert_eq!(world.connection_count(), 3);
    // The cart and two bobs move; the pivots do not.
    assert_eq!(world.dim(), 3 * 6);
    // The file's own connection comes first, then the expansions', in
    // invocation order: cart-a, a-p, b-q.
    let at = world.connection_table();
    let word = |i: usize| u32::from_le_bytes(bytes[i..i + 4].try_into().expect("four bytes"));
    assert_eq!((word(at + 8), word(at + 12)), (0, 1));
    assert_eq!((word(at + 40 + 8), word(at + 40 + 12)), (1, 2));
    assert_eq!((word(at + 80 + 8), word(at + 80 + 12)), (3, 4));
}

#[test]
fn the_document_must_be_one_mapping() {
    let e = compile("").expect_err("no document");
    assert_eq!(e.message(), "expected exactly one YAML document, found 0");
    assert_eq!(
        refusal("~"),
        "the world is empty — expected a mapping with `version`, `dimensions`, `components`, and `connections`"
    );
    assert_eq!(refusal("[1, 2]"), "the world must be a YAML mapping");
    assert_eq!(refusal("version: 1\ncolour: red\n"), "unknown top-level key `colour`");
}

#[test]
fn a_scan_error_carries_its_place() {
    let e = compile("version: [1\n").expect_err("unclosed");
    assert!(e.message().starts_with("invalid YAML: "), "{}", e.message());
    assert!(matches!(e.span(), Some(Span { .. })));
}

#[test]
fn version_and_dimensions_are_checked() {
    assert_eq!(
        refusal(&ball_with("version: 1", "version: 2")),
        "unsupported schema version 2 — this compiler implements schema version 1"
    );
    assert_eq!(
        refusal(&ball_with("version: 1", "version: one")),
        "`version` must be an integer (the schema version this world targets)"
    );
    assert_eq!(refusal(&ball_with("version: 1\n", "")), "missing required top-level key `version`");
    assert_eq!(refusal(&ball_with("dimensions: 2", "dimensions: 4")), "`dimensions` must be 2 or 3");
}

#[test]
fn component_types_come_from_the_catalog() {
    assert_eq!(refusal(&ball_with("type: anchor", "type: rocket")), "unknown component type `rocket`");
    assert_eq!(
        refusal(&ball_with("type: anchor", "type: collider")),
        "type `collider` is reserved but not implemented in v1"
    );
    assert_eq!(
        refusal(&ball_with("type: anchor", "type: spring")),
        "`spring` is a connection type, not a component type"
    );
    assert_eq!(
        refusal(&ball_with("type: gravity", "type: anchor")),
        "`anchor` is a component type, not a connection type"
    );
}

#[test]
fn component_fields_are_held_to_their_shapes() {
    assert_eq!(refusal(&ball_with("mass: 1.0", "mass: 0")), "component `ball`: `mass` must be > 0");
    assert_eq!(refusal(&ball_with("mass: 1.0", "mass: heavy")), "component `ball`: `mass` must be a number");
    assert_eq!(
        refusal(&ball_with("position: [1.5, 0]", "position: [1.5]")),
        "component `ball`: `position` must be a list of exactly 2 numbers"
    );
    assert_eq!(refusal(&ball_with("mass: 1.0", "weight: 1.0")), "component `ball` has unknown field `weight`");
    assert_eq!(
        refusal(&ball_with("    mass: 1.0\n", "")),
        "component `ball` is missing required field `mass`"
    );
    assert_eq!(refusal(&ball_with("name: wall", "name: ball")), "component name `ball` appears twice");
    assert_eq!(
        refusal(&ball_with("name: wall", "name: $wall")),
        "`$wall` is a template parameter reference; those are valid only inside a template body"
    );
}

#[test]
fn connections_are_resolved_against_the_names() {
    assert_eq!(
        refusal(&ball_with("to: wall", "to: nowhere")),
        "connection `s` references component `nowhere`, which does not exist"
    );
    assert_eq!(refusal(&ball_with("to: wall", "to: ball")), "connection `s` has `from` == `to`");
    assert_eq!(
        refusal(&ball_with("rest_length: 1", "rest_length: -1")),
        "connection `s`: `rest_length` must be >= 0"
    );
    assert_eq!(
        refusal(&ball_with("name: s", "name: wall")),
        "connection name `wall` is already used by a component"
    );
    let twice = format!("{BALL_ON_A_SPRING}  - type: gravity\n    acceleration: [0, 1]\n");
    assert_eq!(refusal(&twice), "a second gravity connection is not allowed");
}

#[test]
fn templates_are_checked_when_declared_and_invoked() {
    let with_templates = |templates: &str, components: &str| {
        format!("version: 1\ndimensions: 2\ntemplates:\n{templates}components:{components}connections: []\n")
    };
    let body = "  - name: t\n    parameters: [x]\n    components:\n      - type: anchor\n        name: $x\n    connections: []\n";
    assert_eq!(
        refusal(&with_templates(body, "\n  - template: t\n    args: [a, b]\n")),
        "template `t` takes 1 argument, got 2"
    );
    assert_eq!(
        refusal(&with_templates(body, "\n  - template: u\n")),
        "unknown template `u`"
    );
    assert_eq!(
        refusal(&with_templates(body, "\n  - template: t\n    args: [$a]\n")),
        "components[0]: template argument `$a` must be a plain name, not a parameter reference"
    );
    let undeclared = "  - name: t\n    components:\n      - type: anchor\n        name: $y\n    connections: []\n";
    assert_eq!(
        refusal(&with_templates(undeclared, " []\n")),
        "template `t` references undeclared parameter `$y`"
    );
    let fixed_end = "  - name: t\n    parameters: [x]\n    components:\n      - type: anchor\n        name: $x\n    connections:\n      - type: spring\n        from: $x\n        to: wall\n        stiffness: 1\n        rest_length: 1\n";
    assert_eq!(
        refusal(&with_templates(fixed_end, " []\n")),
        "template `t`: connection endpoint `wall` must be a parameter (`$name`)"
    );
    assert_eq!(
        refusal(&with_templates(&format!("{body}{body}"), " []\n")),
        "template name `t` appears twice"
    );
}

#[test]
fn an_empty_world_is_its_header() {
    let bytes = compile("version: 1\ndimensions: 2\ncomponents: []\nconnections: []\n")
        .expect("an empty world compiles");
    assert_eq!(bytes.len(), 40, "the header, and nothing else");
}
