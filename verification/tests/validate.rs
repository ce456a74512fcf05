use packsmith::blocks::{Node, PortSpec, PortType};
use packsmith::codes;
use packsmith::graph::{Graph, Project};
use packsmith::ir::Diagnostic;
use packsmith::json::{Json, Number};
use packsmith::literal::check_literal;
use packsmith::validate::{positions_fit, validate};

fn s(v: &str) -> Json {
    Json::Str(v.to_string())
}

fn obj(members: Vec<(&str, Json)>) -> Json {
    Json::Object(members.into_iter().map(|(k, v)| (k.to_string(), v)).collect())
}

fn node(id: &str, block: &str, inputs: Vec<(&str, Json)>, slots: Vec<(&str, Vec<Node>)>) -> Node {
    Node {
        id: id.to_string(),
        block: block.to_string(),
        inputs: inputs.into_iter().map(|(k, v)| (k.to_string(), v)).collect(),
        slots: slots.into_iter().map(|(k, v)| (k.to_string(), v)).collect(),
    }
}

fn edge(from: &str, from_port: &str, to: &str, to_port: &str) -> Json {
    obj(vec![
        ("from", obj(vec![("node", s(from)), ("port", s(from_port))])),
        ("to", obj(vec![("node", s(to)), ("port", s(to_port))])),
    ])
}

fn graph(root: Vec<Node>, edges: Vec<Json>) -> Graph {
    Graph {
        version: 0,
        project: Project { name: "P".to_string(), namespace: "example".to_string(), description: None },
        root,
        edges,
    }
}

fn check(g: &Graph) -> Vec<Diagnostic> {
    assert!(positions_fit(g));
    validate(g)
}

fn codes_of(diagnostics: &[Diagnostic]) -> Vec<&str> {
    diagnostics.iter().filter_map(|d| d.code.as_deref()).collect()
}

#[test]
fn a_clean_function_graph_has_no_diagnostics() {
    let d = check(&graph(
        vec![node(
            "fn",
            "packsmith/function@1.0.0",
            vec![("name", s("example:hello"))],
            vec![("body", vec![node("c", "packsmith/command@1.0.0", vec![("command", s("say hi"))], vec![])])],
        )],
        vec![],
    ));
    assert!(d.is_empty(), "{d:?}");
}

#[test]
fn an_unknown_block_is_reported_once_at_its_address() {
    let d = check(&graph(vec![node("x", "packsmith/mystery@1.0.0", vec![], vec![])], vec![]));
    assert_eq!(codes_of(&d), [codes::BLOCK_UNKNOWN]);
    assert_eq!(d[0].address.index, 0);
    assert_eq!(d[0].address.node, None);
}

#[test]
fn a_missing_required_input_is_reported() {
    let d = check(&graph(
        vec![node(
            "r",
            "packsmith/crafting-shapeless@1.0.0",
            vec![("ingredients", Json::Array(vec![s("minecraft:stone")])), ("name", s("example:x"))],
            vec![],
        )],
        vec![],
    ));
    assert_eq!(codes_of(&d), [codes::INPUT_MISSING]);
}

#[test]
fn a_wrong_typed_literal_is_a_type_diagnostic() {
    let d = check(&graph(
        vec![node(
            "r",
            "packsmith/crafting-shapeless@1.0.0",
            vec![
                ("ingredients", Json::Array(vec![s("minecraft:stone")])),
                ("name", s("example:x")),
                ("result", s("minecraft:diamond")),
            ],
            vec![],
        )],
        vec![],
    ));
    assert_eq!(codes_of(&d), [codes::INPUT_TYPE]);
}

#[test]
fn an_id_without_a_namespace_violates_a_constraint() {
    let d = check(&graph(
        vec![node("fn", "packsmith/function@1.0.0", vec![("name", s("tick"))], vec![])],
        vec![],
    ));
    assert_eq!(codes_of(&d), [codes::INPUT_CONSTRAINT]);
}

#[test]
fn an_int_below_its_bound_violates_a_constraint() {
    let port = PortSpec { name: "n", label: "count", ty: PortType::Int { min: Some(1), max: None }, required: true };
    let finding = check_literal(&port, &Json::Number(Number::Int(0))).expect("out of bounds");
    assert_eq!(finding.code, codes::INPUT_CONSTRAINT);
}

#[test]
fn an_enum_non_member_violates_a_constraint() {
    let port = PortSpec {
        name: "op",
        label: "comparison",
        ty: PortType::Enum(&["less_than", "greater_than"]),
        required: true,
    };
    let finding = check_literal(&port, &s("equal_to")).expect("not a choice");
    assert_eq!(finding.code, codes::INPUT_CONSTRAINT);
}

#[test]
fn a_command_at_the_top_level_is_rejected() {
    let d = check(&graph(
        vec![node("c", "packsmith/command@1.0.0", vec![("command", s("say hi"))], vec![])],
        vec![],
    ));
    assert_eq!(codes_of(&d), [codes::SLOT_REJECTS_BLOCK]);
}

#[test]
fn a_non_command_in_a_function_body_is_rejected() {
    let d = check(&graph(
        vec![node(
            "fn",
            "packsmith/function@1.0.0",
            vec![("name", s("example:x"))],
            vec![(
                "body",
                vec![node("inner", "packsmith/function@1.0.0", vec![("name", s("example:y"))], vec![])],
            )],
        )],
        vec![],
    ));
    assert_eq!(codes_of(&d), [codes::SLOT_REJECTS_BLOCK]);
}

#[test]
fn an_edge_to_a_missing_node_is_reported() {
    let d = check(&graph(
        vec![node("fn", "packsmith/function@1.0.0", vec![("name", s("example:x"))], vec![])],
        vec![edge("ghost", "out", "fn", "name")],
    ));
    assert_eq!(codes_of(&d), [codes::EDGE_UNKNOWN_NODE]);
    assert_eq!(d[0].address.node, None);
}

#[test]
fn an_edge_that_reads_a_later_node_is_a_forward_reference() {
    let d = check(&graph(
        vec![
            node("a", "packsmith/function@1.0.0", vec![], vec![]),
            node("b", "packsmith/function@1.0.0", vec![("name", s("example:b"))], vec![]),
        ],
        vec![edge("b", "out", "a", "name")],
    ));
    assert!(codes_of(&d).contains(&codes::EDGE_FORWARD_REFERENCE));
}

#[test]
fn a_cycle_among_edges_is_reported_once() {
    let d = check(&graph(
        vec![
            node("a", "packsmith/function@1.0.0", vec![("name", s("example:a"))], vec![]),
            node("b", "packsmith/function@1.0.0", vec![("name", s("example:b"))], vec![]),
        ],
        vec![edge("a", "o", "b", "name"), edge("b", "o", "a", "name")],
    ));
    assert_eq!(d.iter().filter(|x| x.code.as_deref() == Some(codes::EDGE_CYCLE)).count(), 1);
}

#[test]
fn every_diagnostic_of_the_walk_is_an_error_with_a_code() {
    let d = check(&graph(
        vec![
            node("x", "packsmith/mystery@1.0.0", vec![], vec![]),
            node("c", "packsmith/command@1.0.0", vec![("command", s("say hi"))], vec![]),
            node("fn", "packsmith/function@1.0.0", vec![("name", s("tick"))], vec![]),
        ],
        vec![edge("ghost", "out", "fn", "name")],
    ));
    assert_eq!(d.len(), 4);
    for x in &d {
        assert!(x.code.is_some());
        assert_eq!(x.severity, packsmith::ir::Severity::Error);
    }
}

#[test]
fn a_malformed_edge_is_left_alone() {
    let d = check(&graph(
        vec![node("fn", "packsmith/function@1.0.0", vec![("name", s("example:x"))], vec![])],
        vec![obj(vec![("from", s("nowhere"))])],
    ));
    assert!(d.is_empty());
}
