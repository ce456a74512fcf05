use packsmith::blocks::Node;
use packsmith::compiler::{compile, Compilation};
use packsmith::graph::{Graph, Project};
use packsmith::ir::Severity;
use packsmith::json::Json;
use packsmith::validate::positions_fit;

fn s(v: &str) -> Json {
    Json::Str(v.to_string())
}

fn node(id: &str, block: &str, inputs: Vec<(&str, Json)>, slots: Vec<(&str, Vec<Node>)>) -> Node {
    Node {
        id: id.to_string(),
        block: block.to_string(),
        inputs: inputs.into_iter().map(|(k, v)| (k.to_string(), v)).collect(),
        slots: slots.into_iter().map(|(k, v)| (k.to_string(), v)).collect(),
    }
}

fn graph(name: &str, description: Option<Json>, root: Vec<Node>) -> Graph {
    Graph {
        version: 0,
        project: Project { name: name.to_string(), namespace: "example".to_string(), description },
        root,
        edges: Vec::new(),
    }
}

fn run(g: &Graph, target: &str) -> Compilation {
    assert!(positions_fit(g));
    compile(g, target)
}

#[test]
fn empty_root_lowers_to_one_data_pack_with_the_description() {
    let g = graph("Empty Pack", Some(s("An empty Packsmith project.")), vec![]);
    let Compilation { ir, diagnostics } = run(&g, "26.2");
    assert!(diagnostics.is_empty());
    assert_eq!(ir.target.id, "26.2");
    assert_eq!(ir.packs.len(), 1);
    assert_eq!(ir.packs[0].kind, "data");
    assert_eq!(ir.packs[0].description.as_ref().and_then(|d| d.as_str()), Some("An empty Packsmith project."));
    assert!(ir.packs[0].resources.is_empty());
}

#[test]
fn a_function_graph_lowers_to_one_function_resource() {
    let g = graph(
        "One Function",
        None,
        vec![node(
            "fn-hello",
            "packsmith/function@1.0.0",
            vec![("name", s("example:hello"))],
            vec![(
                "body",
                vec![node("cmd-say", "packsmith/command@1.0.0", vec![("command", s("say Hello, world!"))], vec![])],
            )],
        )],
    );
    let Compilation { ir, diagnostics } = run(&g, "26.2");
    assert!(diagnostics.is_empty());
    assert_eq!(ir.packs[0].resources.len(), 1);
    assert_eq!(ir.packs[0].resources[0].id, "example:hello");
}

#[test]
fn an_unknown_block_surfaces_as_a_diagnostic() {
    let g = graph("P", None, vec![node("x", "packsmith/mystery@1.0.0", vec![], vec![])]);
    let out = run(&g, "26.2");
    assert_eq!(out.diagnostics.len(), 1);
    assert_eq!(out.diagnostics[0].severity, Severity::Error);
}

#[test]
fn a_project_without_a_description_is_described_by_its_name() {
    let g = graph("My Pack", None, vec![]);
    let out = run(&g, "26.2");
    assert_eq!(out.ir.packs[0].description, Some(s("My Pack")));
}

#[test]
fn a_graph_with_an_error_is_not_lowered() {
    let g = graph(
        "P",
        None,
        vec![
            node("x", "packsmith/mystery@1.0.0", vec![], vec![]),
            node(
                "fn",
                "packsmith/function@1.0.0",
                vec![("name", s("example:hello"))],
                vec![("body", vec![node("c", "packsmith/command@1.0.0", vec![("command", s("say hi"))], vec![])])],
            ),
        ],
    );
    let out = run(&g, "26.2");
    assert!(out.diagnostics.iter().any(|d| d.severity == Severity::Error));
    assert!(out.ir.packs.iter().all(|p| p.resources.is_empty()));
}
