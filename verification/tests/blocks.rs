use packsmith::blocks::{describe, display_name, Node, NodeKind, BUILTIN_IDS};
use packsmith::codes;
use packsmith::ir::{Body, Command};
use packsmith::json::{Json, Number};
use packsmith::lower::lower_root;

fn s(v: &str) -> Json {
    Json::Str(v.to_string())
}

fn obj(members: Vec<(&str, Json)>) -> Json {
    Json::Object(members.into_iter().map(|(k, v)| (k.to_string(), v)).collect())
}

fn node(id: &str, block: &str, inputs: Vec<(&str, Json)>, slots: Vec<(&str, Vec<Node>)>) -> Node {
    Node {
        id: id.to_string(),
        block: block.to_string(),
        inputs: inputs.into_iter().map(|(k, v)| (k.to_string(), v)).collect(),
        slots: slots.into_iter().map(|(k, v)| (k.to_string(), v)).collect(),
    }
}

#[test]
fn a_function_with_one_command_lowers_to_one_commands_resource() {
    let n = node(
        "fn-hello",
        "packsmith/function@1.0.0",
        vec![("name", s("example:hello"))],
        vec![(
            "body",
            vec![node("cmd-say", "packsmith/command@1.0.0", vec![("command", s("say Hello, world!"))], vec![])],
        )],
    );
    let out = lower_root(&[n]);
    assert!(out.diagnostics.is_empty());
    assert_eq!(out.resources.len(), 1);
    let r = &out.resources[0];
    assert_eq!(r.category, "function");
    assert_eq!(r.id, "example:hello");
    assert_eq!(r.origin.slot, "root");
    match &r.body {
        Body::Commands { statements } => {
            let Command::Text { command, origin } = &statements[0];
            assert_eq!(command, "say Hello, world!");
            assert_eq!(origin.node.as_deref(), Some("fn-hello"));
            assert_eq!((origin.slot.as_str(), origin.index), ("body", 0));
        }
        Body::Json { .. } => panic!("a function is a commands body"),
    }
}

#[test]
fn every_built_in_is_listed_and_describable() {
    for id in &BUILTIN_IDS {
        let d = describe(id).unwrap_or_else(|| panic!("{id} is listed but not described"));
        assert_eq!(d.id, *id);
        assert!(!d.title.is_empty());
        assert!(!d.title.contains('/'), "{id} title is an id, not game words");
    }
}

#[test]
fn describe_covers_the_built_ins_and_only_them() {
    assert!(describe("packsmith/function@1.0.0").is_some());
    assert!(describe("packsmith/command@9.9.9").is_some());
    assert!(describe("packsmith/nope@1.0.0").is_none());

    let function = describe("packsmith/function@1.0.0").expect("built-in");
    assert_eq!(function.node_kind, NodeKind::Statement);
    assert_eq!(function.slots.len(), 1);
    assert_eq!(function.slots[0].name, "body");
    assert!(function.inputs.iter().any(|p| p.name == "name" && p.required));

    let command = describe("packsmith/command@1.0.0").expect("built-in");
    assert_eq!(command.requires_parent, Some("packsmith/function"));
}

#[test]
fn an_unknown_block_is_a_diagnostic_at_its_address() {
    let out = lower_root(&[node("x", "packsmith/nope@1.0.0", vec![], vec![])]);
    assert!(out.resources.is_empty());
    assert_eq!(out.diagnostics[0].code.as_deref(), Some(codes::BLOCK_UNKNOWN));
    assert_eq!(out.diagnostics[0].address.index, 0);
}

#[test]
fn a_function_missing_its_name_is_a_missing_input_diagnostic() {
    let out = lower_root(&[node("fn", "packsmith/function@1.0.0", vec![], vec![])]);
    assert!(out.resources.is_empty());
    assert_eq!(out.diagnostics[0].code.as_deref(), Some(codes::INPUT_MISSING));
}

#[test]
fn a_function_tag_writes_replace_only_when_true() {
    let out = lower_root(&[node(
        "t",
        "packsmith/function-tag@1.0.0",
        vec![("functions", Json::Array(vec![s("example:hello")])), ("name", s("minecraft:load"))],
        vec![],
    )]);
    let Body::Json { value } = &out.resources[0].body else {
        panic!("a tag is a json body");
    };
    assert_eq!(value, &obj(vec![("values", Json::Array(vec![s("example:hello")]))]));
}

#[test]
fn a_function_tag_with_replace_true_writes_replace() {
    let out = lower_root(&[node(
        "t",
        "packsmith/function-tag@1.0.0",
        vec![
            ("functions", Json::Array(vec![s("example:hello")])),
            ("name", s("minecraft:load")),
            ("replace", Json::Bool(true)),
        ],
        vec![],
    )]);
    let Body::Json { value } = &out.resources[0].body else {
        panic!("a tag is a json body");
    };
    assert_eq!(
        value,
        &obj(vec![("replace", Json::Bool(true)), ("values", Json::Array(vec![s("example:hello")]))])
    );
}

#[test]
fn a_shapeless_recipe_keeps_an_explicit_result_count() {
    let out = lower_root(&[node(
        "r",
        "packsmith/crafting-shapeless@1.0.0",
        vec![
            ("ingredients", Json::Array(vec![s("minecraft:diamond_block")])),
            ("name", s("example:d")),
            ("result", obj(vec![("count", Json::Number(Number::Int(9))), ("item", s("minecraft:diamond"))])),
        ],
        vec![],
    )]);
    let Body::Json { value } = &out.resources[0].body else {
        panic!("a recipe is a json body");
    };
    assert_eq!(
        value.get("result"),
        Some(&obj(vec![("count", Json::Number(Number::Int(9))), ("id", s("minecraft:diamond"))]))
    );
}

#[test]
fn a_loot_drop_with_no_count_invents_no_keys() {
    let out = lower_root(&[node(
        "l",
        "packsmith/loot-table@1.0.0",
        vec![
            ("drops", Json::Array(vec![obj(vec![("item", s("minecraft:diamond"))])])),
            ("name", s("example:blocks/x")),
        ],
        vec![],
    )]);
    let Body::Json { value } = &out.resources[0].body else {
        panic!("a loot table is a json body");
    };
    let expected = obj(vec![(
        "pools",
        Json::Array(vec![obj(vec![
            (
                "entries",
                Json::Array(vec![obj(vec![("name", s("minecraft:diamond")), ("type", s("minecraft:item"))])]),
            ),
            ("rolls", Json::Number(Number::Int(1))),
        ])]),
    )]);
    assert_eq!(value, &expected);
}

#[test]
fn display_name_is_the_title_of_a_built_in_and_the_bare_name_otherwise() {
    assert_eq!(display_name("packsmith/function@1.0.0"), "function");
    assert_eq!(display_name("someone/thing@2.0.0"), "someone/thing");
}

#[test]
fn a_manifest_is_keyed_in_sorted_order_and_names_its_template() {
    let m = describe("packsmith/function@1.0.0").expect("built-in").to_manifest();
    let Json::Object(members) = &m else {
        panic!("a manifest is an object");
    };
    let keys: Vec<&str> = members.iter().map(|(k, _)| k.as_str()).collect();
    assert_eq!(
        keys,
        vec!["block_version", "id", "implementation", "inputs", "license", "node_kind", "slots", "targets", "title", "version"]
    );
    assert_eq!(
        m.get("implementation"),
        Some(&obj(vec![("kind", s("declarative")), ("template", s("function.tmpl"))]))
    );
    assert_eq!(m.get("node_kind"), Some(&s("statement")));
    let inputs = m.get("inputs").expect("inputs");
    assert_eq!(
        inputs.get("name").and_then(|p| p.get("type")),
        Some(&obj(vec![
            ("allow_tag", Json::Bool(false)),
            ("registry", s("minecraft:function")),
            ("type", s("id")),
        ]))
    );
}

#[test]
fn a_manifest_without_inputs_has_no_inputs_member() {
    for id in &BUILTIN_IDS {
        let d = describe(id).expect("built-in");
        let m = d.to_manifest();
        assert_eq!(m.get("inputs").is_some(), !d.inputs.is_empty());
        assert_eq!(m.get("slots").is_some(), !d.slots.is_empty());
    }
}
