use packsmith::command::{check, validate, Reject};
use packsmith::codes;
use packsmith::ir::{Body, Command, Param, Resource, StatementAddress};
use packsmith::json::Json;
use packsmith::mcversion::TargetData;

fn s(v: &str) -> Json {
    Json::Str(v.to_string())
}

fn obj(members: Vec<(&str, Json)>) -> Json {
    Json::Object(members.into_iter().map(|(k, v)| (k.to_string(), v)).collect())
}

fn literal(children: Vec<(&str, Json)>) -> Json {
    if children.is_empty() {
        obj(vec![("type", s("literal"))])
    } else {
        obj(vec![("children", obj(children)), ("type", s("literal"))])
    }
}

fn to_execute(parser: &str, executable: bool) -> Json {
    let mut members = Vec::new();
    if executable {
        members.push(("executable", Json::Bool(true)));
    }
    members.push(("parser", s(parser)));
    members.push(("redirect", Json::Array(vec![s("execute")])));
    members.push(("type", s("argument")));
    obj(members)
}

/// A slice of the 26.2 command tree: `execute` (as, at, if entity, run),
/// `say`, and `setblock`, shaped as the game publishes them.
fn tree() -> Json {
    obj(vec![
        (
            "children",
            obj(vec![
                (
                    "execute",
                    literal(vec![
                        ("as", literal(vec![("targets", to_execute("minecraft:entity", false))])),
                        ("at", literal(vec![("targets", to_execute("minecraft:entity", false))])),
                        ("if", literal(vec![("entity", literal(vec![("entities", to_execute("minecraft:entity", true))]))])),
                        ("run", literal(vec![])),
                    ]),
                ),
                (
                    "say",
                    literal(vec![(
                        "message",
                        obj(vec![
                            ("executable", Json::Bool(true)),
                            ("parser", s("minecraft:message")),
                            ("type", s("argument")),
                        ]),
                    )]),
                ),
                (
                    "setblock",
                    literal(vec![(
                        "pos",
                        obj(vec![
                            (
                                "children",
                                obj(vec![(
                                    "block",
                                    obj(vec![
                                        ("executable", Json::Bool(true)),
                                        ("parser", s("minecraft:block_state")),
                                        ("type", s("argument")),
                                    ]),
                                )]),
                            ),
                            ("parser", s("minecraft:block_pos")),
                            ("type", s("argument")),
                        ]),
                    )]),
                ),
            ]),
        ),
        ("type", s("root")),
    ])
}

fn run_check(line: &str) -> Option<Reject> {
    check(&tree(), line)
}

#[test]
fn a_plain_say_is_valid() {
    assert!(run_check("say Hello, world!").is_none());
    assert!(run_check("say boo").is_none());
}

#[test]
fn blank_and_comment_lines_are_skipped() {
    assert!(run_check("").is_none());
    assert!(run_check("   ").is_none());
    assert!(run_check("# a hand-written note").is_none());
    assert!(run_check("   # indented note").is_none());
}

#[test]
fn an_unknown_command_is_rejected_with_the_token() {
    let r = run_check("frobnicate the widget").expect("not a command");
    assert_eq!(r.token.as_deref(), Some("frobnicate"));
    assert!(r.legacy_selector.is_none());
}

#[test]
fn pre_1_13_execute_is_flagged_as_legacy_with_its_selector() {
    let r = run_check("execute @e[type=zombie] ~ ~ ~ say boo").expect("legacy form");
    assert_eq!(r.legacy_selector.as_deref(), Some("@e[type=zombie]"));
}

#[test]
fn modern_execute_with_a_run_body_is_valid() {
    assert!(run_check("execute as @e[type=zombie] at @s run say boo").is_none());
    assert!(run_check("execute if entity @s run say hi").is_none());
}

#[test]
fn an_incomplete_command_is_rejected_without_a_token() {
    let r = run_check("execute as @s").expect("stops before run");
    assert!(r.token.is_none());
    assert!(r.legacy_selector.is_none());
}

#[test]
fn a_misspelled_subcommand_is_rejected() {
    let r = run_check("execute af @s run say hi").expect("no such subcommand");
    assert_eq!(r.token.as_deref(), Some("af"));
}

#[test]
fn a_coordinate_tuple_is_consumed_as_one_argument() {
    assert!(run_check("setblock ~ ~1 ~ minecraft:stone").is_none());
}

#[test]
fn a_short_coordinate_tuple_stops_early() {
    let r = run_check("setblock ~ ~1").expect("no block after the position");
    assert!(r.token.is_none());
}

fn addr(index: u32) -> StatementAddress {
    StatementAddress { node: Some("fn".to_string()), slot: "body".to_string(), index }
}

fn target() -> TargetData {
    TargetData::new(
        "26.2".to_string(),
        Vec::new(),
        Vec::new(),
        Vec::new(),
        Vec::new(),
        Vec::new(),
        Vec::new(),
        tree(),
    )
}

#[test]
fn validate_reports_each_rejected_line_at_its_statement() {
    let lines = vec![
        Command::Text { command: "say hi".to_string(), origin: addr(0) },
        Command::Text { command: "frobnicate".to_string(), origin: addr(1) },
        Command::Text { command: "execute @s ~ ~ ~ say hi".to_string(), origin: addr(2) },
        Command::Text { command: "# fine".to_string(), origin: addr(3) },
    ];
    let resources = vec![
        Resource {
            category: "function".to_string(),
            id: "example:x".to_string(),
            origin: addr(0),
            body: Body::Commands { statements: lines },
        },
        Resource {
            category: "tags/function".to_string(),
            id: "minecraft:load".to_string(),
            origin: addr(0),
            body: Body::Json { value: s("frobnicate") },
        },
    ];
    let d = validate(&resources, &target());
    assert_eq!(d.len(), 2);
    assert_eq!(d[0].code.as_deref(), Some(codes::COMMAND_INVALID));
    assert_eq!(d[0].address.index, 1);
    assert_eq!(
        d[0].params,
        vec![
            ("command".to_string(), Param::Text("frobnicate".to_string())),
            ("token".to_string(), Param::Text("frobnicate".to_string())),
        ]
    );
    assert_eq!(d[1].code.as_deref(), Some(codes::COMMAND_LEGACY_SYNTAX));
    assert_eq!(d[1].address.index, 2);
    assert_eq!(
        d[1].params,
        vec![
            ("command".to_string(), Param::Text("execute @s ~ ~ ~ say hi".to_string())),
            ("selector".to_string(), Param::Text("@s".to_string())),
        ]
    );
}
