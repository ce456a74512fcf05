use packsmith::codes;
use packsmith::ir::{Diagnostic, Param, Severity, StatementAddress};
use packsmith::message::render;

fn text(s: &str) -> Param {
    Param::Text(s.to_string())
}

fn diag(code: &str, params: Vec<(&str, Param)>) -> Diagnostic {
    let mut sorted: Vec<(String, Param)> = params.into_iter().map(|(k, v)| (k.to_string(), v)).collect();
    sorted.sort_by(|a, b| a.0.cmp(&b.0));
    Diagnostic {
        code: Some(code.to_string()),
        severity: Severity::Error,
        address: StatementAddress { node: None, slot: "root".to_string(), index: 0 },
        params: sorted,
    }
}

#[test]
fn block_unknown_names_the_block_and_is_not_jargon() {
    let r = render(&diag(codes::BLOCK_UNKNOWN, vec![("block", text("packsmith/nope@1.0.0"))]));
    assert_eq!(r.message, "There's no block called \"packsmith/nope@1.0.0\".");
}

#[test]
fn input_missing_names_the_block_so_the_cli_line_is_locatable() {
    let r = render(&diag(
        codes::INPUT_MISSING,
        vec![("block", text("function")), ("label", text("name")), ("example", text("example:tick"))],
    ));
    assert_eq!(r.message, "The function has no name set, and it needs one.");
    assert!(r.fix.unwrap().contains("example:tick"));
}

#[test]
fn slot_rejects_block_uses_display_names_not_ids() {
    let r = render(&diag(
        codes::SLOT_REJECTS_BLOCK,
        vec![("reason", text("needs_parent")), ("block", text("command")), ("parent", text("function"))],
    ));
    assert!(r.message.contains("command"));
    assert!(r.message.contains("inside a function"));
    assert!(!r.message.contains("packsmith/"));
}

#[test]
fn a_group_of_settings_replaces_a_set_of_fields() {
    let r = render(&diag(
        codes::INPUT_TYPE,
        vec![("label", text("result item")), ("found", text("group")), ("expected", text("item"))],
    ));
    assert!(r.message.contains("a group of settings"));
    assert!(!r.message.contains("a set of fields"));
}

#[test]
fn forward_reference_and_cycle_are_worded_for_a_technical_reader() {
    let fwd = render(&diag(codes::EDGE_FORWARD_REFERENCE, vec![("from", text("fn-late"))]));
    assert!(fwd.message.contains("forward reference"));
    assert!(fwd.message.contains("unrepresentable in the editor"));

    let cyc = render(&diag(
        codes::EDGE_CYCLE,
        vec![("cycle", Param::List(vec!["a".to_string(), "b".to_string(), "a".to_string()]))],
    ));
    assert!(cyc.message.contains("a -> b -> a"));
}

#[test]
fn an_unknown_code_still_renders_something() {
    let r = render(&diag("not-a-real-code", vec![]));
    assert!(!r.message.is_empty());
    assert!(r.fix.is_none());
}

#[test]
fn a_diagnostic_without_a_code_renders_something_with_no_fix() {
    let mut d = diag(codes::BLOCK_UNKNOWN, vec![]);
    d.code = None;
    let r = render(&d);
    assert!(!r.message.is_empty());
    assert!(r.fix.is_none());
}

#[test]
fn param_accessors_read_back_their_own_kind_only() {
    assert_eq!(Param::Text("x".to_string()).text(), "x");
    assert_eq!(Param::Int(7).text(), "");
    assert_eq!(Param::Int(7).int_value(), 7);
    assert_eq!(Param::Text("x".to_string()).int_value(), 0);
    let list = Param::List(vec!["a".to_string(), "b".to_string()]);
    assert_eq!(list.list(), &["a".to_string(), "b".to_string()][..]);
    assert!(Param::Int(1).list().is_empty());
}

#[test]
fn params_are_made_from_their_values() {
    assert_eq!(Param::from("packsmith/function".to_string()).text(), "packsmith/function");
    assert_eq!(Param::from(1_i64).int_value(), 1);
    assert_eq!(Param::from(vec!["less_than".to_string(), "greater_than".to_string()]).list().len(), 2);
}

#[test]
fn legacy_execute_names_the_argument_that_moved_with_a_fix() {
    let r = render(&diag(
        codes::COMMAND_LEGACY_SYNTAX,
        vec![
            ("command", text("execute @e[type=zombie] ~ ~ ~ say boo")),
            ("selector", text("@e[type=zombie]")),
        ],
    ));
    assert_eq!(
        r.message,
        "The command \"execute @e[type=zombie] ~ ~ ~ say boo\" uses the older \"execute\" form, which this version of Minecraft no longer accepts: \"@e[type=zombie]\" can't come straight after \"execute\" any more; that argument moved."
    );
    assert_eq!(
        r.fix.as_deref(),
        Some("Put \"as\" (for a target) or \"positioned\" (for a position) before \"@e[type=zombie]\", and \"run\" before the command to run, as in \"execute as @e[type=zombie] at @s run say hi\".")
    );
    assert_ne!(r.message, "Something about this step isn't right.");
}

#[test]
fn invalid_command_names_the_word_that_fits_nowhere() {
    let r = render(&diag(
        codes::COMMAND_INVALID,
        vec![("command", text("gamemod creative")), ("token", text("gamemod"))],
    ));
    assert_eq!(
        r.message,
        "The command \"gamemod creative\" doesn't work in this version of Minecraft: \"gamemod\" doesn't fit where it stands."
    );
    assert_eq!(
        r.fix.as_deref(),
        Some("Check the spelling of \"gamemod\" and what the command takes at that point in this version.")
    );
}

#[test]
fn invalid_command_that_stops_early_says_so() {
    let r = render(&diag(codes::COMMAND_INVALID, vec![("command", text("give @p"))]));
    assert_eq!(
        r.message,
        "The command \"give @p\" stops before it is complete: the game expects more after its last word."
    );
    assert_eq!(r.fix.as_deref(), Some("Finish the command, or remove it."));
}
