//! The diagnostic message table: code plus facts in, wording out.
//!
//! Every user-facing sentence for a diagnostic is produced here and nowhere
//! else. The English is plain: the audience includes someone who has never
//! written code. Conditions an ordered-slot editor cannot represent (a forward
//! reference, a cycle) are the exception and are worded for a technical reader.
use vstd::prelude::*;

use crate::codes;
use crate::ir::{plookup, strs_view, param_get, Diagnostic, DiagV, Param, ParamV};
use crate::text::{owned, fmt_i64, dec_int, str_eq};

verus! {

/// A diagnostic's wording: the sentence, and a concrete fix when one is
/// knowable.
#[derive(Debug, PartialEq, Eq)]
pub struct Rendered {
    pub message: String,
    pub fix: Option<String>,
}

pub struct RenderedV {
    pub message: Seq<char>,
    pub fix: Option<Seq<char>>,
}

impl View for Rendered {
    type V = RenderedV;

    open spec fn view(&self) -> RenderedV {
        RenderedV { message: self.message@, fix: crate::ir::opt_view(self.fix) }
    }
}

pub type Facts = Seq<(Seq<char>, ParamV)>;

/// The text fact `k`, or the empty string.
pub open spec fn ptext(p: Facts, k: Seq<char>) -> Seq<char> {
    match plookup(p, k) {
        Some(ParamV::Text(s)) => s,
        _ => Seq::empty(),
    }
}

/// The number fact `k`, or `0`.
pub open spec fn pint(p: Facts, k: Seq<char>) -> int {
    match plookup(p, k) {
        Some(ParamV::Int(n)) => n,
        _ => 0,
    }
}

/// The list fact `k`, or the empty list.
pub open spec fn plist(p: Facts, k: Seq<char>) -> Seq<Seq<char>> {
    match plookup(p, k) {
        Some(ParamV::List(l)) => l,
        _ => Seq::empty(),
    }
}

/// `items` joined with `sep` between neighbours.
pub open spec fn join(items: Seq<Seq<char>>, sep: Seq<char>) -> Seq<char>
    decreases items.len(),
{
    if items.len() == 0 {
        Seq::empty()
    } else if items.len() == 1 {
        items[0]
    } else {
        join(items.drop_last(), sep) + sep + items.last()
    }
}

/// Each name in double quotes.
pub open spec fn quoted(names: Seq<Seq<char>>) -> Seq<Seq<char>> {
    Seq::new(names.len(), |i: int| "\""@ + names[i] + "\""@)
}

/// `"a"`, `"a" or "b"`, `"a", "b" or "c"`: each name quoted; `nothing` for
/// no names.
pub open spec fn or_list(names: Seq<Seq<char>>) -> Seq<char> {
    let q = quoted(names);
    if q.len() == 0 {
        "nothing"@
    } else if q.len() == 1 {
        q[0]
    } else {
        join(q.drop_last(), ", "@) + " or "@ + q.last()
    }
}

/// The noun phrase for the value a diagnostic points at, from its `label` and
/// an optional `scope` that places it inside a collection.
pub open spec fn subject(p: Facts) -> Seq<char> {
    let label = ptext(p, "label"@);
    let scope = ptext(p, "scope"@);
    if scope == "entry"@ {
        "An entry in "@ + label
    } else if scope == "item"@ {
        "An item in "@ + label
    } else if scope == "name"@ {
        "The item name in "@ + label
    } else {
        "The "@ + label
    }
}

/// A JSON value's kind, as the reader sees it.
pub open spec fn found_phrase(tag: Seq<char>) -> Seq<char> {
    if tag == "nothing"@ {
        "nothing"@
    } else if tag == "yes_no"@ {
        "a yes/no value"@
    } else if tag == "number"@ {
        "a number"@
    } else if tag == "list"@ {
        "a list"@
    } else if tag == "group"@ {
        "a group of settings"@
    } else {
        "text"@
    }
}

/// What a port will accept, from the port's type tag.
pub open spec fn expected_phrase(tag: Seq<char>) -> Seq<char> {
    if tag == "yes_no"@ {
        "a yes/no value"@
    } else if tag == "number"@ {
        "a number"@
    } else if tag == "whole_number"@ {
        "a whole number"@
    } else if tag == "item"@ {
        "an item, like minecraft:diamond"@
    } else if tag == "name"@ {
        "a name like minecraft:stone"@
    } else if tag == "id_list"@ {
        "a list of names"@
    } else if tag == "item_list"@ {
        "a list of items"@
    } else if tag == "choice"@ {
        "one of the choices"@
    } else {
        "text"@
    }
}

pub open spec fn rv(message: Seq<char>, fix: Option<Seq<char>>) -> RenderedV {
    RenderedV { message, fix }
}

pub open spec fn spec_block_unknown(p: Facts) -> RenderedV {
    rv(
        "There's no block called \""@ + ptext(p, "block"@) + "\"."@,
        Some("Check the name for a typo, or pick a block from the palette."@),
    )
}

pub open spec fn spec_input_missing(p: Facts) -> RenderedV {
    let block = ptext(p, "block"@);
    let label = ptext(p, "label"@);
    let fix = match plookup(p, "example"@) {
        Some(ex) => "Give the "@ + block + " a "@ + label
            + ", written namespace:name (for example \""@ + (match ex {
            ParamV::Text(s) => s,
            _ => Seq::empty(),
        }) + "\")."@,
        None => "Give the "@ + block + " a "@ + label + "."@,
    };
    rv("The "@ + block + " has no "@ + label + " set, and it needs one."@, Some(fix))
}

pub open spec fn spec_input_type(p: Facts) -> RenderedV {
    let subject = subject(p);
    let reason = ptext(p, "reason"@);
    if reason == "no_item"@ {
        rv(
            subject + " has no item set. An item needs at least a name."@,
            Some("Give it an item name like \"minecraft:diamond\"."@),
        )
    } else if reason == "bad_count"@ {
        rv(
            subject + " has a count that isn't a whole number."@,
            Some("Use a whole number like 1, or leave the count out."@),
        )
    } else {
        let found = found_phrase(ptext(p, "found"@));
        let expected = expected_phrase(ptext(p, "expected"@));
        rv(
            subject + " is "@ + found + ", but this step needs "@ + expected + "."@,
            Some("Enter "@ + expected + " here."@),
        )
    }
}

pub open spec fn spec_input_constraint(p: Facts) -> RenderedV {
    let label = ptext(p, "label"@);
    let value = ptext(p, "value"@);
    let reason = ptext(p, "reason"@);
    if reason == "int_min"@ {
        rv(
            "The "@ + label + " is "@ + dec_int(pint(p, "number"@)) + ", but it can't be less than "@
                + dec_int(pint(p, "min"@)) + "."@,
            Some("Use "@ + dec_int(pint(p, "min"@)) + " or more."@),
        )
    } else if reason == "int_max"@ {
        rv(
            "The "@ + label + " is "@ + dec_int(pint(p, "number"@)) + ", but it can't be more than "@
                + dec_int(pint(p, "max"@)) + "."@,
            Some("Use "@ + dec_int(pint(p, "max"@)) + " or less."@),
        )
    } else if reason == "enum"@ {
        let choices = join(plist(p, "choices"@), ", "@);
        rv(
            "The "@ + label + " is \""@ + value + "\", which isn't one of the choices: "@ + choices
                + "."@,
            Some("Use one of: "@ + choices + "."@),
        )
    } else if reason == "id_no_namespace"@ {
        rv(
            "\""@ + value
                + "\" is missing a namespace. Minecraft names look like \"minecraft:stone\" -- a prefix, a colon, then the name."@,
            Some("Try \"minecraft:"@ + ptext(p, "suggestion"@) + "\"."@),
        )
    } else if reason == "id_bad_chars"@ {
        rv(
            "\""@ + value + "\" isn't a valid name."@,
            Some("Use lower-case letters, numbers, and _ . - only, like \"minecraft:stone\"."@),
        )
    } else if reason == "id_tag_not_allowed"@ {
        rv(
            subject(p) + " is a tag, but this takes a single thing, not a tag."@,
            Some("Name one thing, without the leading #."@),
        )
    } else if reason == "count_below_one"@ {
        rv(
            subject(p) + " has a count below 1. You can't have less than one."@,
            Some("Use 1 or more, or leave the count out."@),
        )
    } else {
        rv("The "@ + label + " breaks one of its rules."@, None)
    }
}

pub open spec fn spec_slot_expects_statement(p: Facts) -> RenderedV {
    rv(
        "\""@ + ptext(p, "block"@)
            + "\" produces a value, so it can't be a step here. Steps happen in order; a value is wired into an input instead."@,
        Some("Connect this block into an input rather than placing it as a step."@),
    )
}

pub open spec fn spec_slot_rejects_block(p: Facts) -> RenderedV {
    let block = ptext(p, "block"@);
    if ptext(p, "reason"@) == "needs_parent"@ {
        let parent = ptext(p, "parent"@);
        rv(
            "A "@ + block + " can't sit on its own at the top level -- it has to be inside a "@
                + parent + "."@,
            Some(
                "Put this "@ + block + " inside a "@ + parent + "'s steps, or wrap it in a "@ + parent
                    + "."@,
            ),
        )
    } else {
        let accepts = or_list(plist(p, "accepts"@));
        rv(
            "A \""@ + block + "\" step can't go here; this slot only takes "@ + accepts + "."@,
            Some("Move the \""@ + block + "\" step out, or replace it with "@ + accepts + "."@),
        )
    }
}

pub open spec fn spec_edge_unknown_node(p: Facts) -> RenderedV {
    let node = ptext(p, "node"@);
    let message = if ptext(p, "role"@) == "target"@ {
        "A connection feeds a step called \""@ + node + "\" that isn't in this project."@
    } else {
        "A connection reads from a step called \""@ + node + "\" that isn't in this project."@
    };
    rv(message, Some("Delete the dangling connection, or restore the missing step."@))
}

pub open spec fn spec_edge_forward_reference(p: Facts) -> RenderedV {
    let from = ptext(p, "from"@);
    rv(
        "The connection from \""@ + from + "\" is a forward reference: \""@ + from
            + "\" is ordered after the step that reads it. Ordered slots make this unrepresentable in the editor, so it came from hand-editing or the CLI."@,
        Some("Reorder so \""@ + from + "\" comes before the step that reads it."@),
    )
}

pub open spec fn spec_edge_cycle(p: Facts) -> RenderedV {
    rv(
        "The connections form a cycle: "@ + join(plist(p, "cycle"@), " -> "@)
            + ". Ordered slots make this unrepresentable in the editor, so it came from hand-editing or the CLI."@,
        Some("Remove one of the connections in the cycle."@),
    )
}

pub open spec fn spec_command_invalid(p: Facts) -> RenderedV {
    let command = ptext(p, "command"@);
    match plookup(p, "token"@) {
        Some(ParamV::Text(token)) => rv(
            "The command \""@ + command + "\" doesn't work in this version of Minecraft: \""@
                + token + "\" doesn't fit where it stands."@,
            Some(
                "Check the spelling of \""@ + token
                    + "\" and what the command takes at that point in this version."@,
            ),
        ),
        _ => rv(
            "The command \""@ + command
                + "\" stops before it is complete: the game expects more after its last word."@,
            Some("Finish the command, or remove it."@),
        ),
    }
}

pub open spec fn spec_command_legacy_syntax(p: Facts) -> RenderedV {
    let command = ptext(p, "command"@);
    let selector = ptext(p, "selector"@);
    rv(
        "The command \""@ + command
            + "\" uses the older \"execute\" form, which this version of Minecraft no longer accepts: \""@
            + selector + "\" can't come straight after \"execute\" any more; that argument moved."@,
        Some(
            "Put \"as\" (for a target) or \"positioned\" (for a position) before \""@ + selector
                + "\", and \"run\" before the command to run, as in \"execute as "@ + selector
                + " at @s run say hi\"."@,
        ),
    )
}

/// The wording of a diagnostic: chosen by its code, filled from its facts. An
/// unknown or absent code renders a neutral sentence and no fix.
pub open spec fn spec_render(d: DiagV) -> RenderedV {
    let p = d.params;
    match d.code {
        Some(c) => if c == codes::BLOCK_UNKNOWN@ {
            spec_block_unknown(p)
        } else if c == codes::INPUT_MISSING@ {
            spec_input_missing(p)
        } else if c == codes::INPUT_TYPE@ {
            spec_input_type(p)
        } else if c == codes::INPUT_CONSTRAINT@ {
            spec_input_constraint(p)
        } else if c == codes::SLOT_EXPECTS_STATEMENT@ {
            spec_slot_expects_statement(p)
        } else if c == codes::SLOT_REJECTS_BLOCK@ {
            spec_slot_rejects_block(p)
        } else if c == codes::EDGE_UNKNOWN_NODE@ {
            spec_edge_unknown_node(p)
        } else if c == codes::EDGE_FORWARD_REFERENCE@ {
            spec_edge_forward_reference(p)
        } else if c == codes::EDGE_CYCLE@ {
            spec_edge_cycle(p)
        } else if c == codes::COMMAND_INVALID@ {
            spec_command_invalid(p)
        } else if c == codes::COMMAND_LEGACY_SYNTAX@ {
            spec_command_legacy_syntax(p)
        } else {
            neutral()
        },
        None => neutral(),
    }
}

pub open spec fn neutral() -> RenderedV {
    rv("Something about this step isn't right."@, None)
}

/// Render `diagnostic` to the wording shown to the user. Never fails: an
/// unknown or absent code still renders a sentence.
pub fn render(diagnostic: &Diagnostic) -> (r: Rendered)
    ensures
        r@ == spec_render(diagnostic@),
{
    let p = &diagnostic.params;
    match &diagnostic.code {
        Some(c) => {
            let c = c.as_str();
            if str_eq(c, codes::BLOCK_UNKNOWN) {
                block_unknown(p)
            } else if str_eq(c, codes::INPUT_MISSING) {
                input_missing(p)
            } else if str_eq(c, codes::INPUT_TYPE) {
                input_type(p)
            } else if str_eq(c, codes::INPUT_CONSTRAINT) {
                input_constraint(p)
            } else if str_eq(c, codes::SLOT_EXPECTS_STATEMENT) {
                slot_expects_statement(p)
            } else if str_eq(c, codes::SLOT_REJECTS_BLOCK) {
                slot_rejects_block(p)
            } else if str_eq(c, codes::EDGE_UNKNOWN_NODE) {
                edge_unknown_node(p)
            } else if str_eq(c, codes::EDGE_FORWARD_REFERENCE) {
                edge_forward_reference(p)
            } else if str_eq(c, codes::EDGE_CYCLE) {
                edge_cycle(p)
            } else if str_eq(c, codes::COMMAND_INVALID) {
                command_invalid(p)
            } else if str_eq(c, codes::COMMAND_LEGACY_SYNTAX) {
                command_legacy_syntax(p)
            } else {
                neutral_rendered()
            }
        },
        None => neutral_rendered(),
    }
}

fn neutral_rendered() -> (r: Rendered)
    ensures
        r@ == neutral(),
{
    Rendered { message: owned("Something about this step isn't right."), fix: None }
}

fn text<'a>(p: &'a Vec<(String, Param)>, key: &str) -> (r: &'a str)
    ensures
        r@ == ptext(crate::ir::params_view(p@), key@),
{
    match param_get(p, key) {
        Some(v) => v.text(),
        None => {
            proof {
                reveal_strlit("");
            }
            ""
        },
    }
}

fn int_of(p: &Vec<(String, Param)>, key: &str) -> (r: i64)
    ensures
        r == pint(crate::ir::params_view(p@), key@),
{
    match param_get(p, key) {
        Some(v) => v.int_value(),
        None => 0,
    }
}

fn list<'a>(p: &'a Vec<(String, Param)>, key: &str) -> (r: &'a [String])
    ensures
        strs_view(r@) == plist(crate::ir::params_view(p@), key@),
{
    match param_get(p, key) {
        Some(v) => v.list(),
        None => {
            let empty: &[String] = &[];
            assert(strs_view(empty@) =~= Seq::<Seq<char>>::empty());
            empty
        },
    }
}

/// `items` joined with `sep`.
pub fn join_strings(items: &[String], sep: &str) -> (r: String)
    ensures
        r@ == join(strs_view(items@), sep@),
{
    let ghost v = strs_view(items@);
    let mut r = String::new();
    let mut i: usize = 0;
    while i < items.len()
        invariant
            i <= items@.len(),
            v == strs_view(items@),
            r@ == join(v.take(i as int), sep@),
        decreases items@.len() - i,
    {
        if i != 0 {
            r.append(sep);
        }
        r.append(items[i].as_str());
        proof {
            assert(v.take(i + 1).drop_last() =~= v.take(i as int));
        }
        i = i + 1;
    }
    assert(v.take(items@.len() as int) =~= v);
    r
}

fn or_list_exec(names: &[String]) -> (r: String)
    ensures
        r@ == or_list(strs_view(names@)),
{
    let ghost q = quoted(strs_view(names@));
    let mut quotedv: Vec<String> = Vec::new();
    let mut i: usize = 0;
    while i < names.len()
        invariant
            i <= names@.len(),
            q == quoted(strs_view(names@)),
            quotedv@.len() == i,
            forall|k: int| 0 <= k < i ==> (#[trigger] quotedv@[k])@ == q[k],
        decreases names@.len() - i,
    {
        let mut s = owned("\"");
        s.append(names[i].as_str());
        s.append("\"");
        quotedv.push(s);
        i = i + 1;
    }
    assert(strs_view(quotedv@) =~= q);
    let n = quotedv.len();
    if n == 0 {
        owned("nothing")
    } else if n == 1 {
        crate::text::copy_string(&quotedv[0])
    } else {
        let last = crate::text::copy_string(&quotedv[n - 1]);
        let head = quotedv.split_off(n - 1);
        proof {
            assert(strs_view(quotedv@) =~= q.drop_last());
        }
        let mut r = join_strings(quotedv.as_slice(), ", ");
        r.append(" or ");
        r.append(last.as_str());
        r
    }
}

fn subject_exec(p: &Vec<(String, Param)>) -> (r: String)
    ensures
        r@ == subject(crate::ir::params_view(p@)),
{
    let label = text(p, "label");
    let scope = text(p, "scope");
    let mut r = if str_eq(scope, "entry") {
        owned("An entry in ")
    } else if str_eq(scope, "item") {
        owned("An item in ")
    } else if str_eq(scope, "name") {
        owned("The item name in ")
    } else {
        owned("The ")
    };
    r.append(label);
    r
}

fn found_phrase_exec(tag: &str) -> (r: &'static str)
    ensures
        r@ == found_phrase(tag@),
{
    if str_eq(tag, "nothing") {
        "nothing"
    } else if str_eq(tag, "yes_no") {
        "a yes/no value"
    } else if str_eq(tag, "number") {
        "a number"
    } else if str_eq(tag, "list") {
        "a list"
    } else if str_eq(tag, "group") {
        "a group of settings"
    } else {
        "text"
    }
}

fn expected_phrase_exec(tag: &str) -> (r: &'static str)
    ensures
        r@ == expected_phrase(tag@),
{
    if str_eq(tag, "yes_no") {
        "a yes/no value"
    } else if str_eq(tag, "number") {
        "a number"
    } else if str_eq(tag, "whole_number") {
        "a whole number"
    } else if str_eq(tag, "item") {
        "an item, like minecraft:diamond"
    } else if str_eq(tag, "name") {
        "a name like minecraft:stone"
    } else if str_eq(tag, "id_list") {
        "a list of names"
    } else if str_eq(tag, "item_list") {
        "a list of items"
    } else if str_eq(tag, "choice") {
        "one of the choices"
    } else {
        "text"
    }
}

fn block_unknown(p: &Vec<(String, Param)>) -> (r: Rendered)
    ensures
        r@ == spec_block_unknown(crate::ir::params_view(p@)),
{
    let mut m = owned("There's no block called \"");
    m.append(text(p, "block"));
    m.append("\".");
    Rendered {
        message: m,
        fix: Some(owned("Check the name for a typo, or pick a block from the palette.")),
    }
}

fn input_missing(p: &Vec<(String, Param)>) -> (r: Rendered)
    ensures
        r@ == spec_input_missing(crate::ir::params_view(p@)),
{
    let block = text(p, "block");
    let label = text(p, "label");
    let mut fix = owned("Give the ");
    fix.append(block);
    fix.append(" a ");
    fix.append(label);
    match param_get(p, "example") {
        Some(example) => {
            fix.append(", written namespace:name (for example \"");
            fix.append(example.text());
            fix.append("\").");
        },
        None => {
            fix.append(".");
        },
    }
    let mut m = owned("The ");
    m.append(block);
    m.append(" has no ");
    m.append(label);
    m.append(" set, and it needs one.");
    Rendered { message: m, fix: Some(fix) }
}

fn input_type(p: &Vec<(String, Param)>) -> (r: Rendered)
    ensures
        r@ == spec_input_type(crate::ir::params_view(p@)),
{
    let mut m = subject_exec(p);
    let reason = text(p, "reason");
    if str_eq(reason, "no_item") {
        m.append(" has no item set. An item needs at least a name.");
        Rendered { message: m, fix: Some(owned("Give it an item name like \"minecraft:diamond\".")) }
    } else if str_eq(reason, "bad_count") {
        m.append(" has a count that isn't a whole number.");
        Rendered {
            message: m,
            fix: Some(owned("Use a whole number like 1, or leave the count out.")),
        }
    } else {
        let found = found_phrase_exec(text(p, "found"));
        let expected = expected_phrase_exec(text(p, "expected"));
        m.append(" is ");
        m.append(found);
        m.append(", but this step needs ");
        m.append(expected);
        m.append(".");
        let mut fix = owned("Enter ");
        fix.append(expected);
        fix.append(" here.");
        Rendered { message: m, fix: Some(fix) }
    }
}

fn bound_sentence(label: &str, number: i64, bound: i64, relation: &str, advice: &str) -> (r:
    Rendered)
    ensures
        r@ == rv(
            "The "@ + label@ + " is "@ + dec_int(number as int) + relation@ + dec_int(bound as int)
                + "."@,
            Some("Use "@ + dec_int(bound as int) + advice@),
        ),
{
    let mut m = owned("The ");
    m.append(label);
    m.append(" is ");
    m.append(fmt_i64(number).as_str());
    m.append(relation);
    let b = fmt_i64(bound);
    m.append(b.as_str());
    m.append(".");
    let mut fix = owned("Use ");
    fix.append(b.as_str());
    fix.append(advice);
    Rendered { message: m, fix: Some(fix) }
}

fn input_constraint(p: &Vec<(String, Param)>) -> (r: Rendered)
    ensures
        r@ == spec_input_constraint(crate::ir::params_view(p@)),
{
    let label = text(p, "label");
    let value = text(p, "value");
    let reason = text(p, "reason");
    if str_eq(reason, "int_min") {
        bound_sentence(label, int_of(p, "number"), int_of(p, "min"), ", but it can't be less than ", " or more.")
    } else if str_eq(reason, "int_max") {
        bound_sentence(label, int_of(p, "number"), int_of(p, "max"), ", but it can't be more than ", " or less.")
    } else if str_eq(reason, "enum") {
        let choices = join_strings(list(p, "choices"), ", ");
        let mut m = owned("The ");
        m.append(label);
        m.append(" is \"");
        m.append(value);
        m.append("\", which isn't one of the choices: ");
        m.append(choices.as_str());
        m.append(".");
        let mut fix = owned("Use one of: ");
        fix.append(choices.as_str());
        fix.append(".");
        Rendered { message: m, fix: Some(fix) }
    } else if str_eq(reason, "id_no_namespace") {
        let mut m = owned("\"");
        m.append(value);
        m.append(
            "\" is missing a namespace. Minecraft names look like \"minecraft:stone\" -- a prefix, a colon, then the name.",
        );
        let mut fix = owned("Try \"minecraft:");
        fix.append(text(p, "suggestion"));
        fix.append("\".");
        Rendered { message: m, fix: Some(fix) }
    } else if str_eq(reason, "id_bad_chars") {
        let mut m = owned("\"");
        m.append(value);
        m.append("\" isn't a valid name.");
        Rendered {
            message: m,
            fix: Some(
                owned("Use lower-case letters, numbers, and _ . - only, like \"minecraft:stone\"."),
            ),
        }
    } else if str_eq(reason, "id_tag_not_allowed") {
        let mut m = subject_exec(p);
        m.append(" is a tag, but this takes a single thing, not a tag.");
        Rendered { message: m, fix: Some(owned("Name one thing, without the leading #.")) }
    } else if str_eq(reason, "count_below_one") {
        let mut m = subject_exec(p);
        m.append(" has a count below 1. You can't have less than one.");
        Rendered { message: m, fix: Some(owned("Use 1 or more, or leave the count out.")) }
    } else {
        let mut m = owned("The ");
        m.append(label);
        m.append(" breaks one of its rules.");
        Rendered { message: m, fix: None }
    }
}

fn slot_expects_statement(p: &Vec<(String, Param)>) -> (r: Rendered)
    ensures
        r@ == spec_slot_expects_statement(crate::ir::params_view(p@)),
{
    let mut m = owned("\"");
    m.append(text(p, "block"));
    m.append(
        "\" produces a value, so it can't be a step here. Steps happen in order; a value is wired into an input instead.",
    );
    Rendered {
        message: m,
        fix: Some(owned("Connect this block into an input rather than placing it as a step.")),
    }
}

fn slot_rejects_block(p: &Vec<(String, Param)>) -> (r: Rendered)
    ensures
        r@ == spec_slot_rejects_block(crate::ir::params_view(p@)),
{
    let block = text(p, "block");
    if str_eq(text(p, "reason"), "needs_parent") {
        let parent = text(p, "parent");
        let mut m = owned("A ");
        m.append(block);
        m.append(" can't sit on its own at the top level -- it has to be inside a ");
        m.append(parent);
        m.append(".");
        let mut fix = owned("Put this ");
        fix.append(block);
        fix.append(" inside a ");
        fix.append(parent);
        fix.append("'s steps, or wrap it in a ");
        fix.append(parent);
        fix.append(".");
        Rendered { message: m, fix: Some(fix) }
    } else {
        let accepts = or_list_exec(list(p, "accepts"));
        let mut m = owned("A \"");
        m.append(block);
        m.append("\" step can't go here; this slot only takes ");
        m.append(accepts.as_str());
        m.append(".");
        let mut fix = owned("Move the \"");
        fix.append(block);
        fix.append("\" step out, or replace it with ");
        fix.append(accepts.as_str());
        fix.append(".");
        Rendered { message: m, fix: Some(fix) }
    }
}

fn edge_unknown_node(p: &Vec<(String, Param)>) -> (r: Rendered)
    ensures
        r@ == spec_edge_unknown_node(crate::ir::params_view(p@)),
{
    let node = text(p, "node");
    let mut m = if str_eq(text(p, "role"), "target") {
        owned("A connection feeds a step called \"")
    } else {
        owned("A connection reads from a step called \"")
    };
    m.append(node);
    m.append("\" that isn't in this project.");
    Rendered {
        message: m,
        fix: Some(owned("Delete the dangling connection, or restore the missing step.")),
    }
}

fn edge_forward_reference(p: &Vec<(String, Param)>) -> (r: Rendered)
    ensures
        r@ == spec_edge_forward_reference(crate::ir::params_view(p@)),
{
    let from = text(p, "from");
    let mut m = owned("The connection from \"");
    m.append(from);
    m.append("\" is a forward reference: \"");
    m.append(from);
    m.append(
        "\" is ordered after the step that reads it. Ordered slots make this unrepresentable in the editor, so it came from hand-editing or the CLI.",
    );
    let mut fix = owned("Reorder so \"");
    fix.append(from);
    fix.append("\" comes before the step that reads it.");
    Rendered { message: m, fix: Some(fix) }
}

fn edge_cycle(p: &Vec<(String, Param)>) -> (r: Rendered)
    ensures
        r@ == spec_edge_cycle(crate::ir::params_view(p@)),
{
    let mut m = owned("The connections form a cycle: ");
    m.append(join_strings(list(p, "cycle"), " -> ").as_str());
    m.append(
        ". Ordered slots make this unrepresentable in the editor, so it came from hand-editing or the CLI.",
    );
    Rendered { message: m, fix: Some(owned("Remove one of the connections in the cycle.")) }
}


fn command_invalid(p: &Vec<(String, Param)>) -> (r: Rendered)
    ensures
        r@ == spec_command_invalid(crate::ir::params_view(p@)),
{
    let command = text(p, "command");
    let mut m = owned("The command \"");
    m.append(command);
    match param_get(p, "token") {
        Some(Param::Text(token)) => {
            m.append("\" doesn't work in this version of Minecraft: \"");
            m.append(token.as_str());
            m.append("\" doesn't fit where it stands.");
            let mut fix = owned("Check the spelling of \"");
            fix.append(token.as_str());
            fix.append("\" and what the command takes at that point in this version.");
            Rendered { message: m, fix: Some(fix) }
        },
        _ => {
            m.append("\" stops before it is complete: the game expects more after its last word.");
            Rendered { message: m, fix: Some(owned("Finish the command, or remove it.")) }
        },
    }
}

fn command_legacy_syntax(p: &Vec<(String, Param)>) -> (r: Rendered)
    ensures
        r@ == spec_command_legacy_syntax(crate::ir::params_view(p@)),
{
    let command = text(p, "command");
    let selector = text(p, "selector");
    let mut m = owned("The command \"");
    m.append(command);
    m.append(
        "\" uses the older \"execute\" form, which this version of Minecraft no longer accepts: \"",
    );
    m.append(selector);
    m.append("\" can't come straight after \"execute\" any more; that argument moved.");
    let mut fix = owned("Put \"as\" (for a target) or \"positioned\" (for a position) before \"");
    fix.append(selector);
    fix.append("\", and \"run\" before the command to run, as in \"execute as ");
    fix.append(selector);
    fix.append(" at @s run say hi\".");
    Rendered { message: m, fix: Some(fix) }
}

/// A diagnostic with no code, or with a code the message table does not
/// know, still renders: a neutral sentence and no fix.
pub proof fn law_unknown_code_renders_neutrally(d: DiagV)
    requires
        match d.code {
            Some(c) => c != codes::BLOCK_UNKNOWN@ && c != codes::INPUT_MISSING@ && c != codes::INPUT_TYPE@
                && c != codes::INPUT_CONSTRAINT@ && c != codes::SLOT_EXPECTS_STATEMENT@ && c
                != codes::SLOT_REJECTS_BLOCK@ && c != codes::EDGE_UNKNOWN_NODE@ && c
                != codes::EDGE_FORWARD_REFERENCE@ && c != codes::EDGE_CYCLE@ && c
                != codes::COMMAND_INVALID@ && c != codes::COMMAND_LEGACY_SYNTAX@,
            None => true,
        },
    ensures
        spec_render(d) == neutral(),
        spec_render(d).message.len() > 0,
        spec_render(d).fix is None,
{
    reveal_strlit("Something about this step isn't right.");
}
} // verus!
