//! Command-grammar validation, the last compiler stage: every command line of
//! the IR is walked against the target's command tree.
//!
//! This checks the shape of a line, not its arguments: is the first word a
//! command, are the subcommands spelled and nested right, does the line
//! finish. A line is rejected only when a token can match no child of the
//! current tree node, or when it stops where the tree is not executable.
//! Blank lines and `#` comment lines are skipped, as the game skips them.
use vstd::prelude::*;

use crate::codes;
use crate::ir::{
    commands_view, diags_view, param_insert, params_view, pinsert, resources_view, AddrV, BodyV,
    Body, Command, CommandV, DiagV, Diagnostic, Param, ParamV, Resource, ResourceV, Severity,
    StatementAddress, copy_address, error_diagnostic, pkey_from, plookup, strs_view,
};
use crate::json::{
    eviews, jarr, jbool, jget, jobj, jstr, jview, jviews, lemma_object_view, obj_get, JVal, Json,
};
use crate::mcversion::TargetData;
use crate::message::{ptext, spec_command_invalid, spec_command_legacy_syntax, spec_render};
use crate::text::{chars_of, is_whitespace, is_ws, owned, str_eq, string_of};

verus! {

// ---------------------------------------------------------------------------
// Splitting a line
// ---------------------------------------------------------------------------
/// The number of leading whitespace characters of `s` from `from` on.
pub open spec fn lead_from(s: Seq<char>, from: int) -> int
    decreases s.len() - from,
{
    if from < 0 || from >= s.len() || !is_ws(s[from]) {
        from
    } else {
        lead_from(s, from + 1)
    }
}

/// The end of `s[..to]` without its trailing whitespace.
pub open spec fn trail_to(s: Seq<char>, lo: int, to: int) -> int
    decreases to - lo,
{
    if to <= lo || !is_ws(s[to - 1]) {
        to
    } else {
        trail_to(s, lo, to - 1)
    }
}

/// `s` without leading and trailing whitespace.
pub open spec fn trim(s: Seq<char>) -> Seq<char> {
    let lo = lead_from(s, 0);
    s.subrange(lo, trail_to(s, lo, s.len() as int))
}

/// The end of the word that starts at `from`.
pub open spec fn word_end(s: Seq<char>, from: int) -> int
    decreases s.len() - from,
{
    if from < 0 || from >= s.len() || is_ws(s[from]) {
        from
    } else {
        word_end(s, from + 1)
    }
}

/// The whitespace-separated words of `s` from `from` on, none empty.
pub open spec fn words_from(s: Seq<char>, from: int) -> Seq<Seq<char>>
    decreases s.len() - from, 1int,
{
    if from < 0 || from >= s.len() {
        Seq::empty()
    } else if is_ws(s[from]) {
        words_from(s, from + 1)
    } else {
        let end = word_end(s, from);
        proof {
            lemma_word_end(s, from);
        }
        seq![s.subrange(from, end)] + words_from(s, end)
    }
}

pub proof fn lemma_lead_from(s: Seq<char>, from: int)
    requires
        0 <= from <= s.len(),
    ensures
        from <= lead_from(s, from) <= s.len(),
    decreases s.len() - from,
{
    if from < s.len() && is_ws(s[from]) {
        lemma_lead_from(s, from + 1);
    }
}

pub proof fn lemma_trail_to(s: Seq<char>, lo: int, to: int)
    requires
        0 <= lo <= to <= s.len(),
    ensures
        lo <= trail_to(s, lo, to) <= to,
    decreases to - lo,
{
    if to > lo && is_ws(s[to - 1]) {
        lemma_trail_to(s, lo, to - 1);
    }
}

pub proof fn lemma_word_end(s: Seq<char>, from: int)
    requires
        0 <= from < s.len(),
        !is_ws(s[from]),
    ensures
        from < word_end(s, from) <= s.len(),
{
    lemma_word_end_le(s, from + 1);
}

pub proof fn lemma_word_end_le(s: Seq<char>, from: int)
    requires
        0 <= from <= s.len(),
    ensures
        from <= word_end(s, from) <= s.len(),
    decreases s.len() - from,
{
    if from < s.len() && !is_ws(s[from]) {
        lemma_word_end_le(s, from + 1);
    }
}

/// The characters of `line` without leading and trailing whitespace.
fn trim_chars(line: &str) -> (r: Vec<char>)
    ensures
        r@ == trim(line@),
{
    let cs = chars_of(line);
    let mut lo: usize = 0;
    while lo < cs.len() && is_whitespace(cs[lo])
        invariant
            lo <= cs@.len(),
            cs@ == line@,
            lead_from(cs@, 0) == lead_from(cs@, lo as int),
        decreases cs@.len() - lo,
    {
        lo = lo + 1;
    }
    let mut hi: usize = cs.len();
    while hi > lo && is_whitespace(cs[hi - 1])
        invariant
            lo <= hi <= cs@.len(),
            cs@ == line@,
            trail_to(cs@, lo as int, cs@.len() as int) == trail_to(cs@, lo as int, hi as int),
        decreases hi - lo,
    {
        hi = hi - 1;
    }
    let mut r: Vec<char> = Vec::new();
    let mut k = lo;
    while k < hi
        invariant
            lo <= k <= hi <= cs@.len(),
            r@ == cs@.subrange(lo as int, k as int),
        decreases hi - k,
    {
        r.push(cs[k]);
        k = k + 1;
    }
    r
}

/// The whitespace-separated words of `cs`.
fn split_words(cs: &Vec<char>) -> (r: Vec<String>)
    ensures
        strs_view(r@) == words_from(cs@, 0),
{
    let mut out: Vec<String> = Vec::new();
    let mut i: usize = 0;
    assert(strs_view(out@) =~= Seq::empty());
    assert(words_from(cs@, 0) == strs_view(out@) + words_from(cs@, 0));
    while i < cs.len()
        invariant
            i <= cs@.len(),
            words_from(cs@, 0) == strs_view(out@) + words_from(cs@, i as int),
        decreases cs@.len() - i,
    {
        if is_whitespace(cs[i]) {
            i = i + 1;
        } else {
            let start = i;
            while i < cs.len() && !is_whitespace(cs[i])
                invariant
                    start <= i <= cs@.len(),
                    word_end(cs@, start as int) == word_end(cs@, i as int),
                decreases cs@.len() - i,
            {
                i = i + 1;
            }
            proof {
                lemma_word_end(cs@, start as int);
            }
            let w = string_of(cs, start, i);
            let ghost before = strs_view(out@);
            out.push(w);
            assert(strs_view(out@) =~= before.push(cs@.subrange(start as int, i as int)));
            assert(words_from(cs@, start as int) == seq![cs@.subrange(start as int, i as int)]
                + words_from(cs@, i as int));
            assert(before + words_from(cs@, start as int) =~= strs_view(out@) + words_from(
                cs@,
                i as int,
            ));
        }
    }
    assert(strs_view(out@) + words_from(cs@, i as int) =~= strs_view(out@));
    out
}

// ---------------------------------------------------------------------------
// The tree walk: specification
// ---------------------------------------------------------------------------
/// Why a command line did not parse: the word that matched nothing (`None`
/// when the line stopped early), and the selector of a pre-1.13 `execute`.
pub struct RejectV {
    pub token: Option<Seq<char>>,
    pub legacy_selector: Option<Seq<char>>,
}

pub open spec fn str_at(v: JVal, key: Seq<char>) -> Option<Seq<char>> {
    match jget(v, key) {
        Some(x) => jstr(x),
        None => None,
    }
}

/// A node's `type`, or the empty string.
pub open spec fn node_type(v: JVal) -> Seq<char> {
    match str_at(v, "type"@) {
        Some(s) => s,
        None => Seq::empty(),
    }
}

/// Whether a command may end at this node.
pub open spec fn executable(v: JVal) -> bool {
    match jget(v, "executable"@) {
        Some(x) => jbool(x) == Some(true),
        None => false,
    }
}

/// A node's children, when it has a `children` object.
pub open spec fn children(v: JVal) -> Option<Seq<(Seq<char>, JVal)>> {
    match jget(v, "children"@) {
        Some(x) => jobj(x),
        None => None,
    }
}

/// The string entries of a list, in order.
pub open spec fn string_entries(items: Seq<JVal>) -> Seq<Seq<char>>
    decreases items.len(),
{
    if items.len() == 0 {
        Seq::empty()
    } else {
        let rest = string_entries(items.drop_last());
        match items.last() {
            JVal::Str(s) => rest.push(s),
            _ => rest,
        }
    }
}

/// The node at `path` from `node`, following `children` one segment at a time.
pub open spec fn resolve_from(node: JVal, path: Seq<Seq<char>>, i: int) -> Option<JVal>
    decreases path.len() - i,
{
    if i < 0 || i >= path.len() {
        Some(node)
    } else {
        match jget(node, "children"@) {
            Some(c) => match jget(c, path[i]) {
                Some(next) => resolve_from(next, path, i + 1),
                None => None,
            },
            None => None,
        }
    }
}

/// The node whose children and executability govern the next step: a
/// `redirect` target, or the root for a childless, non-executable literal
/// (`execute ... run`).
pub open spec fn effective(root: JVal, node: JVal) -> JVal {
    let redirected = match jget(node, "redirect"@) {
        Some(r) => match jarr(r) {
            Some(items) => resolve_from(root, string_entries(items), 0),
            None => None,
        },
        None => None,
    };
    match redirected {
        Some(target) => target,
        None => if node_type(node) == "literal"@ && !executable(node) && (match children(node) {
            Some(c) => c.len() == 0,
            None => true,
        }) {
            root
        } else {
            node
        },
    }
}

/// A node that offers both `as` and `run`: `execute`.
pub open spec fn looks_like_execute(v: JVal) -> bool {
    match children(v) {
        Some(c) => obj_get(c, "as"@) is Some && obj_get(c, "run"@) is Some,
        None => false,
    }
}

/// A selector or a position: the first word of a pre-1.13 `execute` body.
pub open spec fn is_positional(t: Seq<char>) -> bool {
    t.len() > 0 && (t[0] == '@' || t[0] == '~' || t[0] == '^')
}

pub open spec fn reject(node: JVal, parts: Seq<Seq<char>>, i: int) -> RejectV {
    let token = parts[i];
    RejectV {
        token: Some(token),
        legacy_selector: if looks_like_execute(node) && is_positional(token) {
            Some(token)
        } else {
            None
        },
    }
}

/// A node's parser, or the empty string.
pub open spec fn parser(v: JVal) -> Seq<char> {
    match str_at(v, "parser"@) {
        Some(s) => s,
        None => Seq::empty(),
    }
}

/// How many words an argument consumes: three for a position, two for a pair,
/// otherwise one; no more than remain and at least one.
pub open spec fn arg_span(v: JVal, remaining: int) -> int {
    let p = parser(v);
    let want: int = if p == "minecraft:vec3"@ || p == "minecraft:block_pos"@ {
        3
    } else if p == "minecraft:vec2"@ || p == "minecraft:rotation"@ || p == "minecraft:column_pos"@ {
        2
    } else {
        1
    };
    let m: int = if want < remaining {
        want
    } else {
        remaining
    };
    if m < 1 {
        1
    } else {
        m
    }
}

/// Parsers whose value can hold spaces or nested brackets: the rest of the
/// line is consumed and accepted.
pub open spec fn greedy_accept(v: JVal) -> bool {
    let p = parser(v);
    ||| p == "minecraft:message"@
    ||| p == "minecraft:component"@
    ||| p == "minecraft:style"@
    ||| p == "minecraft:nbt_compound_tag"@
    ||| p == "minecraft:nbt_tag"@
    ||| p == "minecraft:nbt_path"@
    ||| p == "minecraft:particle"@
    ||| p == "minecraft:item_stack"@
    ||| p == "minecraft:item_predicate"@
    ||| p == "minecraft:block_state"@
    ||| p == "minecraft:block_predicate"@
    ||| p == "minecraft:dialog"@
    ||| (p == "brigadier:string"@ && (match jget(v, "properties"@) {
        Some(props) => str_at(props, "type"@) == Some("greedy"@),
        None => false,
    }))
}

/// Walk `parts[i..]` from `node`. Literals win over arguments and a matched
/// literal is committed to; otherwise each argument child is tried in order
/// and the first success wins, else the first failure is reported.
pub open spec fn walk(root: JVal, node: JVal, parts: Seq<Seq<char>>, i: int) -> Result<(), RejectV>
    decreases parts.len() - i, 1int, 0int,
{
    let node = effective(root, node);
    if i < 0 || i >= parts.len() {
        if executable(node) {
            Ok(())
        } else {
            Err(RejectV { token: None, legacy_selector: None })
        }
    } else {
        match children(node) {
            None => Err(reject(node, parts, i)),
            Some(c) => match obj_get(c, parts[i]) {
                Some(child) => if node_type(child) == "literal"@ {
                    walk(root, child, parts, i + 1)
                } else {
                    walk_args(root, node, c, 0, parts, i, None)
                },
                None => walk_args(root, node, c, 0, parts, i, None),
            },
        }
    }
}

/// Try the argument children of `node` from index `k` on.
pub open spec fn walk_args(
    root: JVal,
    node: JVal,
    c: Seq<(Seq<char>, JVal)>,
    k: int,
    parts: Seq<Seq<char>>,
    i: int,
    first: Option<RejectV>,
) -> Result<(), RejectV>
    decreases parts.len() - i, 0int, c.len() - k,
{
    if k < 0 || k >= c.len() || i < 0 || i >= parts.len() {
        Err(
            match first {
                Some(r) => r,
                None => reject(node, parts, i),
            },
        )
    } else {
        let child = c[k].1;
        if node_type(child) != "argument"@ {
            walk_args(root, node, c, k + 1, parts, i, first)
        } else if greedy_accept(child) {
            Ok(())
        } else {
            let span = arg_span(child, parts.len() - i);
            match walk(root, child, parts, i + span) {
                Ok(()) => Ok(()),
                Err(r) => walk_args(
                    root,
                    node,
                    c,
                    k + 1,
                    parts,
                    i,
                    match first {
                        Some(f) => Some(f),
                        None => Some(r),
                    },
                ),
            }
        }
    }
}

/// The argument parsers whose value may hold spaces or nested brackets (chat
/// components, messages, NBT, block states, item stacks, particles, dialogs,
/// and greedy strings): such an argument takes everything left on the line.
pub open spec fn rest_of_line_argument(v: JVal) -> bool {
    let p = parser(v);
    let greedy_string = match jget(v, "properties"@) {
        Some(props) => str_at(props, "type"@) == Some("greedy"@),
        None => false,
    };
    &&& node_type(v) == "argument"@
    &&& (p == "minecraft:message"@ || p == "minecraft:component"@ || p == "minecraft:style"@ || p
        == "minecraft:nbt_compound_tag"@ || p == "minecraft:nbt_tag"@ || p == "minecraft:nbt_path"@
        || p == "minecraft:particle"@ || p == "minecraft:item_stack"@ || p
        == "minecraft:item_predicate"@ || p == "minecraft:block_state"@ || p
        == "minecraft:block_predicate"@ || p == "minecraft:dialog"@ || (p == "brigadier:string"@
        && greedy_string))
}

proof fn lemma_args_reach_rest(
    root: JVal,
    node: JVal,
    c: Seq<(Seq<char>, JVal)>,
    j: int,
    k: int,
    parts: Seq<Seq<char>>,
    i: int,
    first: Option<RejectV>,
)
    requires
        0 <= j <= k < c.len(),
        0 <= i < parts.len(),
        rest_of_line_argument(c[k].1),
    ensures
        walk_args(root, node, c, j, parts, i, first) == Ok::<(), RejectV>(()),
    decreases k - j,
{
    if j < k {
        let child = c[j].1;
        if node_type(child) != "argument"@ {
            lemma_args_reach_rest(root, node, c, j + 1, k, parts, i, first);
        } else if !greedy_accept(child) {
            let span = arg_span(child, parts.len() - i);
            match walk(root, child, parts, i + span) {
                Ok(()) => {},
                Err(r) => {
                    let f = match first {
                        Some(f) => Some(f),
                        None => Some(r),
                    };
                    lemma_args_reach_rest(root, node, c, j + 1, k, parts, i, f);
                },
            }
        }
    }
}

/// A line that reaches a node offering a rest-of-line argument (a chat
/// component, a message, NBT, a greedy string, ...) with at least one word
/// left, where that word is not one of the node's literals, is accepted
/// whatever the remaining words are: `tellraw @a {"text": "Hello"}` parses.
pub proof fn law_rest_of_line_argument_accepts(
    root: JVal,
    node: JVal,
    parts: Seq<Seq<char>>,
    i: int,
    k: int,
)
    requires
        0 <= i < parts.len(),
        children(effective(root, node)) is Some,
        0 <= k < children(effective(root, node))->0.len(),
        rest_of_line_argument(children(effective(root, node))->0[k].1),
        obj_get(children(effective(root, node))->0, parts[i]) matches Some(ch) ==> node_type(ch)
            != "literal"@,
    ensures
        walk(root, node, parts, i) == Ok::<(), RejectV>(()),
{
    let c = children(effective(root, node))->0;
    lemma_args_reach_rest(root, effective(root, node), c, 0, k, parts, i, None);
}

/// `None` if `line` parses against the tree (or is blank or a comment),
/// otherwise why it does not.
pub open spec fn spec_check(root: JVal, line: Seq<char>) -> Option<RejectV> {
    let t = trim(line);
    if t.len() == 0 || t[0] == '#' {
        None
    } else {
        match walk(root, root, words_from(t, 0), 0) {
            Ok(()) => None,
            Err(r) => Some(r),
        }
    }
}

/// The diagnostic for a rejected line, at the address the line came from.
pub open spec fn reject_diag(r: RejectV, line: Seq<char>, origin: AddrV) -> DiagV {
    let p = seq![("command"@, ParamV::Text(line))];
    match r.legacy_selector {
        Some(sel) => DiagV {
            code: Some(codes::COMMAND_LEGACY_SYNTAX@),
            severity: Severity::Error,
            address: origin,
            params: pinsert(p, "selector"@, ParamV::Text(sel)),
        },
        None => DiagV {
            code: Some(codes::COMMAND_INVALID@),
            severity: Severity::Error,
            address: origin,
            params: match r.token {
                Some(t) => pinsert(p, "token"@, ParamV::Text(t)),
                None => p,
            },
        },
    }
}

/// The diagnostics of the lines of one resource, from line `j` on.
pub open spec fn check_lines(root: JVal, lines: Seq<CommandV>, j: int, acc: Seq<DiagV>) -> Seq<DiagV>
    decreases lines.len() - j,
{
    if j < 0 || j >= lines.len() {
        acc
    } else {
        let CommandV::Text { command, origin } = lines[j];
        let acc2 = match spec_check(root, command) {
            Some(r) => acc.push(reject_diag(r, command, origin)),
            None => acc,
        };
        check_lines(root, lines, j + 1, acc2)
    }
}

/// The diagnostics of every command line of `resources` from index `i` on;
/// JSON resources have none.
pub open spec fn check_resources(root: JVal, resources: Seq<ResourceV>, i: int, acc: Seq<DiagV>) -> Seq<DiagV>
    decreases resources.len() - i,
{
    if i < 0 || i >= resources.len() {
        acc
    } else {
        let acc2 = match resources[i].body {
            BodyV::Commands { statements } => check_lines(root, statements, 0, acc),
            BodyV::Json { .. } => acc,
        };
        check_resources(root, resources, i + 1, acc2)
    }
}


// ---------------------------------------------------------------------------
// The tree walk: code
// ---------------------------------------------------------------------------
/// Why a command line did not parse.
pub struct Reject {
    pub token: Option<String>,
    pub legacy_selector: Option<String>,
}

impl View for Reject {
    type V = RejectV;

    open spec fn view(&self) -> RejectV {
        RejectV { token: crate::ir::opt_view(self.token), legacy_selector: crate::ir::opt_view(self.legacy_selector) }
    }
}

pub open spec fn outcome_view(r: Result<(), Reject>) -> Result<(), RejectV> {
    match r {
        Ok(()) => Ok(()),
        Err(e) => Err(e@),
    }
}

/// The string at `key` of an object node.
fn str_member<'a>(v: &'a Json, key: &str) -> (r: Option<&'a str>)
    ensures
        r matches Some(s) ==> str_at(v@, key@) == Some(s@),
        r is None ==> str_at(v@, key@) is None,
{
    match v.get(key) {
        Some(x) => x.as_str(),
        None => None,
    }
}

fn node_type_of(v: &Json) -> (r: &str)
    ensures
        r@ == node_type(v@),
{
    match str_member(v, "type") {
        Some(s) => s,
        None => {
            proof {
                reveal_strlit("");
            }
            ""
        },
    }
}

fn is_literal(v: &Json) -> (r: bool)
    ensures
        r == (node_type(v@) == "literal"@),
{
    str_eq(node_type_of(v), "literal")
}

fn is_argument(v: &Json) -> (r: bool)
    ensures
        r == (node_type(v@) == "argument"@),
{
    str_eq(node_type_of(v), "argument")
}

fn is_executable(v: &Json) -> (r: bool)
    ensures
        r == executable(v@),
{
    match v.get("executable") {
        Some(x) => match x.as_bool() {
            Some(b) => b,
            None => false,
        },
        None => false,
    }
}

fn children_of(v: &Json) -> (r: Option<&Vec<(String, Json)>>)
    ensures
        r matches Some(es) ==> children(v@) == Some(eviews(es@)),
        r is None ==> children(v@) is None,
{
    match v.get("children") {
        Some(x) => x.as_object(),
        None => None,
    }
}

/// The string entries of a list, in order.
fn string_entries_of(items: &Vec<Json>) -> (r: Vec<String>)
    ensures
        strs_view(r@) == string_entries(jviews(items@)),
{
    let ghost all = jviews(items@);
    let mut out: Vec<String> = Vec::new();
    let mut i: usize = 0;
    assert(all.take(0) =~= Seq::<JVal>::empty());
    assert(strs_view(out@) =~= Seq::<Seq<char>>::empty());
    while i < items.len()
        invariant
            i <= items@.len(),
            all == jviews(items@),
            strs_view(out@) == string_entries(all.take(i as int)),
        decreases items@.len() - i,
    {
        assert(all.take(i as int + 1).drop_last() =~= all.take(i as int));
        assert(all.take(i as int + 1).last() == jview(items@[i as int]));
        let ghost before = strs_view(out@);
        match &items[i] {
            Json::Str(s) => {
                out.push(crate::text::copy_string(s));
                assert(strs_view(out@) =~= before.push(s@));
            },
            _ => {},
        }
        i = i + 1;
    }
    assert(all.take(i as int) =~= all);
    out
}

/// The node at `path` from the root.
fn resolve<'a>(root: &'a Json, path: &Vec<String>) -> (r: Option<&'a Json>)
    ensures
        r matches Some(n) ==> resolve_from(root@, strs_view(path@), 0) == Some(n@),
        r is None ==> resolve_from(root@, strs_view(path@), 0) is None,
{
    let ghost p = strs_view(path@);
    let mut node = root;
    let mut i: usize = 0;
    while i < path.len()
        invariant
            i <= path@.len(),
            p == strs_view(path@),
            resolve_from(root@, p, 0) == resolve_from(node@, p, i as int),
        decreases path@.len() - i,
    {
        match node.get("children") {
            Some(c) => match c.get(path[i].as_str()) {
                Some(next) => {
                    node = next;
                },
                None => {
                    return None;
                },
            },
            None => {
                return None;
            },
        }
        i = i + 1;
    }
    Some(node)
}

/// The node whose children and executability govern the next step.
fn effective_node<'a>(root: &'a Json, node: &'a Json) -> (r: &'a Json)
    ensures
        r@ == effective(root@, node@),
{
    match node.get("redirect") {
        Some(r) => match r.as_array() {
            Some(items) => {
                let segments = string_entries_of(items);
                match resolve(root, &segments) {
                    Some(target) => {
                        return target;
                    },
                    None => {},
                }
            },
            None => {},
        },
        None => {},
    }
    let childless = match children_of(node) {
        Some(c) => c.len() == 0,
        None => true,
    };
    if is_literal(node) && !is_executable(node) && childless {
        root
    } else {
        node
    }
}

fn looks_like_execute_node(v: &Json) -> (r: bool)
    ensures
        r == looks_like_execute(v@),
{
    match children_of(v) {
        Some(c) => {
            proof {
                lemma_object_view(*c);
            }
            crate::json::member(c, "as").is_some() && crate::json::member(c, "run").is_some()
        },
        None => false,
    }
}

fn positional(t: &str) -> (r: bool)
    ensures
        r == is_positional(t@),
{
    let cs = chars_of(t);
    cs.len() > 0 && (cs[0] == '@' || cs[0] == '~' || cs[0] == '^')
}

fn reject_at(node: &Json, parts: &Vec<String>, i: usize) -> (r: Reject)
    requires
        i < parts@.len(),
    ensures
        r@ == reject(node@, strs_view(parts@), i as int),
{
    let token = parts[i].as_str();
    let legacy_selector = if looks_like_execute_node(node) && positional(token) {
        Some(owned(token))
    } else {
        None
    };
    Reject { token: Some(owned(token)), legacy_selector }
}

fn parser_of(v: &Json) -> (r: &str)
    ensures
        r@ == parser(v@),
{
    match str_member(v, "parser") {
        Some(s) => s,
        None => {
            proof {
                reveal_strlit("");
            }
            ""
        },
    }
}

fn span_of(child: &Json, remaining: usize) -> (r: usize)
    requires
        remaining >= 1,
    ensures
        r == arg_span(child@, remaining as int),
        1 <= r <= remaining,
{
    let p = parser_of(child);
    let want: usize = if str_eq(p, "minecraft:vec3") || str_eq(p, "minecraft:block_pos") {
        3
    } else if str_eq(p, "minecraft:vec2") || str_eq(p, "minecraft:rotation") || str_eq(
        p,
        "minecraft:column_pos",
    ) {
        2
    } else {
        1
    };
    if want < remaining {
        want
    } else {
        remaining
    }
}

fn greedy(child: &Json) -> (r: bool)
    ensures
        r == greedy_accept(child@),
{
    let p = parser_of(child);
    if str_eq(p, "minecraft:message") || str_eq(p, "minecraft:component") || str_eq(
        p,
        "minecraft:style",
    ) || str_eq(p, "minecraft:nbt_compound_tag") || str_eq(p, "minecraft:nbt_tag") || str_eq(
        p,
        "minecraft:nbt_path",
    ) || str_eq(p, "minecraft:particle") || str_eq(p, "minecraft:item_stack") || str_eq(
        p,
        "minecraft:item_predicate",
    ) || str_eq(p, "minecraft:block_state") || str_eq(p, "minecraft:block_predicate") || str_eq(
        p,
        "minecraft:dialog",
    ) {
        return true;
    }
    if !str_eq(p, "brigadier:string") {
        return false;
    }
    match child.get("properties") {
        Some(props) => match str_member(props, "type") {
            Some(t) => str_eq(t, "greedy"),
            None => false,
        },
        None => false,
    }
}

/// Walks `parts[i..]` from `node` against the tree at `root`.
fn walk_from(root: &Json, node: &Json, parts: &Vec<String>, i: usize) -> (r: Result<(), Reject>)
    requires
        i <= parts@.len(),
    ensures
        outcome_view(r) == walk(root@, node@, strs_view(parts@), i as int),
    decreases parts@.len() - i,
{
    let ghost pv = strs_view(parts@);
    let eff = effective_node(root, node);
    if i >= parts.len() {
        if is_executable(eff) {
            return Ok(());
        } else {
            return Err(Reject { token: None, legacy_selector: None });
        }
    }
    let c = match children_of(eff) {
        Some(c) => c,
        None => {
            return Err(reject_at(eff, parts, i));
        },
    };
    let ghost cv = eviews(c@);
    proof {
        lemma_object_view(*c);
    }
    match crate::json::member(c, parts[i].as_str()) {
        Some(k) => {
            if is_literal(&c[k].1) {
                return walk_from(root, &c[k].1, parts, i + 1);
            }
        },
        None => {},
    }
    let mut first: Option<Reject> = None;
    let mut k: usize = 0;
    while k < c.len()
        invariant
            i < parts@.len(),
            k <= c@.len(),
            pv == strs_view(parts@),
            cv == eviews(c@),
            walk(root@, node@, pv, i as int) == walk_args(root@, eff@, cv, 0, pv, i as int, None),
            walk_args(root@, eff@, cv, 0, pv, i as int, None) == walk_args(
                root@,
                eff@,
                cv,
                k as int,
                pv,
                i as int,
                match first {
                    Some(f) => Some(f@),
                    None => None,
                },
            ),
        decreases c@.len() - k,
    {
        let child = &c[k].1;
        if is_argument(child) {
            if greedy(child) {
                return Ok(());
            }
            let span = span_of(child, parts.len() - i);
            match walk_from(root, child, parts, i + span) {
                Ok(()) => {
                    return Ok(());
                },
                Err(r) => {
                    if first.is_none() {
                        first = Some(r);
                    }
                },
            }
        }
        k = k + 1;
    }
    match first {
        Some(f) => Err(f),
        None => Err(reject_at(eff, parts, i)),
    }
}

/// `None` if `line` parses against the tree at `root` (or is blank or a
/// comment), otherwise why it does not.
pub fn check(root: &Json, line: &str) -> (r: Option<Reject>)
    ensures
        (match r {
            Some(x) => Some(x@),
            None => None,
        }) == spec_check(root@, line@),
{
    let t = trim_chars(line);
    if t.len() == 0 || t[0] == '#' {
        return None;
    }
    let parts = split_words(&t);
    match walk_from(root, root, &parts, 0) {
        Ok(()) => None,
        Err(r) => Some(r),
    }
}

impl Reject {
    /// The diagnostic for this rejection of `line`, anchored at `origin`.
    pub fn into_diagnostic(self, line: &str, origin: &StatementAddress) -> (d: Diagnostic)
        ensures
            d@ == reject_diag(self@, line@, origin@),
    {
        let mut params: Vec<(String, Param)> = Vec::new();
        params.push((owned("command"), Param::Text(owned(line))));
        let ghost p0 = params_view(params@);
        assert(p0 =~= seq![("command"@, ParamV::Text(line@))]);
        let code = match self.legacy_selector {
            Some(selector) => {
                param_insert(&mut params, "selector", Param::Text(selector));
                codes::COMMAND_LEGACY_SYNTAX
            },
            None => {
                match self.token {
                    Some(token) => {
                        param_insert(&mut params, "token", Param::Text(token));
                    },
                    None => {},
                }
                codes::COMMAND_INVALID
            },
        };
        error_diagnostic(code, copy_address(origin), params)
    }
}

/// Validates every command line of `resources` against the command tree of
/// `target`, in order; all problems are collected.
pub fn validate(resources: &[Resource], target: &TargetData) -> (r: Vec<Diagnostic>)
    ensures
        diags_view(r@) == check_resources(target@.commands, resources_view(resources@), 0, seq![]),
{
    let root = target.commands();
    let ghost rv = resources_view(resources@);
    let mut out: Vec<Diagnostic> = Vec::new();
    let mut i: usize = 0;
    assert(diags_view(out@) =~= Seq::<DiagV>::empty());
    while i < resources.len()
        invariant
            i <= resources@.len(),
            rv == resources_view(resources@),
            root@ == target@.commands,
            check_resources(root@, rv, 0, seq![]) == check_resources(root@, rv, i as int, diags_view(out@)),
        decreases resources@.len() - i,
    {
        match &resources[i].body {
            Body::Commands { statements } => {
                let ghost sv = commands_view(statements@);
                let ghost acc0 = diags_view(out@);
                assert(rv[i as int].body == BodyV::Commands { statements: sv });
                let mut j: usize = 0;
                while j < statements.len()
                    invariant
                        j <= statements@.len(),
                        sv == commands_view(statements@),
                        check_lines(root@, sv, 0, acc0) == check_lines(root@, sv, j as int, diags_view(out@)),
                    decreases statements@.len() - j,
                {
                    let Command::Text { command, origin } = &statements[j];
                    assert(sv[j as int] == CommandV::Text { command: command@, origin: origin@ });
                    match check(root, command.as_str()) {
                        Some(rej) => {
                            let d = rej.into_diagnostic(command.as_str(), origin);
                            let ghost before = diags_view(out@);
                            out.push(d);
                            assert(diags_view(out@) =~= before.push(d@));
                        },
                        None => {},
                    }
                    j = j + 1;
                }
            },
            Body::Json { .. } => {},
        }
        i = i + 1;
    }
    out
}


/// A blank line, or one whose first non-blank character is `#`, is never
/// rejected, whatever the tree.
pub proof fn law_blank_and_comment_lines_pass(root: JVal, line: Seq<char>)
    requires
        trim(line).len() == 0 || trim(line)[0] == '#',
    ensures
        spec_check(root, line) is None,
{
}

/// Whether every diagnostic of `ds` is an error about a command line, anchored
/// at the statement the line came from.
pub open spec fn command_errors(ds: Seq<DiagV>) -> bool {
    forall|i: int|
        0 <= i < ds.len() ==> (#[trigger] ds[i]).severity == Severity::Error && (ds[i].code == Some(
            codes::COMMAND_INVALID@,
        ) || ds[i].code == Some(codes::COMMAND_LEGACY_SYNTAX@))
}

proof fn lemma_lines_errors(root: JVal, lines: Seq<CommandV>, j: int, acc: Seq<DiagV>)
    requires
        command_errors(acc),
    ensures
        command_errors(check_lines(root, lines, j, acc)),
    decreases lines.len() - j,
{
    if 0 <= j < lines.len() {
        let CommandV::Text { command, origin } = lines[j];
        match spec_check(root, command) {
            Some(r) => {
                let next = acc.push(reject_diag(r, command, origin));
                assert forall|i: int| 0 <= i < next.len() implies (#[trigger] next[i]).severity
                    == Severity::Error && (next[i].code == Some(codes::COMMAND_INVALID@) || next[i].code
                    == Some(codes::COMMAND_LEGACY_SYNTAX@)) by {
                    if i < acc.len() {
                        assert(next[i] == acc[i]);
                    }
                }
                lemma_lines_errors(root, lines, j + 1, next);
            },
            None => lemma_lines_errors(root, lines, j + 1, acc),
        }
    }
}

proof fn lemma_resources_errors(root: JVal, resources: Seq<ResourceV>, i: int, acc: Seq<DiagV>)
    requires
        command_errors(acc),
    ensures
        command_errors(check_resources(root, resources, i, acc)),
    decreases resources.len() - i,
{
    if 0 <= i < resources.len() {
        match resources[i].body {
            BodyV::Commands { statements } => {
                lemma_lines_errors(root, statements, 0, acc);
                lemma_resources_errors(root, resources, i + 1, check_lines(root, statements, 0, acc));
            },
            BodyV::Json { .. } => lemma_resources_errors(root, resources, i + 1, acc),
        }
    }
}

/// Every diagnostic of the command stage is an error, coded as an invalid
/// command line or as a legacy one.
pub proof fn law_command_diagnostics_are_errors(root: JVal, resources: Seq<ResourceV>)
    ensures
        command_errors(check_resources(root, resources, 0, seq![])),
{
    lemma_resources_errors(root, resources, 0, seq![]);
}

/// A line rejected as a pre-1.13 `execute` form is reported precisely: the
/// diagnostic is coded as legacy syntax, carries the line and the argument that
/// moved, and renders to the legacy-syntax sentence, which quotes both, with a
/// fix.
pub proof fn law_legacy_line_names_moved_argument(r: RejectV, line: Seq<char>, origin: AddrV)
    requires
        r.legacy_selector is Some,
    ensures
        reject_diag(r, line, origin).code == Some(codes::COMMAND_LEGACY_SYNTAX@),
        ptext(reject_diag(r, line, origin).params, "command"@) == line,
        ptext(reject_diag(r, line, origin).params, "selector"@) == r.legacy_selector->0,
        spec_render(reject_diag(r, line, origin)) == spec_command_legacy_syntax(
            reject_diag(r, line, origin).params,
        ),
        spec_render(reject_diag(r, line, origin)).fix is Some,
{
    reveal_strlit("command");
    reveal_strlit("selector");
    lemma_code_names_differ();
    let sel = r.legacy_selector->0;
    let p0 = seq![("command"@, ParamV::Text(line))];
    let d = reject_diag(r, line, origin);
    assert("command"@.len() != "selector"@.len());
    assert(p0[0].0 != "selector"@);
    assert(pkey_from(p0, "selector"@, 1) is None);
    assert(pkey_from(p0, "selector"@, 0) is None);
    assert(d.params == p0.push(("selector"@, ParamV::Text(sel))));
    assert(pkey_from(d.params, "command"@, 0) == Some(0int));
    assert(pkey_from(d.params, "selector"@, 2) is None);
    assert(pkey_from(d.params, "selector"@, 1) == Some(1int));
    assert(pkey_from(d.params, "selector"@, 0) == Some(1int));
}

/// A line rejected at a word that fits nowhere is reported as an invalid
/// command whose sentence quotes the line and names that word, with a fix.
pub proof fn law_invalid_line_names_token(r: RejectV, line: Seq<char>, origin: AddrV)
    requires
        r.legacy_selector is None,
        r.token is Some,
    ensures
        reject_diag(r, line, origin).code == Some(codes::COMMAND_INVALID@),
        ptext(reject_diag(r, line, origin).params, "command"@) == line,
        plookup(reject_diag(r, line, origin).params, "token"@) == Some(ParamV::Text(r.token->0)),
        spec_render(reject_diag(r, line, origin)) == spec_command_invalid(
            reject_diag(r, line, origin).params,
        ),
        spec_render(reject_diag(r, line, origin)).fix is Some,
{
    reveal_strlit("command");
    reveal_strlit("token");
    lemma_code_names_differ();
    let t = r.token->0;
    let p0 = seq![("command"@, ParamV::Text(line))];
    let d = reject_diag(r, line, origin);
    assert("command"@.len() != "token"@.len());
    assert(p0[0].0 != "token"@);
    assert(pkey_from(p0, "token"@, 1) is None);
    assert(pkey_from(p0, "token"@, 0) is None);
    assert(d.params == p0.push(("token"@, ParamV::Text(t))));
    assert(pkey_from(d.params, "command"@, 0) == Some(0int));
    assert(pkey_from(d.params, "token"@, 2) is None);
    assert(pkey_from(d.params, "token"@, 1) == Some(1int));
    assert(pkey_from(d.params, "token"@, 0) == Some(1int));
}

/// The two command-stage codes differ from each other and from every code
/// of the graph stages.
proof fn lemma_code_names_differ()
    ensures
        codes::COMMAND_LEGACY_SYNTAX@ != codes::BLOCK_UNKNOWN@,
        codes::COMMAND_LEGACY_SYNTAX@ != codes::INPUT_MISSING@,
        codes::COMMAND_LEGACY_SYNTAX@ != codes::INPUT_TYPE@,
        codes::COMMAND_LEGACY_SYNTAX@ != codes::INPUT_CONSTRAINT@,
        codes::COMMAND_LEGACY_SYNTAX@ != codes::SLOT_EXPECTS_STATEMENT@,
        codes::COMMAND_LEGACY_SYNTAX@ != codes::SLOT_REJECTS_BLOCK@,
        codes::COMMAND_LEGACY_SYNTAX@ != codes::EDGE_UNKNOWN_NODE@,
        codes::COMMAND_LEGACY_SYNTAX@ != codes::EDGE_FORWARD_REFERENCE@,
        codes::COMMAND_LEGACY_SYNTAX@ != codes::EDGE_CYCLE@,
        codes::COMMAND_LEGACY_SYNTAX@ != codes::COMMAND_INVALID@,
        codes::COMMAND_INVALID@ != codes::BLOCK_UNKNOWN@,
        codes::COMMAND_INVALID@ != codes::INPUT_MISSING@,
        codes::COMMAND_INVALID@ != codes::INPUT_TYPE@,
        codes::COMMAND_INVALID@ != codes::INPUT_CONSTRAINT@,
        codes::COMMAND_INVALID@ != codes::SLOT_EXPECTS_STATEMENT@,
        codes::COMMAND_INVALID@ != codes::SLOT_REJECTS_BLOCK@,
        codes::COMMAND_INVALID@ != codes::EDGE_UNKNOWN_NODE@,
        codes::COMMAND_INVALID@ != codes::EDGE_FORWARD_REFERENCE@,
        codes::COMMAND_INVALID@ != codes::EDGE_CYCLE@,
{
    reveal_strlit("block-unknown");
    reveal_strlit("input-missing");
    reveal_strlit("input-type");
    reveal_strlit("input-constraint");
    reveal_strlit("slot-expects-statement");
    reveal_strlit("slot-rejects-block");
    reveal_strlit("edge-unknown-node");
    reveal_strlit("edge-forward-reference");
    reveal_strlit("edge-cycle");
    reveal_strlit("command-invalid");
    reveal_strlit("command-legacy-syntax");
    assert(codes::COMMAND_LEGACY_SYNTAX@.len() != codes::BLOCK_UNKNOWN@.len());
    assert(codes::COMMAND_INVALID@.len() != codes::BLOCK_UNKNOWN@.len());
    assert(codes::COMMAND_LEGACY_SYNTAX@.len() != codes::INPUT_MISSING@.len());
    assert(codes::COMMAND_INVALID@.len() != codes::INPUT_MISSING@.len());
    assert(codes::COMMAND_LEGACY_SYNTAX@.len() != codes::INPUT_TYPE@.len());
    assert(codes::COMMAND_INVALID@.len() != codes::INPUT_TYPE@.len());
    assert(codes::COMMAND_LEGACY_SYNTAX@.len() != codes::INPUT_CONSTRAINT@.len());
    assert(codes::COMMAND_INVALID@.len() != codes::INPUT_CONSTRAINT@.len());
    assert(codes::COMMAND_LEGACY_SYNTAX@.len() != codes::SLOT_EXPECTS_STATEMENT@.len());
    assert(codes::COMMAND_INVALID@.len() != codes::SLOT_EXPECTS_STATEMENT@.len());
    assert(codes::COMMAND_LEGACY_SYNTAX@.len() != codes::SLOT_REJECTS_BLOCK@.len());
    assert(codes::COMMAND_INVALID@.len() != codes::SLOT_REJECTS_BLOCK@.len());
    assert(codes::COMMAND_LEGACY_SYNTAX@.len() != codes::EDGE_UNKNOWN_NODE@.len());
    assert(codes::COMMAND_INVALID@.len() != codes::EDGE_UNKNOWN_NODE@.len());
    assert(codes::COMMAND_LEGACY_SYNTAX@.len() != codes::EDGE_FORWARD_REFERENCE@.len());
    assert(codes::COMMAND_INVALID@.len() != codes::EDGE_FORWARD_REFERENCE@.len());
    assert(codes::COMMAND_LEGACY_SYNTAX@.len() != codes::EDGE_CYCLE@.len());
    assert(codes::COMMAND_INVALID@.len() != codes::EDGE_CYCLE@.len());
    assert(codes::COMMAND_LEGACY_SYNTAX@.len() != codes::COMMAND_INVALID@.len());
}
} // verus!
