//! Checking a literal on an input port against the port's declared type: is
//! the value of the right kind, and does it keep the rules the type carries
//! (an id's namespace and characters, a number's bounds, an item's count, an
//! enum's choices). A problem is a finding: a stable code and the facts the
//! message table reads.
use vstd::prelude::*;

use crate::blocks::{desc_by_name, spec_describe, PortSpec, PortType, PortTypeV, PortV};
use crate::codes;
use crate::ir::{param_insert, params_view, pinsert, strs_view, Param, ParamV};
use crate::json::{jarr, jobj, jstr, ji64, jviews, obj_get, JVal, Json, eviews, member,
    lemma_key_from};
use crate::text::{chars_of, find_char, find_char_in, owned, str_eq, string_of,
    lemma_find_char_from_bounds};

verus! {

pub type Facts = Seq<(Seq<char>, ParamV)>;

/// A finding: the diagnostic code and the facts of the occurrence.
pub struct Finding {
    pub code: &'static str,
    pub params: Vec<(String, Param)>,
}

pub open spec fn finding_view(f: Option<Finding>) -> Option<(Seq<char>, Facts)> {
    match f {
        Some(f) => Some((f.code@, params_view(f.params@))),
        None => None,
    }
}

pub open spec fn text(s: Seq<char>) -> ParamV {
    ParamV::Text(s)
}

/// Facts with the `scope` fact set when a scope is given.
pub open spec fn with_scope(p: Facts, scope: Option<Seq<char>>) -> Facts {
    match scope {
        Some(s) => pinsert(p, "scope"@, ParamV::Text(s)),
        None => p,
    }
}

/// A JSON value's kind as a tag the message table turns into a phrase.
pub open spec fn value_tag(v: JVal) -> Seq<char> {
    match v {
        JVal::Null => "nothing"@,
        JVal::Bool(_) => "yes_no"@,
        JVal::Num(_) => "number"@,
        JVal::Str(_) => "text"@,
        JVal::Arr(_) => "list"@,
        JVal::Obj(_) => "group"@,
    }
}

/// An `input-type` finding: the value on `label` is not of the wanted type.
pub open spec fn mismatch(label: Seq<char>, scope: Option<Seq<char>>, v: JVal, expected: Seq<char>) -> Option<(Seq<char>, Facts)> {
    Some(
        (
            codes::INPUT_TYPE@,
            with_scope(
                seq![
                    ("label"@, text(label)),
                    ("found"@, text(value_tag(v))),
                    ("expected"@, text(expected)),
                ],
                scope,
            ),
        ),
    )
}

/// `input-type` unless `ok`.
pub open spec fn require(ok: bool, label: Seq<char>, v: JVal, expected: Seq<char>) -> Option<(Seq<char>, Facts)> {
    if ok {
        None
    } else {
        mismatch(label, None, v, expected)
    }
}

pub open spec fn is_namespace_char(c: char) -> bool {
    let u = c as u32;
    (97 <= u <= 122) || (48 <= u <= 57) || c == '_' || c == '.' || c == '-'
}

pub open spec fn is_path_char(c: char) -> bool {
    is_namespace_char(c) || c == '/'
}

pub open spec fn all_namespace_chars(s: Seq<char>) -> bool {
    forall|i: int| 0 <= i < s.len() ==> is_namespace_char(#[trigger] s[i])
}

pub open spec fn all_path_chars(s: Seq<char>) -> bool {
    forall|i: int| 0 <= i < s.len() ==> is_path_char(#[trigger] s[i])
}

/// The syntax check of an id: a namespace is required, a `#` tag prefix is
/// allowed only where the port allows it, and the characters are lower-case
/// letters, digits, `_ . -`, and `/` in the path. Registry membership is not
/// checked.
pub open spec fn spec_check_id(label: Seq<char>, scope: Option<Seq<char>>, t: Seq<char>, allow_tag: bool) -> Option<(Seq<char>, Facts)> {
    let is_tag = t.len() > 0 && t[0] == '#';
    let core = if is_tag {
        t.drop_first()
    } else {
        t
    };
    if is_tag && !allow_tag {
        Some(
            (
                codes::INPUT_CONSTRAINT@,
                with_scope(
                    seq![("reason"@, text("id_tag_not_allowed"@)), ("label"@, text(label))],
                    scope,
                ),
            ),
        )
    } else {
        match find_char(core, ':') {
            None => Some(
                (
                    codes::INPUT_CONSTRAINT@,
                    seq![
                        ("reason"@, text("id_no_namespace"@)),
                        ("value"@, text(t)),
                        ("suggestion"@, text(core)),
                    ],
                ),
            ),
            Some(i) => {
                let namespace = core.take(i);
                let path = core.skip(i + 1);
                if namespace.len() > 0 && path.len() > 0 && all_namespace_chars(namespace)
                    && all_path_chars(path) {
                    None
                } else {
                    Some(
                        (
                            codes::INPUT_CONSTRAINT@,
                            seq![("reason"@, text("id_bad_chars"@)), ("value"@, text(t))],
                        ),
                    )
                }
            },
        }
    }
}

/// A whole number within the port's bounds.
pub open spec fn spec_check_int(label: Seq<char>, v: JVal, min: Option<i64>, max: Option<i64>) -> Option<(Seq<char>, Facts)> {
    match ji64(v) {
        None => mismatch(label, None, v, "whole_number"@),
        Some(n) => if min is Some && n < min->0 {
            Some(
                (
                    codes::INPUT_CONSTRAINT@,
                    seq![
                        ("reason"@, text("int_min"@)),
                        ("label"@, text(label)),
                        ("number"@, ParamV::Int(n)),
                        ("min"@, ParamV::Int(min->0 as int)),
                    ],
                ),
            )
        } else if max is Some && n > max->0 {
            Some(
                (
                    codes::INPUT_CONSTRAINT@,
                    seq![
                        ("reason"@, text("int_max"@)),
                        ("label"@, text(label)),
                        ("number"@, ParamV::Int(n)),
                        ("max"@, ParamV::Int(max->0 as int)),
                    ],
                ),
            )
        } else {
            None
        },
    }
}

/// An item stack: an object with an `item` id and, when present, a whole
/// `count` of at least one.
pub open spec fn spec_check_item_stack(v: JVal, label: Seq<char>, scope: Option<Seq<char>>) -> Option<(Seq<char>, Facts)> {
    match jobj(v) {
        None => mismatch(label, scope, v, "item"@),
        Some(es) => match obj_get(es, "item"@) {
            None => Some(
                (
                    codes::INPUT_TYPE@,
                    with_scope(seq![("reason"@, text("no_item"@)), ("label"@, text(label))], scope),
                ),
            ),
            Some(item) => {
                let id_finding = match jstr(item) {
                    Some(t) => spec_check_id(label, Some("name"@), t, false),
                    None => mismatch(label, Some("name"@), item, "name"@),
                };
                if id_finding is Some {
                    id_finding
                } else {
                    match obj_get(es, "count"@) {
                        None => None,
                        Some(c) => match ji64(c) {
                            Some(k) => if k >= 1 {
                                None
                            } else {
                                Some(
                                    (
                                        codes::INPUT_CONSTRAINT@,
                                        with_scope(
                                            seq![
                                                ("reason"@, text("count_below_one"@)),
                                                ("label"@, text(label)),
                                            ],
                                            scope,
                                        ),
                                    ),
                                )
                            },
                            None => Some(
                                (
                                    codes::INPUT_TYPE@,
                                    with_scope(
                                        seq![("reason"@, text("bad_count"@)), ("label"@, text(label))],
                                        scope,
                                    ),
                                ),
                            ),
                        },
                    }
                }
            },
        },
    }
}

/// The first finding among the entries of a list of ids, from index `i` on.
pub open spec fn first_id_finding(label: Seq<char>, items: Seq<JVal>, allow_tag: bool, i: int) -> Option<(Seq<char>, Facts)>
    decreases items.len() - i,
{
    if i < 0 || i >= items.len() {
        None
    } else {
        let f = match jstr(items[i]) {
            Some(t) => spec_check_id(label, Some("entry"@), t, allow_tag),
            None => mismatch(label, Some("entry"@), items[i], "name"@),
        };
        if f is Some {
            f
        } else {
            first_id_finding(label, items, allow_tag, i + 1)
        }
    }
}

/// The first finding among the entries of a list of item stacks, from `i` on.
pub open spec fn first_stack_finding(label: Seq<char>, items: Seq<JVal>, i: int) -> Option<(Seq<char>, Facts)>
    decreases items.len() - i,
{
    if i < 0 || i >= items.len() {
        None
    } else {
        let f = spec_check_item_stack(items[i], label, Some("item"@));
        if f is Some {
            f
        } else {
            first_stack_finding(label, items, i + 1)
        }
    }
}

/// The finding for the literal `v` on `port`, or `None` when it is a valid
/// value of the port's type.
pub open spec fn spec_check_literal(port: PortV, v: JVal) -> Option<(Seq<char>, Facts)> {
    let label = port.label;
    match port.ty {
        PortTypeV::Bool => require(v is Bool, label, v, "yes_no"@),
        PortTypeV::Float => require(v is Num, label, v, "number"@),
        PortTypeV::Int { min, max } => spec_check_int(label, v, min, max),
        PortTypeV::Str => require(v is Str, label, v, "text"@),
        PortTypeV::Text => require(v is Str || v is Obj || v is Arr, label, v, "text"@),
        PortTypeV::Id { allow_tag, .. } => match jstr(v) {
            Some(t) => spec_check_id(label, None, t, allow_tag),
            None => mismatch(label, None, v, "name"@),
        },
        PortTypeV::ItemStack => spec_check_item_stack(v, label, None),
        PortTypeV::ListOfId { allow_tag, .. } => match jarr(v) {
            None => mismatch(label, None, v, "id_list"@),
            Some(items) => first_id_finding(label, items, allow_tag, 0),
        },
        PortTypeV::ListOfItemStack => match jarr(v) {
            None => mismatch(label, None, v, "item_list"@),
            Some(items) => first_stack_finding(label, items, 0),
        },
        PortTypeV::Enum(choices) => match jstr(v) {
            Some(t) => if choices.contains(t) {
                None
            } else {
                Some(
                    (
                        codes::INPUT_CONSTRAINT@,
                        seq![
                            ("reason"@, text("enum"@)),
                            ("label"@, text(label)),
                            ("value"@, text(t)),
                            ("choices"@, ParamV::List(choices)),
                        ],
                    ),
                )
            },
            None => mismatch(label, None, v, "choice"@),
        },
    }
}

// ---------------------------------------------------------------------------
// Implementation
// ---------------------------------------------------------------------------
fn tp(key: &str, value: &str) -> (r: (String, Param))
    ensures
        r.0@ == key@,
        r.1@ == ParamV::Text(value@),
{
    (owned(key), Param::Text(owned(value)))
}

fn found(code: &'static str, params: Vec<(String, Param)>) -> (r: Option<Finding>)
    ensures
        finding_view(r) == Some((code@, params_view(params@))),
{
    Some(Finding { code, params })
}

fn set_scope(p: &mut Vec<(String, Param)>, scope: Option<&str>)
    ensures
        params_view(final(p)@) == with_scope(
            params_view(old(p)@),
            match scope {
                Some(s) => Some(s@),
                None => None,
            },
        ),
{
    match scope {
        Some(s) => param_insert(p, "scope", Param::Text(owned(s))),
        None => {},
    }
}

/// The kind tag of a JSON value.
pub fn value_tag_of(v: &Json) -> (r: &'static str)
    ensures
        r@ == value_tag(v@),
{
    match v {
        Json::Null => "nothing",
        Json::Bool(_) => "yes_no",
        Json::Number(_) => "number",
        Json::Str(_) => "text",
        Json::Array(_) => "list",
        Json::Object(_) => "group",
    }
}

pub open spec fn opt_seq(o: Option<&str>) -> Option<Seq<char>> {
    match o {
        Some(s) => Some(s@),
        None => None,
    }
}

fn mismatch_exec(label: &str, scope: Option<&str>, v: &Json, expected: &str) -> (r: Option<Finding>)
    ensures
        finding_view(r) == mismatch(label@, opt_seq(scope), v@, expected@),
{
    let mut p: Vec<(String, Param)> = Vec::new();
    p.push(tp("label", label));
    p.push(tp("found", value_tag_of(v)));
    p.push(tp("expected", expected));
    assert(params_view(p@) =~= seq![
        ("label"@, text(label@)),
        ("found"@, text(value_tag(v@))),
        ("expected"@, text(expected@)),
    ]);
    set_scope(&mut p, scope);
    found(codes::INPUT_TYPE, p)
}

fn require_exec(ok: bool, label: &str, v: &Json, expected: &str) -> (r: Option<Finding>)
    ensures
        finding_view(r) == require(ok, label@, v@, expected@),
{
    if ok {
        None
    } else {
        mismatch_exec(label, None, v, expected)
    }
}

fn is_namespace_char_exec(c: char) -> (r: bool)
    ensures
        r == is_namespace_char(c),
{
    let u = c as u32;
    (97 <= u && u <= 122) || (48 <= u && u <= 57) || c == '_' || c == '.' || c == '-'
}

fn all_chars(cs: &Vec<char>, from: usize, to: usize, allow_slash: bool) -> (r: bool)
    requires
        from <= to <= cs@.len(),
    ensures
        !allow_slash ==> r == all_namespace_chars(cs@.subrange(from as int, to as int)),
        allow_slash ==> r == all_path_chars(cs@.subrange(from as int, to as int)),
{
    let ghost s = cs@.subrange(from as int, to as int);
    let mut i = from;
    while i < to
        invariant
            from <= i <= to <= cs@.len(),
            s == cs@.subrange(from as int, to as int),
            !allow_slash ==> forall|k: int| 0 <= k < i - from ==> is_namespace_char(#[trigger] s[k]),
            allow_slash ==> forall|k: int| 0 <= k < i - from ==> is_path_char(#[trigger] s[k]),
        decreases to - i,
    {
        let c = cs[i];
        let ok = is_namespace_char_exec(c) || (allow_slash && c == '/');
        if !ok {
            assert(s[i - from] == c);
            return false;
        }
        i = i + 1;
    }
    true
}

/// The syntax check of an id.
pub fn check_id(label: &str, scope: Option<&str>, t: &str, allow_tag: bool) -> (r: Option<Finding>)
    ensures
        finding_view(r) == spec_check_id(label@, opt_seq(scope), t@, allow_tag),
{
    let cs = chars_of(t);
    let is_tag = cs.len() > 0 && cs[0] == '#';
    let start: usize = if is_tag {
        1
    } else {
        0
    };
    let core_chars = {
        let core = string_of(&cs, start, cs.len());
        chars_of(core.as_str())
    };
    proof {
        if is_tag {
            assert(cs@.subrange(1, cs@.len() as int) =~= cs@.drop_first());
        } else {
            assert(cs@.subrange(0, cs@.len() as int) =~= cs@);
        }
    }
    if is_tag && !allow_tag {
        let mut p: Vec<(String, Param)> = Vec::new();
        p.push(tp("reason", "id_tag_not_allowed"));
        p.push(tp("label", label));
        assert(params_view(p@) =~= seq![
            ("reason"@, text("id_tag_not_allowed"@)),
            ("label"@, text(label@)),
        ]);
        set_scope(&mut p, scope);
        return found(codes::INPUT_CONSTRAINT, p);
    }
    proof {
        lemma_find_char_from_bounds(core_chars@, ':', 0);
    }
    match find_char_in(&core_chars, ':') {
        None => {
            let mut p: Vec<(String, Param)> = Vec::new();
            p.push(tp("reason", "id_no_namespace"));
            p.push(tp("value", t));
            let core = string_of(&core_chars, 0, core_chars.len());
            assert(core_chars@.subrange(0, core_chars@.len() as int) =~= core_chars@);
            p.push((owned("suggestion"), Param::Text(core)));
            assert(params_view(p@) =~= seq![
                ("reason"@, text("id_no_namespace"@)),
                ("value"@, text(t@)),
                ("suggestion"@, text(core_chars@)),
            ]);
            found(codes::INPUT_CONSTRAINT, p)
        },
        Some(i) => {
            let n = core_chars.len();
            let ok = i > 0 && i + 1 < n && all_chars(&core_chars, 0, i, false) && all_chars(
                &core_chars,
                i + 1,
                n,
                true,
            );
            proof {
                assert(core_chars@.subrange(0, i as int) =~= core_chars@.take(i as int));
                assert(core_chars@.subrange(i + 1, n as int) =~= core_chars@.skip(i + 1));
            }
            if ok {
                None
            } else {
                let mut p: Vec<(String, Param)> = Vec::new();
                p.push(tp("reason", "id_bad_chars"));
                p.push(tp("value", t));
                assert(params_view(p@) =~= seq![
                    ("reason"@, text("id_bad_chars"@)),
                    ("value"@, text(t@)),
                ]);
                found(codes::INPUT_CONSTRAINT, p)
            }
        },
    }
}

fn ip(key: &str, n: i64) -> (r: (String, Param))
    ensures
        r.0@ == key@,
        r.1@ == ParamV::Int(n as int),
{
    (owned(key), Param::Int(n))
}

fn check_int(label: &str, v: &Json, min: Option<i64>, max: Option<i64>) -> (r: Option<Finding>)
    ensures
        finding_view(r) == spec_check_int(label@, v@, min, max),
{
    let number = match v.as_i64() {
        Some(n) => n,
        None => {
            return mismatch_exec(label, None, v, "whole_number");
        },
    };
    match min {
        Some(low) => {
            if number < low {
                let mut p: Vec<(String, Param)> = Vec::new();
                p.push(tp("reason", "int_min"));
                p.push(tp("label", label));
                p.push(ip("number", number));
                p.push(ip("min", low));
                assert(params_view(p@) =~= seq![
                    ("reason"@, text("int_min"@)),
                    ("label"@, text(label@)),
                    ("number"@, ParamV::Int(number as int)),
                    ("min"@, ParamV::Int(low as int)),
                ]);
                return found(codes::INPUT_CONSTRAINT, p);
            }
        },
        None => {},
    }
    match max {
        Some(high) => {
            if number > high {
                let mut p: Vec<(String, Param)> = Vec::new();
                p.push(tp("reason", "int_max"));
                p.push(tp("label", label));
                p.push(ip("number", number));
                p.push(ip("max", high));
                assert(params_view(p@) =~= seq![
                    ("reason"@, text("int_max"@)),
                    ("label"@, text(label@)),
                    ("number"@, ParamV::Int(number as int)),
                    ("max"@, ParamV::Int(high as int)),
                ]);
                return found(codes::INPUT_CONSTRAINT, p);
            }
        },
        None => {},
    }
    None
}

fn reason_finding(code: &'static str, reason: &str, label: &str, scope: Option<&str>) -> (r: Option<
    Finding,
>)
    ensures
        finding_view(r) == Some(
            (
                code@,
                with_scope(seq![("reason"@, text(reason@)), ("label"@, text(label@))], opt_seq(scope)),
            ),
        ),
{
    let mut p: Vec<(String, Param)> = Vec::new();
    p.push(tp("reason", reason));
    p.push(tp("label", label));
    assert(params_view(p@) =~= seq![("reason"@, text(reason@)), ("label"@, text(label@))]);
    set_scope(&mut p, scope);
    found(code, p)
}

/// The item-stack check.
pub fn check_item_stack(v: &Json, label: &str, scope: Option<&str>) -> (r: Option<Finding>)
    ensures
        finding_view(r) == spec_check_item_stack(v@, label@, opt_seq(scope)),
{
    let object = match v.as_object() {
        Some(es) => es,
        None => {
            return mismatch_exec(label, scope, v, "item");
        },
    };
    let ghost es = eviews(object@);
    let item = match member(object, "item") {
        Some(i) => {
            proof {
                lemma_key_from(es, "item"@, 0);
            }
            &object[i].1
        },
        None => {
            return reason_finding(codes::INPUT_TYPE, "no_item", label, scope);
        },
    };
    let id_finding = match item.as_str() {
        Some(t) => check_id(label, Some("name"), t, false),
        None => mismatch_exec(label, Some("name"), item, "name"),
    };
    if id_finding.is_some() {
        return id_finding;
    }
    match member(object, "count") {
        None => None,
        Some(i) => {
            proof {
                lemma_key_from(es, "count"@, 0);
            }
            match object[i].1.as_i64() {
                Some(k) => if k >= 1 {
                    None
                } else {
                    reason_finding(codes::INPUT_CONSTRAINT, "count_below_one", label, scope)
                },
                None => reason_finding(codes::INPUT_TYPE, "bad_count", label, scope),
            }
        },
    }
}

fn contains_str(choices: &[&'static str], t: &str) -> (r: bool)
    ensures
        r == crate::blocks::strs_of(choices@).contains(t@),
{
    let ghost cv = crate::blocks::strs_of(choices@);
    let mut i: usize = 0;
    while i < choices.len()
        invariant
            i <= choices@.len(),
            cv == crate::blocks::strs_of(choices@),
            forall|k: int| 0 <= k < i ==> cv[k] != t@,
        decreases choices@.len() - i,
    {
        if str_eq(choices[i], t) {
            assert(cv[i as int] == t@);
            return true;
        }
        i = i + 1;
    }
    false
}

/// Check the literal `v` on `port`.
pub fn check_literal(port: &PortSpec, v: &Json) -> (r: Option<Finding>)
    ensures
        finding_view(r) == spec_check_literal(port@, v@),
{
    let label = port.label;
    match port.ty {
        PortType::Bool => require_exec(v.is_boolean(), label, v, "yes_no"),
        PortType::Float => require_exec(v.is_number(), label, v, "number"),
        PortType::Int { min, max } => check_int(label, v, min, max),
        PortType::Str => require_exec(v.is_string(), label, v, "text"),
        PortType::Text => require_exec(
            v.is_string() || v.is_object() || v.is_array(),
            label,
            v,
            "text",
        ),
        PortType::Id { allow_tag, .. } => match v.as_str() {
            Some(t) => check_id(label, None, t, allow_tag),
            None => mismatch_exec(label, None, v, "name"),
        },
        PortType::ItemStack => check_item_stack(v, label, None),
        PortType::ListOfId { allow_tag, .. } => {
            let items = match v.as_array() {
                Some(items) => items,
                None => {
                    return mismatch_exec(label, None, v, "id_list");
                },
            };
            let ghost iv = jviews(items@);
            let mut i: usize = 0;
            while i < items.len()
                invariant
                    i <= items@.len(),
                    iv == jviews(items@),
                    spec_check_literal(port@, v@) == first_id_finding(label@, iv, allow_tag, 0),
                    first_id_finding(label@, iv, allow_tag, 0) == first_id_finding(
                        label@,
                        iv,
                        allow_tag,
                        i as int,
                    ),
                decreases items@.len() - i,
            {
                let f = match items[i].as_str() {
                    Some(t) => check_id(label, Some("entry"), t, allow_tag),
                    None => mismatch_exec(label, Some("entry"), &items[i], "name"),
                };
                if f.is_some() {
                    return f;
                }
                i = i + 1;
            }
            None
        },
        PortType::ListOfItemStack => {
            let items = match v.as_array() {
                Some(items) => items,
                None => {
                    return mismatch_exec(label, None, v, "item_list");
                },
            };
            let ghost iv = jviews(items@);
            let mut i: usize = 0;
            while i < items.len()
                invariant
                    i <= items@.len(),
                    iv == jviews(items@),
                    spec_check_literal(port@, v@) == first_stack_finding(label@, iv, 0),
                    first_stack_finding(label@, iv, 0) == first_stack_finding(label@, iv, i as int),
                decreases items@.len() - i,
            {
                let f = check_item_stack(&items[i], label, Some("item"));
                if f.is_some() {
                    return f;
                }
                i = i + 1;
            }
            None
        },
        PortType::Enum(choices) => match v.as_str() {
            Some(t) => {
                if contains_str(choices, t) {
                    None
                } else {
                    let mut list: Vec<String> = Vec::new();
                    let mut i: usize = 0;
                    while i < choices.len()
                        invariant
                            i <= choices@.len(),
                            list@.len() == i,
                            forall|k: int| 0 <= k < i ==> (#[trigger] list@[k])@ == choices@[k]@,
                        decreases choices@.len() - i,
                    {
                        list.push(owned(choices[i]));
                        i = i + 1;
                    }
                    assert(strs_view(list@) =~= crate::blocks::strs_of(choices@));
                    let mut p: Vec<(String, Param)> = Vec::new();
                    p.push(tp("reason", "enum"));
                    p.push(tp("label", label));
                    p.push(tp("value", t));
                    p.push((owned("choices"), Param::List(list)));
                    assert(params_view(p@) =~= seq![
                        ("reason"@, text("enum"@)),
                        ("label"@, text(label@)),
                        ("value"@, text(t@)),
                        ("choices"@, ParamV::List(crate::blocks::strs_of(choices@))),
                    ]);
                    found(codes::INPUT_CONSTRAINT, p)
                }
            },
            None => mismatch_exec(label, None, v, "choice"),
        },
    }
}

// ---------------------------------------------------------------------------
// Laws
// ---------------------------------------------------------------------------
/// A character of a resource location: a lower-case ASCII letter, a digit,
/// `_`, `.` or `-`, and `/` as well where `slash` (in a path).
pub open spec fn location_char(c: char, slash: bool) -> bool {
    ||| ('a' as u32) <= (c as u32) <= ('z' as u32)
    ||| ('0' as u32) <= (c as u32) <= ('9' as u32)
    ||| c == '_'
    ||| c == '.'
    ||| c == '-'
    ||| (slash && c == '/')
}

/// `ns:path` with a non-empty namespace and path made of location
/// characters; only the path may hold `/`.
pub open spec fn resource_location(ns: Seq<char>, path: Seq<char>) -> bool {
    &&& ns.len() > 0
    &&& path.len() > 0
    &&& forall|j: int| 0 <= j < ns.len() ==> location_char(#[trigger] ns[j], false)
    &&& forall|j: int| 0 <= j < path.len() ==> location_char(#[trigger] path[j], true)
}

/// A resource location `ns:path` passes the id check, sub-directories in its
/// path included; with `#` in front it passes wherever tags are allowed.
pub proof fn law_resource_locations_pass(
    label: Seq<char>,
    scope: Option<Seq<char>>,
    ns: Seq<char>,
    path: Seq<char>,
    allow_tag: bool,
)
    requires
        resource_location(ns, path),
    ensures
        spec_check_id(label, scope, ns + ":"@ + path, allow_tag) is None,
        allow_tag ==> spec_check_id(label, scope, "#"@ + ns + ":"@ + path, allow_tag) is None,
{
    reveal_strlit(":");
    reveal_strlit("#");
    let t = ns + ":"@ + path;
    lemma_location_core(ns, path);
    assert(t[0] == ns[0]);
    assert(location_char(ns[0], false));
    let tt = "#"@ + ns + ":"@ + path;
    assert(tt =~= "#"@ + t);
    assert(tt.drop_first() =~= t);
    assert(tt[0] == '#');
}

proof fn lemma_location_core(ns: Seq<char>, path: Seq<char>)
    requires
        resource_location(ns, path),
    ensures
        find_char(ns + ":"@ + path, ':') == Some(ns.len() as int),
        (ns + ":"@ + path).take(ns.len() as int) == ns,
        (ns + ":"@ + path).skip((ns.len() + 1) as int) == path,
        all_namespace_chars(ns),
        all_path_chars(path),
{
    reveal_strlit(":");
    let t = ns + ":"@ + path;
    lemma_find_char_from_bounds(t, ':', 0);
    assert(t[ns.len() as int] == ':');
    assert forall|j: int| 0 <= j < ns.len() implies t[j] != ':' by {
        assert(t[j] == ns[j]);
        assert(location_char(ns[j], false));
    }
    assert(t.take(ns.len() as int) =~= ns);
    assert(t.skip((ns.len() + 1) as int) =~= path);
    assert forall|j: int| 0 <= j < ns.len() implies is_namespace_char(#[trigger] ns[j]) by {
        assert(location_char(ns[j], false));
    }
    assert forall|j: int| 0 <= j < path.len() implies is_path_char(#[trigger] path[j]) by {
        assert(location_char(path[j], true));
    }
}

/// A `/` in the namespace is refused: sub-directories belong to the path.
pub proof fn law_slash_in_namespace_refused(
    label: Seq<char>,
    scope: Option<Seq<char>>,
    ns: Seq<char>,
    path: Seq<char>,
    k: int,
    allow_tag: bool,
)
    requires
        0 <= k < ns.len(),
        ns[k] == '/',
        forall|j: int| 0 <= j < ns.len() ==> ns[j] != ':',
        ns.len() == 0 || ns[0] != '#',
    ensures
        spec_check_id(label, scope, ns + ":"@ + path, allow_tag) matches Some((c, f))
            && c == codes::INPUT_CONSTRAINT@ && f[0] == ("reason"@, text("id_bad_chars"@)),
{
    reveal_strlit(":");
    let t = ns + ":"@ + path;
    lemma_find_char_from_bounds(t, ':', 0);
    assert(t[ns.len() as int] == ':');
    assert forall|j: int| 0 <= j < ns.len() implies t[j] != ':' by {
        assert(t[j] == ns[j]);
    }
    assert(t[0] == ns[0]);
    assert(t.take(ns.len() as int) =~= ns);
    assert(!is_namespace_char(ns[k]));
}

/// The text of a resource location, `#`-prefixed when `tagged`.
pub open spec fn location_text(ns: Seq<char>, path: Seq<char>, tagged: bool) -> Seq<char> {
    if tagged {
        "#"@ + ns + ":"@ + path
    } else {
        ns + ":"@ + path
    }
}

/// A list of resource locations, each as text, possibly `#`-tagged.
pub open spec fn location_list(items: Seq<JVal>) -> bool {
    forall|k: int|
        #![trigger items[k]]
        0 <= k < items.len() ==> exists|ns: Seq<char>, path: Seq<char>, tagged: bool|
            #![trigger location_text(ns, path, tagged)]
            resource_location(ns, path) && items[k] == JVal::Str(location_text(ns, path, tagged))
}

proof fn lemma_location_list_passes(label: Seq<char>, items: Seq<JVal>, i: int)
    requires
        location_list(items),
        0 <= i,
    ensures
        first_id_finding(label, items, true, i) is None,
    decreases items.len() - i,
{
    if i < items.len() {
        let (ns, path, tagged) = choose|ns: Seq<char>, path: Seq<char>, tagged: bool|
            #![trigger location_text(ns, path, tagged)]
            resource_location(ns, path) && items[i] == JVal::Str(location_text(ns, path, tagged));
        law_resource_locations_pass(label, Some("entry"@), ns, path, true);
        lemma_location_list_passes(label, items, i + 1);
    }
}

/// A built-in name without `@`, with any version after it, describes the
/// same block as the bare name, and the bare name is its own block name.
proof fn lemma_builtin_with_version(name: Seq<char>, version: Seq<char>)
    requires
        forall|j: int| 0 <= j < name.len() ==> name[j] != '@',
    ensures
        spec_describe(name + "@"@ + version) == desc_by_name(name),
{
    crate::text::lemma_find_char_from_bounds(name, '@', 0);
    crate::blocks::law_describe_ignores_version(name, version);
}

/// The ingredients of a shapeless recipe are a list of item ids in which
/// item tags are allowed: any list of item ids and `#`-tags passes, whatever
/// version the recipe block is written with. Likewise the function list of a
/// function tag takes functions and `#`-tags of functions.
pub proof fn law_tag_lists_accept_tags(version: Seq<char>, items: Seq<JVal>)
    requires
        location_list(items),
    ensures
        spec_describe("packsmith/crafting-shapeless@"@ + version) matches Some(d) && d.inputs.len()
            > 1 && d.inputs[1].name == "ingredients"@ && d.inputs[1].ty == (PortTypeV::ListOfId {
            registry: "minecraft:item"@,
            allow_tag: true,
        }) && spec_check_literal(d.inputs[1], JVal::Arr(items)) is None,
        spec_describe("packsmith/function-tag@"@ + version) matches Some(d) && d.inputs.len() > 1
            && d.inputs[1].name == "functions"@ && d.inputs[1].ty == (PortTypeV::ListOfId {
            registry: "minecraft:function"@,
            allow_tag: true,
        }) && spec_check_literal(d.inputs[1], JVal::Arr(items)) is None,
{
    reveal_strlit("packsmith/crafting-shapeless");
    reveal_strlit("packsmith/function-tag");
    reveal_strlit("packsmith/function");
    reveal_strlit("packsmith/command");
    lemma_builtin_with_version("packsmith/crafting-shapeless"@, version);
    lemma_builtin_with_version("packsmith/function-tag"@, version);
    reveal_strlit("packsmith/crafting-shapeless@");
    reveal_strlit("packsmith/function-tag@");
    reveal_strlit("@");
    assert("packsmith/crafting-shapeless@"@ =~= "packsmith/crafting-shapeless"@ + "@"@);
    assert("packsmith/function-tag@"@ =~= "packsmith/function-tag"@ + "@"@);
    let a = "packsmith/crafting-shapeless"@;
    let b = "packsmith/function-tag"@;
    assert(a.len() != "packsmith/function"@.len() && a.len() != "packsmith/command"@.len()
        && a.len() != b.len());
    assert(b.len() != "packsmith/function"@.len() && b.len() != "packsmith/command"@.len());
    assert(desc_by_name(a) == Some(crate::blocks::crafting_shapeless_desc()));
    assert(desc_by_name(b) == Some(crate::blocks::function_tag_desc()));
    lemma_location_list_passes("ingredients"@, items, 0);
    lemma_location_list_passes("function list"@, items, 0);
}
} // verus!
