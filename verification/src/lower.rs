//! Lowering the built-in blocks to IR. A statement at index `i` of the graph's
//! `root` slot has the address `(None, "root", i)`; the child at index `j` of a
//! function's `body` keeps the address `(<function id>, "body", j)`.
//!
//! The validation pass runs first and owns every condition reachable here; the
//! diagnostics emitted while lowering are a backstop for a direct
//! [`lower_root`] call and carry the same codes and facts.
use vstd::prelude::*;

use crate::blocks::{
    block_name, children_of, describe, display_name, input, input_of, nodes_view, slot_children,
    spec_describe, spec_display_name, Node, NodeV, PortV,
};
use crate::codes;
use crate::ir::{
    commands_view, diags_view, params_view, resources_view, AddrV, Body, BodyV, Command, CommandV,
    DiagV, Diagnostic, Param, ParamV, Resource, ResourceV, Severity, StatementAddress,
    copy_address, error_diagnostic,
};
use crate::json::{
    copy_json, jarr, jbool, jget, ji64, jstr, jviews, JVal, Json, NumV, Number, lemma_object_view,
    eviews, lemma_array_view,
};
use crate::text::{owned, prefix_before, str_eq};

verus! {

/// What lowering a list of statement nodes produced: the resources they emit
/// and every diagnostic met on the way.
#[derive(Debug)]
pub struct Lowered {
    pub resources: Vec<Resource>,
    pub diagnostics: Vec<Diagnostic>,
}

pub struct LoweredV {
    pub resources: Seq<ResourceV>,
    pub diagnostics: Seq<DiagV>,
}

impl View for Lowered {
    type V = LoweredV;

    open spec fn view(&self) -> LoweredV {
        LoweredV {
            resources: resources_view(self.resources@),
            diagnostics: diags_view(self.diagnostics@),
        }
    }
}

// ---------------------------------------------------------------------------
// Specification
// ---------------------------------------------------------------------------
pub open spec fn address(node: Option<Seq<char>>, slot: Seq<char>, index: int) -> AddrV {
    AddrV { node, slot, index: index as u32 }
}

pub open spec fn error(code: Seq<char>, at: AddrV, params: Seq<(Seq<char>, ParamV)>) -> DiagV {
    DiagV { code: Some(code), severity: Severity::Error, address: at, params }
}

/// The first input port of `ports` named `name`.
pub open spec fn port_from(ports: Seq<PortV>, name: Seq<char>, from: int) -> Option<int>
    decreases ports.len() - from,
{
    if from < 0 || from >= ports.len() {
        None
    } else if ports[from].name == name {
        Some(from)
    } else {
        port_from(ports, name, from + 1)
    }
}

/// The label of `port` on `block_ref`, or the port name when it is not a
/// built-in port.
pub open spec fn spec_port_label(block_ref: Seq<char>, port: Seq<char>) -> Seq<char> {
    match spec_describe(block_ref) {
        Some(d) => match port_from(d.inputs, port, 0) {
            Some(i) => d.inputs[i].label,
            None => port,
        },
        None => port,
    }
}

/// An `input-missing` diagnostic for `port` on `n`.
pub open spec fn missing_input(n: NodeV, port: Seq<char>, at: AddrV) -> DiagV {
    error(
        codes::INPUT_MISSING@,
        at,
        seq![
            ("block"@, ParamV::Text(spec_display_name(n.block))),
            ("label"@, ParamV::Text(spec_port_label(n.block, port))),
        ],
    )
}

/// One child of a function's body: a command line, or a diagnostic.
pub open spec fn lower_command_child(
    n: NodeV,
    at: AddrV,
    acc: (Seq<CommandV>, Seq<DiagV>),
) -> (Seq<CommandV>, Seq<DiagV>) {
    if block_name(n.block) != "packsmith/command"@ {
        (
            acc.0,
            acc.1.push(
                error(
                    codes::SLOT_REJECTS_BLOCK@,
                    at,
                    seq![
                        ("reason"@, ParamV::Text("not_accepted"@)),
                        ("block"@, ParamV::Text(spec_display_name(n.block))),
                        ("accepts"@, ParamV::List(seq!["command"@])),
                    ],
                ),
            ),
        )
    } else {
        match jstr_of(input(n, "command"@)) {
            Some(c) => (acc.0.push(CommandV::Text { command: c, origin: at }), acc.1),
            None => (acc.0, acc.1.push(missing_input(n, "command"@, at))),
        }
    }
}

pub open spec fn jstr_of(v: Option<JVal>) -> Option<Seq<char>> {
    match v {
        Some(x) => jstr(x),
        None => None,
    }
}

/// The children of a function's body from index `j` on.
pub open spec fn lower_body(
    owner: Seq<char>,
    children: Seq<NodeV>,
    j: int,
    acc: (Seq<CommandV>, Seq<DiagV>),
) -> (Seq<CommandV>, Seq<DiagV>)
    decreases children.len() - j,
{
    if j < 0 || j >= children.len() {
        acc
    } else {
        lower_body(
            owner,
            children,
            j + 1,
            lower_command_child(children[j], address(Some(owner), "body"@, j), acc),
        )
    }
}

pub open spec fn with_diag(out: LoweredV, d: DiagV) -> LoweredV {
    LoweredV { resources: out.resources, diagnostics: out.diagnostics.push(d) }
}

pub open spec fn with_resource(
    out: LoweredV,
    category: Seq<char>,
    id: Seq<char>,
    at: AddrV,
    body: BodyV,
) -> LoweredV {
    LoweredV {
        resources: out.resources.push(ResourceV { category, id, origin: at, body }),
        diagnostics: out.diagnostics,
    }
}

pub open spec fn spec_lower_function(n: NodeV, at: AddrV, out: LoweredV) -> LoweredV {
    match jstr_of(input(n, "name"@)) {
        None => with_diag(out, missing_input(n, "name"@, at)),
        Some(name) => {
            let (statements, diags) = lower_body(
                n.id,
                slot_children(n, "body"@),
                0,
                (Seq::empty(), out.diagnostics),
            );
            LoweredV {
                resources: out.resources.push(
                    ResourceV {
                        category: "function"@,
                        id: name,
                        origin: at,
                        body: BodyV::Commands { statements },
                    },
                ),
                diagnostics: diags,
            }
        },
    }
}

/// The string elements of `items`, in order.
pub open spec fn strings_only(items: Seq<JVal>) -> Seq<JVal>
    decreases items.len(),
{
    if items.len() == 0 {
        Seq::empty()
    } else {
        let rest = strings_only(items.drop_last());
        match items.last() {
            JVal::Str(s) => rest.push(JVal::Str(s)),
            _ => rest,
        }
    }
}

pub open spec fn spec_lower_function_tag(n: NodeV, at: AddrV, out: LoweredV) -> LoweredV {
    match jstr_of(input(n, "name"@)) {
        None => with_diag(out, missing_input(n, "name"@, at)),
        Some(name) => {
            let functions = match input(n, "functions"@) {
                Some(v) => match jarr(v) {
                    Some(items) => strings_only(items),
                    None => Seq::empty(),
                },
                None => Seq::empty(),
            };
            let replace = match input(n, "replace"@) {
                Some(v) => jbool(v) == Some(true),
                None => false,
            };
            let value = if replace {
                JVal::Obj(seq![("replace"@, JVal::Bool(true)), ("values"@, JVal::Arr(functions))])
            } else {
                JVal::Obj(seq![("values"@, JVal::Arr(functions))])
            };
            with_resource(out, "tags/function"@, name, at, BodyV::Json { value })
        },
    }
}

/// An item stack literal (`{item, count?, components?}`) in the shape a recipe
/// result or loot entry takes: `{id, count?, components?}`, carrying `count`
/// and `components` only when the input gave them.
pub open spec fn spec_item_stack_json(v: JVal) -> JVal {
    let components = match jget(v, "components"@) {
        Some(JVal::Obj(es)) => if es.len() > 0 {
            seq![("components"@, JVal::Obj(es))]
        } else {
            Seq::empty()
        },
        _ => Seq::empty(),
    };
    let count = match jget(v, "count"@) {
        Some(c) => match ji64(c) {
            Some(k) => seq![("count"@, JVal::Num(NumV::Int(k)))],
            None => Seq::empty(),
        },
        None => Seq::empty(),
    };
    let id = match jget(v, "item"@) {
        Some(i) => match jstr(i) {
            Some(s) => seq![("id"@, JVal::Str(s))],
            None => Seq::empty(),
        },
        None => Seq::empty(),
    };
    JVal::Obj(components + count + id)
}

pub open spec fn spec_lower_crafting_shapeless(n: NodeV, at: AddrV, out: LoweredV) -> LoweredV {
    match jstr_of(input(n, "name"@)) {
        None => with_diag(out, missing_input(n, "name"@, at)),
        Some(name) => match jarr_of(input(n, "ingredients"@)) {
            None => with_diag(out, missing_input(n, "ingredients"@, at)),
            Some(ingredients) => match input(n, "result"@) {
                None => with_diag(out, missing_input(n, "result"@, at)),
                Some(result) => with_resource(
                    out,
                    "recipe"@,
                    name,
                    at,
                    BodyV::Json {
                        value: JVal::Obj(
                            seq![
                                ("ingredients"@, JVal::Arr(ingredients)),
                                ("result"@, spec_item_stack_json(result)),
                                ("type"@, JVal::Str("minecraft:crafting_shapeless"@)),
                            ],
                        ),
                    },
                ),
            },
        },
    }
}

pub open spec fn jarr_of(v: Option<JVal>) -> Option<Seq<JVal>> {
    match v {
        Some(x) => jarr(x),
        None => None,
    }
}

/// One loot entry per drop that names an item.
pub open spec fn loot_entries(drops: Seq<JVal>) -> Seq<JVal>
    decreases drops.len(),
{
    if drops.len() == 0 {
        Seq::empty()
    } else {
        let rest = loot_entries(drops.drop_last());
        match jget(drops.last(), "item"@) {
            Some(JVal::Str(item)) => rest.push(
                JVal::Obj(seq![("name"@, JVal::Str(item)), ("type"@, JVal::Str("minecraft:item"@))]),
            ),
            _ => rest,
        }
    }
}

pub open spec fn spec_lower_loot_table(n: NodeV, at: AddrV, out: LoweredV) -> LoweredV {
    match jstr_of(input(n, "name"@)) {
        None => with_diag(out, missing_input(n, "name"@, at)),
        Some(name) => match jarr_of(input(n, "drops"@)) {
            None => with_diag(out, missing_input(n, "drops"@, at)),
            Some(drops) => with_resource(
                out,
                "loot_table"@,
                name,
                at,
                BodyV::Json {
                    value: JVal::Obj(
                        seq![
                            (
                                "pools"@,
                                JVal::Arr(
                                    seq![
                                        JVal::Obj(
                                            seq![
                                                ("entries"@, JVal::Arr(loot_entries(drops))),
                                                ("rolls"@, JVal::Num(NumV::Int(1))),
                                            ],
                                        ),
                                    ],
                                ),
                            ),
                        ],
                    ),
                },
            ),
        },
    }
}

/// One top-level statement.
pub open spec fn spec_lower_statement(n: NodeV, at: AddrV, out: LoweredV) -> LoweredV {
    let name = block_name(n.block);
    if name == "packsmith/function"@ {
        spec_lower_function(n, at, out)
    } else if name == "packsmith/function-tag"@ {
        spec_lower_function_tag(n, at, out)
    } else if name == "packsmith/crafting-shapeless"@ {
        spec_lower_crafting_shapeless(n, at, out)
    } else if name == "packsmith/loot-table"@ {
        spec_lower_loot_table(n, at, out)
    } else if name == "packsmith/command"@ {
        with_diag(
            out,
            error(
                codes::SLOT_REJECTS_BLOCK@,
                at,
                seq![
                    ("reason"@, ParamV::Text("needs_parent"@)),
                    ("block"@, ParamV::Text("command"@)),
                    ("parent"@, ParamV::Text("function"@)),
                ],
            ),
        )
    } else {
        with_diag(
            out,
            error(codes::BLOCK_UNKNOWN@, at, seq![("block"@, ParamV::Text(n.block))]),
        )
    }
}

/// Each child of a function body that is a command with its text lowers, in
/// slot order, to that text at the child's own address.
proof fn lemma_body_in_order(
    owner: Seq<char>,
    children: Seq<NodeV>,
    j: int,
    acc: (Seq<CommandV>, Seq<DiagV>),
)
    requires
        0 <= j <= children.len(),
        forall|k: int|
            0 <= k < children.len() ==> block_name((#[trigger] children[k]).block)
                == "packsmith/command"@ && jstr_of(input(children[k], "command"@)) is Some,
    ensures
        lower_body(owner, children, j, acc).1 == acc.1,
        lower_body(owner, children, j, acc).0 =~= acc.0 + Seq::new(
            (children.len() - j) as nat,
            |k: int|
                CommandV::Text {
                    command: jstr_of(input(children[j + k], "command"@))->0,
                    origin: AddrV { node: Some(owner), slot: "body"@, index: (j + k) as u32 },
                },
        ),
    decreases children.len() - j,
{
    if j < children.len() {
        let x = CommandV::Text {
            command: jstr_of(input(children[j], "command"@))->0,
            origin: address(Some(owner), "body"@, j),
        };
        let next = (acc.0.push(x), acc.1);
        assert(lower_command_child(children[j], address(Some(owner), "body"@, j), acc) == next);
        lemma_body_in_order(owner, children, j + 1, next);
    }
}

/// A function whose body holds commands lowers to one function resource whose
/// statements are those commands in slot order: the `k`-th statement is the
/// `k`-th child's command text, at address `(function id, "body", k)`. Nothing
/// else is added, and no diagnostic.
pub proof fn law_function_keeps_command_order(n: NodeV, at: AddrV, out: LoweredV)
    requires
        block_name(n.block) == "packsmith/function"@,
        jstr_of(input(n, "name"@)) is Some,
        forall|k: int|
            0 <= k < slot_children(n, "body"@).len() ==> block_name(
                (#[trigger] slot_children(n, "body"@)[k]).block,
            ) == "packsmith/command"@ && jstr_of(input(slot_children(n, "body"@)[k], "command"@))
                is Some,
    ensures
        ({
            let r = spec_lower_statement(n, at, out);
            let body = slot_children(n, "body"@);
            &&& r.diagnostics == out.diagnostics
            &&& r.resources.len() == out.resources.len() + 1
            &&& r.resources.take(out.resources.len() as int) == out.resources
            &&& r.resources.last().category == "function"@
            &&& r.resources.last().id == jstr_of(input(n, "name"@))->0
            &&& r.resources.last().origin == at
            &&& r.resources.last().body matches BodyV::Commands { statements }
            &&& statements.len() == body.len()
            &&& forall|k: int|
                0 <= k < body.len() ==> #[trigger] statements[k] == CommandV::Text {
                    command: jstr_of(input(body[k], "command"@))->0,
                    origin: AddrV { node: Some(n.id), slot: "body"@, index: k as u32 },
                }
        }),
{
    let body = slot_children(n, "body"@);
    lemma_body_in_order(n.id, body, 0, (Seq::empty(), out.diagnostics));
    let r = spec_lower_statement(n, at, out);
    assert(r == spec_lower_function(n, at, out));
    assert(r.resources.take(out.resources.len() as int) =~= out.resources);
}

/// The top-level statements from index `i` on.
pub open spec fn lower_from(nodes: Seq<NodeV>, i: int, out: LoweredV) -> LoweredV
    decreases nodes.len() - i,
{
    if i < 0 || i >= nodes.len() {
        out
    } else {
        lower_from(nodes, i + 1, spec_lower_statement(nodes[i], address(None, "root"@, i), out))
    }
}

/// What lowering the graph's top-level statements produces.
pub open spec fn spec_lower_root(nodes: Seq<NodeV>) -> LoweredV {
    lower_from(nodes, 0, LoweredV { resources: Seq::empty(), diagnostics: Seq::empty() })
}

// ---------------------------------------------------------------------------
// Implementation
// ---------------------------------------------------------------------------
fn addr(node: Option<&str>, slot: &str, index: usize) -> (r: StatementAddress)
    ensures
        r@ == address(
            match node {
                Some(s) => Some(s@),
                None => None,
            },
            slot@,
            index as int,
        ),
{
    StatementAddress {
        node: match node {
            Some(s) => Some(owned(s)),
            None => None,
        },
        slot: owned(slot),
        index: index as u32,
    }
}

/// The label of `port` on `block_ref`, or the port name when it is not a
/// built-in port.
pub fn port_label(block_ref: &str, port: &str) -> (r: String)
    ensures
        r@ == spec_port_label(block_ref@, port@),
{
    match describe(block_ref) {
        Some(d) => {
            let ghost dv = d@;
            let mut i: usize = 0;
            while i < d.inputs.len()
                invariant
                    i <= d.inputs@.len(),
                    dv == d@,
                    spec_describe(block_ref@) == Some(dv),
                    dv.inputs.len() == d.inputs@.len(),
                    port_from(dv.inputs, port@, 0) == port_from(dv.inputs, port@, i as int),
                decreases d.inputs@.len() - i,
            {
                assert(dv.inputs[i as int] == d.inputs@[i as int]@);
                if str_eq(d.inputs[i].name, port) {
                    return owned(d.inputs[i].label);
                }
                i = i + 1;
            }
            owned(port)
        },
        None => owned(port),
    }
}

fn text_param(key: &str, value: String) -> (r: (String, Param))
    ensures
        r.0@ == key@,
        r.1@ == ParamV::Text(value@),
{
    (owned(key), Param::Text(value))
}

fn missing_input_diag(node: &Node, port: &str, at: StatementAddress) -> (r: Diagnostic)
    ensures
        r@ == missing_input(node@, port@, at@),
{
    let mut params: Vec<(String, Param)> = Vec::new();
    params.push(text_param("block", display_name(node.block.as_str())));
    params.push(text_param("label", port_label(node.block.as_str(), port)));
    let d = error_diagnostic(codes::INPUT_MISSING, at, params);
    assert(params_view(params@) =~= missing_input(node@, port@, at@).params);
    d
}

impl Lowered {
    /// Nothing lowered yet.
    pub fn new() -> (r: Lowered)
        ensures
            r@ == (LoweredV { resources: Seq::empty(), diagnostics: Seq::empty() }),
    {
        let r = Lowered { resources: Vec::new(), diagnostics: Vec::new() };
        assert(r@.resources =~= Seq::empty());
        assert(r@.diagnostics =~= Seq::empty());
        r
    }

    fn push_diag(&mut self, d: Diagnostic)
        ensures
            final(self)@ == with_diag(old(self)@, d@),
    {
        self.diagnostics.push(d);
        assert(self@.diagnostics =~= old(self)@.diagnostics.push(d@));
    }

    fn push_resource(&mut self, r: Resource)
        ensures
            final(self)@ == with_resource(old(self)@, r@.category, r@.id, r@.origin, r@.body),
    {
        self.resources.push(r);
        assert(self@.resources =~= old(self)@.resources.push(r@));
    }
}

/// Lower the graph's top-level `root` slot.
pub fn lower_root(nodes: &[Node]) -> (r: Lowered)
    ensures
        r@ == spec_lower_root(nodes_view(nodes@)),
{
    let ghost nv = nodes_view(nodes@);
    let mut out = Lowered::new();
    let mut i: usize = 0;
    while i < nodes.len()
        invariant
            i <= nodes@.len(),
            nv == nodes_view(nodes@),
            spec_lower_root(nv) == lower_from(nv, i as int, out@),
        decreases nodes@.len() - i,
    {
        lower_statement(&nodes[i], addr(None, "root", i), &mut out);
        i = i + 1;
    }
    out
}

fn lower_statement(node: &Node, at: StatementAddress, out: &mut Lowered)
    ensures
        final(out)@ == spec_lower_statement(node@, at@, old(out)@),
{
    let name = prefix_before(node.block.as_str(), '@');
    let name = name.as_str();
    if str_eq(name, "packsmith/function") {
        lower_function(node, at, out);
    } else if str_eq(name, "packsmith/function-tag") {
        lower_function_tag(node, at, out);
    } else if str_eq(name, "packsmith/crafting-shapeless") {
        lower_crafting_shapeless(node, at, out);
    } else if str_eq(name, "packsmith/loot-table") {
        lower_loot_table(node, at, out);
    } else if str_eq(name, "packsmith/command") {
        let mut params: Vec<(String, Param)> = Vec::new();
        params.push(text_param("reason", owned("needs_parent")));
        params.push(text_param("block", owned("command")));
        params.push(text_param("parent", owned("function")));
        let d = error_diagnostic(codes::SLOT_REJECTS_BLOCK, at, params);
        proof {
            assert(params_view(params@) =~= seq![
                ("reason"@, ParamV::Text("needs_parent"@)),
                ("block"@, ParamV::Text("command"@)),
                ("parent"@, ParamV::Text("function"@)),
            ]);
        }
        out.push_diag(d);
    } else {
        let mut params: Vec<(String, Param)> = Vec::new();
        params.push(text_param("block", crate::text::copy_string(&node.block)));
        let d = error_diagnostic(codes::BLOCK_UNKNOWN, at, params);
        proof {
            assert(params_view(params@) =~= seq![("block"@, ParamV::Text(node@.block))]);
        }
        out.push_diag(d);
    }
}

/// The string on `port`, or an `input-missing` diagnostic.
fn require_str<'a>(node: &'a Node, port: &str, at: &StatementAddress, out: &mut Lowered) -> (r:
    Option<&'a str>)
    ensures
        r matches Some(s) ==> jstr_of(input(node@, port@)) == Some(s@) && final(out)@ == old(out)@,
        r is None ==> jstr_of(input(node@, port@)) is None && final(out)@ == with_diag(
            old(out)@,
            missing_input(node@, port@, at@),
        ),
{
    match input_of(node, port) {
        Some(v) => match v.as_str() {
            Some(s) => {
                return Some(s);
            },
            None => {},
        },
        None => {},
    }
    out.push_diag(missing_input_diag(node, port, copy_address(at)));
    None
}

/// The list on `port`, or an `input-missing` diagnostic.
fn require_list<'a>(node: &'a Node, port: &str, at: &StatementAddress, out: &mut Lowered) -> (r:
    Option<&'a Vec<Json>>)
    ensures
        r matches Some(items) ==> jarr_of(input(node@, port@)) == Some(jviews(items@)) && final(out)@ == old(out)@,
        r is None ==> jarr_of(input(node@, port@)) is None && final(out)@ == with_diag(
            old(out)@,
            missing_input(node@, port@, at@),
        ),
{
    match input_of(node, port) {
        Some(v) => match v.as_array() {
            Some(items) => {
                return Some(items);
            },
            None => {},
        },
        None => {},
    }
    out.push_diag(missing_input_diag(node, port, copy_address(at)));
    None
}

fn lower_command_child_exec(
    node: &Node,
    at: StatementAddress,
    into: &mut Vec<Command>,
    out: &mut Lowered,
)
    ensures
        (commands_view(final(into)@), final(out)@.diagnostics) == lower_command_child(
            node@,
            at@,
            (commands_view(old(into)@), old(out)@.diagnostics),
        ),
        final(out)@.resources == old(out)@.resources,
{
    let name = prefix_before(node.block.as_str(), '@');
    if !str_eq(name.as_str(), "packsmith/command") {
        let mut accepts: Vec<String> = Vec::new();
        accepts.push(owned("command"));
        let mut params: Vec<(String, Param)> = Vec::new();
        params.push(text_param("reason", owned("not_accepted")));
        params.push(text_param("block", display_name(node.block.as_str())));
        params.push((owned("accepts"), Param::List(accepts)));
        let d = error_diagnostic(codes::SLOT_REJECTS_BLOCK, at, params);
        proof {
            assert(crate::ir::strs_view(accepts@) =~= seq!["command"@]);
            assert(params_view(params@) =~= seq![
                ("reason"@, ParamV::Text("not_accepted"@)),
                ("block"@, ParamV::Text(spec_display_name(node@.block))),
                ("accepts"@, ParamV::List(seq!["command"@])),
            ]);
        }
        out.push_diag(d);
        return ;
    }
    match require_str(node, "command", &at, out) {
        Some(command) => {
            into.push(Command::Text { command: owned(command), origin: at });
            assert(commands_view(into@) =~= commands_view(old(into)@).push(
                CommandV::Text { command: command@, origin: at@ },
            ));
        },
        None => {},
    }
}

fn lower_function(node: &Node, at: StatementAddress, out: &mut Lowered)
    ensures
        final(out)@ == spec_lower_function(node@, at@, old(out)@),
{
    let name = match require_str(node, "name", &at, out) {
        Some(s) => owned(s),
        None => {
            return ;
        },
    };
    let children = children_of(node, "body");
    let ghost cv = nodes_view(children@);
    let mut statements: Vec<Command> = Vec::new();
    let mut j: usize = 0;
    assert(commands_view(statements@) =~= Seq::empty());
    while j < children.len()
        invariant
            j <= children@.len(),
            cv == nodes_view(children@),
            cv == slot_children(node@, "body"@),
            out@.resources == old(out)@.resources,
            lower_body(node@.id, cv, 0, (Seq::empty(), old(out)@.diagnostics)) == lower_body(
                node@.id,
                cv,
                j as int,
                (commands_view(statements@), out@.diagnostics),
            ),
        decreases children@.len() - j,
    {
        let at_j = addr(Some(node.id.as_str()), "body", j);
        lower_command_child_exec(&children[j], at_j, &mut statements, out);
        j = j + 1;
    }
    let r = Resource {
        category: owned("function"),
        id: name,
        origin: at,
        body: Body::Commands { statements },
    };
    out.push_resource(r);
}

fn lower_function_tag(node: &Node, at: StatementAddress, out: &mut Lowered)
    ensures
        final(out)@ == spec_lower_function_tag(node@, at@, old(out)@),
{
    let name = match require_str(node, "name", &at, out) {
        Some(s) => owned(s),
        None => {
            return ;
        },
    };
    let mut functions: Vec<Json> = Vec::new();
    let ghost mut items_v: Seq<JVal> = Seq::empty();
    match input_of(node, "functions") {
        Some(v) => match v.as_array() {
            Some(items) => {
                proof {
                    items_v = jviews(items@);
                }
                let mut k: usize = 0;
                assert(items_v.take(0) =~= Seq::<JVal>::empty());
                while k < items.len()
                    invariant
                        k <= items@.len(),
                        items_v == jviews(items@),
                        jviews(functions@) == strings_only(items_v.take(k as int)),
                    decreases items@.len() - k,
                {
                    assert(items_v.take(k + 1).drop_last() =~= items_v.take(k as int));
                    match items[k].as_str() {
                        Some(s) => {
                            functions.push(Json::Str(owned(s)));
                            assert(jviews(functions@) =~= strings_only(items_v.take(k + 1)));
                        },
                        None => {
                            assert(jviews(functions@) =~= strings_only(items_v.take(k + 1)));
                        },
                    }
                    k = k + 1;
                }
                assert(items_v.take(items@.len() as int) =~= items_v);
            },
            None => {
                assert(jviews(functions@) =~= Seq::empty());
            },
        },
        None => {
            assert(jviews(functions@) =~= Seq::empty());
        },
    }
    let replace = match input_of(node, "replace") {
        Some(v) => match v.as_bool() {
            Some(b) => b,
            None => false,
        },
        None => false,
    };
    let ghost fv = jviews(functions@);
    let mut members: Vec<(String, Json)> = Vec::new();
    if replace {
        members.push((owned("replace"), Json::Bool(true)));
    }
    let arr = Json::Array(functions);
    proof {
        lemma_array_view(functions);
    }
    members.push((owned("values"), arr));
    let value = Json::Object(members);
    proof {
        lemma_object_view(members);
        if replace {
            assert(eviews(members@) =~= seq![
                ("replace"@, JVal::Bool(true)),
                ("values"@, JVal::Arr(fv)),
            ]);
        } else {
            assert(eviews(members@) =~= seq![("values"@, JVal::Arr(fv))]);
        }
    }
    out.push_resource(
        Resource {
            category: owned("tags/function"),
            id: name,
            origin: at,
            body: Body::Json { value },
        },
    );
}

/// An item stack literal in the shape a recipe result or loot entry takes.
pub fn item_stack_json(v: &Json) -> (r: Json)
    ensures
        r@ == spec_item_stack_json(v@),
{
    let mut members: Vec<(String, Json)> = Vec::new();
    let ghost mut c: Seq<(Seq<char>, JVal)> = Seq::empty();
    let ghost mut k: Seq<(Seq<char>, JVal)> = Seq::empty();
    let ghost mut i: Seq<(Seq<char>, JVal)> = Seq::empty();
    match v.get("components") {
        Some(components) => match components.as_object() {
            Some(es) => {
                if es.len() > 0 {
                    members.push((owned("components"), copy_json(components)));
                    proof {
                        c = seq![("components"@, components@)];
                    }
                }
            },
            None => {},
        },
        None => {},
    }
    assert(eviews(members@) =~= c);
    match v.get("count") {
        Some(count) => match count.as_i64() {
            Some(n) => {
                members.push((owned("count"), Json::Number(Number::Int(n))));
                proof {
                    k = seq![("count"@, JVal::Num(NumV::Int(n as int)))];
                }
            },
            None => {},
        },
        None => {},
    }
    assert(eviews(members@) =~= c + k);
    match v.get("item") {
        Some(item) => match item.as_str() {
            Some(s) => {
                members.push((owned("id"), Json::Str(owned(s))));
                proof {
                    i = seq![("id"@, JVal::Str(s@))];
                }
            },
            None => {},
        },
        None => {},
    }
    assert(eviews(members@) =~= c + k + i);
    proof {
        lemma_object_view(members);
    }
    Json::Object(members)
}

fn copy_items(items: &Vec<Json>) -> (r: Vec<Json>)
    ensures
        jviews(r@) == jviews(items@),
{
    let mut out: Vec<Json> = Vec::new();
    let mut k: usize = 0;
    while k < items.len()
        invariant
            k <= items@.len(),
            out@.len() == k,
            forall|m: int| 0 <= m < k ==> crate::json::jview(#[trigger] out@[m]) == crate::json::jview(
                items@[m],
            ),
        decreases items@.len() - k,
    {
        out.push(copy_json(&items[k]));
        k = k + 1;
    }
    assert(jviews(out@) =~= jviews(items@));
    out
}

fn lower_crafting_shapeless(node: &Node, at: StatementAddress, out: &mut Lowered)
    ensures
        final(out)@ == spec_lower_crafting_shapeless(node@, at@, old(out)@),
{
    let name = match require_str(node, "name", &at, out) {
        Some(s) => owned(s),
        None => {
            return ;
        },
    };
    let ingredients = match require_list(node, "ingredients", &at, out) {
        Some(items) => copy_items(items),
        None => {
            return ;
        },
    };
    let result = match input_of(node, "result") {
        Some(r) => r,
        None => {
            out.push_diag(missing_input_diag(node, "result", at));
            return ;
        },
    };
    let ghost iv = jviews(ingredients@);
    let stack = item_stack_json(result);
    let mut members: Vec<(String, Json)> = Vec::new();
    proof {
        lemma_array_view(ingredients);
    }
    members.push((owned("ingredients"), Json::Array(ingredients)));
    members.push((owned("result"), stack));
    members.push((owned("type"), Json::Str(owned("minecraft:crafting_shapeless"))));
    proof {
        lemma_object_view(members);
        assert(eviews(members@) =~= seq![
            ("ingredients"@, JVal::Arr(iv)),
            ("result"@, spec_item_stack_json(result@)),
            ("type"@, JVal::Str("minecraft:crafting_shapeless"@)),
        ]);
    }
    out.push_resource(
        Resource {
            category: owned("recipe"),
            id: name,
            origin: at,
            body: Body::Json { value: Json::Object(members) },
        },
    );
}

fn lower_loot_table(node: &Node, at: StatementAddress, out: &mut Lowered)
    ensures
        final(out)@ == spec_lower_loot_table(node@, at@, old(out)@),
{
    let name = match require_str(node, "name", &at, out) {
        Some(s) => owned(s),
        None => {
            return ;
        },
    };
    let drops = match require_list(node, "drops", &at, out) {
        Some(items) => items,
        None => {
            return ;
        },
    };
    let ghost dv = jviews(drops@);
    let mut entries: Vec<Json> = Vec::new();
    let mut k: usize = 0;
    assert(dv.take(0) =~= Seq::<JVal>::empty());
    assert(jviews(entries@) =~= Seq::empty());
    while k < drops.len()
        invariant
            k <= drops@.len(),
            dv == jviews(drops@),
            jviews(entries@) == loot_entries(dv.take(k as int)),
        decreases drops@.len() - k,
    {
        assert(dv.take(k + 1).drop_last() =~= dv.take(k as int));
        match drops[k].get("item") {
            Some(item) => match item.as_str() {
                Some(s) => {
                    let mut e: Vec<(String, Json)> = Vec::new();
                    e.push((owned("name"), Json::Str(owned(s))));
                    e.push((owned("type"), Json::Str(owned("minecraft:item"))));
                    proof {
                        lemma_object_view(e);
                        assert(eviews(e@) =~= seq![
                            ("name"@, JVal::Str(s@)),
                            ("type"@, JVal::Str("minecraft:item"@)),
                        ]);
                    }
                    entries.push(Json::Object(e));
                    assert(jviews(entries@) =~= loot_entries(dv.take(k + 1)));
                },
                None => {
                    assert(jviews(entries@) =~= loot_entries(dv.take(k + 1)));
                },
            },
            None => {
                assert(jviews(entries@) =~= loot_entries(dv.take(k + 1)));
            },
        }
        k = k + 1;
    }
    assert(dv.take(drops@.len() as int) =~= dv);
    let ghost ev = jviews(entries@);
    proof {
        lemma_array_view(entries);
    }
    let mut pool: Vec<(String, Json)> = Vec::new();
    pool.push((owned("entries"), Json::Array(entries)));
    pool.push((owned("rolls"), Json::Number(Number::Int(1))));
    proof {
        lemma_object_view(pool);
        assert(eviews(pool@) =~= seq![
            ("entries"@, JVal::Arr(ev)),
            ("rolls"@, JVal::Num(NumV::Int(1))),
        ]);
    }
    let pool = Json::Object(pool);
    let ghost pv = pool@;
    let mut pools: Vec<Json> = Vec::new();
    pools.push(pool);
    proof {
        lemma_array_view(pools);
        assert(jviews(pools@) =~= seq![pv]);
    }
    let mut top: Vec<(String, Json)> = Vec::new();
    top.push((owned("pools"), Json::Array(pools)));
    proof {
        lemma_object_view(top);
        assert(eviews(top@) =~= seq![("pools"@, JVal::Arr(seq![pv]))]);
    }
    out.push_resource(
        Resource {
            category: owned("loot_table"),
            id: name,
            origin: at,
            body: Body::Json { value: Json::Object(top) },
        },
    );
}


// ---------------------------------------------------------------------------
// Laws of lowering
// ---------------------------------------------------------------------------
/// Whether every diagnostic of `ds` is an error with a code.
pub open spec fn coded_errors(ds: Seq<DiagV>) -> bool {
    forall|i: int| 0 <= i < ds.len() ==> (#[trigger] ds[i]).severity == Severity::Error && ds[i].code is Some
}

/// Whether every resource of `rs` comes from a top-level statement.
pub open spec fn rooted(rs: Seq<ResourceV>) -> bool {
    forall|i: int| 0 <= i < rs.len() ==> (#[trigger] rs[i]).origin.node is None && rs[i].origin.slot == "root"@
}

proof fn lemma_push_coded(ds: Seq<DiagV>, d: DiagV)
    requires
        coded_errors(ds),
        d.severity == Severity::Error,
        d.code is Some,
    ensures
        coded_errors(ds.push(d)),
{
    assert forall|i: int| 0 <= i < ds.push(d).len() implies (#[trigger] ds.push(d)[i]).severity == Severity::Error
        && ds.push(d)[i].code is Some by {
        if i < ds.len() {
            assert(ds.push(d)[i] == ds[i]);
        }
    }
}

proof fn lemma_push_rooted(rs: Seq<ResourceV>, r: ResourceV)
    requires
        rooted(rs),
        r.origin.node is None,
        r.origin.slot == "root"@,
    ensures
        rooted(rs.push(r)),
{
    assert forall|i: int| 0 <= i < rs.push(r).len() implies (#[trigger] rs.push(r)[i]).origin.node is None
        && rs.push(r)[i].origin.slot == "root"@ by {
        if i < rs.len() {
            assert(rs.push(r)[i] == rs[i]);
        }
    }
}

proof fn lemma_body_coded(owner: Seq<char>, children: Seq<NodeV>, j: int, acc: (Seq<CommandV>, Seq<DiagV>))
    requires
        coded_errors(acc.1),
    ensures
        coded_errors(lower_body(owner, children, j, acc).1),
    decreases children.len() - j,
{
    if 0 <= j < children.len() {
        let n = children[j];
        let at = address(Some(owner), "body"@, j);
        let next = lower_command_child(n, at, acc);
        if block_name(n.block) != "packsmith/command"@ {
            lemma_push_coded(
                acc.1,
                error(
                    codes::SLOT_REJECTS_BLOCK@,
                    at,
                    seq![
                        ("reason"@, ParamV::Text("not_accepted"@)),
                        ("block"@, ParamV::Text(spec_display_name(n.block))),
                        ("accepts"@, ParamV::List(seq!["command"@])),
                    ],
                ),
            );
        } else if jstr_of(input(n, "command"@)) is None {
            lemma_push_coded(acc.1, missing_input(n, "command"@, at));
        }
        lemma_body_coded(owner, children, j + 1, next);
    }
}

proof fn lemma_statement_shape(n: NodeV, at: AddrV, out: LoweredV)
    requires
        coded_errors(out.diagnostics),
        rooted(out.resources),
        at.node is None,
        at.slot == "root"@,
    ensures
        coded_errors(spec_lower_statement(n, at, out).diagnostics),
        rooted(spec_lower_statement(n, at, out).resources),
        spec_lower_statement(n, at, out).resources.len() <= out.resources.len() + 1,
{
    let name = block_name(n.block);
    let r = spec_lower_statement(n, at, out);
    if jstr_of(input(n, "name"@)) is None {
        lemma_push_coded(out.diagnostics, missing_input(n, "name"@, at));
    }
    if name == "packsmith/function"@ {
        match jstr_of(input(n, "name"@)) {
            None => {},
            Some(id) => {
                lemma_body_coded(n.id, slot_children(n, "body"@), 0, (Seq::empty(), out.diagnostics));
                let (statements, diags) = lower_body(
                    n.id,
                    slot_children(n, "body"@),
                    0,
                    (Seq::empty(), out.diagnostics),
                );
                lemma_push_rooted(
                    out.resources,
                    ResourceV { category: "function"@, id, origin: at, body: BodyV::Commands { statements } },
                );
            },
        }
    } else if name == "packsmith/function-tag"@ || name == "packsmith/crafting-shapeless"@ || name
        == "packsmith/loot-table"@ {
        if r.resources.len() > out.resources.len() {
            assert(r.resources == out.resources.push(r.resources.last()));
            lemma_push_rooted(out.resources, r.resources.last());
        }
        if r.diagnostics.len() > out.diagnostics.len() {
            assert(r.diagnostics == out.diagnostics.push(r.diagnostics.last()));
            lemma_push_coded(out.diagnostics, r.diagnostics.last());
        }
    } else {
        lemma_push_coded(out.diagnostics, r.diagnostics.last());
        assert(r.diagnostics == out.diagnostics.push(r.diagnostics.last()));
    }
}

proof fn lemma_lower_from_shape(nodes: Seq<NodeV>, i: int, out: LoweredV)
    requires
        0 <= i <= nodes.len(),
        coded_errors(out.diagnostics),
        rooted(out.resources),
        out.resources.len() <= i,
    ensures
        coded_errors(lower_from(nodes, i, out).diagnostics),
        rooted(lower_from(nodes, i, out).resources),
        lower_from(nodes, i, out).resources.len() <= nodes.len(),
    decreases nodes.len() - i,
{
    if i < nodes.len() {
        lemma_statement_shape(nodes[i], address(None, "root"@, i), out);
        lemma_lower_from_shape(nodes, i + 1, spec_lower_statement(nodes[i], address(None, "root"@, i), out));
    }
}

/// Lowering the top level gives at most one resource per statement, each
/// anchored at a top-level statement, and every diagnostic it meets is an
/// error with a code.
pub proof fn law_lowering_shape(nodes: Seq<NodeV>)
    ensures
        spec_lower_root(nodes).resources.len() <= nodes.len(),
        rooted(spec_lower_root(nodes).resources),
        coded_errors(spec_lower_root(nodes).diagnostics),
{
    lemma_lower_from_shape(nodes, 0, LoweredV { resources: Seq::empty(), diagnostics: Seq::empty() });
}
} // verus!
