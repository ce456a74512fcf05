//! The validation pass: walk the graph once, before lowering, and collect every
//! diagnostic the shape of the graph can carry -- an unknown block, a missing
//! required input, a literal of the wrong type or breaking its type's rules, a
//! node placed where it cannot act, a data edge to nowhere, a forward
//! reference, a cycle. Every diagnostic is an error with a code.
use vstd::prelude::*;

use crate::blocks::{
    block_name, children_of, describe, display_name, input, input_of, lemma_slot_from,
    lemma_slot_view, nodes_view, slot_from, spec_describe, spec_display_name, strs_of,
    BlockDescriptor, DescV, Node, NodeKind, NodeV, PortTypeV, PortType, PortV, SlotV,
};
use crate::codes;
use crate::graph::{edges_of, edges_view, parse_edges, EdgeV, Edge, Graph, GraphV};
use crate::ir::{
    diags_view, param_insert, params_view, pinsert, strs_view, AddrV, DiagV, Diagnostic, Param,
    ParamV, Severity, StatementAddress, copy_address, error_diagnostic,
};
use crate::json::{jarr, jviews, JVal};
use crate::literal::{
    check_literal, finding_view, first_id_finding, first_stack_finding, spec_check_literal, Facts,
};
use crate::lower::{address, error};
use crate::text::{owned, prefix_before, str_eq, str_lt};

verus! {

/// The walk's state: the diagnostics so far, every node seen (id, document
/// position, address) in the order seen, and the next position.
pub struct WalkV {
    pub diags: Seq<DiagV>,
    pub nodes: Seq<(Seq<char>, int, AddrV)>,
    pub position: int,
}

pub open spec fn push_diag(st: WalkV, d: DiagV) -> WalkV {
    WalkV { diags: st.diags.push(d), ..st }
}

pub open spec fn text(s: Seq<char>) -> ParamV {
    ParamV::Text(s)
}

pub open spec fn display_names(names: Seq<Seq<char>>) -> Seq<Seq<char>> {
    Seq::new(names.len(), |i: int| spec_display_name(names[i]))
}

/// Is the node where it can act: a statement, in a slot that takes it, under
/// the parent it needs.
pub open spec fn check_placement(
    desc: DescV,
    block_ref: Seq<char>,
    parent: Option<Seq<char>>,
    accepts: Seq<Seq<char>>,
    at: AddrV,
    st: WalkV,
) -> WalkV {
    let name = block_name(block_ref);
    if desc.node_kind == NodeKind::Value {
        push_diag(st, error(codes::SLOT_EXPECTS_STATEMENT@, at, seq![("block"@, text(desc.title))]))
    } else if accepts.len() > 0 && !accepts.contains(name) {
        push_diag(
            st,
            error(
                codes::SLOT_REJECTS_BLOCK@,
                at,
                seq![
                    ("reason"@, text("not_accepted"@)),
                    ("block"@, text(desc.title)),
                    ("accepts"@, ParamV::List(display_names(accepts))),
                ],
            ),
        )
    } else {
        match desc.requires_parent {
            Some(required) => if parent != Some(required) {
                push_diag(
                    st,
                    error(
                        codes::SLOT_REJECTS_BLOCK@,
                        at,
                        seq![
                            ("reason"@, text("needs_parent"@)),
                            ("block"@, text(desc.title)),
                            ("parent"@, text(spec_display_name(required))),
                        ],
                    ),
                )
            } else {
                st
            },
            None => st,
        }
    }
}

/// The facts of an `input-missing` diagnostic; ports taking ids carry an
/// example id.
pub open spec fn missing_facts(desc: DescV, label: Seq<char>, ty: PortTypeV) -> Facts {
    let p = seq![("block"@, text(desc.title)), ("label"@, text(label))];
    if ty is Id || ty is ListOfId {
        pinsert(p, "example"@, text("example:tick"@))
    } else {
        p
    }
}

/// The input ports of `desc` from index `i` on, checked on `node`.
pub open spec fn check_inputs(
    desc: DescV,
    node: NodeV,
    at: AddrV,
    fed: Seq<(Seq<char>, Seq<char>)>,
    i: int,
    st: WalkV,
) -> WalkV
    decreases desc.inputs.len() - i,
{
    if i < 0 || i >= desc.inputs.len() {
        st
    } else {
        let port = desc.inputs[i];
        let st2 = match input(node, port.name) {
            Some(v) => match spec_check_literal(port, v) {
                Some((code, p)) => push_diag(st, error(code, at, p)),
                None => st,
            },
            None => if port.required && !fed.contains((node.id, port.name)) {
                push_diag(st, error(codes::INPUT_MISSING@, at, missing_facts(desc, port.label, port.ty)))
            } else {
                st
            },
        };
        check_inputs(desc, node, at, fed, i + 1, st2)
    }
}

/// One slot's children from index `k` on.
pub open spec fn walk_list(
    children: Seq<NodeV>,
    owner: Option<Seq<char>>,
    slot: Seq<char>,
    parent: Option<Seq<char>>,
    accepts: Seq<Seq<char>>,
    fed: Seq<(Seq<char>, Seq<char>)>,
    k: int,
    st: WalkV,
) -> WalkV
    decreases children, children.len() - k,
{
    if k < 0 || k >= children.len() {
        st
    } else {
        let node = children[k];
        let at = address(owner, slot, k);
        let st1 = WalkV {
            nodes: st.nodes.push((node.id, st.position, at)),
            position: st.position + 1,
            ..st
        };
        let st2 = match spec_describe(node.block) {
            None => push_diag(st1, error(codes::BLOCK_UNKNOWN@, at, seq![("block"@, text(node.block))])),
            Some(desc) => walk_slots(
                node,
                desc.slots,
                fed,
                0,
                check_inputs(
                    desc,
                    node,
                    at,
                    fed,
                    0,
                    check_placement(desc, node.block, parent, accepts, at, st1),
                ),
            ),
        };
        walk_list(children, owner, slot, parent, accepts, fed, k + 1, st2)
    }
}

/// The declared slots of `node` from index `s` on.
pub open spec fn walk_slots(
    node: NodeV,
    slots: Seq<SlotV>,
    fed: Seq<(Seq<char>, Seq<char>)>,
    s: int,
    st: WalkV,
) -> WalkV
    decreases node, slots.len() - s,
{
    if s < 0 || s >= slots.len() {
        st
    } else {
        let sp = slots[s];
        let st2 = match slot_from(node.slots, sp.name, 0) {
            Some(i) => {
                proof {
                    lemma_slot_from(node.slots, sp.name, 0);
                    assert(decreases_to!(node => node.slots));
                    assert(decreases_to!(node.slots => node.slots[i]));
                    assert(decreases_to!(node.slots[i] => node.slots[i].1));
                }
                walk_list(
                    node.slots[i].1,
                    Some(node.id),
                    sp.name,
                    Some(block_name(node.block)),
                    sp.accepts,
                    fed,
                    0,
                    st,
                )
            },
            None => st,
        };
        walk_slots(node, slots, fed, s + 1, st2)
    }
}

pub proof fn lemma_walk_monotone(
    children: Seq<NodeV>,
    owner: Option<Seq<char>>,
    slot: Seq<char>,
    parent: Option<Seq<char>>,
    accepts: Seq<Seq<char>>,
    fed: Seq<(Seq<char>, Seq<char>)>,
    k: int,
    st: WalkV,
)
    ensures
        walk_list(children, owner, slot, parent, accepts, fed, k, st).position >= st.position,
        0 <= k < children.len() ==> walk_list(children, owner, slot, parent, accepts, fed, k, st).position
            >= st.position + 1,
    decreases children, children.len() - k,
{
    if 0 <= k < children.len() {
        let node = children[k];
        let at = address(owner, slot, k);
        let st1 = WalkV {
            nodes: st.nodes.push((node.id, st.position, at)),
            position: st.position + 1,
            ..st
        };
        match spec_describe(node.block) {
            None => {
                lemma_walk_monotone(
                    children,
                    owner,
                    slot,
                    parent,
                    accepts,
                    fed,
                    k + 1,
                    push_diag(st1, error(codes::BLOCK_UNKNOWN@, at, seq![("block"@, text(node.block))])),
                );
            },
            Some(desc) => {
                let st3 = check_inputs(
                    desc,
                    node,
                    at,
                    fed,
                    0,
                    check_placement(desc, node.block, parent, accepts, at, st1),
                );
                lemma_inputs_position(desc, node, at, fed, 0, check_placement(desc, node.block, parent, accepts, at, st1));
                lemma_slots_monotone(node, desc.slots, fed, 0, st3);
                lemma_walk_monotone(
                    children,
                    owner,
                    slot,
                    parent,
                    accepts,
                    fed,
                    k + 1,
                    walk_slots(node, desc.slots, fed, 0, st3),
                );
            },
        }
    }
}

pub proof fn lemma_slots_monotone(
    node: NodeV,
    slots: Seq<SlotV>,
    fed: Seq<(Seq<char>, Seq<char>)>,
    s: int,
    st: WalkV,
)
    ensures
        walk_slots(node, slots, fed, s, st).position >= st.position,
    decreases node, slots.len() - s,
{
    if 0 <= s < slots.len() {
        let sp = slots[s];
        match slot_from(node.slots, sp.name, 0) {
            Some(i) => {
                lemma_slot_from(node.slots, sp.name, 0);
                assert(decreases_to!(node => node.slots));
                assert(decreases_to!(node.slots => node.slots[i]));
                assert(decreases_to!(node.slots[i] => node.slots[i].1));
                lemma_walk_monotone(
                    node.slots[i].1,
                    Some(node.id),
                    sp.name,
                    Some(block_name(node.block)),
                    sp.accepts,
                    fed,
                    0,
                    st,
                );
                lemma_slots_monotone(
                    node,
                    slots,
                    fed,
                    s + 1,
                    walk_list(
                        node.slots[i].1,
                        Some(node.id),
                        sp.name,
                        Some(block_name(node.block)),
                        sp.accepts,
                        fed,
                        0,
                        st,
                    ),
                );
            },
            None => {
                lemma_slots_monotone(node, slots, fed, s + 1, st);
            },
        }
    }
}

pub proof fn lemma_inputs_position(
    desc: DescV,
    node: NodeV,
    at: AddrV,
    fed: Seq<(Seq<char>, Seq<char>)>,
    i: int,
    st: WalkV,
)
    ensures
        check_inputs(desc, node, at, fed, i, st).position == st.position,
        check_inputs(desc, node, at, fed, i, st).nodes == st.nodes,
    decreases desc.inputs.len() - i,
{
    if 0 <= i < desc.inputs.len() {
        let port = desc.inputs[i];
        let st2 = match input(node, port.name) {
            Some(v) => match spec_check_literal(port, v) {
                Some((code, p)) => push_diag(st, error(code, at, p)),
                None => st,
            },
            None => if port.required && !fed.contains((node.id, port.name)) {
                push_diag(st, error(codes::INPUT_MISSING@, at, missing_facts(desc, port.label, port.ty)))
            } else {
                st
            },
        };
        lemma_inputs_position(desc, node, at, fed, i + 1, st2);
    }
}

// ---------------------------------------------------------------------------
// Implementation of the walk
// ---------------------------------------------------------------------------
/// The exec state of the walk.
pub struct Walk {
    pub diagnostics: Vec<Diagnostic>,
    pub nodes: Vec<(String, u32, StatementAddress)>,
    pub position: u32,
}

pub open spec fn seen_view(ns: Seq<(String, u32, StatementAddress)>) -> Seq<(Seq<char>, int, AddrV)> {
    Seq::new(ns.len(), |i: int| (ns[i].0@, ns[i].1 as int, ns[i].2@))
}

impl View for Walk {
    type V = WalkV;

    open spec fn view(&self) -> WalkV {
        WalkV {
            diags: diags_view(self.diagnostics@),
            nodes: seen_view(self.nodes@),
            position: self.position as int,
        }
    }
}

pub open spec fn fed_view(fed: Seq<(String, String)>) -> Seq<(Seq<char>, Seq<char>)> {
    Seq::new(fed.len(), |i: int| (fed[i].0@, fed[i].1@))
}

fn fed_contains(fed: &Vec<(String, String)>, node: &str, port: &str) -> (r: bool)
    ensures
        r == fed_view(fed@).contains((node@, port@)),
{
    let ghost fv = fed_view(fed@);
    let mut i: usize = 0;
    while i < fed.len()
        invariant
            i <= fed@.len(),
            fv == fed_view(fed@),
            forall|k: int| 0 <= k < i ==> fv[k] != (node@, port@),
        decreases fed@.len() - i,
    {
        if str_eq(fed[i].0.as_str(), node) && str_eq(fed[i].1.as_str(), port) {
            assert(fv[i as int] == (node@, port@));
            return true;
        }
        i = i + 1;
    }
    false
}

fn tp(key: &str, value: String) -> (r: (String, Param))
    ensures
        r.0@ == key@,
        r.1@ == ParamV::Text(value@),
{
    (owned(key), Param::Text(value))
}

impl Walk {
    fn push(&mut self, d: Diagnostic)
        ensures
            final(self)@ == push_diag(old(self)@, d@),
    {
        self.diagnostics.push(d);
        assert(self@.diags =~= old(self)@.diags.push(d@));
    }

    fn check_placement(
        &mut self,
        desc: &BlockDescriptor,
        block_ref: &str,
        parent_block: Option<&str>,
        accepts: &[&'static str],
        at: &StatementAddress,
    )
        ensures
            final(self)@ == check_placement(
                desc@,
                block_ref@,
                match parent_block {
                    Some(s) => Some(s@),
                    None => None,
                },
                strs_of(accepts@),
                at@,
                old(self)@,
            ),
    {
        let name = prefix_before(block_ref, '@');
        if desc.node_kind == NodeKind::Value {
            let mut p: Vec<(String, Param)> = Vec::new();
            p.push(tp("block", owned(desc.title)));
            assert(params_view(p@) =~= seq![("block"@, text(desc@.title))]);
            self.push(error_diagnostic(codes::SLOT_EXPECTS_STATEMENT, copy_address(at), p));
            return ;
        }
        let ghost av = strs_of(accepts@);
        let mut found = false;
        let mut i: usize = 0;
        while i < accepts.len()
            invariant
                i <= accepts@.len(),
                av == strs_of(accepts@),
                found <==> exists|k: int| 0 <= k < i && #[trigger] av[k] == name@,
            decreases accepts@.len() - i,
        {
            assert(av[i as int] == accepts@[i as int]@);
            if str_eq(accepts[i], name.as_str()) {
                found = true;
                assert(av[i as int] == name@);
            }
            i = i + 1;
        }
        assert(found == av.contains(name@));
        if accepts.len() > 0 && !found {
            let mut allowed: Vec<String> = Vec::new();
            let mut j: usize = 0;
            while j < accepts.len()
                invariant
                    j <= accepts@.len(),
                    av == strs_of(accepts@),
                    allowed@.len() == j,
                    forall|k: int| 0 <= k < j ==> (#[trigger] allowed@[k])@ == spec_display_name(av[k]),
                decreases accepts@.len() - j,
            {
                allowed.push(display_name(accepts[j]));
                j = j + 1;
            }
            assert(strs_view(allowed@) =~= display_names(av));
            let mut p: Vec<(String, Param)> = Vec::new();
            p.push(tp("reason", owned("not_accepted")));
            p.push(tp("block", owned(desc.title)));
            p.push((owned("accepts"), Param::List(allowed)));
            assert(params_view(p@) =~= seq![
                ("reason"@, text("not_accepted"@)),
                ("block"@, text(desc@.title)),
                ("accepts"@, ParamV::List(display_names(av))),
            ]);
            self.push(error_diagnostic(codes::SLOT_REJECTS_BLOCK, copy_address(at), p));
            return ;
        }
        match desc.requires_parent {
            Some(required) => {
                let same = match parent_block {
                    Some(pb) => str_eq(pb, required),
                    None => false,
                };
                if !same {
                    let mut p: Vec<(String, Param)> = Vec::new();
                    p.push(tp("reason", owned("needs_parent")));
                    p.push(tp("block", owned(desc.title)));
                    p.push(tp("parent", display_name(required)));
                    assert(params_view(p@) =~= seq![
                        ("reason"@, text("needs_parent"@)),
                        ("block"@, text(desc@.title)),
                        ("parent"@, text(spec_display_name(required@))),
                    ]);
                    self.push(error_diagnostic(codes::SLOT_REJECTS_BLOCK, copy_address(at), p));
                }
            },
            None => {},
        }
    }

    fn check_inputs(
        &mut self,
        desc: &BlockDescriptor,
        node: &Node,
        at: &StatementAddress,
        fed: &Vec<(String, String)>,
    )
        ensures
            final(self)@ == check_inputs(desc@, node@, at@, fed_view(fed@), 0, old(self)@),
    {
        let ghost dv = desc@;
        let mut i: usize = 0;
        while i < desc.inputs.len()
            invariant
                i <= desc.inputs@.len(),
                dv == desc@,
                dv.inputs.len() == desc.inputs@.len(),
                check_inputs(dv, node@, at@, fed_view(fed@), 0, old(self)@) == check_inputs(
                    dv,
                    node@,
                    at@,
                    fed_view(fed@),
                    i as int,
                    self@,
                ),
            decreases desc.inputs@.len() - i,
        {
            let port = &desc.inputs[i];
            assert(dv.inputs[i as int] == port@);
            match input_of(node, port.name) {
                Some(value) => {
                    match check_literal(port, value) {
                        Some(f) => {
                            self.push(error_diagnostic(f.code, copy_address(at), f.params));
                        },
                        None => {},
                    }
                },
                None => {
                    if port.required && !fed_contains(fed, node.id.as_str(), port.name) {
                        let mut p: Vec<(String, Param)> = Vec::new();
                        p.push(tp("block", owned(desc.title)));
                        p.push(tp("label", owned(port.label)));
                        assert(params_view(p@) =~= seq![
                            ("block"@, text(dv.title)),
                            ("label"@, text(port@.label)),
                        ]);
                        match port.ty {
                            PortType::Id { .. } | PortType::ListOfId { .. } => {
                                param_insert(&mut p, "example", Param::Text(owned("example:tick")));
                            },
                            _ => {},
                        }
                        self.push(error_diagnostic(codes::INPUT_MISSING, copy_address(at), p));
                    }
                },
            }
            i = i + 1;
        }
    }

    /// Walk one slot's children.
    fn slot(
        &mut self,
        children: &[Node],
        owner: Option<&str>,
        slot: &str,
        parent_block: Option<&str>,
        accepts: &[&'static str],
        fed: &Vec<(String, String)>,
    )
        requires
            walk_list(
                nodes_view(children@),
                match owner {
                    Some(s) => Some(s@),
                    None => None,
                },
                slot@,
                match parent_block {
                    Some(s) => Some(s@),
                    None => None,
                },
                strs_of(accepts@),
                fed_view(fed@),
                0,
                old(self)@,
            ).position <= u32::MAX,
        ensures
            final(self)@ == walk_list(
                nodes_view(children@),
                match owner {
                    Some(s) => Some(s@),
                    None => None,
                },
                slot@,
                match parent_block {
                    Some(s) => Some(s@),
                    None => None,
                },
                strs_of(accepts@),
                fed_view(fed@),
                0,
                old(self)@,
            ),
        decreases nodes_view(children@),
    {
        let ghost cv = nodes_view(children@);
        let ghost ov = match owner {
            Some(s) => Some(s@),
            None => None,
        };
        let ghost pv = match parent_block {
            Some(s) => Some(s@),
            None => None,
        };
        let ghost av = strs_of(accepts@);
        let ghost fv = fed_view(fed@);
        let ghost total = walk_list(cv, ov, slot@, pv, av, fv, 0, old(self)@);
        let mut k: usize = 0;
        while k < children.len()
            invariant
                k <= children@.len(),
                cv == nodes_view(children@),
                ov == (match owner {
                    Some(s) => Some(s@),
                    None => None,
                }),
                pv == (match parent_block {
                    Some(s) => Some(s@),
                    None => None,
                }),
                av == strs_of(accepts@),
                fv == fed_view(fed@),
                total.position <= u32::MAX,
                total == walk_list(cv, ov, slot@, pv, av, fv, k as int, self@),
            decreases children@.len() - k,
        {
            let node = &children[k];
            assert(cv[k as int] == node@);
            let at = StatementAddress {
                node: match owner {
                    Some(s) => Some(owned(s)),
                    None => None,
                },
                slot: owned(slot),
                index: k as u32,
            };
            assert(at@ == address(ov, slot@, k as int));
            proof {
                lemma_walk_monotone(cv, ov, slot@, pv, av, fv, k as int, self@);
            }
            let ghost st0 = self@;
            self.nodes.push((crate::text::copy_string(&node.id), self.position, copy_address(&at)));
            self.position = self.position + 1;
            let ghost st1 = WalkV {
                nodes: st0.nodes.push((node@.id, st0.position, at@)),
                position: st0.position + 1,
                ..st0
            };
            assert(self@.nodes =~= st1.nodes);
            assert(self@ == st1);
            match describe(node.block.as_str()) {
                None => {
                    let mut p: Vec<(String, Param)> = Vec::new();
                    p.push(tp("block", crate::text::copy_string(&node.block)));
                    assert(params_view(p@) =~= seq![("block"@, text(node@.block))]);
                    self.push(error_diagnostic(codes::BLOCK_UNKNOWN, at, p));
                },
                Some(desc) => {
                    self.check_placement(&desc, node.block.as_str(), parent_block, accepts, &at);
                    self.check_inputs(&desc, node, &at, fed);
                    let ghost dv = desc@;
                    let ghost st3 = self@;
                    proof {
                        lemma_inputs_position(
                            dv,
                            node@,
                            at@,
                            fv,
                            0,
                            check_placement(dv, node@.block, pv, av, at@, st1),
                        );
                    }
                    let name = prefix_before(node.block.as_str(), '@');
                    let mut s: usize = 0;
                    while s < desc.slots.len()
                        invariant
                            s <= desc.slots@.len(),
                            dv == desc@,
                            dv.slots.len() == desc.slots@.len(),
                            name@ == block_name(node@.block),
                            fv == fed_view(fed@),
                            cv == nodes_view(children@),
                            cv[k as int] == node@,
                            k < children@.len(),
                            total.position <= u32::MAX,
                            total == walk_list(
                                cv,
                                ov,
                                slot@,
                                pv,
                                av,
                                fv,
                                k + 1,
                                walk_slots(node@, dv.slots, fv, 0, st3),
                            ),
                            walk_slots(node@, dv.slots, fv, 0, st3) == walk_slots(
                                node@,
                                dv.slots,
                                fv,
                                s as int,
                                self@,
                            ),
                        decreases desc.slots@.len() - s,
                    {
                        let sp = &desc.slots[s];
                        assert(dv.slots[s as int] == sp@);
                        let grandchildren = children_of(node, sp.name);
                        proof {
                            lemma_walk_monotone(
                                cv,
                                ov,
                                slot@,
                                pv,
                                av,
                                fv,
                                k + 1,
                                walk_slots(node@, dv.slots, fv, 0, st3),
                            );
                            lemma_slot_from(node@.slots, sp@.name, 0);
                            let gv = walk_list(
                                nodes_view(grandchildren@),
                                Some(node@.id),
                                sp@.name,
                                Some(block_name(node@.block)),
                                sp@.accepts,
                                fv,
                                0,
                                self@,
                            );
                            lemma_slots_monotone(node@, dv.slots, fv, s + 1, gv);
                            match slot_from(node@.slots, sp@.name, 0) {
                                Some(i) => {
                                    assert(decreases_to!(cv => cv[k as int]));
                                    assert(decreases_to!(node@ => node@.slots));
                                    assert(decreases_to!(node@.slots => node@.slots[i]));
                                    assert(decreases_to!(node@.slots[i] => node@.slots[i].1));
                                    assert(decreases_to!(cv => nodes_view(grandchildren@)));
                                },
                                None => {
                                    assert(nodes_view(grandchildren@) =~= cv.subrange(0, 0));
                                    assert(decreases_to!(cv => cv.subrange(0, 0)));
                                },
                            }
                        }
                        self.slot(
                            grandchildren,
                            Some(node.id.as_str()),
                            sp.name,
                            Some(name.as_str()),
                            sp.accepts,
                            fed,
                        );
                        s = s + 1;
                    }
                },
            }
            k = k + 1;
        }
    }
}

} // verus!

verus! {

// ---------------------------------------------------------------------------
// Data edges
// ---------------------------------------------------------------------------
/// The position and address of the node `id`: the one seen last, as a map
/// insert keeps it.
pub open spec fn node_lookup(nodes: Seq<(Seq<char>, int, AddrV)>, id: Seq<char>) -> Option<(int, AddrV)>
    decreases nodes.len(),
{
    if nodes.len() == 0 {
        None
    } else if nodes.last().0 == id {
        Some((nodes.last().1, nodes.last().2))
    } else {
        node_lookup(nodes.drop_last(), id)
    }
}

pub open spec fn root_address() -> AddrV {
    AddrV { node: None, slot: "root"@, index: 0 }
}

/// One edge: both ends must name a node, and the source must not come later
/// in the document than the node that reads it.
pub open spec fn check_edge(e: EdgeV, nodes: Seq<(Seq<char>, int, AddrV)>, diags: Seq<DiagV>) -> Seq<DiagV> {
    let from = node_lookup(nodes, e.from.node);
    let to = node_lookup(nodes, e.to.node);
    let anchor = match to {
        Some(t) => t.1,
        None => match from {
            Some(f) => f.1,
            None => root_address(),
        },
    };
    match (from, to) {
        (None, _) => diags.push(
            error(
                codes::EDGE_UNKNOWN_NODE@,
                anchor,
                seq![("node"@, text(e.from.node)), ("role"@, text("source"@))],
            ),
        ),
        (Some(_), None) => diags.push(
            error(
                codes::EDGE_UNKNOWN_NODE@,
                anchor,
                seq![("node"@, text(e.to.node)), ("role"@, text("target"@))],
            ),
        ),
        (Some(s), Some(t)) => if s.0 > t.0 {
            diags.push(error(codes::EDGE_FORWARD_REFERENCE@, t.1, seq![("from"@, text(e.from.node))]))
        } else {
            diags
        },
    }
}

/// The edges from index `i` on.
pub open spec fn check_edges(edges: Seq<EdgeV>, nodes: Seq<(Seq<char>, int, AddrV)>, i: int, diags: Seq<DiagV>) -> Seq<DiagV>
    decreases edges.len() - i,
{
    if i < 0 || i >= edges.len() {
        diags
    } else {
        check_edges(edges, nodes, i + 1, check_edge(edges[i], nodes, diags))
    }
}

impl Walk {
    fn lookup(&self, id: &str) -> (r: Option<usize>)
        ensures
            r matches Some(i) ==> i < self.nodes@.len() && node_lookup(self@.nodes, id@) == Some(
                (self.nodes@[i as int].1 as int, self.nodes@[i as int].2@),
            ),
            r is None ==> node_lookup(self@.nodes, id@) is None,
    {
        let ghost nv = self@.nodes;
        let mut i = self.nodes.len();
        assert(nv.take(i as int) =~= nv);
        while i > 0
            invariant
                i <= self.nodes@.len(),
                nv == self@.nodes,
                node_lookup(nv, id@) == node_lookup(nv.take(i as int), id@),
            decreases i,
        {
            assert(nv.take(i as int).drop_last() =~= nv.take(i - 1));
            if str_eq(self.nodes[i - 1].0.as_str(), id) {
                return Some(i - 1);
            }
            i = i - 1;
        }
        None
    }

    fn check_edge(&mut self, e: &Edge)
        ensures
            final(self)@ == (WalkV {
                diags: check_edge(e@, old(self)@.nodes, old(self)@.diags),
                ..old(self)@
            }),
    {
        let from = self.lookup(e.from.node.as_str());
        let to = self.lookup(e.to.node.as_str());
        let anchor = match to {
            Some(t) => copy_address(&self.nodes[t].2),
            None => match from {
                Some(f) => copy_address(&self.nodes[f].2),
                None => StatementAddress { node: None, slot: owned("root"), index: 0 },
            },
        };
        match from {
            None => {
                let mut p: Vec<(String, Param)> = Vec::new();
                p.push(tp("node", crate::text::copy_string(&e.from.node)));
                p.push(tp("role", owned("source")));
                assert(params_view(p@) =~= seq![("node"@, text(e@.from.node)), ("role"@, text("source"@))]);
                self.push(error_diagnostic(codes::EDGE_UNKNOWN_NODE, anchor, p));
            },
            Some(f) => match to {
                None => {
                    let mut p: Vec<(String, Param)> = Vec::new();
                    p.push(tp("node", crate::text::copy_string(&e.to.node)));
                    p.push(tp("role", owned("target")));
                    assert(params_view(p@) =~= seq![("node"@, text(e@.to.node)), ("role"@, text("target"@))]);
                    self.push(error_diagnostic(codes::EDGE_UNKNOWN_NODE, anchor, p));
                },
                Some(t) => {
                    if self.nodes[f].1 > self.nodes[t].1 {
                        let mut p: Vec<(String, Param)> = Vec::new();
                        p.push(tp("from", crate::text::copy_string(&e.from.node)));
                        assert(params_view(p@) =~= seq![("from"@, text(e@.from.node))]);
                        let at = copy_address(&self.nodes[t].2);
                        self.push(error_diagnostic(codes::EDGE_FORWARD_REFERENCE, at, p));
                    }
                },
            },
        }
    }
}

} // verus!

verus! {

// ---------------------------------------------------------------------------
// Cycle detection
// ---------------------------------------------------------------------------
/// The state of a node in the depth-first search for a cycle.
#[derive(Debug, Clone, Copy, PartialEq, Eq, Structural)]
pub enum Mark {
    Unseen,
    InProgress,
    Done,
}

/// For each node id that some edge leaves, the ids its edges reach in edge
/// order; keyed by id, each key once, keys in ascending order.
pub type Adj = Seq<(Seq<char>, Seq<Seq<char>>)>;

/// Marks set so far, in the order set; the last mark of an id is its state.
pub type Marks = Seq<(Seq<char>, Mark)>;

pub open spec fn adj_key_from(adj: Adj, k: Seq<char>, from: int) -> Option<int>
    decreases adj.len() - from,
{
    if from < 0 || from >= adj.len() {
        None
    } else if adj[from].0 == k {
        Some(from)
    } else {
        adj_key_from(adj, k, from + 1)
    }
}

/// The ids reachable in one edge from `k`.
pub open spec fn adj_of(adj: Adj, k: Seq<char>) -> Seq<Seq<char>> {
    match adj_key_from(adj, k, 0) {
        Some(i) => adj[i].1,
        None => Seq::empty(),
    }
}

/// The first position at or after `from` whose key does not sort before `k`.
pub open spec fn insert_pos_from(adj: Adj, k: Seq<char>, from: int) -> int
    decreases adj.len() - from,
{
    if from < 0 || from >= adj.len() {
        adj.len() as int
    } else if !crate::text::seq_lt(adj[from].0, k) {
        from
    } else {
        insert_pos_from(adj, k, from + 1)
    }
}

/// `adj` with the edge `from -> to` added, as a map entry would take it.
pub open spec fn adj_insert(adj: Adj, from: Seq<char>, to: Seq<char>) -> Adj {
    match adj_key_from(adj, from, 0) {
        Some(i) => adj.update(i, (from, adj[i].1.push(to))),
        None => adj.insert(insert_pos_from(adj, from, 0), (from, seq![to])),
    }
}

/// The adjacency of the edges from index `i` on whose ends both name a node.
pub open spec fn build_adj(edges: Seq<EdgeV>, nodes: Seq<(Seq<char>, int, AddrV)>, i: int, adj: Adj) -> Adj
    decreases edges.len() - i,
{
    if i < 0 || i >= edges.len() {
        adj
    } else {
        let e = edges[i];
        let adj2 = if node_lookup(nodes, e.from.node) is Some && node_lookup(nodes, e.to.node) is Some {
            adj_insert(adj, e.from.node, e.to.node)
        } else {
            adj
        };
        build_adj(edges, nodes, i + 1, adj2)
    }
}

/// The state of `id`: its last mark, or unseen.
pub open spec fn mark_of(marks: Marks, id: Seq<char>) -> Mark
    decreases marks.len(),
{
    if marks.len() == 0 {
        Mark::Unseen
    } else if marks.last().0 == id {
        marks.last().1
    } else {
        mark_of(marks.drop_last(), id)
    }
}

/// The first position of `x` in `path`.
pub open spec fn path_pos_from(path: Seq<Seq<char>>, x: Seq<char>, from: int) -> Option<int>
    decreases path.len() - from,
{
    if from < 0 || from >= path.len() {
        None
    } else if path[from] == x {
        Some(from)
    } else {
        path_pos_from(path, x, from + 1)
    }
}

/// The `edge-cycle` diagnostic for reaching `next` again while it is on
/// `path`: the cycle runs from its first place on the path back to it.
pub open spec fn cycle_diag(nodes: Seq<(Seq<char>, int, AddrV)>, path: Seq<Seq<char>>, next: Seq<char>) -> DiagV {
    let start = match path_pos_from(path, next, 0) {
        Some(s) => s,
        None => 0,
    };
    let anchor = match node_lookup(nodes, next) {
        Some(n) => n.1,
        None => root_address(),
    };
    error(codes::EDGE_CYCLE@, anchor, seq![("cycle"@, ParamV::List(path.skip(start).push(next)))])
}

/// Depth-first visit of `x`: mark it in progress, follow its edges in order,
/// and report the first edge that reaches a node still in progress. `fuel`
/// bounds the depth; it is always enough (see `detect_cycle`).
pub open spec fn visit(adj: Adj, nodes: Seq<(Seq<char>, int, AddrV)>, fuel: nat, x: Seq<char>, marks: Marks, path: Seq<Seq<char>>) -> (Option<DiagV>, Marks)
    decreases fuel, 1int, 0int,
{
    visit_list(adj, nodes, fuel, x, adj_of(adj, x), 0, marks.push((x, Mark::InProgress)), path.push(x))
}

pub open spec fn visit_list(adj: Adj, nodes: Seq<(Seq<char>, int, AddrV)>, fuel: nat, x: Seq<char>, nexts: Seq<Seq<char>>, i: int, marks: Marks, path: Seq<Seq<char>>) -> (Option<DiagV>, Marks)
    decreases fuel, 0int, nexts.len() - i,
{
    if i < 0 || i >= nexts.len() {
        (None, marks.push((x, Mark::Done)))
    } else {
        let next = nexts[i];
        match mark_of(marks, next) {
            Mark::InProgress => (Some(cycle_diag(nodes, path, next)), marks),
            Mark::Unseen => if fuel == 0 {
                (None, marks)
            } else {
                let r = visit(adj, nodes, (fuel - 1) as nat, next, marks, path);
                if r.0 is Some {
                    r
                } else {
                    visit_list(adj, nodes, fuel, x, nexts, i + 1, r.1, path)
                }
            },
            Mark::Done => visit_list(adj, nodes, fuel, x, nexts, i + 1, marks, path),
        }
    }
}

/// Searches from each key of `adj` in ascending order, from index `j` on.
pub open spec fn detect_from(adj: Adj, nodes: Seq<(Seq<char>, int, AddrV)>, fuel: nat, j: int, marks: Marks) -> Option<DiagV>
    decreases adj.len() - j,
{
    if j < 0 || j >= adj.len() {
        None
    } else {
        let r = visit(adj, nodes, fuel, adj[j].0, marks, Seq::empty());
        if r.0 is Some {
            r.0
        } else {
            detect_from(adj, nodes, fuel, j + 1, r.1)
        }
    }
}

/// Every id in `adj`: keys and reached ids.
pub open spec fn ids(adj: Adj) -> Seq<Seq<char>>
    decreases adj.len(),
{
    if adj.len() == 0 {
        Seq::empty()
    } else {
        ids(adj.drop_last()).push(adj.last().0) + adj.last().1
    }
}

/// The one `edge-cycle` diagnostic, if the edges among known nodes form a
/// cycle that the search meets.
pub open spec fn detect_cycle(edges: Seq<EdgeV>, nodes: Seq<(Seq<char>, int, AddrV)>) -> Option<DiagV> {
    let adj = build_adj(edges, nodes, 0, Seq::empty());
    detect_from(adj, nodes, (ids(adj).len() + 1) as nat, 0, Seq::empty())
}

/// Every diagnostic the graph's shape carries: the node walk in document
/// order, then the edge checks in edge order, then at most one cycle.
pub open spec fn spec_validate(g: GraphV) -> Seq<DiagV> {
    let edges = parse_edges(g.edges);
    let fed = Seq::new(edges.len(), |i: int| (edges[i].to.node, edges[i].to.port));
    let w = walk_list(
        g.root,
        None,
        "root"@,
        None,
        Seq::empty(),
        fed,
        0,
        WalkV { diags: Seq::empty(), nodes: Seq::empty(), position: 0 },
    );
    let d = check_edges(edges, w.nodes, 0, w.diags);
    match detect_cycle(edges, w.nodes) {
        Some(c) => d.push(c),
        None => d,
    }
}

/// The number of nodes the walk visits: one more than the last position it
/// hands out. A position is a `u32`.
pub open spec fn walk_count(g: GraphV) -> int {
    let edges = parse_edges(g.edges);
    let fed = Seq::new(edges.len(), |i: int| (edges[i].to.node, edges[i].to.port));
    walk_list(
        g.root,
        None,
        "root"@,
        None,
        Seq::empty(),
        fed,
        0,
        WalkV { diags: Seq::empty(), nodes: Seq::empty(), position: 0 },
    ).position
}

// ---------------------------------------------------------------------------
// Termination of the search
// ---------------------------------------------------------------------------
pub open spec fn marked(marks: Marks, u: Seq<char>) -> bool {
    exists|i: int| 0 <= i < marks.len() && (#[trigger] marks[i]).0 == u
}

pub open spec fn all_set(marks: Marks) -> bool {
    forall|i: int| 0 <= i < marks.len() ==> (#[trigger] marks[i]).1 != Mark::Unseen
}

pub open spec fn universe(adj: Adj) -> Set<Seq<char>> {
    ids(adj).to_set()
}

pub open spec fn unseen(adj: Adj, marks: Marks) -> Set<Seq<char>> {
    universe(adj).filter(|u: Seq<char>| !marked(marks, u))
}

pub proof fn lemma_mark_of_unseen(marks: Marks, u: Seq<char>)
    requires
        all_set(marks),
    ensures
        (mark_of(marks, u) == Mark::Unseen) == !marked(marks, u),
    decreases marks.len(),
{
    if marks.len() > 0 {
        let d = marks.drop_last();
        assert(all_set(d)) by {
            assert forall|i: int| 0 <= i < d.len() implies (#[trigger] d[i]).1 != Mark::Unseen by {
                assert(d[i] == marks[i]);
            }
        }
        lemma_mark_of_unseen(d, u);
        if marks.last().0 != u {
            if marked(marks, u) {
                let i = choose|i: int| 0 <= i < marks.len() && (#[trigger] marks[i]).0 == u;
                assert(i != marks.len() - 1);
                assert(d[i] == marks[i]);
            }
            if marked(d, u) {
                let i = choose|i: int| 0 <= i < d.len() && (#[trigger] d[i]).0 == u;
                assert(marks[i] == d[i]);
            }
        } else {
            assert(marks[marks.len() - 1].0 == u);
        }
    }
}

pub proof fn lemma_universe_finite(adj: Adj)
    ensures
        universe(adj).finite(),
        universe(adj).len() <= ids(adj).len(),
{
    ids(adj).lemma_cardinality_of_set();
}

pub proof fn lemma_unseen_bound(adj: Adj, marks: Marks)
    ensures
        unseen(adj, marks).finite(),
        unseen(adj, marks).len() <= ids(adj).len(),
{
    lemma_universe_finite(adj);
    universe(adj).lemma_len_filter(|u: Seq<char>| !marked(marks, u));
}

pub proof fn lemma_unseen_prefix(adj: Adj, m1: Marks, m2: Marks)
    requires
        m1.len() <= m2.len(),
        m1 == m2.take(m1.len() as int),
    ensures
        unseen(adj, m2).len() <= unseen(adj, m1).len(),
{
    lemma_unseen_bound(adj, m1);
    assert forall|u: Seq<char>| unseen(adj, m2).contains(u) implies unseen(adj, m1).contains(u) by {
        if marked(m1, u) {
            let i = choose|i: int| 0 <= i < m1.len() && (#[trigger] m1[i]).0 == u;
            assert(m2[i] == m1[i]);
        }
    }
    vstd::set_lib::lemma_len_subset(unseen(adj, m2), unseen(adj, m1));
}

pub proof fn lemma_unseen_mark(adj: Adj, m: Marks, x: Seq<char>, k: Mark)
    requires
        universe(adj).contains(x),
        !marked(m, x),
    ensures
        unseen(adj, m.push((x, k))) == unseen(adj, m).remove(x),
        unseen(adj, m.push((x, k))).len() + 1 == unseen(adj, m).len(),
{
    let m2 = m.push((x, k));
    assert forall|u: Seq<char>| marked(m2, u) == (marked(m, u) || u == x) by {
        if marked(m2, u) {
            let i = choose|i: int| 0 <= i < m2.len() && (#[trigger] m2[i]).0 == u;
            if i < m.len() {
                assert(m[i] == m2[i]);
            }
        }
        if marked(m, u) {
            let i = choose|i: int| 0 <= i < m.len() && (#[trigger] m[i]).0 == u;
            assert(m2[i] == m[i]);
        }
        if u == x {
            assert(m2[m.len() as int].0 == x);
        }
    }
    assert(unseen(adj, m2) =~= unseen(adj, m).remove(x));
    lemma_unseen_bound(adj, m);
    assert(unseen(adj, m).contains(x));
}

pub proof fn lemma_ids_contain(adj: Adj, j: int)
    requires
        0 <= j < adj.len(),
    ensures
        universe(adj).contains(adj[j].0),
        forall|t: int| 0 <= t < adj[j].1.len() ==> universe(adj).contains(#[trigger] adj[j].1[t]),
    decreases adj.len(),
{
    let d = adj.drop_last();
    let s = ids(d).push(adj.last().0);
    assert(ids(adj) == s + adj.last().1);
    if j == adj.len() - 1 {
        assert(ids(adj)[ids(d).len() as int] == adj[j].0);
        assert forall|t: int| 0 <= t < adj[j].1.len() implies universe(adj).contains(#[trigger] adj[j].1[t]) by {
            assert(ids(adj)[s.len() + t] == adj[j].1[t]);
        }
    } else {
        lemma_ids_contain(d, j);
        assert(d[j] == adj[j]);
        assert forall|u: Seq<char>| universe(d).contains(u) implies universe(adj).contains(u) by {
            let i = choose|i: int| 0 <= i < ids(d).len() && ids(d)[i] == u;
            assert(ids(adj)[i] == u);
        }
    }
}

pub proof fn lemma_adj_of_in_universe(adj: Adj, x: Seq<char>)
    ensures
        forall|t: int| 0 <= t < adj_of(adj, x).len() ==> universe(adj).contains(#[trigger] adj_of(adj, x)[t]),
{
    lemma_adj_key_from(adj, x, 0);
    match adj_key_from(adj, x, 0) {
        Some(i) => {
            lemma_ids_contain(adj, i);
        },
        None => {},
    }
}

pub proof fn lemma_adj_key_from(adj: Adj, k: Seq<char>, from: int)
    requires
        0 <= from,
    ensures
        adj_key_from(adj, k, from) matches Some(i) ==> from <= i < adj.len() && adj[i].0 == k,
        adj_key_from(adj, k, from) is None ==> forall|j: int| from <= j < adj.len() ==> adj[j].0 != k,
    decreases adj.len() - from,
{
    if from < adj.len() && adj[from].0 != k {
        lemma_adj_key_from(adj, k, from + 1);
    }
}

} // verus!

verus! {

pub open spec fn adj_view(adj: Seq<(String, Vec<String>)>) -> Adj {
    Seq::new(adj.len(), |i: int| (adj[i].0@, strs_view(adj[i].1@)))
}

pub open spec fn marks_view(m: Seq<(String, Mark)>) -> Marks {
    Seq::new(m.len(), |i: int| (m[i].0@, m[i].1))
}

fn find_key(adj: &Vec<(String, Vec<String>)>, k: &str) -> (r: Option<usize>)
    ensures
        r matches Some(i) ==> adj_key_from(adj_view(adj@), k@, 0) == Some(i as int) && i < adj@.len(),
        r is None ==> adj_key_from(adj_view(adj@), k@, 0) is None,
{
    let ghost av = adj_view(adj@);
    let mut i: usize = 0;
    while i < adj.len()
        invariant
            i <= adj@.len(),
            av == adj_view(adj@),
            adj_key_from(av, k@, 0) == adj_key_from(av, k@, i as int),
        decreases adj@.len() - i,
    {
        if str_eq(adj[i].0.as_str(), k) {
            return Some(i);
        }
        i = i + 1;
    }
    None
}

fn adj_insert_exec(adj: &mut Vec<(String, Vec<String>)>, from: &str, to: &str)
    ensures
        adj_view(final(adj)@) == adj_insert(adj_view(old(adj)@), from@, to@),
{
    let ghost av = adj_view(adj@);
    match find_key(adj, from) {
        Some(i) => {
            let mut list = crate::ir::copy_strings(adj[i].1.as_slice());
            list.push(owned(to));
            assert(strs_view(list@) =~= av[i as int].1.push(to@));
            adj.set(i, (owned(from), list));
            assert(adj_view(adj@) =~= av.update(i as int, (from@, av[i as int].1.push(to@))));
        },
        None => {
            let mut j: usize = 0;
            while j < adj.len() && str_lt(adj[j].0.as_str(), from)
                invariant
                    j <= adj@.len(),
                    av == adj_view(adj@),
                    insert_pos_from(av, from@, 0) == insert_pos_from(av, from@, j as int),
                decreases adj@.len() - j,
            {
                j = j + 1;
            }
            let mut list: Vec<String> = Vec::new();
            list.push(owned(to));
            assert(strs_view(list@) =~= seq![to@]);
            adj.insert(j, (owned(from), list));
            assert(adj_view(adj@) =~= av.insert(j as int, (from@, seq![to@])));
        },
    }
}

fn mark_of_exec(marks: &Vec<(String, Mark)>, id: &str) -> (r: Mark)
    ensures
        r == mark_of(marks_view(marks@), id@),
{
    let ghost mv = marks_view(marks@);
    let mut i = marks.len();
    assert(mv.take(i as int) =~= mv);
    while i > 0
        invariant
            i <= marks@.len(),
            mv == marks_view(marks@),
            mark_of(mv, id@) == mark_of(mv.take(i as int), id@),
        decreases i,
    {
        assert(mv.take(i as int).drop_last() =~= mv.take(i - 1));
        if str_eq(marks[i - 1].0.as_str(), id) {
            return marks[i - 1].1;
        }
        i = i - 1;
    }
    Mark::Unseen
}

fn path_pos(path: &Vec<String>, x: &str) -> (r: Option<usize>)
    ensures
        r matches Some(i) ==> path_pos_from(strs_view(path@), x@, 0) == Some(i as int) && i < path@.len(),
        r is None ==> path_pos_from(strs_view(path@), x@, 0) is None,
{
    let ghost pv = strs_view(path@);
    let mut i: usize = 0;
    while i < path.len()
        invariant
            i <= path@.len(),
            pv == strs_view(path@),
            path_pos_from(pv, x@, 0) == path_pos_from(pv, x@, i as int),
        decreases path@.len() - i,
    {
        if str_eq(path[i].as_str(), x) {
            return Some(i);
        }
        i = i + 1;
    }
    None
}

pub proof fn lemma_path_pos(path: Seq<Seq<char>>, x: Seq<char>, from: int)
    requires
        0 <= from,
    ensures
        path_pos_from(path, x, from) matches Some(i) ==> from <= i < path.len(),
    decreases path.len() - from,
{
    if from < path.len() && path[from] != x {
        lemma_path_pos(path, x, from + 1);
    }
}

pub open spec fn is_prefix(m1: Marks, m2: Marks) -> bool {
    m1.len() <= m2.len() && m1 == m2.take(m1.len() as int)
}

impl Walk {
    fn cycle_diag_exec(&self, path: &Vec<String>, next: &str) -> (r: Diagnostic)
        ensures
            r@ == cycle_diag(self@.nodes, strs_view(path@), next@),
    {
        let start = match path_pos(path, next) {
            Some(s) => s,
            None => 0,
        };
        proof {
            lemma_path_pos(strs_view(path@), next@, 0);
        }
        let mut cycle: Vec<String> = Vec::new();
        let mut i = start;
        while i < path.len()
            invariant
                start <= i <= path@.len(),
                cycle@.len() == i - start,
                forall|k: int| 0 <= k < cycle@.len() ==> (#[trigger] cycle@[k])@ == path@[start + k]@,
            decreases path@.len() - i,
        {
            cycle.push(crate::text::copy_string(&path[i]));
            i = i + 1;
        }
        cycle.push(owned(next));
        assert(strs_view(cycle@) =~= strs_view(path@).skip(start as int).push(next@));
        let anchor = match self.lookup(next) {
            Some(n) => copy_address(&self.nodes[n].2),
            None => StatementAddress { node: None, slot: owned("root"), index: 0 },
        };
        let mut p: Vec<(String, Param)> = Vec::new();
        p.push((owned("cycle"), Param::List(cycle)));
        assert(params_view(p@) =~= seq![("cycle"@, ParamV::List(strs_view(path@).skip(start as int).push(next@)))]);
        error_diagnostic(codes::EDGE_CYCLE, anchor, p)
    }

    fn visit(
        &mut self,
        x: &str,
        adj: &Vec<(String, Vec<String>)>,
        marks: &mut Vec<(String, Mark)>,
        path: &mut Vec<String>,
        Ghost(fuel): Ghost<nat>,
    ) -> (found: bool)
        requires
            all_set(marks_view(old(marks)@)),
            universe(adj_view(adj@)).contains(x@),
            fuel > unseen(adj_view(adj@), marks_view(old(marks)@).push((x@, Mark::InProgress))).len(),
        ensures
            found == visit(adj_view(adj@), old(self)@.nodes, fuel, x@, marks_view(old(marks)@), strs_view(old(path)@)).0 is Some,
            final(self)@.nodes == old(self)@.nodes,
            final(self)@.position == old(self)@.position,
            found ==> final(self)@.diags == old(self)@.diags.push(
                visit(adj_view(adj@), old(self)@.nodes, fuel, x@, marks_view(old(marks)@), strs_view(old(path)@)).0->0,
            ),
            !found ==> final(self)@.diags == old(self)@.diags,
            !found ==> marks_view(final(marks)@) == visit(adj_view(adj@), old(self)@.nodes, fuel, x@, marks_view(old(marks)@), strs_view(old(path)@)).1,
            strs_view(final(path)@) == strs_view(old(path)@),
            is_prefix(marks_view(old(marks)@), marks_view(final(marks)@)),
            all_set(marks_view(final(marks)@)),
        decreases fuel,
    {
        let ghost av = adj_view(adj@);
        let ghost nodes = self@.nodes;
        let ghost m0 = marks_view(marks@);
        let ghost p0 = strs_view(path@);
        marks.push((owned(x), Mark::InProgress));
        path.push(owned(x));
        assert(marks_view(marks@) =~= m0.push((x@, Mark::InProgress)));
        assert(strs_view(path@) =~= p0.push(x@));
        assert(m0 =~= marks_view(marks@).take(m0.len() as int));
        assert(marks_view(marks@) =~= marks_view(marks@).take(marks_view(marks@).len() as int));
        let ki = find_key(adj, x);
        let empty: Vec<String> = Vec::new();
        let nexts: &Vec<String> = match ki {
            Some(i) => &adj[i].1,
            None => &empty,
        };
        assert(strs_view(nexts@) == adj_of(av, x@)) by {
            lemma_adj_key_from(av, x@, 0);
            if ki is None {
                assert(strs_view(nexts@) =~= Seq::<Seq<char>>::empty());
            }
        }
        proof {
            lemma_adj_of_in_universe(av, x@);
        }
        let ghost nv = strs_view(nexts@);
        let mut idx: usize = 0;
        while idx < nexts.len()
            invariant
                idx <= nexts@.len(),
                av == adj_view(adj@),
                nv == strs_view(nexts@),
                nv == adj_of(av, x@),
                forall|t: int| 0 <= t < nv.len() ==> universe(av).contains(#[trigger] nv[t]),
                nodes == self@.nodes,
                self@ == old(self)@,
                m0 == marks_view(old(marks)@),
                p0 == strs_view(old(path)@),
                universe(av).contains(x@),
                strs_view(path@) == p0.push(x@),
                is_prefix(m0.push((x@, Mark::InProgress)), marks_view(marks@)),
                is_prefix(m0, marks_view(marks@)),
                all_set(marks_view(marks@)),
                fuel > unseen(av, marks_view(marks@)).len(),
                visit(av, nodes, fuel, x@, m0, p0) == visit_list(
                    av,
                    nodes,
                    fuel,
                    x@,
                    nv,
                    idx as int,
                    marks_view(marks@),
                    p0.push(x@),
                ),
            decreases nexts@.len() - idx,
        {
            let next = nexts[idx].as_str();
            assert(nv[idx as int] == next@);
            let m = mark_of_exec(marks, next);
            proof {
                lemma_mark_of_unseen(marks_view(marks@), next@);
            }
            match m {
                Mark::InProgress => {
                    let d = self.cycle_diag_exec(path, next);
                    self.push(d);
                    let ghost pb = path@;
                    path.pop();
                    assert(path@ =~= pb.drop_last());
                    proof { crate::ir::lemma_strs_view_drop_last(pb); }
                    assert(strs_view(path@) =~= p0);
                    return true;
                },
                Mark::Unseen => {
                    let ghost mnow = marks_view(marks@);
                    proof {
                        lemma_unseen_mark(av, mnow, next@, Mark::InProgress);
                        assert(fuel > 0);
                    }
                    let inner = self.visit(next, adj, marks, path, Ghost((fuel - 1) as nat));
                    proof {
                        lemma_unseen_prefix(av, mnow, marks_view(marks@));
                        assert(is_prefix(m0.push((x@, Mark::InProgress)), marks_view(marks@))) by {
                            assert(marks_view(marks@).take(mnow.len() as int).take((m0.len() + 1) as int)
                                =~= marks_view(marks@).take((m0.len() + 1) as int));
                        }
                        assert(is_prefix(m0, marks_view(marks@))) by {
                            assert(marks_view(marks@).take(mnow.len() as int).take(m0.len() as int)
                                =~= marks_view(marks@).take(m0.len() as int));
                        }
                    }
                    if inner {
                        let ghost pb = path@;
                        path.pop();
                        assert(path@ =~= pb.drop_last());
                    proof { crate::ir::lemma_strs_view_drop_last(pb); }
                        assert(strs_view(path@) =~= p0);
                        return true;
                    }
                },
                Mark::Done => {},
            }
            idx = idx + 1;
        }
        let ghost pb = path@;
        path.pop();
        assert(path@ =~= pb.drop_last());
                    proof { crate::ir::lemma_strs_view_drop_last(pb); }
        assert(strs_view(path@) =~= p0);
        let ghost mbefore = marks_view(marks@);
        marks.push((owned(x), Mark::Done));
        assert(marks_view(marks@) =~= mbefore.push((x@, Mark::Done)));
        assert(marks_view(marks@).take(m0.len() as int) =~= mbefore.take(m0.len() as int));
        false
    }
}

} // verus!

verus! {

impl Walk {
    fn build_adj(&self, edges: &Vec<Edge>) -> (adj: Vec<(String, Vec<String>)>)
        ensures
            adj_view(adj@) == build_adj(edges_view(edges@), self@.nodes, 0, Seq::empty()),
    {
        let ghost ev = edges_view(edges@);
        let mut adj: Vec<(String, Vec<String>)> = Vec::new();
        assert(adj_view(adj@) =~= Seq::empty());
        let mut i: usize = 0;
        while i < edges.len()
            invariant
                i <= edges@.len(),
                ev == edges_view(edges@),
                build_adj(ev, self@.nodes, 0, Seq::empty()) == build_adj(
                    ev,
                    self@.nodes,
                    i as int,
                    adj_view(adj@),
                ),
            decreases edges@.len() - i,
        {
            let e = &edges[i];
            assert(ev[i as int] == e@);
            let known_from = self.lookup(e.from.node.as_str()).is_some();
            let known_to = self.lookup(e.to.node.as_str()).is_some();
            if known_from && known_to {
                adj_insert_exec(&mut adj, e.from.node.as_str(), e.to.node.as_str());
            }
            i = i + 1;
        }
        adj
    }

    fn detect_cycle(&mut self, edges: &Vec<Edge>)
        ensures
            final(self)@ == (WalkV {
                diags: match detect_cycle(edges_view(edges@), old(self)@.nodes) {
                    Some(d) => old(self)@.diags.push(d),
                    None => old(self)@.diags,
                },
                ..old(self)@
            }),
    {
        let adj = self.build_adj(edges);
        let ghost av = adj_view(adj@);
        let ghost nodes = self@.nodes;
        let ghost fuel: nat = (ids(av).len() + 1) as nat;
        let mut marks: Vec<(String, Mark)> = Vec::new();
        assert(marks_view(marks@) =~= Seq::empty());
        let mut j: usize = 0;
        while j < adj.len()
            invariant
                j <= adj@.len(),
                av == adj_view(adj@),
                av == build_adj(edges_view(edges@), nodes, 0, Seq::empty()),
                nodes == self@.nodes,
                self@ == old(self)@,
                fuel == ids(av).len() + 1,
                all_set(marks_view(marks@)),
                detect_cycle(edges_view(edges@), nodes) == detect_from(
                    av,
                    nodes,
                    fuel,
                    j as int,
                    marks_view(marks@),
                ),
            decreases adj@.len() - j,
        {
            let mut path: Vec<String> = Vec::new();
            assert(strs_view(path@) =~= Seq::empty());
            proof {
                lemma_ids_contain(av, j as int);
                lemma_unseen_bound(av, marks_view(marks@).push((av[j as int].0, Mark::InProgress)));
            }
            let found = self.visit(adj[j].0.as_str(), &adj, &mut marks, &mut path, Ghost(fuel));
            if found {
                return ;
            }
            j = j + 1;
        }
    }
}

fn copy_fed(edges: &Vec<Edge>) -> (r: Vec<(String, String)>)
    ensures
        fed_view(r@) == Seq::new(
            edges_view(edges@).len(),
            |i: int| (edges_view(edges@)[i].to.node, edges_view(edges@)[i].to.port),
        ),
{
    let mut r: Vec<(String, String)> = Vec::new();
    let mut i: usize = 0;
    while i < edges.len()
        invariant
            i <= edges@.len(),
            r@.len() == i,
            forall|k: int|
                0 <= k < i ==> (#[trigger] r@[k]).0@ == edges@[k].to.node@ && r@[k].1@
                    == edges@[k].to.port@,
        decreases edges@.len() - i,
    {
        r.push(
            (
                crate::text::copy_string(&edges[i].to.node),
                crate::text::copy_string(&edges[i].to.port),
            ),
        );
        i = i + 1;
    }
    assert(fed_view(r@) =~= Seq::new(
        edges_view(edges@).len(),
        |i: int| (edges_view(edges@)[i].to.node, edges_view(edges@)[i].to.port),
    ));
    r
}

/// Validate `graph` and return every diagnostic found: the node walk in
/// document order, then the edge checks, then at most one cycle. An empty
/// result means the graph is well-formed enough to lower.
pub fn validate(graph: &Graph) -> (r: Vec<Diagnostic>)
    requires
        walk_count(graph@) <= u32::MAX,
    ensures
        diags_view(r@) == spec_validate(graph@),
{
    let edges = edges_of(&graph.edges);
    let fed = copy_fed(&edges);
    let mut walk = Walk { diagnostics: Vec::new(), nodes: Vec::new(), position: 0 };
    assert(walk@ == WalkV { diags: Seq::empty(), nodes: Seq::empty(), position: 0 }) by {
        assert(walk@.diags =~= Seq::empty());
        assert(walk@.nodes =~= Seq::empty());
    }
    let accepts: &[&'static str] = &[];
    assert(strs_of(accepts@) =~= Seq::empty());
    walk.slot(graph.root.as_slice(), None, "root", None, accepts, &fed);
    let ghost ev = edges_view(edges@);
    let ghost w = walk@;
    let mut i: usize = 0;
    while i < edges.len()
        invariant
            i <= edges@.len(),
            ev == edges_view(edges@),
            walk@.nodes == w.nodes,
            walk@.position == w.position,
            check_edges(ev, w.nodes, 0, w.diags) == check_edges(ev, w.nodes, i as int, walk@.diags),
        decreases edges@.len() - i,
    {
        assert(ev[i as int] == edges@[i as int]@);
        walk.check_edge(&edges[i]);
        i = i + 1;
    }
    walk.detect_cycle(&edges);
    walk.diagnostics
}


// ---------------------------------------------------------------------------
// How many positions the walk hands out
// ---------------------------------------------------------------------------
/// How many nodes the walk visits in `children` from index `k` on: each node,
/// and for a known block the children of each of its declared slots.
pub open spec fn visits(children: Seq<NodeV>, k: int) -> int
    decreases children, children.len() - k,
{
    if k < 0 || k >= children.len() {
        0
    } else {
        let node = children[k];
        let inner = match spec_describe(node.block) {
            None => 0,
            Some(desc) => slot_visits(node, desc.slots, 0),
        };
        1 + inner + visits(children, k + 1)
    }
}

/// How many nodes the walk visits under the declared slots of `node` from
/// index `s` on.
pub open spec fn slot_visits(node: NodeV, slots: Seq<SlotV>, s: int) -> int
    decreases node, slots.len() - s,
{
    if s < 0 || s >= slots.len() {
        0
    } else {
        let here = match slot_from(node.slots, slots[s].name, 0) {
            Some(i) => {
                proof {
                    lemma_slot_from(node.slots, slots[s].name, 0);
                    assert(decreases_to!(node => node.slots));
                    assert(decreases_to!(node.slots => node.slots[i]));
                    assert(decreases_to!(node.slots[i] => node.slots[i].1));
                }
                visits(node.slots[i].1, 0)
            },
            None => 0,
        };
        here + slot_visits(node, slots, s + 1)
    }
}

proof fn lemma_visits_position(
    children: Seq<NodeV>,
    owner: Option<Seq<char>>,
    slot: Seq<char>,
    parent: Option<Seq<char>>,
    accepts: Seq<Seq<char>>,
    fed: Seq<(Seq<char>, Seq<char>)>,
    k: int,
    st: WalkV,
)
    requires
        0 <= k,
    ensures
        walk_list(children, owner, slot, parent, accepts, fed, k, st).position == st.position + visits(
            children,
            k,
        ),
        visits(children, k) >= 0,
    decreases children, children.len() - k,
{
    if k < children.len() {
        let node = children[k];
        let at = address(owner, slot, k);
        let st1 = WalkV {
            nodes: st.nodes.push((node.id, st.position, at)),
            position: st.position + 1,
            ..st
        };
        match spec_describe(node.block) {
            None => {
                lemma_visits_position(
                    children,
                    owner,
                    slot,
                    parent,
                    accepts,
                    fed,
                    k + 1,
                    push_diag(st1, error(codes::BLOCK_UNKNOWN@, at, seq![("block"@, text(node.block))])),
                );
            },
            Some(desc) => {
                let st2 = check_placement(desc, node.block, parent, accepts, at, st1);
                assert(st2.position == st1.position);
                let st3 = check_inputs(desc, node, at, fed, 0, st2);
                lemma_inputs_position(desc, node, at, fed, 0, st2);
                lemma_slot_visits_position(node, desc.slots, fed, 0, st3);
                lemma_visits_position(
                    children,
                    owner,
                    slot,
                    parent,
                    accepts,
                    fed,
                    k + 1,
                    walk_slots(node, desc.slots, fed, 0, st3),
                );
            },
        }
    }
}

proof fn lemma_slot_visits_position(
    node: NodeV,
    slots: Seq<SlotV>,
    fed: Seq<(Seq<char>, Seq<char>)>,
    s: int,
    st: WalkV,
)
    requires
        0 <= s,
    ensures
        walk_slots(node, slots, fed, s, st).position == st.position + slot_visits(node, slots, s),
        slot_visits(node, slots, s) >= 0,
    decreases node, slots.len() - s,
{
    if s < slots.len() {
        let sp = slots[s];
        match slot_from(node.slots, sp.name, 0) {
            Some(i) => {
                lemma_slot_from(node.slots, sp.name, 0);
                assert(decreases_to!(node => node.slots));
                assert(decreases_to!(node.slots => node.slots[i]));
                assert(decreases_to!(node.slots[i] => node.slots[i].1));
                lemma_visits_position(
                    node.slots[i].1,
                    Some(node.id),
                    sp.name,
                    Some(block_name(node.block)),
                    sp.accepts,
                    fed,
                    0,
                    st,
                );
                lemma_slot_visits_position(
                    node,
                    slots,
                    fed,
                    s + 1,
                    walk_list(
                        node.slots[i].1,
                        Some(node.id),
                        sp.name,
                        Some(block_name(node.block)),
                        sp.accepts,
                        fed,
                        0,
                        st,
                    ),
                );
            },
            None => {
                lemma_slot_visits_position(node, slots, fed, s + 1, st);
            },
        }
    }
}

/// The number of nodes the walk visits in `children`, or `None` when it is
/// more than a position can count.
fn count_visits(children: &[Node]) -> (r: Option<u32>)
    ensures
        visits(nodes_view(children@), 0) >= 0,
        match r {
            Some(n) => n == visits(nodes_view(children@), 0),
            None => visits(nodes_view(children@), 0) > u32::MAX,
        },
    decreases nodes_view(children@),
{
    let ghost cv = nodes_view(children@);
    proof {
        lemma_visits_nonneg(cv, 0);
    }
    let mut total: u32 = 0;
    let mut k: usize = 0;
    while k < children.len()
        invariant
            k <= children@.len(),
            cv == nodes_view(children@),
            visits(cv, 0) == total + visits(cv, k as int),
            visits(cv, k as int) >= 0,
        decreases children@.len() - k,
    {
        let node = &children[k];
        assert(cv[k as int] == node@);
        proof {
            lemma_visits_nonneg(cv, k + 1);
            match spec_describe(node@.block) {
                Some(d) => lemma_slot_visits_nonneg(node@, d.slots, 0),
                None => {},
            }
            assert(visits(cv, k as int) >= 1);
        }
        if total == u32::MAX {
            return None;
        }
        total = total + 1;
        match describe(node.block.as_str()) {
            None => {},
            Some(desc) => {
                let ghost dv = desc@;
                proof {
                    lemma_slot_visits_nonneg(node@, dv.slots, 0);
                }
                let mut s: usize = 0;
                while s < desc.slots.len()
                    invariant
                        s <= desc.slots@.len(),
                        dv == desc@,
                        dv.slots.len() == desc.slots@.len(),
                        cv == nodes_view(children@),
                        cv[k as int] == node@,
                        k < children@.len(),
                        visits(cv, 0) == total + slot_visits(node@, dv.slots, s as int) + visits(cv, k + 1),
                        slot_visits(node@, dv.slots, s as int) >= 0,
                        visits(cv, k + 1) >= 0,
                    decreases desc.slots@.len() - s,
                {
                    let sp = &desc.slots[s];
                    assert(dv.slots[s as int] == sp@);
                    let grandchildren = children_of(node, sp.name);
                    proof {
                        lemma_slot_from(node@.slots, sp@.name, 0);
                        lemma_slot_visits_nonneg(node@, dv.slots, s + 1);
                        match slot_from(node@.slots, sp@.name, 0) {
                            Some(i) => {
                                assert(decreases_to!(cv => cv[k as int]));
                                assert(decreases_to!(node@ => node@.slots));
                                assert(decreases_to!(node@.slots => node@.slots[i]));
                                assert(decreases_to!(node@.slots[i] => node@.slots[i].1));
                                assert(decreases_to!(cv => nodes_view(grandchildren@)));
                            },
                            None => {
                                assert(nodes_view(grandchildren@) =~= cv.subrange(0, 0));
                                assert(decreases_to!(cv => cv.subrange(0, 0)));
                            },
                        }
                    }
                    match count_visits(grandchildren) {
                        None => {
                            return None;
                        },
                        Some(c) => {
                            if c > u32::MAX - total {
                                return None;
                            }
                            total = total + c;
                        },
                    }
                    s = s + 1;
                }
            },
        }
        k = k + 1;
    }
    Some(total)
}

proof fn lemma_visits_nonneg(children: Seq<NodeV>, k: int)
    requires
        0 <= k,
    ensures
        visits(children, k) >= 0,
{
    lemma_visits_position(children, None, Seq::empty(), None, Seq::empty(), Seq::empty(), k, WalkV {
        diags: Seq::empty(),
        nodes: Seq::empty(),
        position: 0,
    });
}

proof fn lemma_slot_visits_nonneg(node: NodeV, slots: Seq<SlotV>, s: int)
    requires
        0 <= s,
    ensures
        slot_visits(node, slots, s) >= 0,
{
    lemma_slot_visits_position(node, slots, Seq::empty(), s, WalkV {
        diags: Seq::empty(),
        nodes: Seq::empty(),
        position: 0,
    });
}

/// Whether the walk of `graph` hands out no more positions than a `u32`
/// holds: the condition for validating and compiling it.
pub fn positions_fit(graph: &Graph) -> (r: bool)
    ensures
        r == (walk_count(graph@) <= u32::MAX),
{
    let ghost edges = parse_edges(graph@.edges);
    let ghost fed = Seq::new(edges.len(), |i: int| (edges[i].to.node, edges[i].to.port));
    proof {
        lemma_visits_position(
            graph@.root,
            None,
            "root"@,
            None,
            Seq::empty(),
            fed,
            0,
            WalkV { diags: Seq::empty(), nodes: Seq::empty(), position: 0 },
        );
    }
    count_visits(graph.root.as_slice()).is_some()
}

// ---------------------------------------------------------------------------
// Every diagnostic is an error with a code
// ---------------------------------------------------------------------------
/// Whether every diagnostic of `ds` is an error that carries a code.
pub open spec fn all_errors(ds: Seq<DiagV>) -> bool {
    forall|i: int| 0 <= i < ds.len() ==> (#[trigger] ds[i]).severity == Severity::Error && ds[i].code is Some
}

/// Whether every diagnostic of `ds` is an error with a code, and none is a
/// cycle: what the node walk and the edge checks report.
pub open spec fn shape_errors(ds: Seq<DiagV>) -> bool {
    forall|i: int|
        0 <= i < ds.len() ==> (#[trigger] ds[i]).severity == Severity::Error && ds[i].code is Some
            && ds[i].code != Some(codes::EDGE_CYCLE@)
}

/// The codes the walk and the edge checks use are not the cycle's.
proof fn lemma_codes_not_cycle()
    ensures
        codes::BLOCK_UNKNOWN@ != codes::EDGE_CYCLE@,
        codes::INPUT_MISSING@ != codes::EDGE_CYCLE@,
        codes::INPUT_TYPE@ != codes::EDGE_CYCLE@,
        codes::INPUT_CONSTRAINT@ != codes::EDGE_CYCLE@,
        codes::SLOT_EXPECTS_STATEMENT@ != codes::EDGE_CYCLE@,
        codes::SLOT_REJECTS_BLOCK@ != codes::EDGE_CYCLE@,
        codes::EDGE_UNKNOWN_NODE@ != codes::EDGE_CYCLE@,
        codes::EDGE_FORWARD_REFERENCE@ != codes::EDGE_CYCLE@,
{
    reveal_strlit("block-unknown");
    reveal_strlit("input-missing");
    reveal_strlit("input-type");
    reveal_strlit("input-constraint");
    reveal_strlit("slot-expects-statement");
    reveal_strlit("slot-rejects-block");
    reveal_strlit("edge-unknown-node");
    reveal_strlit("edge-forward-reference");
    reveal_strlit("edge-cycle");
    assert(codes::INPUT_TYPE@[0] != codes::EDGE_CYCLE@[0]);
    assert(codes::EDGE_UNKNOWN_NODE@.len() != codes::EDGE_CYCLE@.len());
    assert(codes::EDGE_FORWARD_REFERENCE@.len() != codes::EDGE_CYCLE@.len());
}

/// A literal's finding is a type or a constraint problem.
proof fn lemma_literal_codes(port: PortV, v: JVal)
    ensures
        spec_check_literal(port, v) matches Some((c, _)) ==> c == codes::INPUT_TYPE@ || c
            == codes::INPUT_CONSTRAINT@,
{
    match port.ty {
        PortTypeV::ListOfId { allow_tag, .. } => match jarr(v) {
            Some(items) => lemma_first_id_codes(port.label, items, allow_tag, 0),
            None => {},
        },
        PortTypeV::ListOfItemStack => match jarr(v) {
            Some(items) => lemma_first_stack_codes(port.label, items, 0),
            None => {},
        },
        _ => {},
    }
}

proof fn lemma_first_id_codes(label: Seq<char>, items: Seq<JVal>, allow_tag: bool, i: int)
    ensures
        first_id_finding(label, items, allow_tag, i) matches Some((c, _)) ==> c == codes::INPUT_TYPE@ || c
            == codes::INPUT_CONSTRAINT@,
    decreases items.len() - i,
{
    if 0 <= i < items.len() {
        lemma_first_id_codes(label, items, allow_tag, i + 1);
    }
}

proof fn lemma_first_stack_codes(label: Seq<char>, items: Seq<JVal>, i: int)
    ensures
        first_stack_finding(label, items, i) matches Some((c, _)) ==> c == codes::INPUT_TYPE@ || c
            == codes::INPUT_CONSTRAINT@,
    decreases items.len() - i,
{
    if 0 <= i < items.len() {
        lemma_first_stack_codes(label, items, i + 1);
    }
}

proof fn lemma_push_error(ds: Seq<DiagV>, code: Seq<char>, at: AddrV, p: Seq<(Seq<char>, ParamV)>)
    requires
        shape_errors(ds),
        code != codes::EDGE_CYCLE@,
    ensures
        shape_errors(ds.push(error(code, at, p))),
{
    let r = ds.push(error(code, at, p));
    assert forall|i: int| 0 <= i < r.len() implies (#[trigger] r[i]).severity == Severity::Error
        && r[i].code is Some && r[i].code != Some(codes::EDGE_CYCLE@) by {
        if i < ds.len() {
            assert(r[i] == ds[i]);
        }
    }
}

proof fn lemma_placement_errors(
    desc: DescV,
    block_ref: Seq<char>,
    parent: Option<Seq<char>>,
    accepts: Seq<Seq<char>>,
    at: AddrV,
    st: WalkV,
)
    requires
        shape_errors(st.diags),
    ensures
        shape_errors(check_placement(desc, block_ref, parent, accepts, at, st).diags),
{
    lemma_codes_not_cycle();
    let name = block_name(block_ref);
    if desc.node_kind == NodeKind::Value {
        lemma_push_error(st.diags, codes::SLOT_EXPECTS_STATEMENT@, at, seq![("block"@, text(desc.title))]);
    } else if accepts.len() > 0 && !accepts.contains(name) {
        lemma_push_error(
            st.diags,
            codes::SLOT_REJECTS_BLOCK@,
            at,
            seq![
                ("reason"@, text("not_accepted"@)),
                ("block"@, text(desc.title)),
                ("accepts"@, ParamV::List(display_names(accepts))),
            ],
        );
    } else {
        match desc.requires_parent {
            Some(required) => {
                lemma_push_error(
                    st.diags,
                    codes::SLOT_REJECTS_BLOCK@,
                    at,
                    seq![
                        ("reason"@, text("needs_parent"@)),
                        ("block"@, text(desc.title)),
                        ("parent"@, text(spec_display_name(required))),
                    ],
                );
            },
            None => {},
        }
    }
}

proof fn lemma_inputs_errors(
    desc: DescV,
    node: NodeV,
    at: AddrV,
    fed: Seq<(Seq<char>, Seq<char>)>,
    i: int,
    st: WalkV,
)
    requires
        shape_errors(st.diags),
    ensures
        shape_errors(check_inputs(desc, node, at, fed, i, st).diags),
    decreases desc.inputs.len() - i,
{
    lemma_codes_not_cycle();
    if 0 <= i < desc.inputs.len() {
        let port = desc.inputs[i];
        let st2 = match input(node, port.name) {
            Some(v) => match spec_check_literal(port, v) {
                Some((code, p)) => push_diag(st, error(code, at, p)),
                None => st,
            },
            None => if port.required && !fed.contains((node.id, port.name)) {
                push_diag(st, error(codes::INPUT_MISSING@, at, missing_facts(desc, port.label, port.ty)))
            } else {
                st
            },
        };
        match input(node, port.name) {
            Some(v) => match spec_check_literal(port, v) {
                Some((code, p)) => {
                    lemma_literal_codes(port, v);
                    lemma_push_error(st.diags, code, at, p);
                },
                None => {},
            },
            None => if port.required && !fed.contains((node.id, port.name)) {
                lemma_push_error(st.diags, codes::INPUT_MISSING@, at, missing_facts(desc, port.label, port.ty));
            },
        }
        lemma_inputs_errors(desc, node, at, fed, i + 1, st2);
    }
}

proof fn lemma_walk_errors(
    children: Seq<NodeV>,
    owner: Option<Seq<char>>,
    slot: Seq<char>,
    parent: Option<Seq<char>>,
    accepts: Seq<Seq<char>>,
    fed: Seq<(Seq<char>, Seq<char>)>,
    k: int,
    st: WalkV,
)
    requires
        shape_errors(st.diags),
    ensures
        shape_errors(walk_list(children, owner, slot, parent, accepts, fed, k, st).diags),
    decreases children, children.len() - k,
{
    lemma_codes_not_cycle();
    if 0 <= k < children.len() {
        let node = children[k];
        let at = address(owner, slot, k);
        let st1 = WalkV {
            nodes: st.nodes.push((node.id, st.position, at)),
            position: st.position + 1,
            ..st
        };
        match spec_describe(node.block) {
            None => {
                lemma_push_error(st1.diags, codes::BLOCK_UNKNOWN@, at, seq![("block"@, text(node.block))]);
                lemma_walk_errors(
                    children,
                    owner,
                    slot,
                    parent,
                    accepts,
                    fed,
                    k + 1,
                    push_diag(st1, error(codes::BLOCK_UNKNOWN@, at, seq![("block"@, text(node.block))])),
                );
            },
            Some(desc) => {
                let st2 = check_placement(desc, node.block, parent, accepts, at, st1);
                lemma_placement_errors(desc, node.block, parent, accepts, at, st1);
                let st3 = check_inputs(desc, node, at, fed, 0, st2);
                lemma_inputs_errors(desc, node, at, fed, 0, st2);
                lemma_slots_errors(node, desc.slots, fed, 0, st3);
                lemma_walk_errors(
                    children,
                    owner,
                    slot,
                    parent,
                    accepts,
                    fed,
                    k + 1,
                    walk_slots(node, desc.slots, fed, 0, st3),
                );
            },
        }
    }
}

proof fn lemma_slots_errors(node: NodeV, slots: Seq<SlotV>, fed: Seq<(Seq<char>, Seq<char>)>, s: int, st: WalkV)
    requires
        shape_errors(st.diags),
    ensures
        shape_errors(walk_slots(node, slots, fed, s, st).diags),
    decreases node, slots.len() - s,
{
    if 0 <= s < slots.len() {
        let sp = slots[s];
        match slot_from(node.slots, sp.name, 0) {
            Some(i) => {
                lemma_slot_from(node.slots, sp.name, 0);
                assert(decreases_to!(node => node.slots));
                assert(decreases_to!(node.slots => node.slots[i]));
                assert(decreases_to!(node.slots[i] => node.slots[i].1));
                let w = walk_list(
                    node.slots[i].1,
                    Some(node.id),
                    sp.name,
                    Some(block_name(node.block)),
                    sp.accepts,
                    fed,
                    0,
                    st,
                );
                lemma_walk_errors(
                    node.slots[i].1,
                    Some(node.id),
                    sp.name,
                    Some(block_name(node.block)),
                    sp.accepts,
                    fed,
                    0,
                    st,
                );
                lemma_slots_errors(node, slots, fed, s + 1, w);
            },
            None => {
                lemma_slots_errors(node, slots, fed, s + 1, st);
            },
        }
    }
}

proof fn lemma_edges_errors(edges: Seq<EdgeV>, nodes: Seq<(Seq<char>, int, AddrV)>, i: int, diags: Seq<DiagV>)
    requires
        shape_errors(diags),
    ensures
        shape_errors(check_edges(edges, nodes, i, diags)),
    decreases edges.len() - i,
{
    lemma_codes_not_cycle();
    if 0 <= i < edges.len() {
        let e = edges[i];
        let from = node_lookup(nodes, e.from.node);
        let to = node_lookup(nodes, e.to.node);
        let anchor = match to {
            Some(t) => t.1,
            None => match from {
                Some(f) => f.1,
                None => root_address(),
            },
        };
        match (from, to) {
            (None, _) => lemma_push_error(
                diags,
                codes::EDGE_UNKNOWN_NODE@,
                anchor,
                seq![("node"@, text(e.from.node)), ("role"@, text("source"@))],
            ),
            (Some(_), None) => lemma_push_error(
                diags,
                codes::EDGE_UNKNOWN_NODE@,
                anchor,
                seq![("node"@, text(e.to.node)), ("role"@, text("target"@))],
            ),
            (Some(s), Some(t)) => if s.0 > t.0 {
                lemma_push_error(diags, codes::EDGE_FORWARD_REFERENCE@, t.1, seq![("from"@, text(e.from.node))]);
            },
        }
        lemma_edges_errors(edges, nodes, i + 1, check_edge(e, nodes, diags));
    }
}

proof fn lemma_visit_errors(
    adj: Adj,
    nodes: Seq<(Seq<char>, int, AddrV)>,
    fuel: nat,
    x: Seq<char>,
    marks: Marks,
    path: Seq<Seq<char>>,
)
    ensures
        visit(adj, nodes, fuel, x, marks, path).0 matches Some(d) ==> d.severity == Severity::Error
            && d.code is Some,
    decreases fuel, 1int, 0int,
{
    lemma_visit_list_errors(adj, nodes, fuel, x, adj_of(adj, x), 0, marks.push((x, Mark::InProgress)), path.push(x));
}

proof fn lemma_visit_list_errors(
    adj: Adj,
    nodes: Seq<(Seq<char>, int, AddrV)>,
    fuel: nat,
    x: Seq<char>,
    nexts: Seq<Seq<char>>,
    i: int,
    marks: Marks,
    path: Seq<Seq<char>>,
)
    ensures
        visit_list(adj, nodes, fuel, x, nexts, i, marks, path).0 matches Some(d) ==> d.severity
            == Severity::Error && d.code is Some,
    decreases fuel, 0int, nexts.len() - i,
{
    if 0 <= i < nexts.len() {
        let next = nexts[i];
        match mark_of(marks, next) {
            Mark::InProgress => {},
            Mark::Unseen => if fuel > 0 {
                let r = visit(adj, nodes, (fuel - 1) as nat, next, marks, path);
                lemma_visit_errors(adj, nodes, (fuel - 1) as nat, next, marks, path);
                if r.0 is None {
                    lemma_visit_list_errors(adj, nodes, fuel, x, nexts, i + 1, r.1, path);
                }
            },
            Mark::Done => {
                lemma_visit_list_errors(adj, nodes, fuel, x, nexts, i + 1, marks, path);
            },
        }
    }
}

proof fn lemma_detect_errors(adj: Adj, nodes: Seq<(Seq<char>, int, AddrV)>, fuel: nat, j: int, marks: Marks)
    ensures
        detect_from(adj, nodes, fuel, j, marks) matches Some(d) ==> d.severity == Severity::Error
            && d.code is Some,
    decreases adj.len() - j,
{
    if 0 <= j < adj.len() {
        let r = visit(adj, nodes, fuel, adj[j].0, marks, Seq::empty());
        lemma_visit_errors(adj, nodes, fuel, adj[j].0, marks, Seq::empty());
        if r.0 is None {
            lemma_detect_errors(adj, nodes, fuel, j + 1, r.1);
        }
    }
}

/// Every diagnostic the validation pass reports is an error, and each has a
/// code.
pub proof fn law_validate_reports_errors_with_codes(g: GraphV)
    ensures
        all_errors(spec_validate(g)),
{
    lemma_validate_shape(g);
}

/// The validation pass reports a cycle among data edges at most once.
pub proof fn law_one_cycle_at_most(g: GraphV)
    ensures
        forall|i: int, j: int|
            0 <= i < spec_validate(g).len() && 0 <= j < spec_validate(g).len() && (#[trigger] spec_validate(g)[i]).code
                == Some(codes::EDGE_CYCLE@) && (#[trigger] spec_validate(g)[j]).code == Some(codes::EDGE_CYCLE@)
                ==> i == j,
{
    lemma_validate_shape(g);
}

proof fn lemma_validate_shape(g: GraphV)
    ensures
        all_errors(spec_validate(g)),
        forall|i: int|
            0 <= i < spec_validate(g).len() && (#[trigger] spec_validate(g)[i]).code == Some(codes::EDGE_CYCLE@)
                ==> i == spec_validate(g).len() - 1,
{
    let edges = parse_edges(g.edges);
    let fed = Seq::new(edges.len(), |i: int| (edges[i].to.node, edges[i].to.port));
    let st0 = WalkV { diags: Seq::empty(), nodes: Seq::empty(), position: 0 };
    lemma_walk_errors(g.root, None, "root"@, None, Seq::empty(), fed, 0, st0);
    let w = walk_list(g.root, None, "root"@, None, Seq::empty(), fed, 0, st0);
    lemma_edges_errors(edges, w.nodes, 0, w.diags);
    let d = check_edges(edges, w.nodes, 0, w.diags);
    let adj = build_adj(edges, w.nodes, 0, Seq::empty());
    lemma_detect_errors(adj, w.nodes, (ids(adj).len() + 1) as nat, 0, Seq::empty());
    match detect_cycle(edges, w.nodes) {
        Some(c) => {
            let r = d.push(c);
            assert forall|i: int| 0 <= i < r.len() implies (#[trigger] r[i]).severity == Severity::Error
                && r[i].code is Some by {
                if i < d.len() {
                    assert(r[i] == d[i]);
                }
            }
            assert forall|i: int| 0 <= i < r.len() && (#[trigger] r[i]).code == Some(codes::EDGE_CYCLE@) implies i
                == r.len() - 1 by {
                if i < d.len() {
                    assert(r[i] == d[i]);
                }
            }
        },
        None => {},
    }
}

} // verus!
