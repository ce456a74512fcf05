//! The built-in declarative blocks: what each looks like from the outside (its
//! ports, slots, and placement rule), and how each one lowers to IR.
//!
//! The built-ins are a fixed native set, so their descriptions are a table.
//! [`describe`] is the half the validation pass checks a graph against;
//! [`lower_root`] turns the graph's top-level statements into resources and
//! command lines, collecting a diagnostic wherever a node cannot be lowered.
use vstd::prelude::*;

use crate::json::{eviews, key_from, lemma_key_from, member, obj_get, JVal, Json};
use crate::text::{before_char, prefix_before, str_eq};

verus! {

/// What a built-in block looks like from the outside: enough of its manifest
/// for the validation pass to check a graph against it.
#[derive(Debug, Clone, Copy)]
pub struct BlockDescriptor {
    /// The block's `namespace/name` id, without a version.
    pub id: &'static str,
    /// The block's name in game words, for a diagnostic that must name it.
    pub title: &'static str,
    pub node_kind: NodeKind,
    pub inputs: &'static [PortSpec],
    pub slots: &'static [SlotSpec],
    /// When set, the block is only meaningful inside a slot owned by the named
    /// block.
    pub requires_parent: Option<&'static str>,
}

/// Whether instances of a block are statement nodes or value nodes.
#[derive(Debug, Clone, Copy, PartialEq, Eq, Structural)]
pub enum NodeKind {
    Statement,
    Value,
}

/// One input port of a block. `label` is what the editor calls it.
#[derive(Debug, Clone, Copy)]
pub struct PortSpec {
    pub name: &'static str,
    pub label: &'static str,
    pub ty: PortType,
    pub required: bool,
}

/// One slot of a block. `accepts` lists the block names the slot takes; empty
/// means any statement node.
#[derive(Debug, Clone, Copy)]
pub struct SlotSpec {
    pub name: &'static str,
    pub label: &'static str,
    pub accepts: &'static [&'static str],
}

/// The port types the built-ins use.
#[derive(Debug, Clone, Copy)]
pub enum PortType {
    Bool,
    Int { min: Option<i64>, max: Option<i64> },
    Float,
    Str,
    Id { registry: &'static str, allow_tag: bool },
    ItemStack,
    Text,
    ListOfId { registry: &'static str, allow_tag: bool },
    ListOfItemStack,
    Enum(&'static [&'static str]),
}

// ---------------------------------------------------------------------------
// Views
// ---------------------------------------------------------------------------
pub enum PortTypeV {
    Bool,
    Int { min: Option<i64>, max: Option<i64> },
    Float,
    Str,
    Id { registry: Seq<char>, allow_tag: bool },
    ItemStack,
    Text,
    ListOfId { registry: Seq<char>, allow_tag: bool },
    ListOfItemStack,
    Enum(Seq<Seq<char>>),
}

/// The views of a list of string slices.
pub open spec fn strs_of(v: Seq<&'static str>) -> Seq<Seq<char>> {
    Seq::new(v.len(), |i: int| v[i]@)
}

impl View for PortType {
    type V = PortTypeV;

    open spec fn view(&self) -> PortTypeV {
        match *self {
            PortType::Bool => PortTypeV::Bool,
            PortType::Int { min, max } => PortTypeV::Int { min, max },
            PortType::Float => PortTypeV::Float,
            PortType::Str => PortTypeV::Str,
            PortType::Id { registry, allow_tag } => PortTypeV::Id {
                registry: registry@,
                allow_tag,
            },
            PortType::ItemStack => PortTypeV::ItemStack,
            PortType::Text => PortTypeV::Text,
            PortType::ListOfId { registry, allow_tag } => PortTypeV::ListOfId {
                registry: registry@,
                allow_tag,
            },
            PortType::ListOfItemStack => PortTypeV::ListOfItemStack,
            PortType::Enum(choices) => PortTypeV::Enum(strs_of(choices@)),
        }
    }
}

pub struct PortV {
    pub name: Seq<char>,
    pub label: Seq<char>,
    pub ty: PortTypeV,
    pub required: bool,
}

impl View for PortSpec {
    type V = PortV;

    open spec fn view(&self) -> PortV {
        PortV { name: self.name@, label: self.label@, ty: self.ty@, required: self.required }
    }
}

pub struct SlotV {
    pub name: Seq<char>,
    pub label: Seq<char>,
    pub accepts: Seq<Seq<char>>,
}

impl View for SlotSpec {
    type V = SlotV;

    open spec fn view(&self) -> SlotV {
        SlotV { name: self.name@, label: self.label@, accepts: strs_of(self.accepts@) }
    }
}

pub struct DescV {
    pub id: Seq<char>,
    pub title: Seq<char>,
    pub node_kind: NodeKind,
    pub inputs: Seq<PortV>,
    pub slots: Seq<SlotV>,
    pub requires_parent: Option<Seq<char>>,
}

pub open spec fn opt_str(o: Option<&'static str>) -> Option<Seq<char>> {
    match o {
        Some(s) => Some(s@),
        None => None,
    }
}

impl View for BlockDescriptor {
    type V = DescV;

    open spec fn view(&self) -> DescV {
        DescV {
            id: self.id@,
            title: self.title@,
            node_kind: self.node_kind,
            inputs: Seq::new(self.inputs@.len(), |i: int| self.inputs@[i]@),
            slots: Seq::new(self.slots@.len(), |i: int| self.slots@[i]@),
            requires_parent: opt_str(self.requires_parent),
        }
    }
}

// ---------------------------------------------------------------------------
// The table
// ---------------------------------------------------------------------------
pub open spec fn port(name: Seq<char>, label: Seq<char>, ty: PortTypeV, required: bool) -> PortV {
    PortV { name, label, ty, required }
}

pub open spec fn function_desc() -> DescV {
    DescV {
        id: "packsmith/function"@,
        title: "function"@,
        node_kind: NodeKind::Statement,
        inputs: seq![
            port(
                "name"@,
                "name"@,
                PortTypeV::Id { registry: "minecraft:function"@, allow_tag: false },
                true,
            ),
        ],
        slots: seq![SlotV { name: "body"@, label: "steps"@, accepts: seq!["packsmith/command"@] }],
        requires_parent: None,
    }
}

pub open spec fn command_desc() -> DescV {
    DescV {
        id: "packsmith/command"@,
        title: "command"@,
        node_kind: NodeKind::Statement,
        inputs: seq![port("command"@, "command"@, PortTypeV::Str, true)],
        slots: seq![],
        requires_parent: Some("packsmith/function"@),
    }
}

pub open spec fn function_tag_desc() -> DescV {
    DescV {
        id: "packsmith/function-tag"@,
        title: "function tag"@,
        node_kind: NodeKind::Statement,
        inputs: seq![
            port(
                "name"@,
                "tag name"@,
                PortTypeV::Id { registry: "minecraft:function"@, allow_tag: false },
                true,
            ),
            port(
                "functions"@,
                "function list"@,
                PortTypeV::ListOfId { registry: "minecraft:function"@, allow_tag: true },
                true,
            ),
            port("replace"@, "replace"@, PortTypeV::Bool, false),
        ],
        slots: seq![],
        requires_parent: None,
    }
}

pub open spec fn crafting_shapeless_desc() -> DescV {
    DescV {
        id: "packsmith/crafting-shapeless"@,
        title: "shapeless recipe"@,
        node_kind: NodeKind::Statement,
        inputs: seq![
            port(
                "name"@,
                "recipe id"@,
                PortTypeV::Id { registry: "minecraft:recipe"@, allow_tag: false },
                true,
            ),
            port(
                "ingredients"@,
                "ingredients"@,
                PortTypeV::ListOfId { registry: "minecraft:item"@, allow_tag: true },
                true,
            ),
            port("result"@, "result item"@, PortTypeV::ItemStack, true),
        ],
        slots: seq![],
        requires_parent: None,
    }
}

pub open spec fn loot_table_desc() -> DescV {
    DescV {
        id: "packsmith/loot-table"@,
        title: "loot table"@,
        node_kind: NodeKind::Statement,
        inputs: seq![
            port(
                "name"@,
                "loot table id"@,
                PortTypeV::Id { registry: "minecraft:loot_table"@, allow_tag: false },
                true,
            ),
            port("drops"@, "drops"@, PortTypeV::ListOfItemStack, true),
        ],
        slots: seq![],
        requires_parent: None,
    }
}

/// A block reference without its `@version`.
pub open spec fn block_name(block_ref: Seq<char>) -> Seq<char> {
    before_char(block_ref, '@')
}

/// The built-in answering to the block name `name`, if any.
pub open spec fn desc_by_name(name: Seq<char>) -> Option<DescV> {
    if name == "packsmith/function"@ {
        Some(function_desc())
    } else if name == "packsmith/command"@ {
        Some(command_desc())
    } else if name == "packsmith/function-tag"@ {
        Some(function_tag_desc())
    } else if name == "packsmith/crafting-shapeless"@ {
        Some(crafting_shapeless_desc())
    } else if name == "packsmith/loot-table"@ {
        Some(loot_table_desc())
    } else {
        None
    }
}

/// The built-in answering to `block_ref`; its version is ignored.
pub open spec fn spec_describe(block_ref: Seq<char>) -> Option<DescV> {
    desc_by_name(block_name(block_ref))
}

/// The manifest-shaped view of a built-in block, or `None` when no built-in
/// answers to `block_ref`. The version is ignored: the built-ins are versioned
/// with this library.
pub fn describe(block_ref: &str) -> (r: Option<BlockDescriptor>)
    ensures
        r matches Some(d) ==> spec_describe(block_ref@) == Some(d@),
        r is None ==> spec_describe(block_ref@) is None,
{
    let name = prefix_before(block_ref, '@');
    let name = name.as_str();
    if str_eq(name, "packsmith/function") {
        let d = BlockDescriptor {
            id: "packsmith/function",
            title: "function",
            node_kind: NodeKind::Statement,
            inputs: &[
                PortSpec {
                    name: "name",
                    label: "name",
                    ty: PortType::Id { registry: "minecraft:function", allow_tag: false },
                    required: true,
                },
            ],
            slots: &[SlotSpec { name: "body", label: "steps", accepts: &["packsmith/command"] }],
            requires_parent: None,
        };
        proof {
            assert(d@.inputs =~= function_desc().inputs);
            assert(d.slots@[0]@.accepts =~= seq!["packsmith/command"@]);
            assert(d@.slots =~= function_desc().slots);
        }
        Some(d)
    } else if str_eq(name, "packsmith/command") {
        let d = BlockDescriptor {
            id: "packsmith/command",
            title: "command",
            node_kind: NodeKind::Statement,
            inputs: &[PortSpec { name: "command", label: "command", ty: PortType::Str, required: true }],
            slots: &[],
            requires_parent: Some("packsmith/function"),
        };
        proof {
            assert(d@.inputs =~= command_desc().inputs);
            assert(d@.slots =~= command_desc().slots);
        }
        Some(d)
    } else if str_eq(name, "packsmith/function-tag") {
        let d = BlockDescriptor {
            id: "packsmith/function-tag",
            title: "function tag",
            node_kind: NodeKind::Statement,
            inputs: &[
                PortSpec {
                    name: "name",
                    label: "tag name",
                    ty: PortType::Id { registry: "minecraft:function", allow_tag: false },
                    required: true,
                },
                PortSpec {
                    name: "functions",
                    label: "function list",
                    ty: PortType::ListOfId { registry: "minecraft:function", allow_tag: true },
                    required: true,
                },
                PortSpec { name: "replace", label: "replace", ty: PortType::Bool, required: false },
            ],
            slots: &[],
            requires_parent: None,
        };
        proof {
            assert(d@.inputs =~= function_tag_desc().inputs);
            assert(d@.slots =~= function_tag_desc().slots);
        }
        Some(d)
    } else if str_eq(name, "packsmith/crafting-shapeless") {
        let d = BlockDescriptor {
            id: "packsmith/crafting-shapeless",
            title: "shapeless recipe",
            node_kind: NodeKind::Statement,
            inputs: &[
                PortSpec {
                    name: "name",
                    label: "recipe id",
                    ty: PortType::Id { registry: "minecraft:recipe", allow_tag: false },
                    required: true,
                },
                PortSpec {
                    name: "ingredients",
                    label: "ingredients",
                    ty: PortType::ListOfId { registry: "minecraft:item", allow_tag: true },
                    required: true,
                },
                PortSpec {
                    name: "result",
                    label: "result item",
                    ty: PortType::ItemStack,
                    required: true,
                },
            ],
            slots: &[],
            requires_parent: None,
        };
        proof {
            assert(d@.inputs =~= crafting_shapeless_desc().inputs);
            assert(d@.slots =~= crafting_shapeless_desc().slots);
        }
        Some(d)
    } else if str_eq(name, "packsmith/loot-table") {
        let d = BlockDescriptor {
            id: "packsmith/loot-table",
            title: "loot table",
            node_kind: NodeKind::Statement,
            inputs: &[
                PortSpec {
                    name: "name",
                    label: "loot table id",
                    ty: PortType::Id { registry: "minecraft:loot_table", allow_tag: false },
                    required: true,
                },
                PortSpec {
                    name: "drops",
                    label: "drops",
                    ty: PortType::ListOfItemStack,
                    required: true,
                },
            ],
            slots: &[],
            requires_parent: None,
        };
        proof {
            assert(d@.inputs =~= loot_table_desc().inputs);
            assert(d@.slots =~= loot_table_desc().slots);
        }
        Some(d)
    } else {
        None
    }
}

/// Every built-in block id, in one place beside [`describe`].
pub const BUILTIN_IDS: [&'static str; 5] = [
    "packsmith/function",
    "packsmith/command",
    "packsmith/function-tag",
    "packsmith/crafting-shapeless",
    "packsmith/loot-table",
];

/// The name a diagnostic uses for a block: a built-in's title, or the bare
/// `namespace/name` of a block that is not built in.
pub open spec fn spec_display_name(block_ref: Seq<char>) -> Seq<char> {
    match spec_describe(block_ref) {
        Some(d) => d.title,
        None => block_name(block_ref),
    }
}

/// The block's title (game words) for `block_ref`, or its bare
/// `namespace/name` when it is not a built-in.
pub fn display_name(block_ref: &str) -> (r: String)
    ensures
        r@ == spec_display_name(block_ref@),
{
    match describe(block_ref) {
        Some(d) => crate::text::owned(d.title),
        None => prefix_before(block_ref, '@'),
    }
}

} // verus!

verus! {

// ---------------------------------------------------------------------------
// Graph nodes
// ---------------------------------------------------------------------------
/// One instance of a block in the graph. `inputs` holds the literal on each
/// port, keyed by port name; `slots` holds each slot's ordered children, keyed
/// by slot name, each name once.
#[derive(Debug)]
pub struct Node {
    pub id: String,
    pub block: String,
    pub inputs: Vec<(String, Json)>,
    pub slots: Vec<(String, Vec<Node>)>,
}

pub struct NodeV {
    pub id: Seq<char>,
    pub block: Seq<char>,
    pub inputs: Seq<(Seq<char>, JVal)>,
    pub slots: Seq<(Seq<char>, Seq<NodeV>)>,
}

pub open spec fn empty_node() -> NodeV {
    NodeV { id: Seq::empty(), block: Seq::empty(), inputs: Seq::empty(), slots: Seq::empty() }
}

pub open spec fn nview(n: Node) -> NodeV
    decreases n,
{
    NodeV {
        id: n.id@,
        block: n.block@,
        inputs: eviews(n.inputs@),
        slots: Seq::new(
            n.slots.len() as nat,
            |i: int|
                {
                    if 0 <= i < n.slots.len() {
                        (
                            n.slots@[i].0@,
                            Seq::new(
                                n.slots@[i].1.len() as nat,
                                |j: int|
                                    {
                                        if 0 <= j < n.slots@[i].1.len() {
                                            proof {
                                                assert(decreases_to!(n => n.slots));
                                                assert(decreases_to!(n.slots => n.slots@));
                                                assert(decreases_to!(n.slots@ => n.slots@[i]));
                                                assert(decreases_to!(n.slots@[i] => n.slots@[i].1));
                                                assert(decreases_to!(n.slots@[i].1 => n.slots@[i].1@));
                                                assert(decreases_to!(n.slots@[i].1@ => n.slots@[i].1@[j]));
                                            }
                                            nview(n.slots@[i].1@[j])
                                        } else {
                                            empty_node()
                                        }
                                    },
                            ),
                        )
                    } else {
                        (Seq::empty(), Seq::empty())
                    }
                },
        ),
    }
}

impl View for Node {
    type V = NodeV;

    open spec fn view(&self) -> NodeV {
        nview(*self)
    }
}

/// The views of a list of nodes.
pub open spec fn nodes_view(ns: Seq<Node>) -> Seq<NodeV> {
    Seq::new(ns.len(), |i: int| nview(ns[i]))
}

pub proof fn lemma_slot_view(n: Node, i: int)
    requires
        0 <= i < n.slots@.len(),
    ensures
        nview(n).slots.len() == n.slots@.len(),
        nview(n).slots[i] == (n.slots@[i].0@, nodes_view(n.slots@[i].1@)),
{
    let s = nview(n).slots[i].1;
    assert(s =~= nodes_view(n.slots@[i].1@));
}

/// The literal on `port`, if the node has one.
pub open spec fn input(n: NodeV, port: Seq<char>) -> Option<JVal> {
    obj_get(n.inputs, port)
}

/// The first position at or after `from` of a slot named `name`.
pub open spec fn slot_from(slots: Seq<(Seq<char>, Seq<NodeV>)>, name: Seq<char>, from: int) -> Option<int>
    decreases slots.len() - from,
{
    if from < 0 || from >= slots.len() {
        None
    } else if slots[from].0 == name {
        Some(from)
    } else {
        slot_from(slots, name, from + 1)
    }
}

/// The children of the slot `name`; none when the node has no such slot.
pub open spec fn slot_children(n: NodeV, name: Seq<char>) -> Seq<NodeV> {
    match slot_from(n.slots, name, 0) {
        Some(i) => n.slots[i].1,
        None => Seq::empty(),
    }
}

pub proof fn lemma_slot_from(slots: Seq<(Seq<char>, Seq<NodeV>)>, name: Seq<char>, from: int)
    requires
        0 <= from,
    ensures
        slot_from(slots, name, from) matches Some(i) ==> from <= i < slots.len(),
    decreases slots.len() - from,
{
    if from < slots.len() && slots[from].0 != name {
        lemma_slot_from(slots, name, from + 1);
    }
}

/// The literal on `port`.
pub fn input_of<'a>(node: &'a Node, port: &str) -> (r: Option<&'a Json>)
    ensures
        r matches Some(v) ==> input(node@, port@) == Some(v@),
        r is None ==> input(node@, port@) is None,
{
    match member(&node.inputs, port) {
        Some(i) => {
            proof {
                lemma_key_from(eviews(node.inputs@), port@, 0);
            }
            Some(&node.inputs[i].1)
        },
        None => None,
    }
}

/// The children of the slot `name`.
pub fn children_of<'a>(node: &'a Node, name: &str) -> (r: &'a [Node])
    ensures
        nodes_view(r@) == slot_children(node@, name@),
{
    let ghost sv = node@.slots;
    let mut i: usize = 0;
    while i < node.slots.len()
        invariant
            i <= node.slots@.len(),
            sv == node@.slots,
            sv.len() == node.slots@.len(),
            slot_from(sv, name@, 0) == slot_from(sv, name@, i as int),
        decreases node.slots@.len() - i,
    {
        proof {
            lemma_slot_view(*node, i as int);
        }
        if str_eq(node.slots[i].0.as_str(), name) {
            return node.slots[i].1.as_slice();
        }
        i = i + 1;
    }
    let empty: &[Node] = &[];
    assert(nodes_view(empty@) =~= Seq::<NodeV>::empty());
    empty
}


/// The version in a block reference is ignored: `name@version` describes the
/// same block as `name`, whatever the version.
pub proof fn law_describe_ignores_version(name: Seq<char>, version: Seq<char>)
    requires
        crate::text::find_char(name, '@') is None,
    ensures
        spec_describe(name + "@"@ + version) == spec_describe(name),
{
    reveal_strlit("@");
    let r = name + "@"@ + version;
    crate::text::lemma_find_char_from_bounds(name, '@', 0);
    crate::text::lemma_find_char_from_bounds(r, '@', 0);
    assert(r[name.len() as int] == '@');
    match crate::text::find_char(r, '@') {
        Some(i) => {
            if i < name.len() {
                assert(r[i] == name[i]);
            }
            assert(i == name.len());
            assert(r.take(i) =~= name);
        },
        None => {},
    }
    crate::text::lemma_find_char_from_bounds(name, '@', 0);
}
} // verus!
