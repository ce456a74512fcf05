//! A built-in block's description in the block manifest format: the form an
//! out-of-tree block must take, so that a built-in that could not be written
//! in it shows up at once. The point of this projection is the port, slot,
//! and type shape; objects are written with their keys in sorted order.
use vstd::prelude::*;

use crate::blocks::{BlockDescriptor, DescV, NodeKind, PortSpec, PortType, PortTypeV, PortV, SlotSpec, SlotV, strs_of};
use crate::json::{eviews, jviews, lemma_array_view, lemma_object_view, obj_insert, obj_set, JVal, Json, NumV, Number};
use crate::text::{cat, chars_of, owned, string_of};

verus! {

/// The version the built-ins ship with: this crate's.
pub const BLOCK_VERSION: &'static str = "0.1.0";

/// The licence the built-ins ship under: this crate's.
pub const BLOCK_LICENSE: &'static str = "AGPL-3.0-or-later";

/// The first target the built-ins support.
pub const BUILTIN_MIN_TARGET: &'static str = "26.2";

/// `{"type": t}`.
pub open spec fn type_tag(t: Seq<char>) -> JVal {
    JVal::Obj(seq![("type"@, JVal::Str(t))])
}

/// An id type reference.
pub open spec fn id_ref(registry: Seq<char>, allow_tag: bool) -> JVal {
    JVal::Obj(
        seq![("allow_tag"@, JVal::Bool(allow_tag)), ("registry"@, JVal::Str(registry)), ("type"@, JVal::Str("id"@))],
    )
}

/// A bound of an int type, when it has one.
pub open spec fn bound(k: Seq<char>, b: Option<i64>) -> Seq<(Seq<char>, JVal)> {
    match b {
        Some(n) => seq![(k, JVal::Num(NumV::Int(n as int)))],
        None => Seq::empty(),
    }
}

/// A port type as a manifest type reference.
pub open spec fn type_ref(t: PortTypeV) -> JVal {
    match t {
        PortTypeV::Bool => type_tag("bool"@),
        PortTypeV::Int { min, max } => JVal::Obj(
            bound("max"@, max) + bound("min"@, min) + seq![("type"@, JVal::Str("int"@))],
        ),
        PortTypeV::Float => type_tag("float"@),
        PortTypeV::Str => type_tag("string"@),
        PortTypeV::Id { registry, allow_tag } => id_ref(registry, allow_tag),
        PortTypeV::ItemStack => type_tag("item_stack"@),
        PortTypeV::Text => type_tag("text"@),
        PortTypeV::ListOfId { registry, allow_tag } => JVal::Obj(
            seq![("of"@, id_ref(registry, allow_tag)), ("type"@, JVal::Str("list"@))],
        ),
        PortTypeV::ListOfItemStack => JVal::Obj(
            seq![("of"@, type_tag("item_stack"@)), ("type"@, JVal::Str("list"@))],
        ),
        PortTypeV::Enum(choices) => JVal::Obj(
            seq![
                ("choices"@, JVal::Arr(Seq::new(choices.len(), |i: int| JVal::Str(choices[i])))),
                ("type"@, JVal::Str("enum"@)),
            ],
        ),
    }
}

/// One input port as a manifest input.
pub open spec fn port_entry(p: PortV) -> JVal {
    JVal::Obj(
        seq![("label"@, JVal::Str(p.label))] + (if p.required {
            Seq::empty()
        } else {
            seq![("optional"@, JVal::Bool(true))]
        }) + seq![("type"@, type_ref(p.ty))],
    )
}

/// The input ports as a manifest object, keyed by port name.
pub open spec fn ports_object(ports: Seq<PortV>) -> Seq<(Seq<char>, JVal)>
    decreases ports.len(),
{
    if ports.len() == 0 {
        Seq::empty()
    } else {
        obj_insert(ports_object(ports.drop_last()), ports.last().name, port_entry(ports.last()))
    }
}

/// One slot as a manifest slot: a body.
pub open spec fn slot_entry(s: SlotV) -> JVal {
    JVal::Obj(seq![("label"@, JVal::Str(s.label)), ("type"@, type_tag("body"@))])
}

/// The slots as a manifest object, keyed by slot name.
pub open spec fn slots_object(slots: Seq<SlotV>) -> Seq<(Seq<char>, JVal)>
    decreases slots.len(),
{
    if slots.len() == 0 {
        Seq::empty()
    } else {
        obj_insert(slots_object(slots.drop_last()), slots.last().name, slot_entry(slots.last()))
    }
}

/// The last position before `to` of `c` in `s`.
pub open spec fn rfind_char(s: Seq<char>, c: char, to: int) -> Option<int>
    decreases to,
{
    if to <= 0 || to > s.len() {
        None
    } else if s[to - 1] == c {
        Some(to - 1)
    } else {
        rfind_char(s, c, to - 1)
    }
}

/// The part of a block id after its last `/`.
pub open spec fn last_segment(id: Seq<char>) -> Seq<char> {
    match rfind_char(id, '/', id.len() as int) {
        Some(i) => id.skip(i + 1),
        None => id,
    }
}

/// The manifest of a built-in block.
pub open spec fn manifest(d: DescV) -> JVal {
    JVal::Obj(
        seq![
            ("block_version"@, JVal::Str(BLOCK_VERSION@)),
            ("id"@, JVal::Str(d.id)),
            ("implementation"@, JVal::Obj(
                seq![
                    ("kind"@, JVal::Str("declarative"@)),
                    ("template"@, JVal::Str(last_segment(d.id) + ".tmpl"@)),
                ],
            )),
        ] + (if d.inputs.len() > 0 {
            seq![("inputs"@, JVal::Obj(ports_object(d.inputs)))]
        } else {
            Seq::empty()
        }) + seq![
            ("license"@, JVal::Str(BLOCK_LICENSE@)),
            ("node_kind"@, JVal::Str(
                match d.node_kind {
                    NodeKind::Statement => "statement"@,
                    NodeKind::Value => "value"@,
                },
            )),
        ] + (if d.slots.len() > 0 {
            seq![("slots"@, JVal::Obj(slots_object(d.slots)))]
        } else {
            Seq::empty()
        }) + seq![
            ("targets"@, JVal::Obj(seq![("min"@, JVal::Str(BUILTIN_MIN_TARGET@))])),
            ("title"@, JVal::Str(d.title)),
            ("version"@, JVal::Num(NumV::Int(0))),
        ],
    )
}

fn member_of(key: &str, value: Json) -> (r: (String, Json))
    ensures
        r.0@ == key@,
        r.1@ == value@,
{
    (owned(key), value)
}

fn tag(t: &str) -> (r: Json)
    ensures
        r@ == type_tag(t@),
{
    let mut es: Vec<(String, Json)> = Vec::new();
    es.push(member_of("type", Json::Str(owned(t))));
    proof {
        lemma_object_view(es);
    }
    assert(eviews(es@) =~= seq![("type"@, JVal::Str(t@))]);
    Json::Object(es)
}

fn id_reference(registry: &str, allow_tag: bool) -> (r: Json)
    ensures
        r@ == id_ref(registry@, allow_tag),
{
    let mut es: Vec<(String, Json)> = Vec::new();
    es.push(member_of("allow_tag", Json::Bool(allow_tag)));
    es.push(member_of("registry", Json::Str(owned(registry))));
    es.push(member_of("type", Json::Str(owned("id"))));
    proof {
        lemma_object_view(es);
    }
    assert(eviews(es@) =~= seq![
        ("allow_tag"@, JVal::Bool(allow_tag)),
        ("registry"@, JVal::Str(registry@)),
        ("type"@, JVal::Str("id"@)),
    ]);
    Json::Object(es)
}

fn list_of(of: Json) -> (r: Json)
    ensures
        r@ == JVal::Obj(seq![("of"@, of@), ("type"@, JVal::Str("list"@))]),
{
    let ghost ov = of@;
    let mut es: Vec<(String, Json)> = Vec::new();
    es.push(member_of("of", of));
    es.push(member_of("type", Json::Str(owned("list"))));
    proof {
        lemma_object_view(es);
    }
    assert(eviews(es@) =~= seq![("of"@, ov), ("type"@, JVal::Str("list"@))]);
    Json::Object(es)
}

impl PortType {
    /// This type as a manifest type reference.
    pub fn to_type_ref(self) -> (r: Json)
        ensures
            r@ == type_ref(self@),
    {
        match self {
            PortType::Bool => tag("bool"),
            PortType::Int { min, max } => {
                let mut es: Vec<(String, Json)> = Vec::new();
                match max {
                    Some(n) => es.push(member_of("max", Json::Number(Number::Int(n)))),
                    None => {},
                }
                match min {
                    Some(n) => es.push(member_of("min", Json::Number(Number::Int(n)))),
                    None => {},
                }
                es.push(member_of("type", Json::Str(owned("int"))));
                proof {
                    lemma_object_view(es);
                }
                assert(eviews(es@) =~= bound("max"@, max) + bound("min"@, min) + seq![
                    ("type"@, JVal::Str("int"@)),
                ]);
                Json::Object(es)
            },
            PortType::Float => tag("float"),
            PortType::Str => tag("string"),
            PortType::Id { registry, allow_tag } => id_reference(registry, allow_tag),
            PortType::ItemStack => tag("item_stack"),
            PortType::Text => tag("text"),
            PortType::ListOfId { registry, allow_tag } => list_of(id_reference(registry, allow_tag)),
            PortType::ListOfItemStack => list_of(tag("item_stack")),
            PortType::Enum(choices) => {
                let mut items: Vec<Json> = Vec::new();
                let mut i: usize = 0;
                while i < choices.len()
                    invariant
                        i <= choices@.len(),
                        items@.len() == i,
                        forall|k: int| 0 <= k < i ==> (#[trigger] items@[k])@ == JVal::Str(choices@[k]@),
                    decreases choices@.len() - i,
                {
                    items.push(Json::Str(owned(choices[i])));
                    i = i + 1;
                }
                proof {
                    lemma_array_view(items);
                }
                let ghost cs = strs_of(choices@);
                assert(jviews(items@) =~= Seq::new(cs.len(), |k: int| JVal::Str(cs[k])));
                let mut es: Vec<(String, Json)> = Vec::new();
                es.push(member_of("choices", Json::Array(items)));
                es.push(member_of("type", Json::Str(owned("enum"))));
                proof {
                    lemma_object_view(es);
                }
                assert(eviews(es@) =~= seq![
                    ("choices"@, JVal::Arr(Seq::new(cs.len(), |k: int| JVal::Str(cs[k])))),
                    ("type"@, JVal::Str("enum"@)),
                ]);
                Json::Object(es)
            },
        }
    }
}

fn port_json(p: &PortSpec) -> (r: Json)
    ensures
        r@ == port_entry(p@),
{
    let mut es: Vec<(String, Json)> = Vec::new();
    es.push(member_of("label", Json::Str(owned(p.label))));
    if !p.required {
        es.push(member_of("optional", Json::Bool(true)));
    }
    es.push(member_of("type", p.ty.to_type_ref()));
    proof {
        lemma_object_view(es);
    }
    assert(eviews(es@) =~= seq![("label"@, JVal::Str(p.label@))] + (if p.required {
        Seq::empty()
    } else {
        seq![("optional"@, JVal::Bool(true))]
    }) + seq![("type"@, type_ref(p.ty@))]);
    Json::Object(es)
}

fn slot_json(s: &SlotSpec) -> (r: Json)
    ensures
        r@ == slot_entry(s@),
{
    let mut es: Vec<(String, Json)> = Vec::new();
    es.push(member_of("label", Json::Str(owned(s.label))));
    es.push(member_of("type", tag("body")));
    proof {
        lemma_object_view(es);
    }
    assert(eviews(es@) =~= seq![("label"@, JVal::Str(s.label@)), ("type"@, type_tag("body"@))]);
    Json::Object(es)
}

/// The part of `id` after its last `/`.
fn last_segment_of(id: &str) -> (r: String)
    ensures
        r@ == last_segment(id@),
{
    let cs = chars_of(id);
    let mut to: usize = cs.len();
    while to > 0 && cs[to - 1] != '/'
        invariant
            to <= cs@.len(),
            cs@ == id@,
            rfind_char(cs@, '/', cs@.len() as int) == rfind_char(cs@, '/', to as int),
        decreases to,
    {
        to = to - 1;
    }
    if to == 0 {
        assert(cs@.subrange(0, cs@.len() as int) =~= cs@);
        string_of(&cs, 0, cs.len())
    } else {
        let r = string_of(&cs, to, cs.len());
        assert(r@ =~= cs@.skip(to as int));
        r
    }
}

impl BlockDescriptor {
    /// This descriptor as a block manifest document.
    pub fn to_manifest(&self) -> (r: Json)
        ensures
            r@ == manifest(self@),
    {
        let ghost d = self@;
        let mut es: Vec<(String, Json)> = Vec::new();
        es.push(member_of("block_version", Json::Str(owned(BLOCK_VERSION))));
        es.push(member_of("id", Json::Str(owned(self.id))));
        let mut imp: Vec<(String, Json)> = Vec::new();
        imp.push(member_of("kind", Json::Str(owned("declarative"))));
        let template = cat(last_segment_of(self.id).as_str(), ".tmpl");
        imp.push(member_of("template", Json::Str(template)));
        proof {
            lemma_object_view(imp);
        }
        let ghost impv = eviews(imp@);
        es.push(member_of("implementation", Json::Object(imp)));
        let ghost head = eviews(es@);
        if self.inputs.len() > 0 {
            let mut ports: Vec<(String, Json)> = Vec::new();
            let mut i: usize = 0;
            assert(eviews(ports@) =~= ports_object(d.inputs.take(0)));
            while i < self.inputs.len()
                invariant
                    i <= self.inputs@.len(),
                    d == self@,
                    eviews(ports@) == ports_object(d.inputs.take(i as int)),
                decreases self.inputs@.len() - i,
            {
                let p = &self.inputs[i];
                assert(d.inputs.take(i + 1).drop_last() =~= d.inputs.take(i as int));
                assert(d.inputs.take(i + 1).last() == p@);
                obj_set(&mut ports, owned(p.name), port_json(p));
                i = i + 1;
            }
            assert(d.inputs.take(i as int) =~= d.inputs);
            proof {
                lemma_object_view(ports);
            }
            es.push(member_of("inputs", Json::Object(ports)));
        }
        let ghost mid = eviews(es@);
        es.push(member_of("license", Json::Str(owned(BLOCK_LICENSE))));
        let kind = match self.node_kind {
            NodeKind::Statement => owned("statement"),
            NodeKind::Value => owned("value"),
        };
        es.push(member_of("node_kind", Json::Str(kind)));
        let ghost mid2 = eviews(es@);
        if self.slots.len() > 0 {
            let mut slots: Vec<(String, Json)> = Vec::new();
            let mut i: usize = 0;
            assert(eviews(slots@) =~= slots_object(d.slots.take(0)));
            while i < self.slots.len()
                invariant
                    i <= self.slots@.len(),
                    d == self@,
                    eviews(slots@) == slots_object(d.slots.take(i as int)),
                decreases self.slots@.len() - i,
            {
                let s = &self.slots[i];
                assert(d.slots.take(i + 1).drop_last() =~= d.slots.take(i as int));
                assert(d.slots.take(i + 1).last() == s@);
                obj_set(&mut slots, owned(s.name), slot_json(s));
                i = i + 1;
            }
            assert(d.slots.take(i as int) =~= d.slots);
            proof {
                lemma_object_view(slots);
            }
            es.push(member_of("slots", Json::Object(slots)));
        }
        let ghost mid3 = eviews(es@);
        let mut targets: Vec<(String, Json)> = Vec::new();
        targets.push(member_of("min", Json::Str(owned(BUILTIN_MIN_TARGET))));
        proof {
            lemma_object_view(targets);
        }
        let ghost tv = eviews(targets@);
        es.push(member_of("targets", Json::Object(targets)));
        es.push(member_of("title", Json::Str(owned(self.title))));
        es.push(member_of("version", Json::Number(Number::Int(0))));
        proof {
            lemma_object_view(es);
            assert(impv =~= seq![
                ("kind"@, JVal::Str("declarative"@)),
                ("template"@, JVal::Str(last_segment(d.id) + ".tmpl"@)),
            ]);
            assert(tv =~= seq![("min"@, JVal::Str(BUILTIN_MIN_TARGET@))]);
            assert(eviews(es@) =~= manifest(d)->Obj_0);
        }
        Json::Object(es)
    }
}

} // verus!
