//! The graph document: project metadata, the top-level ordered `root` slot,
//! and the data edges between node ports.
use vstd::prelude::*;

use crate::blocks::{Node, NodeV, nodes_view};
use crate::ir::{text_view, Text};
use crate::json::{jstr, jview, jviews, obj_get, JVal, Json};
use crate::text::owned;

verus! {

/// A graph document. `root` is the top-level ordered slot; `edges` are kept
/// as written and parsed by the validation pass.
#[derive(Debug)]
pub struct Graph {
    pub version: u8,
    pub project: Project,
    pub root: Vec<Node>,
    pub edges: Vec<Json>,
}

/// Project metadata. The build target is not here: it is a compile parameter.
#[derive(Debug)]
pub struct Project {
    pub name: String,
    pub namespace: String,
    pub description: Option<Text>,
}

pub struct ProjectV {
    pub name: Seq<char>,
    pub namespace: Seq<char>,
    pub description: Option<JVal>,
}

pub struct GraphV {
    pub version: u8,
    pub project: ProjectV,
    pub root: Seq<NodeV>,
    pub edges: Seq<JVal>,
}

impl View for Graph {
    type V = GraphV;

    open spec fn view(&self) -> GraphV {
        GraphV {
            version: self.version,
            project: ProjectV {
                name: self.project.name@,
                namespace: self.project.namespace@,
                description: text_view(self.project.description),
            },
            root: nodes_view(self.root@),
            edges: jviews(self.edges@),
        }
    }
}

/// One end of a data edge: a node id and a port name.
#[derive(Debug)]
pub struct Endpoint {
    pub node: String,
    pub port: String,
}

/// A data edge from an output port to an input port.
#[derive(Debug)]
pub struct Edge {
    pub from: Endpoint,
    pub to: Endpoint,
}

pub struct EndpointV {
    pub node: Seq<char>,
    pub port: Seq<char>,
}

pub struct EdgeV {
    pub from: EndpointV,
    pub to: EndpointV,
}

impl View for Edge {
    type V = EdgeV;

    open spec fn view(&self) -> EdgeV {
        EdgeV {
            from: EndpointV { node: self.from.node@, port: self.from.port@ },
            to: EndpointV { node: self.to.node@, port: self.to.port@ },
        }
    }
}

pub open spec fn str_member(v: Option<JVal>) -> Option<Seq<char>> {
    match v {
        Some(x) => jstr(x),
        None => None,
    }
}

/// A two-field record read from JSON the way a struct is read: from an object
/// with both fields (other members ignored), or from an array of exactly the
/// two values in field order.
pub open spec fn record2(v: JVal, first: Seq<char>, second: Seq<char>) -> Option<(JVal, JVal)> {
    match v {
        JVal::Obj(es) => match (obj_get(es, first), obj_get(es, second)) {
            (Some(a), Some(b)) => Some((a, b)),
            _ => None,
        },
        JVal::Arr(items) => if items.len() == 2 {
            Some((items[0], items[1]))
        } else {
            None
        },
        _ => None,
    }
}

/// An endpoint, when `v` is one: `node` and `port`, both strings.
pub open spec fn parse_endpoint(v: JVal) -> Option<EndpointV> {
    match record2(v, "node"@, "port"@) {
        Some((n, p)) => match (jstr(n), jstr(p)) {
            (Some(node), Some(port)) => Some(EndpointV { node, port }),
            _ => None,
        },
        None => None,
    }
}

/// An edge, when `v` is one: `from` and `to`, both endpoints.
pub open spec fn parse_edge(v: JVal) -> Option<EdgeV> {
    match record2(v, "from"@, "to"@) {
        Some((f, t)) => match (parse_endpoint(f), parse_endpoint(t)) {
            (Some(from), Some(to)) => Some(EdgeV { from, to }),
            _ => None,
        },
        None => None,
    }
}

/// The edges among `raw` that are structurally valid, in order; the others are
/// left to schema validation.
pub open spec fn parse_edges(raw: Seq<JVal>) -> Seq<EdgeV>
    decreases raw.len(),
{
    if raw.len() == 0 {
        Seq::empty()
    } else {
        let rest = parse_edges(raw.drop_last());
        match parse_edge(raw.last()) {
            Some(e) => rest.push(e),
            None => rest,
        }
    }
}

fn record2_exec<'a>(v: &'a Json, first: &str, second: &str) -> (r: Option<(&'a Json, &'a Json)>)
    ensures
        r matches Some((a, b)) ==> record2(v@, first@, second@) == Some((a@, b@)),
        r is None ==> record2(v@, first@, second@) is None,
{
    match v.as_object() {
        Some(_) => match (v.get(first), v.get(second)) {
            (Some(a), Some(b)) => Some((a, b)),
            _ => None,
        },
        None => match v.as_array() {
            Some(items) => {
                if items.len() == 2 {
                    Some((&items[0], &items[1]))
                } else {
                    None
                }
            },
            None => None,
        },
    }
}

fn endpoint_exec(v: &Json) -> (r: Option<Endpoint>)
    ensures
        r matches Some(e) ==> parse_endpoint(v@) == Some(EndpointV { node: e.node@, port: e.port@ }),
        r is None ==> parse_endpoint(v@) is None,
{
    match record2_exec(v, "node", "port") {
        Some((n, p)) => match (n.as_str(), p.as_str()) {
            (Some(node), Some(port)) => Some(Endpoint { node: owned(node), port: owned(port) }),
            _ => None,
        },
        None => None,
    }
}

/// An edge, when `v` is one.
pub fn edge_of(v: &Json) -> (r: Option<Edge>)
    ensures
        r matches Some(e) ==> parse_edge(v@) == Some(e@),
        r is None ==> parse_edge(v@) is None,
{
    match record2_exec(v, "from", "to") {
        Some((f, t)) => match (endpoint_exec(f), endpoint_exec(t)) {
            (Some(from), Some(to)) => Some(Edge { from, to }),
            _ => None,
        },
        None => None,
    }
}

pub open spec fn edges_view(es: Seq<Edge>) -> Seq<EdgeV> {
    Seq::new(es.len(), |i: int| es[i]@)
}

/// The structurally valid edges among `raw`, in order.
pub fn edges_of(raw: &Vec<Json>) -> (r: Vec<Edge>)
    ensures
        edges_view(r@) == parse_edges(jviews(raw@)),
{
    let ghost rv = jviews(raw@);
    let mut out: Vec<Edge> = Vec::new();
    let mut i: usize = 0;
    assert(rv.take(0) =~= Seq::<JVal>::empty());
    assert(edges_view(out@) =~= Seq::empty());
    while i < raw.len()
        invariant
            i <= raw@.len(),
            rv == jviews(raw@),
            edges_view(out@) == parse_edges(rv.take(i as int)),
        decreases raw@.len() - i,
    {
        assert(rv.take(i + 1).drop_last() =~= rv.take(i as int));
        match edge_of(&raw[i]) {
            Some(e) => {
                out.push(e);
                assert(edges_view(out@) =~= parse_edges(rv.take(i + 1)));
            },
            None => {},
        }
        i = i + 1;
    }
    assert(rv.take(raw@.len() as int) =~= rv);
    out
}

} // verus!
