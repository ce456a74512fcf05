//! The IR: the normalized, target-resolved description of what a build
//! produces, one level above the file tree. Data only; nothing here names a
//! path. Diagnostics are values too: a code, a severity, an address, and the
//! facts of the occurrence.
use vstd::prelude::*;

use crate::json::{copy_json, jview, JVal, Json};
use crate::text::{copy_string, owned};

verus! {

/// A text component: a string, an array of components, or an object. Its shape
/// is carried through to the emitted document as-is.
pub type Text = Json;

/// The whole IR document. `version` is the schema major version, `0` for every
/// document this library produces.
#[derive(Debug, PartialEq)]
pub struct Ir {
    pub version: u8,
    pub target: Target,
    pub packs: Vec<Pack>,
}

/// The resolved build target.
#[derive(Debug, PartialEq)]
pub struct Target {
    pub id: String,
}

/// One pack a build produces. `kind` is looked up in target data for its root
/// directory and format number.
#[derive(Debug, PartialEq)]
pub struct Pack {
    pub kind: String,
    pub description: Option<Text>,
    pub resources: Vec<Resource>,
}

/// One thing a pack contains. `category` is resolved through target data;
/// `origin` is the address of the statement it was lowered from.
#[derive(Debug, PartialEq)]
pub struct Resource {
    pub category: String,
    pub id: String,
    pub origin: StatementAddress,
    pub body: Body,
}

/// The content of a resource: an ordered list of command lines, or a JSON
/// document.
#[derive(Debug, PartialEq)]
pub enum Body {
    Commands { statements: Vec<Command> },
    Json { value: Json },
}

/// One command line and the statement it came from.
#[derive(Debug, PartialEq)]
pub enum Command {
    Text { command: String, origin: StatementAddress },
}

/// The stable address of a statement: the node owning the slot (`None` for the
/// graph's top-level `root` slot), the slot name, and the index within it.
#[derive(Debug, PartialEq, Eq)]
pub struct StatementAddress {
    pub node: Option<String>,
    pub slot: String,
    pub index: u32,
}

/// How much a diagnostic matters: a warning never blocks a build, an error
/// always does.
#[derive(Debug, Clone, Copy, PartialEq, Eq, Structural)]
pub enum Severity {
    Error,
    Warning,
}

/// One compiler diagnostic: a stable code (`None` for a condition with no code
/// yet), a severity, the address it points at, and the facts of this
/// occurrence keyed by name, each key once.
#[derive(Debug, PartialEq)]
pub struct Diagnostic {
    pub code: Option<String>,
    pub severity: Severity,
    pub address: StatementAddress,
    pub params: Vec<(String, Param)>,
}

/// One fact attached to a diagnostic: a string, a whole number, or a list of
/// strings.
#[derive(Debug, PartialEq, Eq)]
pub enum Param {
    Text(String),
    Int(i64),
    List(Vec<String>),
}

// ---------------------------------------------------------------------------
// Mathematical views
// ---------------------------------------------------------------------------
pub struct AddrV {
    pub node: Option<Seq<char>>,
    pub slot: Seq<char>,
    pub index: u32,
}

pub open spec fn opt_view(o: Option<String>) -> Option<Seq<char>> {
    match o {
        Some(s) => Some(s@),
        None => None,
    }
}

impl View for StatementAddress {
    type V = AddrV;

    open spec fn view(&self) -> AddrV {
        AddrV { node: opt_view(self.node), slot: self.slot@, index: self.index }
    }
}

pub enum ParamV {
    Text(Seq<char>),
    Int(int),
    List(Seq<Seq<char>>),
}

/// The views of a list of strings.
pub open spec fn strs_view(v: Seq<String>) -> Seq<Seq<char>> {
    Seq::new(v.len(), |i: int| v[i]@)
}

impl View for Param {
    type V = ParamV;

    open spec fn view(&self) -> ParamV {
        match self {
            Param::Text(s) => ParamV::Text(s@),
            Param::Int(n) => ParamV::Int(*n as int),
            Param::List(items) => ParamV::List(strs_view(items@)),
        }
    }
}

pub proof fn lemma_strs_view_drop_last(s: Seq<String>)
    requires
        s.len() > 0,
    ensures
        strs_view(s.drop_last()) == strs_view(s).drop_last(),
{
    assert(strs_view(s.drop_last()) =~= strs_view(s).drop_last());
}

/// The views of a list of named facts.
pub open spec fn params_view(ps: Seq<(String, Param)>) -> Seq<(Seq<char>, ParamV)> {
    Seq::new(ps.len(), |i: int| (ps[i].0@, ps[i].1@))
}

pub struct DiagV {
    pub code: Option<Seq<char>>,
    pub severity: Severity,
    pub address: AddrV,
    pub params: Seq<(Seq<char>, ParamV)>,
}

impl View for Diagnostic {
    type V = DiagV;

    open spec fn view(&self) -> DiagV {
        DiagV {
            code: opt_view(self.code),
            severity: self.severity,
            address: self.address@,
            params: params_view(self.params@),
        }
    }
}

/// The views of a list of diagnostics.
pub open spec fn diags_view(ds: Seq<Diagnostic>) -> Seq<DiagV> {
    Seq::new(ds.len(), |i: int| ds[i]@)
}

pub enum CommandV {
    Text { command: Seq<char>, origin: AddrV },
}

impl View for Command {
    type V = CommandV;

    open spec fn view(&self) -> CommandV {
        match self {
            Command::Text { command, origin } => CommandV::Text {
                command: command@,
                origin: origin@,
            },
        }
    }
}

pub open spec fn commands_view(cs: Seq<Command>) -> Seq<CommandV> {
    Seq::new(cs.len(), |i: int| cs[i]@)
}

pub enum BodyV {
    Commands { statements: Seq<CommandV> },
    Json { value: JVal },
}

impl View for Body {
    type V = BodyV;

    open spec fn view(&self) -> BodyV {
        match self {
            Body::Commands { statements } => BodyV::Commands {
                statements: commands_view(statements@),
            },
            Body::Json { value } => BodyV::Json { value: jview(*value) },
        }
    }
}

pub struct ResourceV {
    pub category: Seq<char>,
    pub id: Seq<char>,
    pub origin: AddrV,
    pub body: BodyV,
}

impl View for Resource {
    type V = ResourceV;

    open spec fn view(&self) -> ResourceV {
        ResourceV {
            category: self.category@,
            id: self.id@,
            origin: self.origin@,
            body: self.body@,
        }
    }
}

pub open spec fn resources_view(rs: Seq<Resource>) -> Seq<ResourceV> {
    Seq::new(rs.len(), |i: int| rs[i]@)
}

pub open spec fn text_view(t: Option<Text>) -> Option<JVal> {
    match t {
        Some(j) => Some(jview(j)),
        None => None,
    }
}

pub struct PackV {
    pub kind: Seq<char>,
    pub description: Option<JVal>,
    pub resources: Seq<ResourceV>,
}

impl View for Pack {
    type V = PackV;

    open spec fn view(&self) -> PackV {
        PackV {
            kind: self.kind@,
            description: text_view(self.description),
            resources: resources_view(self.resources@),
        }
    }
}

pub struct IrV {
    pub version: u8,
    pub target: Seq<char>,
    pub packs: Seq<PackV>,
}

impl View for Ir {
    type V = IrV;

    open spec fn view(&self) -> IrV {
        IrV {
            version: self.version,
            target: self.target.id@,
            packs: Seq::new(self.packs@.len(), |i: int| self.packs@[i]@),
        }
    }
}

// ---------------------------------------------------------------------------
// Reading facts
// ---------------------------------------------------------------------------
/// The first position at or after `from` of a fact named `k`.
pub open spec fn pkey_from(ps: Seq<(Seq<char>, ParamV)>, k: Seq<char>, from: int) -> Option<int>
    decreases ps.len() - from,
{
    if from < 0 || from >= ps.len() {
        None
    } else if ps[from].0 == k {
        Some(from)
    } else {
        pkey_from(ps, k, from + 1)
    }
}

/// The fact named `k`.
pub open spec fn plookup(ps: Seq<(Seq<char>, ParamV)>, k: Seq<char>) -> Option<ParamV> {
    match pkey_from(ps, k, 0) {
        Some(i) => Some(ps[i].1),
        None => None,
    }
}

pub proof fn lemma_pkey_from(ps: Seq<(Seq<char>, ParamV)>, k: Seq<char>, from: int)
    requires
        0 <= from,
    ensures
        pkey_from(ps, k, from) matches Some(i) ==> from <= i < ps.len() && ps[i].0 == k,
        pkey_from(ps, k, from) is None ==> forall|j: int| from <= j < ps.len() ==> ps[j].0 != k,
    decreases ps.len() - from,
{
    if from < ps.len() && ps[from].0 != k {
        lemma_pkey_from(ps, k, from + 1);
    }
}

/// The fact named `key`.
pub fn param_get<'a>(ps: &'a Vec<(String, Param)>, key: &str) -> (r: Option<&'a Param>)
    ensures
        r matches Some(p) ==> plookup(params_view(ps@), key@) == Some(p@),
        r is None ==> plookup(params_view(ps@), key@) is None,
{
    let ghost pv = params_view(ps@);
    let mut i: usize = 0;
    while i < ps.len()
        invariant
            i <= ps@.len(),
            pv == params_view(ps@),
            pkey_from(pv, key@, 0) == pkey_from(pv, key@, i as int),
        decreases ps@.len() - i,
    {
        if crate::text::str_eq(ps[i].0.as_str(), key) {
            return Some(&ps[i].1);
        }
        i = i + 1;
    }
    None
}

/// `params` with the fact `key` set to `value`: replaced where it was already
/// present, appended otherwise.
pub open spec fn pinsert(ps: Seq<(Seq<char>, ParamV)>, k: Seq<char>, v: ParamV) -> Seq<
    (Seq<char>, ParamV),
> {
    match pkey_from(ps, k, 0) {
        Some(i) => ps.update(i, (k, v)),
        None => ps.push((k, v)),
    }
}

/// Sets the fact `key` to `value`, as a map insert does.
pub fn param_insert(ps: &mut Vec<(String, Param)>, key: &str, value: Param)
    ensures
        params_view(final(ps)@) == pinsert(params_view(old(ps)@), key@, value@),
{
    let ghost pv = params_view(ps@);
    let mut i: usize = 0;
    while i < ps.len()
        invariant
            i <= ps@.len(),
            pv == params_view(ps@),
            pv == params_view(old(ps)@),
            pkey_from(pv, key@, 0) == pkey_from(pv, key@, i as int),
        decreases ps@.len() - i,
    {
        if crate::text::str_eq(ps[i].0.as_str(), key) {
            ps.set(i, (owned(key), value));
            assert(params_view(ps@) =~= pinsert(pv, key@, value@));
            return;
        }
        i = i + 1;
    }
    ps.push((owned(key), value));
    assert(params_view(ps@) =~= pinsert(pv, key@, value@));
}

impl Param {
    /// The string value, or `""` for a number or list.
    pub fn text(&self) -> (r: &str)
        ensures
            r@ == (match self@ {
                ParamV::Text(s) => s,
                _ => Seq::<char>::empty(),
            }),
    {
        match self {
            Param::Text(s) => s.as_str(),
            _ => {
                proof {
                    reveal_strlit("");
                }
                ""
            },
        }
    }

    /// The number value, or `0` for a string or list.
    pub fn int_value(&self) -> (r: i64)
        ensures
            r == (match self@ {
                ParamV::Int(n) => n,
                _ => 0,
            }),
    {
        match self {
            Param::Int(n) => *n,
            _ => 0,
        }
    }

    /// The list value, or an empty list for a string or number.
    pub fn list(&self) -> (r: &[String])
        ensures
            strs_view(r@) == (match self@ {
                ParamV::List(items) => items,
                _ => Seq::<Seq<char>>::empty(),
            }),
    {
        match self {
            Param::List(items) => items.as_slice(),
            _ => {
                let empty: &[String] = &[];
                assert(strs_view(empty@) =~= Seq::<Seq<char>>::empty());
                empty
            },
        }
    }
}

// ---------------------------------------------------------------------------
// Copies
// ---------------------------------------------------------------------------
pub fn copy_opt_string(o: &Option<String>) -> (r: Option<String>)
    ensures
        opt_view(r) == opt_view(*o),
{
    match o {
        Some(s) => Some(copy_string(s)),
        None => None,
    }
}

pub fn copy_address(a: &StatementAddress) -> (r: StatementAddress)
    ensures
        r@ == a@,
{
    StatementAddress { node: copy_opt_string(&a.node), slot: copy_string(&a.slot), index: a.index }
}

pub fn copy_strings(v: &[String]) -> (r: Vec<String>)
    ensures
        strs_view(r@) == strs_view(v@),
{
    let mut out: Vec<String> = Vec::new();
    let mut i: usize = 0;
    while i < v.len()
        invariant
            i <= v@.len(),
            out@.len() == i,
            forall|k: int| 0 <= k < i ==> (#[trigger] out@[k])@ == v@[k]@,
        decreases v@.len() - i,
    {
        out.push(copy_string(&v[i]));
        i = i + 1;
    }
    assert(strs_view(out@) =~= strs_view(v@));
    out
}

pub fn copy_text(t: &Option<Text>) -> (r: Option<Text>)
    ensures
        text_view(r) == text_view(*t),
{
    match t {
        Some(j) => Some(copy_json(j)),
        None => None,
    }
}

/// An error diagnostic with the given code, address, and facts.
pub fn error_diagnostic(code: &str, address: StatementAddress, params: Vec<(String, Param)>) -> (r:
    Diagnostic)
    ensures
        r@ == (DiagV {
            code: Some(code@),
            severity: Severity::Error,
            address: address@,
            params: params_view(params@),
        }),
{
    Diagnostic { code: Some(owned(code)), severity: Severity::Error, address, params }
}


impl From<String> for Param {
    fn from(value: String) -> (r: Param) {
        Param::Text(value)
    }
}

impl vstd::std_specs::convert::FromSpecImpl<String> for Param {
    open spec fn obeys_from_spec() -> bool {
        true
    }

    open spec fn from_spec(v: String) -> Param {
        Param::Text(v)
    }
}

impl From<i64> for Param {
    fn from(value: i64) -> (r: Param) {
        Param::Int(value)
    }
}

impl vstd::std_specs::convert::FromSpecImpl<i64> for Param {
    open spec fn obeys_from_spec() -> bool {
        true
    }

    open spec fn from_spec(v: i64) -> Param {
        Param::Int(v)
    }
}

impl From<Vec<String>> for Param {
    fn from(value: Vec<String>) -> (r: Param) {
        Param::List(value)
    }
}

impl vstd::std_specs::convert::FromSpecImpl<Vec<String>> for Param {
    open spec fn obeys_from_spec() -> bool {
        true
    }

    open spec fn from_spec(v: Vec<String>) -> Param {
        Param::List(v)
    }
}
} // verus!
