//! Graph to IR: validate the graph, then lower it when it is clean. The
//! result is one `data` pack carrying the project description and every
//! resource the graph produced.
//!
//! When validation finds an error the graph is not lowered, so a diagnostic is
//! reported once and from one place.
use vstd::prelude::*;

use crate::graph::{Graph, GraphV};
use crate::ir::{
    copy_text, diags_view, Diagnostic, DiagV, Ir, IrV, Pack, PackV, ResourceV, Severity, Target,
};
use crate::json::{copy_json, jview, JVal, Json};
use crate::lower::{lower_root, spec_lower_root};
use crate::text::{copy_string, owned};
use crate::validate::{spec_validate, validate, walk_count};

verus! {

/// The outcome of compiling a graph: the IR, plus every diagnostic found.
#[derive(Debug)]
pub struct Compilation {
    pub ir: Ir,
    pub diagnostics: Vec<Diagnostic>,
}

pub struct CompilationV {
    pub ir: IrV,
    pub diagnostics: Seq<DiagV>,
}

impl View for Compilation {
    type V = CompilationV;

    open spec fn view(&self) -> CompilationV {
        CompilationV { ir: self.ir@, diagnostics: diags_view(self.diagnostics@) }
    }
}

/// Whether any diagnostic of `ds` is an error.
pub open spec fn has_error(ds: Seq<DiagV>) -> bool {
    exists|i: int| 0 <= i < ds.len() && (#[trigger] ds[i]).severity == Severity::Error
}

/// The description the one data pack carries: the project's own, or its name
/// as a plain string.
pub open spec fn pack_description(g: GraphV) -> JVal {
    match g.project.description {
        Some(d) => d,
        None => JVal::Str(g.project.name),
    }
}

/// What compiling `g` for `target_id` gives.
pub open spec fn spec_compile(g: GraphV, target_id: Seq<char>) -> CompilationV {
    let checked = spec_validate(g);
    let lowered = spec_lower_root(g.root);
    let resources: Seq<ResourceV> = if has_error(checked) {
        Seq::empty()
    } else {
        lowered.resources
    };
    let diagnostics = if has_error(checked) {
        checked
    } else {
        checked + lowered.diagnostics
    };
    CompilationV {
        ir: IrV {
            version: 0,
            target: target_id,
            packs: seq![
                PackV {
                    kind: "data"@,
                    description: Some(pack_description(g)),
                    resources,
                },
            ],
        },
        diagnostics,
    }
}

pub fn any_error(ds: &Vec<Diagnostic>) -> (r: bool)
    ensures
        r == has_error(diags_view(ds@)),
{
    let ghost dv = diags_view(ds@);
    let mut i: usize = 0;
    while i < ds.len()
        invariant
            i <= ds@.len(),
            dv == diags_view(ds@),
            forall|j: int| 0 <= j < i ==> (#[trigger] dv[j]).severity != Severity::Error,
        decreases ds@.len() - i,
    {
        if ds[i].severity == Severity::Error {
            assert(dv[i as int].severity == Severity::Error);
            return true;
        }
        i = i + 1;
    }
    false
}

/// Compiles a graph to IR for `target_id`: validate, then lower if it is clean.
pub fn compile(graph: &Graph, target_id: &str) -> (r: Compilation)
    requires
        walk_count(graph@) <= u32::MAX,
    ensures
        r@ == spec_compile(graph@, target_id@),
{
    let mut diagnostics = validate(graph);
    let has_err = any_error(&diagnostics);
    let resources = if has_err {
        Vec::new()
    } else {
        let lowered = lower_root(graph.root.as_slice());
        let mut extra = lowered.diagnostics;
        let ghost before = diags_view(diagnostics@);
        let ghost added = diags_view(extra@);
        diagnostics.append(&mut extra);
        assert(diags_view(diagnostics@) =~= before + added);
        lowered.resources
    };
    let ghost spec = spec_compile(graph@, target_id@);
    assert(crate::ir::resources_view(resources@) == spec.ir.packs[0].resources);
    let description = match &graph.project.description {
        Some(d) => copy_json(d),
        None => Json::Str(copy_string(&graph.project.name)),
    };
    assert(jview(description) == pack_description(graph@));
    let pack = Pack { kind: owned("data"), description: Some(description), resources };
    let mut packs: Vec<Pack> = Vec::new();
    packs.push(pack);
    let ir = Ir { version: 0, target: Target { id: owned(target_id) }, packs };
    proof {
        reveal_strlit("data");
        assert(ir@.packs[0] == spec.ir.packs[0]);
        assert(ir@.packs =~= spec.ir.packs);
    }
    Compilation { ir, diagnostics }
}


/// Every compile gives exactly one pack, of kind `data`, for the requested
/// target, described by the project's description or else its name.
pub proof fn law_one_described_data_pack(g: GraphV, target_id: Seq<char>)
    ensures
        spec_compile(g, target_id).ir.version == 0,
        spec_compile(g, target_id).ir.target == target_id,
        spec_compile(g, target_id).ir.packs.len() == 1,
        spec_compile(g, target_id).ir.packs[0].kind == "data"@,
        spec_compile(g, target_id).ir.packs[0].description == Some(pack_description(g)),
{
}

/// A graph that fails validation is not lowered: its one pack holds no
/// resources, and the diagnostics are exactly the validation's.
pub proof fn law_refused_graph_is_not_lowered(g: GraphV, target_id: Seq<char>)
    requires
        has_error(spec_validate(g)),
    ensures
        spec_compile(g, target_id).ir.packs[0].resources.len() == 0,
        spec_compile(g, target_id).diagnostics == spec_validate(g),
{
}

/// Validation reports only errors, so a graph that passes it has no
/// validation diagnostics at all: it is lowered in full, and the only
/// diagnostics are the lowering's.
pub proof fn law_clean_graph_is_lowered(g: GraphV, target_id: Seq<char>)
    requires
        !has_error(spec_validate(g)),
    ensures
        spec_validate(g).len() == 0,
        spec_compile(g, target_id).ir.packs[0].resources == spec_lower_root(g.root).resources,
        spec_compile(g, target_id).diagnostics == spec_lower_root(g.root).diagnostics,
{
    crate::validate::law_validate_reports_errors_with_codes(g);
    let v = spec_validate(g);
    if v.len() > 0 {
        assert(v[0].severity == Severity::Error);
    }
    assert(v + spec_lower_root(g.root).diagnostics =~= spec_lower_root(g.root).diagnostics);
}
} // verus!
