//! The decisions of the `packsmith` command line: which command was asked
//! for, what a `build` was given, and the build pipeline from a parsed graph
//! to the bytes of the zip. Reading and writing files is the caller's part.
use vstd::prelude::*;

use crate::command::{check_resources, validate as check_commands};
use crate::compiler::{compile, has_error, spec_compile};
use crate::emit::{error_message, file_tree, spec_file_tree, spec_zip, zip};
use crate::graph::{Graph, GraphV};
use crate::ir::{diags_view, opt_view, DiagV, Diagnostic};
use crate::mcversion::{TargetData, TargetV};
use crate::message::{render, spec_render};
use crate::text::{cat, chars_of, copy_string, owned, str_eq, string_of};
use crate::validate::walk_count;

verus! {

/// The help text.
pub const USAGE: &'static str = "packsmith - compile a block graph into a Minecraft: Java Edition data pack\n\nusage:\n  packsmith build <project> --target <version> [--output <file>]\n  packsmith --help\n  packsmith --version\n\ncommands:\n  build    compile a project directory into an installable .zip\n\nbuild:\n  <project>          a project directory (containing graph.json) or a graph .json file\n  --target <version> the Minecraft: Java Edition release to build for, e.g. 26.2\n  --output <file>    where to write the .zip (default: <project>.zip in the working directory)\n";

/// The short usage line of `build`.
pub const BUILD_USAGE: &'static str = "usage: packsmith build <project> --target <version> [--output <file>]";

/// The version this program reports.
pub const VERSION: &'static str = "0.1.0";

/// What `build` was given.
#[derive(Debug)]
pub struct BuildArgs {
    pub project: String,
    pub target: String,
    pub output: Option<String>,
}

pub struct BuildArgsV {
    pub project: Seq<char>,
    pub target: Seq<char>,
    pub output: Option<Seq<char>>,
}

impl View for BuildArgs {
    type V = BuildArgsV;

    open spec fn view(&self) -> BuildArgsV {
        BuildArgsV { project: self.project@, target: self.target@, output: opt_view(self.output) }
    }
}

/// What the command line asks for: text to print, or a build.
#[derive(Debug)]
pub enum Action {
    Print(String),
    Build(BuildArgs),
}

pub enum ActionV {
    Print(Seq<char>),
    Build(BuildArgsV),
}

impl View for Action {
    type V = ActionV;

    open spec fn view(&self) -> ActionV {
        match self {
            Action::Print(s) => ActionV::Print(s@),
            Action::Build(b) => ActionV::Build(b@),
        }
    }
}

/// Whether `a` starts with `p`.
pub open spec fn has_prefix(a: Seq<char>, p: Seq<char>) -> bool {
    p.len() <= a.len() && a.take(p.len() as int) == p
}

/// An error of `build`, with its usage line.
pub open spec fn build_error(what: Seq<char>) -> Seq<char> {
    "packsmith build: "@ + what + "\n\n"@ + BUILD_USAGE@
}

/// The arguments of `build` from index `i` on, with what was found so far.
pub open spec fn parse_from(
    args: Seq<Seq<char>>,
    i: int,
    project: Option<Seq<char>>,
    target: Option<Seq<char>>,
    output: Option<Seq<char>>,
) -> Result<BuildArgsV, Seq<char>>
    decreases args.len() - i,
{
    if i < 0 || i >= args.len() {
        match project {
            None => Err(build_error("missing <project>"@)),
            Some(p) => match target {
                None => Err(build_error("missing --target <version>"@)),
                Some(t) => Ok(BuildArgsV { project: p, target: t, output }),
            },
        }
    } else {
        let a = args[i];
        if has_prefix(a, "--target="@) {
            parse_from(args, i + 1, project, Some(a.skip(9)), output)
        } else if a == "--target"@ {
            if i + 1 < args.len() {
                parse_from(args, i + 2, project, Some(args[i + 1]), output)
            } else {
                Err(build_error("--target needs a value"@))
            }
        } else if has_prefix(a, "--output="@) {
            parse_from(args, i + 1, project, target, Some(a.skip(9)))
        } else if a == "--output"@ {
            if i + 1 < args.len() {
                parse_from(args, i + 2, project, target, Some(args[i + 1]))
            } else {
                Err(build_error("--output needs a value"@))
            }
        } else if has_prefix(a, "-"@) {
            Err(build_error("unknown option '"@ + a + "'"@))
        } else if project is None {
            parse_from(args, i + 1, Some(a), target, output)
        } else {
            Err(build_error("unexpected extra argument '"@ + a + "'"@))
        }
    }
}

/// What `build`'s arguments give: options in any order, `--name value` or
/// `--name=value`, one project.
pub open spec fn spec_parse_build_args(args: Seq<Seq<char>>) -> Result<BuildArgsV, Seq<char>> {
    parse_from(args, 0, None, None, None)
}

/// What the whole command line asks for.
pub open spec fn spec_run(args: Seq<Seq<char>>) -> Result<ActionV, Seq<char>> {
    if args.len() == 0 {
        Ok(ActionV::Print(USAGE@))
    } else {
        let a = args[0];
        if a == "build"@ {
            match spec_parse_build_args(args.skip(1)) {
                Ok(b) => Ok(ActionV::Build(b)),
                Err(e) => Err(e),
            }
        } else if a == "-h"@ || a == "--help"@ {
            Ok(ActionV::Print(USAGE@))
        } else if a == "-V"@ || a == "--version"@ {
            Ok(ActionV::Print("packsmith "@ + VERSION@ + "\n"@))
        } else {
            Err("packsmith: unknown command '"@ + a + "'\n\n"@ + USAGE@)
        }
    }
}

/// `a` with its first `p` characters removed, when `a` starts with `p`.
pub(crate) fn strip_prefix(a: &str, p: &str) -> (r: Option<String>)
    ensures
        r matches Some(s) ==> has_prefix(a@, p@) && s@ == a@.skip(p@.len() as int),
        r is None ==> !has_prefix(a@, p@),
{
    let cs = chars_of(a);
    let ps = chars_of(p);
    if ps.len() > cs.len() {
        return None;
    }
    let mut i: usize = 0;
    while i < ps.len()
        invariant
            i <= ps@.len() <= cs@.len(),
            cs@ == a@,
            ps@ == p@,
            cs@.take(i as int) == ps@.take(i as int),
        decreases ps@.len() - i,
    {
        if cs[i] != ps[i] {
            assert(cs@.take(ps@.len() as int)[i as int] != ps@[i as int]);
            return None;
        }
        assert(cs@.take(i + 1) =~= cs@.take(i as int).push(cs@[i as int]));
        assert(ps@.take(i + 1) =~= ps@.take(i as int).push(ps@[i as int]));
        i = i + 1;
    }
    assert(ps@.take(i as int) =~= ps@);
    let rest = string_of(&cs, ps.len(), cs.len());
    assert(rest@ =~= a@.skip(p@.len() as int));
    Some(rest)
}

fn build_error_text(what: &str) -> (r: String)
    ensures
        r@ == build_error(what@),
{
    let mut r = cat("packsmith build: ", what);
    r.append("\n\n");
    r.append(BUILD_USAGE);
    r
}

fn quoted_error(what: &str, a: &str) -> (r: String)
    ensures
        r@ == build_error(what@ + a@ + "'"@),
{
    let mut m = cat(what, a);
    m.append("'");
    build_error_text(m.as_str())
}

/// Parses the arguments of `build`.
pub fn parse_build_args(args: &[String]) -> (r: Result<BuildArgs, String>)
    ensures
        (match r {
            Ok(b) => Ok(b@),
            Err(e) => Err(e@),
        }) == spec_parse_build_args(crate::ir::strs_view(args@)),
{
    let ghost av = crate::ir::strs_view(args@);
    let mut project: Option<String> = None;
    let mut target: Option<String> = None;
    let mut output: Option<String> = None;
    let mut i: usize = 0;
    proof {
        reveal_strlit("--target=");
        reveal_strlit("--output=");
    }
    while i < args.len()
        invariant
            i <= args@.len(),
            av == crate::ir::strs_view(args@),
            spec_parse_build_args(av) == parse_from(av, i as int, opt_view(project), opt_view(target), opt_view(output)),
        decreases args@.len() - i,
    {
        let a = args[i].as_str();
        assert(av[i as int] == a@);
        proof {
            reveal_strlit("--target=");
            reveal_strlit("--output=");
        }
        match strip_prefix(a, "--target=") {
            Some(v) => {
                target = Some(v);
                i = i + 1;
                continue;
            },
            None => {},
        }
        if str_eq(a, "--target") {
            if i + 1 < args.len() {
                target = Some(copy_string(&args[i + 1]));
                i = i + 2;
                continue;
            }
            return Err(build_error_text("--target needs a value"));
        }
        match strip_prefix(a, "--output=") {
            Some(v) => {
                output = Some(v);
                i = i + 1;
                continue;
            },
            None => {},
        }
        if str_eq(a, "--output") {
            if i + 1 < args.len() {
                output = Some(copy_string(&args[i + 1]));
                i = i + 2;
                continue;
            }
            return Err(build_error_text("--output needs a value"));
        }
        if strip_prefix(a, "-").is_some() {
            return Err(quoted_error("unknown option '", a));
        }
        if project.is_none() {
            project = Some(owned(a));
            i = i + 1;
            continue;
        }
        return Err(quoted_error("unexpected extra argument '", a));
    }
    let project = match project {
        Some(p) => p,
        None => {
            return Err(build_error_text("missing <project>"));
        },
    };
    let target = match target {
        Some(t) => t,
        None => {
            return Err(build_error_text("missing --target <version>"));
        },
    };
    Ok(BuildArgs { project, target, output })
}

/// Decides what the command line asks for.
pub fn run(args: &[String]) -> (r: Result<Action, String>)
    ensures
        (match r {
            Ok(a) => Ok(a@),
            Err(e) => Err(e@),
        }) == spec_run(crate::ir::strs_view(args@)),
{
    let ghost av = crate::ir::strs_view(args@);
    if args.len() == 0 {
        return Ok(Action::Print(owned(USAGE)));
    }
    let a = args[0].as_str();
    if str_eq(a, "build") {
        let rest = vstd::slice::slice_subrange(args, 1, args.len());
        assert(crate::ir::strs_view(rest@) =~= av.skip(1));
        return match parse_build_args(rest) {
            Ok(b) => Ok(Action::Build(b)),
            Err(e) => Err(e),
        };
    }
    if str_eq(a, "-h") || str_eq(a, "--help") {
        return Ok(Action::Print(owned(USAGE)));
    }
    if str_eq(a, "-V") || str_eq(a, "--version") {
        let mut r = cat("packsmith ", VERSION);
        r.append("\n");
        return Ok(Action::Print(r));
    }
    let mut r = cat("packsmith: unknown command '", a);
    r.append("'\n\n");
    r.append(USAGE);
    Err(r)
}


/// The final component of a path without its extension, as
/// `std::path::Path::file_stem` finds it.
pub uninterp spec fn file_stem_of(path: Seq<char>) -> Option<Seq<char>>;

/// `Path::file_stem` of `path`, as a string. The contract names the stem
/// without stating how the path is split.
#[verifier::external_body]
fn file_stem(path: &str) -> (r: Option<String>)
    ensures
        r matches Some(s) ==> file_stem_of(path@) == Some(s@),
        r is None ==> file_stem_of(path@) is None,
{
    std::path::Path::new(path).file_stem().and_then(|s| s.to_str()).map(|s| s.to_string())
}

/// Where a build is written when no `--output` is given: the stem of the
/// `<project>` path (a project directory or a graph file) with `.zip`, in the
/// working directory; `pack.zip` when the path has no stem.
pub open spec fn spec_default_output(graph_path: Seq<char>) -> Seq<char> {
    match file_stem_of(graph_path) {
        Some(stem) => stem + ".zip"@,
        None => "pack.zip"@,
    }
}

/// The default output file for a `<project>` path.
pub fn default_output(graph_path: &str) -> (r: String)
    ensures
        r@ == spec_default_output(graph_path@),
{
    match file_stem(graph_path) {
        Some(stem) => cat(stem.as_str(), ".zip"),
        None => owned("pack.zip"),
    }
}

/// One diagnostic as the command line reports it: its message, and its fix
/// on an indented line when it has one.
pub open spec fn report_line(d: DiagV) -> Seq<char> {
    let r = spec_render(d);
    "packsmith build: "@ + r.message + match r.fix {
        Some(f) => "\n  fix: "@ + f,
        None => Seq::empty(),
    }
}

/// Every diagnostic of `ds`, one report each, separated by newlines.
pub open spec fn report(ds: Seq<DiagV>) -> Seq<char>
    decreases ds.len(),
{
    if ds.len() == 0 {
        Seq::empty()
    } else if ds.len() == 1 {
        report_line(ds[0])
    } else {
        report(ds.drop_last()) + "\n"@ + report_line(ds.last())
    }
}

/// The outcome of building a graph for a target: the zip, or the report of
/// why nothing was emitted. A compile error refuses the build with every
/// diagnostic of the compile; otherwise a command line the target's grammar
/// rejects refuses it with every such rejection; otherwise an emit error
/// refuses it.
pub open spec fn spec_build(g: GraphV, target_id: Seq<char>, t: TargetV) -> Result<Seq<u8>, Seq<char>> {
    let c = spec_compile(g, target_id);
    if has_error(c.diagnostics) {
        Err(report(c.diagnostics))
    } else {
        let rejected = check_resources(t.commands, c.ir.packs[0].resources, 0, seq![]);
        if rejected.len() > 0 {
            Err(report(rejected))
        } else {
            match spec_file_tree(c.ir, t) {
                Err(e) => Err("packsmith build: "@ + error_message(e)),
                Ok(tree) => Ok(spec_zip(tree)),
            }
        }
    }
}

fn report_text(ds: &Vec<Diagnostic>) -> (r: String)
    ensures
        r@ == report(diags_view(ds@)),
{
    let ghost dv = diags_view(ds@);
    let mut out = String::new();
    let mut i: usize = 0;
    while i < ds.len()
        invariant
            i <= ds@.len(),
            dv == diags_view(ds@),
            out@ == report(dv.take(i as int)),
        decreases ds@.len() - i,
    {
        assert(dv.take(i + 1).drop_last() =~= dv.take(i as int));
        assert(dv.take(i + 1).last() == ds@[i as int]@);
        if i > 0 {
            out.append("\n");
        }
        let r = render(&ds[i]);
        out.append("packsmith build: ");
        out.append(r.message.as_str());
        match &r.fix {
            Some(f) => {
                out.append("\n  fix: ");
                out.append(f.as_str());
            },
            None => {},
        }
        proof {
            if i == 0 {
                assert(dv.take(1) =~= seq![dv[0]]);
            }
        }
        i = i + 1;
    }
    assert(dv.take(i as int) =~= dv);
    out
}

/// Builds a graph for a target: compile, refuse on any compile error, check
/// every command line against the target's command grammar, emit the file
/// tree, and zip it.
pub fn build_pack(graph: &Graph, target_id: &str, target: &TargetData) -> (r: Result<Vec<u8>, String>)
    requires
        walk_count(graph@) <= u32::MAX,
    ensures
        (match r {
            Ok(z) => Ok(z@),
            Err(e) => Err(e@),
        }) == spec_build(graph@, target_id@, target@),
{
    let c = compile(graph, target_id);
    if crate::compiler::any_error(&c.diagnostics) {
        return Err(report_text(&c.diagnostics));
    }
    assert(c.ir@.packs.len() == 1);
    assert(c.ir.packs@[0]@ == c.ir@.packs[0]);
    let rejected = check_commands(c.ir.packs[0].resources.as_slice(), target);
    if rejected.len() > 0 {
        return Err(report_text(&rejected));
    }
    match file_tree(&c.ir, target) {
        Err(e) => Err(cat("packsmith build: ", e.message().as_str())),
        Ok(tree) => Ok(zip(&tree)),
    }
}
} // verus!
