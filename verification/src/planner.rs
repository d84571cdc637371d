//! What building a project writes: for a snapshot of the project's folders
//! and a target backend, the directories a build creates, the files it
//! writes with their text, in the order written, and the files it could
//! not read or parse. Rust mirrors the folders as modules, Python as
//! packages, Go lays every file side by side.
use vstd::prelude::*;
use crate::ast::{Backend, BackendV, BuType, EnumDef, InvEntry, Rank, SourceFile, StructDef, backend_ext};
use crate::builder::{entry_snap, entry_snap_exec};
use crate::codegen_rs::{
    file_emit_ok, rs_functions, rs_main_functions, rs_mods, rs_structs, rs_enums, emit_source, emit_main, emit_mod_rs,
    emit_lib_rs, emit_cargo_toml, emit_cargo_toml_with_main,
};
use crate::codegen_python::{
    PY_HEADER, py_functions, py_main_functions, py_init, py_file_ok, py_main_ok, emit_source_py, emit_main_py,
    emit_init_py, py_struct_ok,
};
use crate::codegen_go::{
    go_file_ok, go_source, go_main_file, go_types_file, tuples_view, emit_source_go, emit_main_go, emit_go_mod,
    emit_types_go,
};
use crate::typecheck::DiagV;
use crate::validator::{FolderSnap, InvRead, SourceSnap, ValidationError, join, join_path, name_seq, val_diags};
use crate::builder::tree_has_main;
use crate::codegen_rs::file_can_emit;
use crate::codegen_python::{py_file_can_emit, py_main_can_emit, py_struct_can_emit};
use crate::codegen_go::go_file_can_emit;

verus! {

/// A file that a build writes.
pub struct OutFile {
    pub path: String,
    pub content: String,
}

/// What a build does: the directories it creates, the files it writes, in
/// order, and what it could not read or parse.
pub struct BuildPlan {
    pub dirs: Vec<String>,
    pub files: Vec<OutFile>,
    pub errors: Vec<ValidationError>,
}

#[verifier::ext_equal]
pub struct PlanV {
    pub dirs: Seq<Seq<char>>,
    pub files: Seq<(Seq<char>, Seq<char>)>,
    pub errors: Seq<DiagV>,
}

pub open spec fn files_view(fs: Seq<OutFile>) -> Seq<(Seq<char>, Seq<char>)> {
    fs.map_values(|f: OutFile| (f.path@, f.content@))
}

pub open spec fn plan_view(p: BuildPlan) -> PlanV {
    PlanV { dirs: name_seq(p.dirs@), files: files_view(p.files@), errors: val_diags(p.errors@) }
}

pub open spec fn pempty() -> PlanV {
    PlanV { dirs: Seq::empty(), files: Seq::empty(), errors: Seq::empty() }
}

pub open spec fn pcat(a: PlanV, b: PlanV) -> PlanV {
    PlanV { dirs: a.dirs + b.dirs, files: a.files + b.files, errors: a.errors + b.errors }
}

pub open spec fn pdir(path: Seq<char>) -> PlanV {
    PlanV { dirs: seq![path], files: Seq::empty(), errors: Seq::empty() }
}

pub open spec fn pfile(path: Seq<char>, content: Seq<char>) -> PlanV {
    PlanV { dirs: Seq::empty(), files: seq![(path, content)], errors: Seq::empty() }
}

/// A file that could not be read: the reader's reason.
pub open spec fn pread_err(path: Seq<char>, why: Seq<char>) -> PlanV {
    PlanV { dirs: Seq::empty(), files: Seq::empty(),
        errors: seq![DiagV { file: path, line: 0, col: 0, message: "Could not read: "@ + why }] }
}

/// A file that did not parse: the parser's message.
pub open spec fn pparse_err(path: Seq<char>, why: Seq<char>) -> PlanV {
    PlanV { dirs: Seq::empty(), files: Seq::empty(),
        errors: seq![DiagV { file: path, line: 0, col: 0, message: "Parse error: "@ + why }] }
}

/// Whether the backend puts every generated file in one directory.
pub open spec fn flat(b: BackendV) -> bool {
    b == BackendV::C || b == BackendV::Cpp || b == BackendV::Go
}

/// The backends whose builds this library writes.
pub open spec fn buildable(b: BackendV) -> bool {
    b == BackendV::Rust || b == BackendV::Python || b == BackendV::Go || b is Unknown
}

/// The Go package of a generated file: `main` in a program, else the crate.
pub open spec fn go_package(b: BackendV, crate_name: Seq<char>, has_main: bool) -> Seq<char> {
    if has_main && b == BackendV::Go { "main"@ } else { crate_name }
}

/// The text of a listed source file for the backend; none for an unknown
/// one.
pub open spec fn source_text(sf: SourceFile, b: BackendV, crate_name: Seq<char>, has_main: bool) -> Option<Seq<char>> {
    match b {
        BackendV::Rust => Some("#[allow(unused_imports)]\nuse crate::*;\n\n"@ + rs_functions(sf.bullets@)),
        BackendV::Python => Some(PY_HEADER@ + "\n"@ + py_functions(sf.bullets@)),
        BackendV::Go => Some(go_source(sf.bullets@, go_package(b, crate_name, has_main))),
        _ => None,
    }
}

/// The name and text of the file that `main.bu` becomes.
pub open spec fn main_text(sf: SourceFile, b: BackendV, crate_name: Seq<char>) -> Option<(Seq<char>, Seq<char>)> {
    match b {
        BackendV::Rust => Some(("main.rs"@, "use "@ + crate_name + "::*;\n\n"@ + rs_main_functions(sf.bullets@))),
        BackendV::Python => Some(("__main__.py"@, "from __future__ import annotations\nfrom . import *\n\n"@
            + py_main_functions(sf.bullets@) + "if __name__ == \"__main__\":\n    main()\n"@)),
        BackendV::Go => Some(("main.go"@, go_main_file(sf.bullets@))),
        _ => None,
    }
}

/// The file that declares a folder's modules, where the backend has one.
pub open spec fn mod_text(b: BackendV, mods: Seq<Seq<char>>) -> Option<(Seq<char>, Seq<char>)> {
    match b {
        BackendV::Rust => Some(("mod.rs"@, rs_mods(mods))),
        BackendV::Python => Some(("__init__.py"@, py_init(mods, Seq::empty(), Seq::empty()))),
        _ => None,
    }
}

pub open spec fn mod_plan(dir: Seq<char>, b: BackendV, mods: Seq<Seq<char>>) -> PlanV {
    match mod_text(b, mods) {
        Some(m) => pfile(join(dir, m.0), m.1),
        None => pempty(),
    }
}

/// What one inventory entry adds: its file's text (and its module), or why
/// the file could not be had. A file missing from the folder could not be
/// read for the reason `not_found`.
pub open spec fn entry_plan(d: FolderSnap, e: InvEntry, out: Seq<char>, b: BackendV, crate_name: Seq<char>,
    has_main: bool, not_found: Seq<char>) -> (PlanV, Seq<Seq<char>>)
{
    let path = join(d.path@, e.file@ + ".bu"@);
    match entry_snap(d, e.file@) {
        None => (pread_err(path, not_found), Seq::empty()),
        Some(s) => match s.read {
            Err(why) => (pread_err(path, why@), Seq::empty()),
            Ok(_) => match s.strict {
                Some(sf) => match source_text(sf, b, crate_name, has_main) {
                    Some(t) => (pfile(join(out, e.file@ + "."@ + backend_ext(b)), t), seq![e.file@]),
                    None => (pempty(), Seq::empty()),
                },
                None => match s.strict_error {
                    Some(why) => (pparse_err(path, why@), Seq::empty()),
                    None => (pempty(), Seq::empty()),
                },
            },
        },
    }
}

pub open spec fn entries_plan(d: FolderSnap, es: Seq<InvEntry>, out: Seq<char>, b: BackendV, crate_name: Seq<char>,
    has_main: bool, not_found: Seq<char>) -> (PlanV, Seq<Seq<char>>)
    decreases es.len(),
{
    if es.len() == 0 {
        (pempty(), Seq::empty())
    } else {
        let a = entries_plan(d, es.drop_last(), out, b, crate_name, has_main, not_found);
        let c = entry_plan(d, es.last(), out, b, crate_name, has_main, not_found);
        (pcat(a.0, c.0), a.1 + c.1)
    }
}

/// What a folder's `main.bu` adds.
pub open spec fn main_plan(m: Option<SourceSnap>, out: Seq<char>, b: BackendV, crate_name: Seq<char>) -> PlanV {
    match m {
        None => pempty(),
        Some(s) => match s.read {
            Err(why) => pread_err(s.path@, why@),
            Ok(_) => match s.strict {
                Some(sf) => match main_text(sf, b, crate_name) {
                    Some(t) => pfile(join(out, t.0), t.1),
                    None => pempty(),
                },
                None => match s.strict_error {
                    Some(why) => pparse_err(s.path@, why@),
                    None => pempty(),
                },
            },
        },
    }
}

/// What a folder adds, written to `out`, and the modules it declares: its
/// sub-folders first, then its listed files in inventory order, then its
/// `main.bu` (at war always, below war above skirmish). A war folder's
/// sub-folders each get a directory; below war only backends that are not
/// flat give them one. A folder whose inventory cannot be read adds
/// nothing.
pub open spec fn folder_plan(d: FolderSnap, out: Seq<char>, b: BackendV, crate_name: Seq<char>, has_main: bool,
    not_found: Seq<char>) -> (PlanV, Seq<Seq<char>>)
    decreases d,
{
    match d.inventory {
        InvRead::Found(inv) => if inv.rank == Rank::War {
            let s = subs_plan(d.subdirs@, true, out, b, crate_name, has_main, not_found);
            (pcat(s.0, main_plan(d.main, out, b, crate_name)), s.1)
        } else {
            let s = if inv.rank != Rank::Skirmish {
                subs_plan(d.subdirs@, false, out, b, crate_name, has_main, not_found)
            } else {
                (pempty(), Seq::empty())
            };
            let e = entries_plan(d, inv.entries@, out, b, crate_name, has_main, not_found);
            let m = if inv.rank != Rank::Skirmish { main_plan(d.main, out, b, crate_name) } else { pempty() };
            (pcat(pcat(s.0, e.0), m), s.1 + e.1)
        },
        _ => (pempty(), Seq::empty()),
    }
}

/// What the sub-folders add, in order.
pub open spec fn subs_plan(subs: Seq<FolderSnap>, war: bool, out: Seq<char>, b: BackendV, crate_name: Seq<char>,
    has_main: bool, not_found: Seq<char>) -> (PlanV, Seq<Seq<char>>)
    decreases subs,
{
    if subs.len() == 0 {
        (pempty(), Seq::empty())
    } else {
        let a = subs_plan(subs.drop_last(), war, out, b, crate_name, has_main, not_found);
        let s = subs.last();
        let c = if war || !flat(b) {
            let co = join(out, s.name@);
            let f = folder_plan(s, co, b, crate_name, has_main, not_found);
            (pcat(pcat(pdir(co), f.0), mod_plan(co, b, f.1)), seq![s.name@])
        } else {
            folder_plan(s, out, b, crate_name, has_main, not_found)
        };
        (pcat(a.0, c.0), a.1 + c.1)
    }
}

// ── What a build needs of its sources ─────────────────────────────────────────

/// Whether a listed file's functions can be written for the backend.
pub open spec fn source_ok(sf: SourceFile, b: BackendV) -> bool {
    match b {
        BackendV::Rust => file_emit_ok(sf),
        BackendV::Python => py_file_ok(sf.bullets@),
        BackendV::Go => go_file_ok(sf.bullets@),
        _ => true,
    }
}

/// Whether a `main.bu`'s functions can be written for the backend.
pub open spec fn main_source_ok(sf: SourceFile, b: BackendV) -> bool {
    match b {
        BackendV::Rust => file_emit_ok(sf),
        BackendV::Python => py_main_ok(sf.bullets@),
        BackendV::Go => go_file_ok(sf.bullets@),
        _ => true,
    }
}

pub open spec fn snap_ok(s: Option<SourceSnap>, main: bool, b: BackendV) -> bool {
    match s {
        Some(s) => match s.strict {
            Some(sf) => s.read is Ok ==> if main { main_source_ok(sf, b) } else { source_ok(sf, b) },
            None => true,
        },
        None => true,
    }
}

pub open spec fn entries_ok(d: FolderSnap, es: Seq<InvEntry>, b: BackendV) -> bool {
    forall|k: int| 0 <= k < es.len() ==> snap_ok(entry_snap(d, (#[trigger] es[k]).file@), false, b)
}

/// Whether every file that a build writes can be written: the same walk as
/// `folder_plan`.
pub open spec fn folder_ok(d: FolderSnap, b: BackendV) -> bool
    decreases d,
{
    match d.inventory {
        InvRead::Found(inv) => if inv.rank == Rank::War {
            subs_ok(d.subdirs@, b) && snap_ok(d.main, true, b)
        } else {
            &&& (inv.rank != Rank::Skirmish ==> subs_ok(d.subdirs@, b))
            &&& entries_ok(d, inv.entries@, b)
            &&& (inv.rank != Rank::Skirmish ==> snap_ok(d.main, true, b))
        },
        _ => true,
    }
}

pub open spec fn subs_ok(subs: Seq<FolderSnap>, b: BackendV) -> bool
    decreases subs,
{
    subs.len() == 0 || (subs_ok(subs.drop_last(), b) && folder_ok(subs.last(), b))
}

// ── The whole build ───────────────────────────────────────────────────────────

/// Where a build puts the generated sources: a package directory named
/// after the crate for Python, the output directory itself for the flat
/// backends, `src` below it otherwise.
pub open spec fn src_out_dir(b: BackendV, out: Seq<char>, crate_name: Seq<char>) -> Seq<char> {
    if b == BackendV::Python {
        join(out, crate_name)
    } else if flat(b) {
        out
    } else {
        join(out, "src"@)
    }
}

pub open spec fn cargo_text(crate_name: Seq<char>, has_main: bool) -> Seq<char> {
    if has_main {
        "[package]\nname    = \""@ + crate_name + "\"\nversion = \"0.1.0\"\nedition = \"2021\"\n\n[[bin]]\nname = \""@
            + crate_name + "\"\npath = \"src/main.rs\"\n\n[lib]\nname = \""@ + crate_name
            + "\"\npath = \"src/lib.rs\"\n\n[dependencies]\n"@
    } else {
        "[package]\nname    = \""@ + crate_name + "\"\nversion = \"0.1.0\"\nedition = \"2021\"\n\n[dependencies]\n"@
    }
}

/// The files that tie a build together: `lib.rs` and `Cargo.toml` for Rust,
/// the package's `__init__.py` for Python, `go.mod` and (where there are
/// types to declare) `types.go` for Go.
pub open spec fn tail_plan(b: BackendV, out: Seq<char>, src_out: Seq<char>, crate_name: Seq<char>, has_main: bool,
    mods: Seq<Seq<char>>, ss: Seq<StructDef>, es: Seq<EnumDef>, tss: Seq<Seq<crate::ast::TyV>>) -> PlanV
{
    match b {
        BackendV::Rust => pcat(
            pfile(join(src_out, "lib.rs"@), "#![allow(unused_imports)]\n\n"@ + rs_structs(ss) + rs_enums(es) + rs_mods(mods)),
            pfile(join(out, "Cargo.toml"@), cargo_text(crate_name, has_main)),
        ),
        BackendV::Python => pfile(join(src_out, "__init__.py"@), py_init(mods, ss, es)),
        BackendV::Go => pcat(
            pfile(join(out, "go.mod"@), "module "@ + crate_name + "\n\ngo 1.21\n"@),
            if ss.len() > 0 || es.len() > 0 || tss.len() > 0 {
                pfile(join(out, "types.go"@), go_types_file(if has_main { "main"@ } else { crate_name }, ss, es, tss))
            } else {
                pempty()
            },
        ),
        _ => pempty(),
    }
}

/// Where a copy of the project's `blueprint.bu` goes, as `blueprint.md`.
pub open spec fn blueprint_path(b: BackendV, out: Seq<char>, src_out: Seq<char>, crate_name: Seq<char>) -> Seq<char> {
    if b == BackendV::Python {
        join(join(out, crate_name), "blueprint.md"@)
    } else if flat(b) {
        join(out, "blueprint.md"@)
    } else {
        join(src_out, "blueprint.md"@)
    }
}

/// Everything a build does, in order: the source directory, the tree, the
/// files that tie it together, the blueprint.
pub open spec fn build_spec(root: FolderSnap, out: Seq<char>, crate_name: Seq<char>, b: BackendV, ss: Seq<StructDef>,
    es: Seq<EnumDef>, tss: Seq<Seq<crate::ast::TyV>>, blueprint: Option<Seq<char>>, not_found: Seq<char>) -> PlanV
{
    let src_out = src_out_dir(b, out, crate_name);
    let has_main = crate::builder::has_main_of(root);
    let f = folder_plan(root, src_out, b, crate_name, has_main, not_found);
    pcat(pcat(pcat(pdir(src_out), f.0), tail_plan(b, out, src_out, crate_name, has_main, f.1, ss, es, tss)),
        match blueprint {
            Some(t) => pfile(blueprint_path(b, out, src_out, crate_name), t),
            None => pempty(),
        })
}

pub proof fn lemma_pcat_assoc(a: PlanV, b: PlanV, c: PlanV)
    ensures
        pcat(pcat(a, b), c) == pcat(a, pcat(b, c)),
{
    assert(pcat(pcat(a, b), c) =~= pcat(a, pcat(b, c)));
}

pub proof fn lemma_pcat_empty(a: PlanV)
    ensures
        pcat(a, pempty()) == a,
        pcat(pempty(), a) == a,
{
    assert(pcat(a, pempty()) =~= a);
    assert(pcat(pempty(), a) =~= a);
}

fn push_dir(plan: &mut BuildPlan, path: String)
    ensures
        plan_view(*final(plan)) == pcat(plan_view(*old(plan)), pdir(path@)),
{
    let ghost p0 = plan_view(*plan);
    plan.dirs.push(path);
    proof {
        assert(name_seq(plan.dirs@) =~= p0.dirs.push(path@));
        assert(plan_view(*plan) =~= pcat(p0, pdir(path@)));
    }
}

fn push_file(plan: &mut BuildPlan, path: String, content: String)
    ensures
        plan_view(*final(plan)) == pcat(plan_view(*old(plan)), pfile(path@, content@)),
{
    let ghost p0 = plan_view(*plan);
    let ghost pv = path@;
    let ghost cv = content@;
    plan.files.push(OutFile { path, content });
    proof {
        assert(files_view(plan.files@) =~= p0.files.push((pv, cv)));
        assert(plan_view(*plan) =~= pcat(p0, pfile(pv, cv)));
    }
}

fn push_error(plan: &mut BuildPlan, path: &str, lead: &str, why: &str)
    ensures
        plan_view(*final(plan)) == pcat(plan_view(*old(plan)), PlanV { dirs: Seq::empty(), files: Seq::empty(),
            errors: seq![DiagV { file: path@, line: 0, col: 0, message: lead@ + why@ }] }),
{
    let ghost p0 = plan_view(*plan);
    let mut m = String::from_str(lead);
    m.append(why);
    let e = ValidationError { file: String::from_str(path), line: 0, col: 0, message: m };
    plan.errors.push(e);
    proof {
        assert(val_diags(plan.errors@) =~= p0.errors.push(e@));
        assert(plan_view(*plan) =~= pcat(p0, PlanV { dirs: Seq::empty(), files: Seq::empty(),
            errors: seq![DiagV { file: path@, line: 0, col: 0, message: lead@ + why@ }] }));
    }
}

fn push_mod_file(plan: &mut BuildPlan, dir: &str, b: &Backend, mods: &Vec<String>)
    ensures
        plan_view(*final(plan)) == pcat(plan_view(*old(plan)), mod_plan(dir@, b@, name_seq(mods@))),
{
    match b {
        Backend::Rust => {
            let t = emit_mod_rs(mods);
            push_file(plan, join_path(dir, "mod.rs"), t);
        },
        Backend::Python => {
            let none_s: Vec<StructDef> = Vec::new();
            let none_e: Vec<EnumDef> = Vec::new();
            proof {
                assert(none_s@ =~= Seq::<StructDef>::empty());
                assert(none_e@ =~= Seq::<EnumDef>::empty());
            }
            let t = emit_init_py(mods, &none_s, &none_e);
            push_file(plan, join_path(dir, "__init__.py"), t);
        },
        _ => {
            proof {
                lemma_pcat_empty(plan_view(*plan));
            }
        },
    }
}

fn source_text_exec(sf: &SourceFile, b: &Backend, crate_name: &str, has_main: bool) -> (r: Option<String>)
    requires
        source_ok(*sf, b@),
    ensures
        match source_text(*sf, b@, crate_name@, has_main) {
            Some(t) => r matches Some(x) && x@ == t,
            None => r is None,
        },
{
    match b {
        Backend::Rust => Some(emit_source(sf)),
        Backend::Python => Some(emit_source_py(sf)),
        Backend::Go => {
            if has_main {
                Some(emit_source_go(sf, "main"))
            } else {
                Some(emit_source_go(sf, crate_name))
            }
        },
        _ => None,
    }
}

fn main_text_exec(sf: &SourceFile, b: &Backend, crate_name: &str) -> (r: Option<(&'static str, String)>)
    requires
        main_source_ok(*sf, b@),
    ensures
        match main_text(*sf, b@, crate_name@) {
            Some(t) => r matches Some(x) && x.0@ == t.0 && x.1@ == t.1,
            None => r is None,
        },
{
    match b {
        Backend::Rust => Some(("main.rs", emit_main(sf, crate_name))),
        Backend::Python => Some(("__main__.py", emit_main_py(sf, crate_name))),
        Backend::Go => Some(("main.go", emit_main_go(sf, crate_name))),
        _ => None,
    }
}

fn entry_step(d: &FolderSnap, e: &InvEntry, out: &str, b: &Backend, crate_name: &str, has_main: bool,
    not_found: &str, plan: &mut BuildPlan, mods: &mut Vec<String>)
    requires
        snap_ok(entry_snap(*d, e.file@), false, b@),
    ensures
        plan_view(*final(plan)) == pcat(plan_view(*old(plan)),
            entry_plan(*d, *e, out@, b@, crate_name@, has_main, not_found@).0),
        name_seq(final(mods)@) == name_seq(old(mods)@) + entry_plan(*d, *e, out@, b@, crate_name@, has_main, not_found@).1,
{
    let mut stem_bu = e.file.clone();
    stem_bu.append(".bu");
    let path = join_path(d.path.as_str(), stem_bu.as_str());
    let ghost p0 = plan_view(*plan);
    let ghost m0 = name_seq(mods@);
    proof {
        assert(m0 + Seq::<Seq<char>>::empty() =~= m0);
        lemma_pcat_empty(p0);
    }
    match entry_snap_exec(d, e.file.as_str()) {
        None => push_error(plan, path.as_str(), "Could not read: ", not_found),
        Some(s) => match &s.read {
            Err(why) => push_error(plan, path.as_str(), "Could not read: ", why.as_str()),
            Ok(_) => match &s.strict {
                Some(sf) => match source_text_exec(sf, b, crate_name, has_main) {
                    Some(t) => {
                        let mut name = e.file.clone();
                        name.append(".");
                        let ext = b.ext();
                        name.append(ext.as_str());
                        push_file(plan, join_path(out, name.as_str()), t);
                        let ghost before = mods@;
                        mods.push(e.file.clone());
                        proof {
                            assert(name_seq(mods@) =~= name_seq(before) + seq![e.file@]);
                        }
                    },
                    None => {},
                },
                None => match &s.strict_error {
                    Some(why) => push_error(plan, path.as_str(), "Parse error: ", why.as_str()),
                    None => {},
                },
            },
        },
    }
}

fn main_step(m: &Option<SourceSnap>, out: &str, b: &Backend, crate_name: &str, plan: &mut BuildPlan)
    requires
        snap_ok(*m, true, b@),
    ensures
        plan_view(*final(plan)) == pcat(plan_view(*old(plan)), main_plan(*m, out@, b@, crate_name@)),
{
    proof {
        lemma_pcat_empty(plan_view(*plan));
    }
    match m {
        None => {},
        Some(s) => match &s.read {
            Err(why) => push_error(plan, s.path.as_str(), "Could not read: ", why.as_str()),
            Ok(_) => match &s.strict {
                Some(sf) => match main_text_exec(sf, b, crate_name) {
                    Some((name, t)) => push_file(plan, join_path(out, name), t),
                    None => {},
                },
                None => match &s.strict_error {
                    Some(why) => push_error(plan, s.path.as_str(), "Parse error: ", why.as_str()),
                    None => {},
                },
            },
        },
    }
}

fn emit_entries(d: &FolderSnap, es: &Vec<InvEntry>, out: &str, b: &Backend, crate_name: &str, has_main: bool,
    not_found: &str, plan: &mut BuildPlan, mods: &mut Vec<String>)
    requires
        entries_ok(*d, es@, b@),
    ensures
        plan_view(*final(plan)) == pcat(plan_view(*old(plan)),
            entries_plan(*d, es@, out@, b@, crate_name@, has_main, not_found@).0),
        name_seq(final(mods)@) == name_seq(old(mods)@) + entries_plan(*d, es@, out@, b@, crate_name@, has_main, not_found@).1,
{
    let ghost p0 = plan_view(*plan);
    let ghost m0 = name_seq(mods@);
    let mut i: usize = 0;
    proof {
        assert(es@.subrange(0, 0) =~= Seq::<InvEntry>::empty());
        lemma_pcat_empty(p0);
        assert(m0 + Seq::<Seq<char>>::empty() =~= m0);
    }
    while i < es.len()
        invariant
            i <= es@.len(),
            entries_ok(*d, es@, b@),
            plan_view(*plan) == pcat(p0, entries_plan(*d, es@.subrange(0, i as int), out@, b@, crate_name@, has_main, not_found@).0),
            name_seq(mods@) == m0 + entries_plan(*d, es@.subrange(0, i as int), out@, b@, crate_name@, has_main, not_found@).1,
        decreases es@.len() - i,
    {
        let ghost pre = entries_plan(*d, es@.subrange(0, i as int), out@, b@, crate_name@, has_main, not_found@);
        let ghost one = entry_plan(*d, es@[i as int], out@, b@, crate_name@, has_main, not_found@);
        proof {
            assert(es@.subrange(0, i + 1).drop_last() =~= es@.subrange(0, i as int));
            assert(es@.subrange(0, i + 1).last() == es@[i as int]);
            assert(snap_ok(entry_snap(*d, es@[i as int].file@), false, b@));
        }
        entry_step(d, &es[i], out, b, crate_name, has_main, not_found, plan, mods);
        proof {
            lemma_pcat_assoc(p0, pre.0, one.0);
            assert(m0 + pre.1 + one.1 =~= m0 + (pre.1 + one.1));
        }
        i = i + 1;
    }
    proof {
        assert(es@.subrange(0, es@.len() as int) =~= es@);
    }
}

fn emit_folder(d: &FolderSnap, out: &str, b: &Backend, crate_name: &str, has_main: bool, not_found: &str,
    plan: &mut BuildPlan) -> (mods: Vec<String>)
    requires
        folder_ok(*d, b@),
    ensures
        plan_view(*final(plan)) == pcat(plan_view(*old(plan)), folder_plan(*d, out@, b@, crate_name@, has_main, not_found@).0),
        name_seq(mods@) == folder_plan(*d, out@, b@, crate_name@, has_main, not_found@).1,
    decreases d,
{
    let ghost p0 = plan_view(*plan);
    proof {
        lemma_pcat_empty(p0);
    }
    match &d.inventory {
        InvRead::Found(inv) => {
            match inv.rank {
                Rank::War => {
                    let mods = emit_subs(&d.subdirs, true, out, b, crate_name, has_main, not_found, plan);
                    let ghost p1 = plan_view(*plan);
                    main_step(&d.main, out, b, crate_name, plan);
                    proof {
                        let s = subs_plan(d.subdirs@, true, out@, b@, crate_name@, has_main, not_found@);
                        lemma_pcat_assoc(p0, s.0, main_plan(d.main, out@, b@, crate_name@));
                    }
                    mods
                },
                _ => {
                    let skirmish = match inv.rank {
                        Rank::Skirmish => true,
                        _ => false,
                    };
                    let mut mods = if !skirmish {
                        emit_subs(&d.subdirs, false, out, b, crate_name, has_main, not_found, plan)
                    } else {
                        let v: Vec<String> = Vec::new();
                        proof {
                            assert(name_seq(v@) =~= Seq::<Seq<char>>::empty());
                        }
                        v
                    };
                    let ghost s = if inv.rank != Rank::Skirmish {
                        subs_plan(d.subdirs@, false, out@, b@, crate_name@, has_main, not_found@)
                    } else {
                        (pempty(), Seq::<Seq<char>>::empty())
                    };
                    emit_entries(d, &inv.entries, out, b, crate_name, has_main, not_found, plan, &mut mods);
                    let ghost e = entries_plan(*d, inv.entries@, out@, b@, crate_name@, has_main, not_found@);
                    proof {
                        lemma_pcat_assoc(p0, s.0, e.0);
                    }
                    if !skirmish {
                        main_step(&d.main, out, b, crate_name, plan);
                        proof {
                            lemma_pcat_assoc(p0, pcat(s.0, e.0), main_plan(d.main, out@, b@, crate_name@));
                        }
                    } else {
                        proof {
                            lemma_pcat_empty(pcat(s.0, e.0));
                            lemma_pcat_empty(plan_view(*plan));
                        }
                    }
                    mods
                },
            }
        },
        _ => {
            let v: Vec<String> = Vec::new();
            proof {
                assert(name_seq(v@) =~= Seq::<Seq<char>>::empty());
            }
            v
        },
    }
}

fn emit_subs(subs: &Vec<FolderSnap>, war: bool, out: &str, b: &Backend, crate_name: &str, has_main: bool,
    not_found: &str, plan: &mut BuildPlan) -> (mods: Vec<String>)
    requires
        subs_ok(subs@, b@),
    ensures
        plan_view(*final(plan)) == pcat(plan_view(*old(plan)), subs_plan(subs@, war, out@, b@, crate_name@, has_main, not_found@).0),
        name_seq(mods@) == subs_plan(subs@, war, out@, b@, crate_name@, has_main, not_found@).1,
    decreases subs,
{
    let ghost p0 = plan_view(*plan);
    let mut mods: Vec<String> = Vec::new();
    let is_flat = match b {
        Backend::C | Backend::Cpp | Backend::Go => true,
        _ => false,
    };
    let mut i: usize = 0;
    proof {
        assert(subs@.subrange(0, 0) =~= Seq::<FolderSnap>::empty());
        lemma_pcat_empty(p0);
        assert(name_seq(mods@) =~= Seq::<Seq<char>>::empty());
        lemma_subs_ok(subs@, b@);
    }
    while i < subs.len()
        invariant
            i <= subs@.len(),
            is_flat == flat(b@),
            forall|k: int| 0 <= k < subs@.len() ==> folder_ok(#[trigger] subs@[k], b@),
            plan_view(*plan) == pcat(p0, subs_plan(subs@.subrange(0, i as int), war, out@, b@, crate_name@, has_main, not_found@).0),
            name_seq(mods@) == subs_plan(subs@.subrange(0, i as int), war, out@, b@, crate_name@, has_main, not_found@).1,
        decreases subs@.len() - i,
    {
        let ghost pre = subs_plan(subs@.subrange(0, i as int), war, out@, b@, crate_name@, has_main, not_found@);
        let ghost m0 = name_seq(mods@);
        proof {
            assert(subs@.subrange(0, i + 1).drop_last() =~= subs@.subrange(0, i as int));
            assert(subs@.subrange(0, i + 1).last() == subs@[i as int]);
            assert(folder_ok(subs@[i as int], b@));
        }
        let s = &subs[i];
        if war || !is_flat {
            let co = join_path(out, s.name.as_str());
            let ghost pa = plan_view(*plan);
            push_dir(plan, join_path(out, s.name.as_str()));
            let gc = emit_folder(s, co.as_str(), b, crate_name, has_main, not_found, plan);
            push_mod_file(plan, co.as_str(), b, &gc);
            let ghost f = folder_plan(*s, co@, b@, crate_name@, has_main, not_found@);
            proof {
                lemma_pcat_assoc(pa, pdir(co@), f.0);
                lemma_pcat_assoc(pa, pcat(pdir(co@), f.0), mod_plan(co@, b@, f.1));
                lemma_pcat_assoc(p0, pre.0, pcat(pcat(pdir(co@), f.0), mod_plan(co@, b@, f.1)));
            }
            let ghost before = mods@;
            mods.push(s.name.clone());
            proof {
                assert(name_seq(mods@) =~= name_seq(before) + seq![s.name@]);
            }
        } else {
            let gc = emit_folder(s, out, b, crate_name, has_main, not_found, plan);
            let mut j: usize = 0;
            let ghost mb = name_seq(mods@);
            proof {
                assert(mb + name_seq(gc@).subrange(0, 0) =~= mb);
                let f = folder_plan(*s, out@, b@, crate_name@, has_main, not_found@);
                lemma_pcat_assoc(p0, pre.0, f.0);
            }
            while j < gc.len()
                invariant
                    j <= gc@.len(),
                    name_seq(mods@) == mb + name_seq(gc@).subrange(0, j as int),
                decreases gc@.len() - j,
            {
                let ghost before = mods@;
                mods.push(gc[j].clone());
                proof {
                    assert(name_seq(mods@) =~= name_seq(before).push(gc@[j as int]@));
                    assert(name_seq(gc@).subrange(0, j + 1) =~= name_seq(gc@).subrange(0, j as int).push(gc@[j as int]@));
                }
                j = j + 1;
            }
            proof {
                assert(name_seq(gc@).subrange(0, gc@.len() as int) =~= name_seq(gc@));
            }
        }
        i = i + 1;
    }
    proof {
        assert(subs@.subrange(0, subs@.len() as int) =~= subs@);
    }
    mods
}

pub proof fn lemma_subs_ok(subs: Seq<FolderSnap>, b: BackendV)
    requires
        subs_ok(subs, b),
    ensures
        forall|k: int| 0 <= k < subs.len() ==> folder_ok(#[trigger] subs[k], b),
    decreases subs.len(),
{
    if subs.len() > 0 {
        lemma_subs_ok(subs.drop_last(), b);
        assert forall|k: int| 0 <= k < subs.len() implies folder_ok(#[trigger] subs[k], b) by {
            if k < subs.len() - 1 {
                assert(subs.drop_last()[k] == subs[k]);
            }
        }
    }
}

/// Plans the build of a project into `out_dir`: `structs`, `enums` and
/// `tuple_types` are those of the whole tree (see `collect_all_structs`,
/// `collect_all_enums` and `collect_tree_tuples`), `blueprint` the text of
/// the project's `blueprint.bu` where it has one that could be read, and
/// `not_found` the reason given for a listed file that is not there. The
/// C and C++ code generators are not part of this library.
pub fn build(root: &FolderSnap, out_dir: &str, crate_name: &str, backend: &Backend, structs: &Vec<StructDef>,
    enums: &Vec<EnumDef>, tuple_types: &Vec<Vec<BuType>>, blueprint: Option<String>, not_found: &str) -> (r: BuildPlan)
    requires
        buildable(backend@),
        folder_ok(*root, backend@),
        backend@ == BackendV::Python ==> forall|k: int| 0 <= k < structs@.len() ==> py_struct_ok(#[trigger] structs@[k]),
    ensures
        plan_view(r) == build_spec(*root, out_dir@, crate_name@, backend@, structs@, enums@, tuples_view(tuple_types@),
            match blueprint { Some(t) => Some(t@), None => None }, not_found@),
{
    let mut plan = BuildPlan { dirs: Vec::new(), files: Vec::new(), errors: Vec::new() };
    proof {
        assert(plan_view(plan) =~= pempty());
    }
    let src_out = match backend {
        Backend::Python => join_path(out_dir, crate_name),
        Backend::C | Backend::Cpp | Backend::Go => String::from_str(out_dir),
        _ => join_path(out_dir, "src"),
    };
    proof {
        assert(src_out@ == src_out_dir(backend@, out_dir@, crate_name@));
        lemma_pcat_empty(pdir(src_out@));
    }
    push_dir(&mut plan, src_out.clone());
    let has_main = tree_has_main(root);
    let mods = emit_folder(root, src_out.as_str(), backend, crate_name, has_main, not_found, &mut plan);
    let ghost p1 = plan_view(plan);
    match backend {
        Backend::Rust => {
            let lib = emit_lib_rs(&mods, structs, enums);
            push_file(&mut plan, join_path(src_out.as_str(), "lib.rs"), lib);
            let cargo = if has_main { emit_cargo_toml_with_main(crate_name) } else { emit_cargo_toml(crate_name) };
            push_file(&mut plan, join_path(out_dir, "Cargo.toml"), cargo);
            proof {
                let a = pfile(join(src_out@, "lib.rs"@), "#![allow(unused_imports)]\n\n"@ + rs_structs(structs@) + rs_enums(enums@) + rs_mods(name_seq(mods@)));
                let c = pfile(join(out_dir@, "Cargo.toml"@), cargo_text(crate_name@, has_main));
                lemma_pcat_assoc(p1, a, c);
            }
        },
        Backend::Python => {
            let init = emit_init_py(&mods, structs, enums);
            push_file(&mut plan, join_path(src_out.as_str(), "__init__.py"), init);
        },
        Backend::Go => {
            let gm = emit_go_mod(crate_name);
            push_file(&mut plan, join_path(out_dir, "go.mod"), gm);
            let ghost p2 = plan_view(plan);
            if structs.len() > 0 || enums.len() > 0 || tuple_types.len() > 0 {
                let pkg: &str = if has_main { "main" } else { crate_name };
                let t = emit_types_go(pkg, structs, enums, tuple_types);
                push_file(&mut plan, join_path(out_dir, "types.go"), t);
            } else {
                proof {
                    lemma_pcat_empty(p2);
                }
            }
            proof {
                reveal_strlit("main");
                let a = pfile(join(out_dir@, "go.mod"@), "module "@ + crate_name@ + "\n\ngo 1.21\n"@);
                let c = if structs@.len() > 0 || enums@.len() > 0 || tuples_view(tuple_types@).len() > 0 {
                    pfile(join(out_dir@, "types.go"@), go_types_file(if has_main { "main"@ } else { crate_name@ }, structs@, enums@, tuples_view(tuple_types@)))
                } else {
                    pempty()
                };
                lemma_pcat_assoc(p1, a, c);
            }
        },
        _ => {
            proof {
                lemma_pcat_empty(p1);
            }
        },
    }
    let ghost p3 = plan_view(plan);
    match blueprint {
        Some(t) => {
            let path = match backend {
                Backend::Python => {
                    let pkg = join_path(out_dir, crate_name);
                    join_path(pkg.as_str(), "blueprint.md")
                },
                Backend::C | Backend::Cpp | Backend::Go => join_path(out_dir, "blueprint.md"),
                _ => join_path(src_out.as_str(), "blueprint.md"),
            };
            proof {
                assert(path@ == blueprint_path(backend@, out_dir@, src_out@, crate_name@));
            }
            push_file(&mut plan, path, t);
        },
        None => {
            proof {
                lemma_pcat_empty(p3);
            }
        },
    }
    proof {
        let f = folder_plan(*root, src_out@, backend@, crate_name@, has_main, not_found@);
        lemma_pcat_assoc(pdir(src_out@), f.0, tail_plan(backend@, out_dir@, src_out@, crate_name@, has_main, f.1, structs@, enums@, tuples_view(tuple_types@)));
    }
    plan
}

fn source_can_emit(sf: &SourceFile, main: bool, b: &Backend) -> (r: bool)
    ensures
        r == (if main { main_source_ok(*sf, b@) } else { source_ok(*sf, b@) }),
{
    match b {
        Backend::Rust => file_can_emit(sf),
        Backend::Python => if main { py_main_can_emit(&sf.bullets) } else { py_file_can_emit(&sf.bullets) },
        Backend::Go => go_file_can_emit(&sf.bullets),
        _ => true,
    }
}

fn snap_can_emit(s: Option<&SourceSnap>, main: bool, b: &Backend) -> (r: bool)
    ensures
        r == snap_ok(match s { Some(x) => Some(*x), None => None }, main, b@),
{
    match s {
        Some(x) => match &x.strict {
            Some(sf) => !x.read.is_ok() || source_can_emit(sf, main, b),
            None => true,
        },
        None => true,
    }
}

fn entries_can_emit(d: &FolderSnap, es: &Vec<InvEntry>, b: &Backend) -> (r: bool)
    ensures
        r == entries_ok(*d, es@, b@),
{
    let mut i: usize = 0;
    while i < es.len()
        invariant
            i <= es@.len(),
            forall|k: int| 0 <= k < i ==> snap_ok(entry_snap(*d, (#[trigger] es@[k]).file@), false, b@),
        decreases es@.len() - i,
    {
        let s = entry_snap_exec(d, es[i].file.as_str());
        if !snap_can_emit(s, false, b) {
            proof {
                assert(!snap_ok(entry_snap(*d, es@[i as int].file@), false, b@));
            }
            return false;
        }
        i = i + 1;
    }
    true
}

fn subs_can_emit(subs: &Vec<FolderSnap>, b: &Backend) -> (r: bool)
    ensures
        r == subs_ok(subs@, b@),
    decreases subs,
{
    let mut i: usize = 0;
    proof {
        assert(subs@.subrange(0, 0) =~= Seq::<FolderSnap>::empty());
    }
    while i < subs.len()
        invariant
            i <= subs@.len(),
            subs_ok(subs@.subrange(0, i as int), b@),
        decreases subs@.len() - i,
    {
        proof {
            assert(subs@.subrange(0, i + 1).drop_last() =~= subs@.subrange(0, i as int));
            assert(subs@.subrange(0, i + 1).last() == subs@[i as int]);
        }
        if !build_can_emit(&subs[i], b) {
            proof {
                if subs_ok(subs@, b@) {
                    lemma_subs_ok_prefix(subs@, b@, i + 1);
                }
            }
            return false;
        }
        i = i + 1;
    }
    proof {
        assert(subs@.subrange(0, subs@.len() as int) =~= subs@);
    }
    true
}

proof fn lemma_subs_ok_prefix(subs: Seq<FolderSnap>, b: BackendV, n: int)
    requires
        0 <= n <= subs.len(),
        subs_ok(subs, b),
    ensures
        subs_ok(subs.subrange(0, n), b),
    decreases subs.len(),
{
    if n < subs.len() {
        assert(subs.drop_last() =~= subs.subrange(0, subs.len() - 1));
        lemma_subs_ok_prefix(subs.drop_last(), b, n);
        assert(subs.drop_last().subrange(0, n) =~= subs.subrange(0, n));
    } else {
        assert(subs.subrange(0, n) =~= subs);
    }
}

/// Whether every file that a build for `b` writes can be written: where one
/// cannot, the build cannot go on.
pub fn build_can_emit(d: &FolderSnap, b: &Backend) -> (r: bool)
    ensures
        r == folder_ok(*d, b@),
    decreases d,
{
    match &d.inventory {
        InvRead::Found(inv) => {
            let main = match &d.main {
                Some(m) => Some(m),
                None => None,
            };
            match inv.rank {
                Rank::War => subs_can_emit(&d.subdirs, b) && snap_can_emit(main, true, b),
                Rank::Skirmish => entries_can_emit(d, &inv.entries, b),
                _ => subs_can_emit(&d.subdirs, b) && entries_can_emit(d, &inv.entries, b)
                    && snap_can_emit(main, true, b),
            }
        },
        _ => true,
    }
}

/// Whether every struct has a Python type hint for each field.
pub fn structs_can_emit_py(structs: &Vec<StructDef>) -> (r: bool)
    ensures
        r == forall|k: int| 0 <= k < structs@.len() ==> py_struct_ok(#[trigger] structs@[k]),
{
    let mut i: usize = 0;
    while i < structs.len()
        invariant
            i <= structs@.len(),
            forall|k: int| 0 <= k < i ==> py_struct_ok(#[trigger] structs@[k]),
        decreases structs@.len() - i,
    {
        if !py_struct_can_emit(&structs[i]) {
            return false;
        }
        i = i + 1;
    }
    true
}

} // verus!
