//! Building a project: which files a build writes, with what text, and what
//! goes wrong on the way, computed from a snapshot of the project's folders.
//! Also the checks and collections that a build makes over the whole tree.
use vstd::prelude::*;
use crate::ast::{
    Backend, BackendV, BuType, Bullet, BulletBody, EnumDef, Field, InvEntry, NativeBlock, SourceFile,
    StructDef, TyV, Variant, backend_keyword,
};
use crate::codegen_rs::joined;
use crate::codegen_go::{add_all, scan_bullets, project_tuples, tuples_view, scan_file_tuples};
use crate::typecheck::{DiagV, fields_view, variant_names};
use crate::validator::{FolderSnap, InvRead, SourceSnap, ValidationError, name_seq, val_diags};
use crate::text::str_is;

verus! {

// ── Escape blocks against the target backend ──────────────────────────────────

/// Whether an escape block can serve a build for `target`: one for the same
/// backend, or a C block in a C++ build.
pub open spec fn block_fits(block: BackendV, target: BackendV) -> bool {
    (block == BackendV::C && target == BackendV::Cpp) || block == target
}

pub open spec fn any_fits(bs: Seq<NativeBlock>, target: BackendV) -> bool {
    exists|k: int| 0 <= k < bs.len() && block_fits(#[trigger] bs[k].backend@, target)
}

pub open spec fn msg_no_block(func: Seq<char>, target: BackendV, bs: Seq<NativeBlock>) -> Seq<char> {
    "Function '"@ + func + "': no '@"@ + backend_keyword(target) + "' escape block provided. Available blocks: @"@
        + joined(bs.map_values(|b: NativeBlock| backend_keyword(b.backend@)), ", @"@) + ". Add a '@"@
        + backend_keyword(target) + "' block for this backend."@
}

/// What a function made of escape blocks, none of which fits, reports.
pub open spec fn bullet_backend_msgs(b: Bullet, target: BackendV, path: Seq<char>) -> Seq<DiagV> {
    match b.body {
        BulletBody::Natives(bs) => if bs@.len() > 0 && !any_fits(bs@, target) {
            seq![DiagV { file: path, line: b.span.line as nat, col: b.span.col as nat, message: msg_no_block(b.name@, target, bs@) }]
        } else {
            Seq::empty()
        },
        _ => Seq::empty(),
    }
}

pub open spec fn file_backend_msgs(bs: Seq<Bullet>, target: BackendV, path: Seq<char>) -> Seq<DiagV>
    decreases bs.len(),
{
    if bs.len() == 0 {
        Seq::empty()
    } else {
        file_backend_msgs(bs.drop_last(), target, path) + bullet_backend_msgs(bs.last(), target, path)
    }
}

/// What one file reports: nothing unless it parsed as a source file.
pub open spec fn snap_backend_msgs(s: SourceSnap, target: BackendV) -> Seq<DiagV> {
    match s.strict {
        Some(sf) => file_backend_msgs(sf.bullets@, target, s.path@),
        None => Seq::empty(),
    }
}

pub open spec fn snaps_backend_msgs(ss: Seq<SourceSnap>, target: BackendV) -> Seq<DiagV>
    decreases ss.len(),
{
    if ss.len() == 0 {
        Seq::empty()
    } else {
        snaps_backend_msgs(ss.drop_last(), target) + snap_backend_msgs(ss.last(), target)
    }
}

/// Every source file of a folder, then its `main.bu`, then its sub-folders.
pub open spec fn folder_backend_msgs(d: FolderSnap, target: BackendV) -> Seq<DiagV>
    decreases d,
{
    snaps_backend_msgs(d.files@, target) + main_backend_msgs(d.main, target) + subs_backend_msgs(d.subdirs@, target)
}

pub open spec fn main_backend_msgs(m: Option<SourceSnap>, target: BackendV) -> Seq<DiagV> {
    match m {
        Some(m) => snap_backend_msgs(m, target),
        None => Seq::empty(),
    }
}

pub open spec fn subs_backend_msgs(subs: Seq<FolderSnap>, target: BackendV) -> Seq<DiagV>
    decreases subs,
{
    if subs.len() == 0 {
        Seq::empty()
    } else {
        subs_backend_msgs(subs.drop_last(), target) + folder_backend_msgs(subs.last(), target)
    }
}

fn fits_any(bs: &Vec<NativeBlock>, target: &Backend) -> (r: bool)
    ensures
        r == any_fits(bs@, target@),
{
    let mut i: usize = 0;
    while i < bs.len()
        invariant
            i <= bs@.len(),
            forall|k: int| 0 <= k < i ==> !block_fits(#[trigger] bs@[k].backend@, target@),
        decreases bs@.len() - i,
    {
        let fits = match (&bs[i].backend, target) {
            (Backend::C, Backend::Cpp) => true,
            _ => bs[i].backend.same(target),
        };
        if fits {
            proof {
                assert(block_fits(bs@[i as int].backend@, target@));
            }
            return true;
        }
        i = i + 1;
    }
    false
}

fn no_block_message(name: &str, target: &Backend, bs: &Vec<NativeBlock>) -> (r: String)
    ensures
        r@ == msg_no_block(name@, target@, bs@),
{
    let kw = target.escape_keyword();
    let mut kws: Vec<String> = Vec::new();
    let mut i: usize = 0;
    while i < bs.len()
        invariant
            i <= bs@.len(),
            name_seq(kws@) == bs@.subrange(0, i as int).map_values(|b: NativeBlock| backend_keyword(b.backend@)),
        decreases bs@.len() - i,
    {
        let k = bs[i].backend.escape_keyword();
        let ghost before = kws@;
        kws.push(k);
        proof {
            assert(name_seq(kws@) =~= name_seq(before).push(k@));
            assert(bs@.subrange(0, i + 1).map_values(|b: NativeBlock| backend_keyword(b.backend@))
                =~= bs@.subrange(0, i as int).map_values(|b: NativeBlock| backend_keyword(b.backend@)).push(k@));
        }
        i = i + 1;
    }
    proof {
        assert(bs@.subrange(0, bs@.len() as int) =~= bs@);
    }
    let avail = crate::codegen_rs::join_strings(&kws, ", @");
    let mut m = String::from_str("Function '");
    m.append(name);
    m.append("': no '@");
    m.append(kw.as_str());
    m.append("' escape block provided. Available blocks: @");
    m.append(avail.as_str());
    m.append(". Add a '@");
    m.append(kw.as_str());
    m.append("' block for this backend.");
    m
}

/// Reports each function of a parsed file that is made of escape blocks of
/// which none can serve the target backend.
pub fn check_file_backend(sf: &SourceFile, backend: &Backend, path: &str, errors: &mut Vec<ValidationError>)
    ensures
        val_diags(final(errors)@) == val_diags(old(errors)@) + file_backend_msgs(sf.bullets@, backend@, path@),
{
    let ghost e0 = val_diags(errors@);
    let mut i: usize = 0;
    proof {
        assert(sf.bullets@.subrange(0, 0) =~= Seq::<Bullet>::empty());
        assert(e0 + Seq::<DiagV>::empty() =~= e0);
    }
    while i < sf.bullets.len()
        invariant
            i <= sf.bullets@.len(),
            val_diags(errors@) == e0 + file_backend_msgs(sf.bullets@.subrange(0, i as int), backend@, path@),
        decreases sf.bullets@.len() - i,
    {
        proof {
            assert(sf.bullets@.subrange(0, i + 1).drop_last() =~= sf.bullets@.subrange(0, i as int));
            assert(sf.bullets@.subrange(0, i + 1).last() == sf.bullets@[i as int]);
        }
        let func = &sf.bullets[i];
        let ghost before = errors@;
        if let BulletBody::Natives(bs) = &func.body {
            if bs.len() > 0 && !fits_any(bs, backend) {
                let m = no_block_message(func.name.as_str(), backend, bs);
                errors.push(ValidationError {
                    file: String::from_str(path),
                    line: func.span.line,
                    col: func.span.col,
                    message: m,
                });
                proof {
                    assert(val_diags(errors@) =~= val_diags(before) + bullet_backend_msgs(*func, backend@, path@));
                }
            } else {
                proof {
                    assert(val_diags(errors@) =~= val_diags(before) + bullet_backend_msgs(*func, backend@, path@));
                }
            }
        } else {
            proof {
                assert(val_diags(errors@) =~= val_diags(before) + bullet_backend_msgs(*func, backend@, path@));
            }
        }
        proof {
            let a = file_backend_msgs(sf.bullets@.subrange(0, i as int), backend@, path@);
            let b = bullet_backend_msgs(*func, backend@, path@);
            assert(e0 + a + b =~= e0 + (a + b));
        }
        i = i + 1;
    }
    proof {
        assert(sf.bullets@.subrange(0, sf.bullets@.len() as int) =~= sf.bullets@);
    }
}

fn check_snap_backend(s: &SourceSnap, backend: &Backend, errors: &mut Vec<ValidationError>)
    ensures
        val_diags(final(errors)@) == val_diags(old(errors)@) + snap_backend_msgs(*s, backend@),
{
    match &s.strict {
        Some(sf) => check_file_backend(sf, backend, s.path.as_str(), errors),
        None => {
            proof {
                assert(val_diags(errors@) + Seq::<DiagV>::empty() =~= val_diags(errors@));
            }
        },
    }
}

fn check_folder_backend(d: &FolderSnap, backend: &Backend, errors: &mut Vec<ValidationError>)
    ensures
        val_diags(final(errors)@) == val_diags(old(errors)@) + folder_backend_msgs(*d, backend@),
    decreases d,
{
    let ghost e0 = val_diags(errors@);
    let mut i: usize = 0;
    proof {
        assert(d.files@.subrange(0, 0) =~= Seq::<SourceSnap>::empty());
        assert(e0 + Seq::<DiagV>::empty() =~= e0);
    }
    while i < d.files.len()
        invariant
            i <= d.files@.len(),
            val_diags(errors@) == e0 + snaps_backend_msgs(d.files@.subrange(0, i as int), backend@),
        decreases d.files@.len() - i,
    {
        proof {
            assert(d.files@.subrange(0, i + 1).drop_last() =~= d.files@.subrange(0, i as int));
            assert(d.files@.subrange(0, i + 1).last() == d.files@[i as int]);
        }
        check_snap_backend(&d.files[i], backend, errors);
        proof {
            let a = snaps_backend_msgs(d.files@.subrange(0, i as int), backend@);
            let b = snap_backend_msgs(d.files@[i as int], backend@);
            assert(e0 + a + b =~= e0 + (a + b));
        }
        i = i + 1;
    }
    proof {
        assert(d.files@.subrange(0, d.files@.len() as int) =~= d.files@);
    }
    let ghost e1 = val_diags(errors@);
    match &d.main {
        Some(m) => check_snap_backend(m, backend, errors),
        None => {
            proof {
                assert(e1 + Seq::<DiagV>::empty() =~= e1);
            }
        },
    }
    let ghost e2 = val_diags(errors@);
    let mut j: usize = 0;
    proof {
        assert(d.subdirs@.subrange(0, 0) =~= Seq::<FolderSnap>::empty());
        assert(e2 + Seq::<DiagV>::empty() =~= e2);
    }
    while j < d.subdirs.len()
        invariant
            j <= d.subdirs@.len(),
            val_diags(errors@) == e2 + subs_backend_msgs(d.subdirs@.subrange(0, j as int), backend@),
        decreases d.subdirs@.len() - j,
    {
        proof {
            assert(d.subdirs@.subrange(0, j + 1).drop_last() =~= d.subdirs@.subrange(0, j as int));
            assert(d.subdirs@.subrange(0, j + 1).last() == d.subdirs@[j as int]);
        }
        check_folder_backend(&d.subdirs[j], backend, errors);
        proof {
            let a = subs_backend_msgs(d.subdirs@.subrange(0, j as int), backend@);
            let b = folder_backend_msgs(d.subdirs@[j as int], backend@);
            assert(e2 + a + b =~= e2 + (a + b));
        }
        j = j + 1;
    }
    proof {
        assert(d.subdirs@.subrange(0, d.subdirs@.len() as int) =~= d.subdirs@);
        let m = main_backend_msgs(d.main, backend@);
        assert(e0 + snaps_backend_msgs(d.files@, backend@) + m + subs_backend_msgs(d.subdirs@, backend@)
            =~= e0 + folder_backend_msgs(*d, backend@));
    }
}

/// Every function in the tree that is made of escape blocks none of which
/// can serve the target backend, reported at the function.
pub fn validate_backend_compatibility(root: &FolderSnap, backend: &Backend) -> (r: Vec<ValidationError>)
    ensures
        val_diags(r@) == folder_backend_msgs(*root, backend@),
{
    let mut errors: Vec<ValidationError> = Vec::new();
    proof {
        assert(val_diags(errors@) =~= Seq::<DiagV>::empty());
        assert(Seq::<DiagV>::empty() + folder_backend_msgs(*root, backend@) =~= folder_backend_msgs(*root, backend@));
    }
    check_folder_backend(root, backend, &mut errors);
    errors
}

// ── Collections over the tree ─────────────────────────────────────────────────

/// Whether the folder or any folder below it has a `main.bu`.
pub open spec fn has_main_of(d: FolderSnap) -> bool
    decreases d,
{
    d.main is Some || has_main_in(d.subdirs@)
}

pub open spec fn has_main_in(subs: Seq<FolderSnap>) -> bool
    decreases subs,
{
    subs.len() > 0 && (has_main_in(subs.drop_last()) || has_main_of(subs.last()))
}

pub fn tree_has_main(d: &FolderSnap) -> (r: bool)
    ensures
        r == has_main_of(*d),
    decreases d,
{
    if d.main.is_some() {
        return true;
    }
    let mut i: usize = 0;
    proof {
        assert(d.subdirs@.subrange(0, 0) =~= Seq::<FolderSnap>::empty());
    }
    while i < d.subdirs.len()
        invariant
            i <= d.subdirs@.len(),
            !has_main_in(d.subdirs@.subrange(0, i as int)),
        decreases d.subdirs@.len() - i,
    {
        proof {
            assert(d.subdirs@.subrange(0, i + 1).drop_last() =~= d.subdirs@.subrange(0, i as int));
            assert(d.subdirs@.subrange(0, i + 1).last() == d.subdirs@[i as int]);
        }
        if tree_has_main(&d.subdirs[i]) {
            proof {
                lemma_has_main_prefix(d.subdirs@, i as int + 1);
            }
            return true;
        }
        i = i + 1;
    }
    proof {
        assert(d.subdirs@.subrange(0, d.subdirs@.len() as int) =~= d.subdirs@);
    }
    false
}

pub proof fn lemma_has_main_prefix(subs: Seq<FolderSnap>, n: int)
    requires
        0 <= n <= subs.len(),
        has_main_in(subs.subrange(0, n)),
    ensures
        has_main_in(subs),
    decreases subs.len() - n,
{
    if n < subs.len() {
        assert(subs.subrange(0, n + 1).drop_last() =~= subs.subrange(0, n));
        lemma_has_main_prefix(subs, n + 1);
    } else {
        assert(subs.subrange(0, n) =~= subs);
    }
}

/// The libraries that the inventories declare, each once, in the order of a
/// walk of the tree (a folder whose inventory cannot be read adds none of
/// its own, but its sub-folders are still walked).
pub open spec fn libs_of(d: FolderSnap) -> Seq<Seq<char>>
    decreases d,
{
    libs_in(add_all(Seq::empty(), own_libs(d)), d.subdirs@)
}

/// The libraries a folder's own inventory declares.
pub open spec fn own_libs(d: FolderSnap) -> Seq<Seq<char>> {
    match d.inventory {
        InvRead::Found(inv) => name_seq(inv.libs@),
        _ => Seq::empty(),
    }
}

pub open spec fn libs_in(acc: Seq<Seq<char>>, subs: Seq<FolderSnap>) -> Seq<Seq<char>>
    decreases subs,
{
    if subs.len() == 0 {
        acc
    } else {
        add_all(libs_in(acc, subs.drop_last()), libs_of(subs.last()))
    }
}

fn add_names(v: &mut Vec<String>, xs: &Vec<String>)
    ensures
        name_seq(final(v)@) == add_all(name_seq(old(v)@), name_seq(xs@)),
{
    let ghost v0 = name_seq(v@);
    let mut i: usize = 0;
    proof {
        assert(name_seq(xs@).subrange(0, 0) =~= Seq::<Seq<char>>::empty());
    }
    while i < xs.len()
        invariant
            i <= xs@.len(),
            name_seq(v@) == add_all(v0, name_seq(xs@).subrange(0, i as int)),
        decreases xs@.len() - i,
    {
        proof {
            assert(name_seq(xs@).subrange(0, i + 1).drop_last() =~= name_seq(xs@).subrange(0, i as int));
            assert(name_seq(xs@).subrange(0, i + 1).last() == xs@[i as int]@);
        }
        let mut found = false;
        let mut k: usize = 0;
        while k < v.len()
            invariant
                k <= v@.len(),
                i < xs@.len(),
                found == exists|j: int| 0 <= j < k && v@[j]@ == xs@[i as int]@,
            decreases v@.len() - k,
        {
            if str_is(v[k].as_str(), xs[i].as_str()) {
                found = true;
            }
            k = k + 1;
        }
        let ghost before = name_seq(v@);
        proof {
            if found {
                let j = choose|j: int| 0 <= j < v@.len() && v@[j]@ == xs@[i as int]@;
                assert(before[j] == xs@[i as int]@);
                assert(before.contains(xs@[i as int]@));
            } else {
                assert forall|j: int| 0 <= j < before.len() implies before[j] != xs@[i as int]@ by {
                    assert(before[j] == v@[j]@);
                }
                assert(!before.contains(xs@[i as int]@));
            }
        }
        if !found {
            v.push(xs[i].clone());
            proof {
                assert(name_seq(v@) =~= before.push(xs@[i as int]@));
            }
        }
        i = i + 1;
    }
    proof {
        assert(name_seq(xs@).subrange(0, xs@.len() as int) =~= name_seq(xs@));
    }
}

fn libs_into(d: &FolderSnap, acc: &mut Vec<String>)
    ensures
        name_seq(final(acc)@) == add_all(name_seq(old(acc)@), libs_of(*d)),
    decreases d,
{
    let mut own: Vec<String> = Vec::new();
    proof {
        assert(name_seq(own@) =~= Seq::<Seq<char>>::empty());
    }
    if let InvRead::Found(inv) = &d.inventory {
        add_names(&mut own, &inv.libs);
    } else {
        proof {
            assert(name_seq(own@) =~= Seq::<Seq<char>>::empty());
        }
    }
    proof {
        assert(name_seq(own@) == add_all(Seq::empty(), own_libs(*d)));
    }
    let mut i: usize = 0;
    proof {
        assert(d.subdirs@.subrange(0, 0) =~= Seq::<FolderSnap>::empty());
    }
    while i < d.subdirs.len()
        invariant
            i <= d.subdirs@.len(),
            name_seq(own@) == libs_in(add_all(Seq::empty(), own_libs(*d)), d.subdirs@.subrange(0, i as int)),
        decreases d.subdirs@.len() - i,
    {
        proof {
            assert(d.subdirs@.subrange(0, i + 1).drop_last() =~= d.subdirs@.subrange(0, i as int));
            assert(d.subdirs@.subrange(0, i + 1).last() == d.subdirs@[i as int]);
        }
        let mut sub: Vec<String> = Vec::new();
        proof {
            assert(name_seq(sub@) =~= Seq::<Seq<char>>::empty());
            lemma_libs_no_dups(d.subdirs@[i as int]);
            lemma_add_all_empty(libs_of(d.subdirs@[i as int]));
        }
        libs_into(&d.subdirs[i], &mut sub);
        add_names(&mut own, &sub);
        i = i + 1;
    }
    proof {
        assert(d.subdirs@.subrange(0, d.subdirs@.len() as int) =~= d.subdirs@);
    }
    add_names(acc, &own);
}

/// Adding a list to nothing keeps a list without repeats as it is.
pub proof fn lemma_add_all_empty(xs: Seq<Seq<char>>)
    requires
        no_dups(xs),
    ensures
        add_all(Seq::empty(), xs) == xs,
    decreases xs.len(),
{
    if xs.len() > 0 {
        assert(no_dups(xs.drop_last())) by {
            assert forall|i: int, j: int| 0 <= i < j < xs.drop_last().len() implies xs.drop_last()[i] != xs.drop_last()[j] by {
                assert(xs.drop_last()[i] == xs[i] && xs.drop_last()[j] == xs[j]);
            }
        }
        lemma_add_all_empty(xs.drop_last());
        assert(!xs.drop_last().contains(xs.last())) by {
            if xs.drop_last().contains(xs.last()) {
                let k = choose|k: int| 0 <= k < xs.drop_last().len() && xs.drop_last()[k] == xs.last();
                assert(xs[k] == xs[xs.len() - 1]);
            }
        }
        assert(xs.drop_last().push(xs.last()) =~= xs);
    }
}

pub open spec fn no_dups(xs: Seq<Seq<char>>) -> bool {
    forall|i: int, j: int| 0 <= i < j < xs.len() ==> xs[i] != xs[j]
}

pub proof fn lemma_add_all_no_dups(acc: Seq<Seq<char>>, xs: Seq<Seq<char>>)
    requires
        no_dups(acc),
    ensures
        no_dups(add_all(acc, xs)),
    decreases xs.len(),
{
    if xs.len() > 0 {
        lemma_add_all_no_dups(acc, xs.drop_last());
        let v = add_all(acc, xs.drop_last());
        if !v.contains(xs.last()) {
            assert forall|i: int, j: int| 0 <= i < j < v.push(xs.last()).len() implies
                v.push(xs.last())[i] != v.push(xs.last())[j] by {
                if j == v.len() {
                    assert(v.push(xs.last())[i] == v[i]);
                    if v[i] == xs.last() {
                        assert(v.contains(xs.last()));
                    }
                }
            }
        }
    }
}

pub proof fn lemma_libs_in_no_dups(acc: Seq<Seq<char>>, subs: Seq<FolderSnap>)
    requires
        no_dups(acc),
    ensures
        no_dups(libs_in(acc, subs)),
    decreases subs.len(),
{
    if subs.len() > 0 {
        lemma_libs_in_no_dups(acc, subs.drop_last());
        lemma_add_all_no_dups(libs_in(acc, subs.drop_last()), libs_of(subs.last()));
    }
}

pub proof fn lemma_libs_no_dups(d: FolderSnap)
    ensures
        no_dups(libs_of(d)),
{
    lemma_add_all_no_dups(Seq::empty(), own_libs(d));
    lemma_libs_in_no_dups(add_all(Seq::empty(), own_libs(d)), d.subdirs@);
}

/// The libraries of every inventory in the tree, each once, in the order
/// first declared.
pub fn collect_all_libs(d: &FolderSnap) -> (r: Vec<String>)
    ensures
        name_seq(r@) == libs_of(*d),
{
    let mut r: Vec<String> = Vec::new();
    proof {
        assert(name_seq(r@) =~= Seq::<Seq<char>>::empty());
        lemma_libs_no_dups(*d);
        lemma_add_all_empty(libs_of(*d));
    }
    libs_into(d, &mut r);
    r
}

// ── Inventory types over the tree ─────────────────────────────────────────────

/// A struct by value: its name and each field's name and type.
pub open spec fn struct_view(s: StructDef) -> (Seq<char>, Seq<(Seq<char>, TyV)>) {
    (s.name@, fields_view(s.fields@))
}

/// An enum by value: its name and its variants' names.
pub open spec fn enum_view(e: EnumDef) -> (Seq<char>, Seq<Seq<char>>) {
    (e.name@, variant_names(e))
}

pub open spec fn has_struct_named(acc: Seq<StructDef>, n: Seq<char>) -> bool {
    exists|k: int| 0 <= k < acc.len() && (#[trigger] acc[k]).name@ == n
}

/// `xs` added to `acc`, each unless a struct of its name is there already.
pub open spec fn add_structs(acc: Seq<StructDef>, xs: Seq<StructDef>) -> Seq<StructDef>
    decreases xs.len(),
{
    if xs.len() == 0 {
        acc
    } else {
        let a = add_structs(acc, xs.drop_last());
        if has_struct_named(a, xs.last().name@) { a } else { a.push(xs.last()) }
    }
}

/// The structs of every readable inventory, each name once, in the order of
/// a walk of the tree; below a folder whose inventory cannot be read, none.
pub open spec fn structs_of(d: FolderSnap) -> Seq<StructDef>
    decreases d,
{
    match d.inventory {
        InvRead::Found(inv) => structs_in(add_structs(Seq::empty(), inv.structs@), d.subdirs@),
        _ => Seq::empty(),
    }
}

pub open spec fn structs_in(acc: Seq<StructDef>, subs: Seq<FolderSnap>) -> Seq<StructDef>
    decreases subs,
{
    if subs.len() == 0 {
        acc
    } else {
        add_structs(structs_in(acc, subs.drop_last()), structs_of(subs.last()))
    }
}

pub open spec fn has_enum_named(acc: Seq<EnumDef>, n: Seq<char>) -> bool {
    exists|k: int| 0 <= k < acc.len() && (#[trigger] acc[k]).name@ == n
}

pub open spec fn add_enums(acc: Seq<EnumDef>, xs: Seq<EnumDef>) -> Seq<EnumDef>
    decreases xs.len(),
{
    if xs.len() == 0 {
        acc
    } else {
        let a = add_enums(acc, xs.drop_last());
        if has_enum_named(a, xs.last().name@) { a } else { a.push(xs.last()) }
    }
}

/// The enums of every readable inventory, each name once, in walk order.
pub open spec fn enums_of(d: FolderSnap) -> Seq<EnumDef>
    decreases d,
{
    match d.inventory {
        InvRead::Found(inv) => enums_in(add_enums(Seq::empty(), inv.enums@), d.subdirs@),
        _ => Seq::empty(),
    }
}

pub open spec fn enums_in(acc: Seq<EnumDef>, subs: Seq<FolderSnap>) -> Seq<EnumDef>
    decreases subs,
{
    if subs.len() == 0 {
        acc
    } else {
        add_enums(enums_in(acc, subs.drop_last()), enums_of(subs.last()))
    }
}

pub(crate) fn copy_struct(s: &StructDef) -> (r: StructDef)
    ensures
        struct_view(r) == struct_view(*s),
{
    let mut fields: Vec<Field> = Vec::new();
    let mut i: usize = 0;
    while i < s.fields.len()
        invariant
            i <= s.fields@.len(),
            fields@.map_values(|f: Field| (f.name@, f.ty@)) == s.fields@.subrange(0, i as int).map_values(|f: Field| (f.name@, f.ty@)),
        decreases s.fields@.len() - i,
    {
        let f = Field { name: s.fields[i].name.clone(), ty: s.fields[i].ty.copy() };
        let ghost before = fields@;
        fields.push(f);
        proof {
            assert(fields@.map_values(|f: Field| (f.name@, f.ty@)) =~= before.map_values(|f: Field| (f.name@, f.ty@)).push((f.name@, f.ty@)));
            assert(s.fields@.subrange(0, i + 1).map_values(|f: Field| (f.name@, f.ty@))
                =~= s.fields@.subrange(0, i as int).map_values(|f: Field| (f.name@, f.ty@)).push((f.name@, f.ty@)));
        }
        i = i + 1;
    }
    proof {
        assert(s.fields@.subrange(0, s.fields@.len() as int) =~= s.fields@);
    }
    StructDef { name: s.name.clone(), fields }
}

pub(crate) fn copy_enum(e: &EnumDef) -> (r: EnumDef)
    ensures
        enum_view(r) == enum_view(*e),
{
    let mut vs: Vec<Variant> = Vec::new();
    let mut i: usize = 0;
    while i < e.variants.len()
        invariant
            i <= e.variants@.len(),
            vs@.map_values(|v: Variant| v.name@) == e.variants@.subrange(0, i as int).map_values(|v: Variant| v.name@),
        decreases e.variants@.len() - i,
    {
        let v = Variant { name: e.variants[i].name.clone() };
        let ghost before = vs@;
        vs.push(v);
        proof {
            assert(vs@.map_values(|v: Variant| v.name@) =~= before.map_values(|v: Variant| v.name@).push(v.name@));
            assert(e.variants@.subrange(0, i + 1).map_values(|v: Variant| v.name@)
                =~= e.variants@.subrange(0, i as int).map_values(|v: Variant| v.name@).push(v.name@));
        }
        i = i + 1;
    }
    proof {
        assert(e.variants@.subrange(0, e.variants@.len() as int) =~= e.variants@);
    }
    EnumDef { name: e.name.clone(), variants: vs }
}

/// Two lists of structs the same struct for struct.
pub open spec fn same_structs(a: Seq<StructDef>, b: Seq<StructDef>) -> bool {
    a.len() == b.len() && forall|k: int| 0 <= k < a.len() ==> struct_view(#[trigger] a[k]) == struct_view(b[k])
}

pub open spec fn same_enums(a: Seq<EnumDef>, b: Seq<EnumDef>) -> bool {
    a.len() == b.len() && forall|k: int| 0 <= k < a.len() ==> enum_view(#[trigger] a[k]) == enum_view(b[k])
}

fn add_struct_copies(acc: &mut Vec<StructDef>, xs: &Vec<StructDef>, Ghost(spec_acc): Ghost<Seq<StructDef>>,
    Ghost(spec_xs): Ghost<Seq<StructDef>>)
    requires
        same_structs(old(acc)@, spec_acc),
        same_structs(xs@, spec_xs),
    ensures
        same_structs(final(acc)@, add_structs(spec_acc, spec_xs)),
{
    let mut i: usize = 0;
    proof {
        assert(spec_xs.subrange(0, 0) =~= Seq::<StructDef>::empty());
    }
    while i < xs.len()
        invariant
            i <= xs@.len(),
            same_structs(xs@, spec_xs),
            same_structs(acc@, add_structs(spec_acc, spec_xs.subrange(0, i as int))),
        decreases xs@.len() - i,
    {
        let ghost sa = add_structs(spec_acc, spec_xs.subrange(0, i as int));
        proof {
            assert(spec_xs.subrange(0, i + 1).drop_last() =~= spec_xs.subrange(0, i as int));
            assert(spec_xs.subrange(0, i + 1).last() == spec_xs[i as int]);
            assert(struct_view(xs@[i as int]) == struct_view(spec_xs[i as int]));
        }
        let mut found = false;
        let mut k: usize = 0;
        while k < acc.len()
            invariant
                k <= acc@.len(),
                i < xs@.len(),
                same_structs(acc@, sa),
                found == exists|j: int| 0 <= j < k && (#[trigger] acc@[j]).name@ == xs@[i as int].name@,
            decreases acc@.len() - k,
        {
            if str_is(acc[k].name.as_str(), xs[i].name.as_str()) {
                found = true;
            }
            k = k + 1;
        }
        proof {
            if found {
                let j = choose|j: int| 0 <= j < acc@.len() && (#[trigger] acc@[j]).name@ == xs@[i as int].name@;
                assert(struct_view(acc@[j]) == struct_view(sa[j]));
                assert(has_struct_named(sa, spec_xs[i as int].name@));
            } else {
                assert forall|j: int| 0 <= j < sa.len() implies (#[trigger] sa[j]).name@ != spec_xs[i as int].name@ by {
                    assert(struct_view(acc@[j]) == struct_view(sa[j]));
                }
                assert(!has_struct_named(sa, spec_xs[i as int].name@));
            }
        }
        if !found {
            let c = copy_struct(&xs[i]);
            acc.push(c);
            proof {
                let sb = sa.push(spec_xs[i as int]);
                assert forall|j: int| 0 <= j < acc@.len() implies struct_view(#[trigger] acc@[j]) == struct_view(sb[j]) by {
                    if j < sa.len() {
                        assert(acc@[j] == acc@.drop_last()[j]);
                    }
                }
            }
        }
        i = i + 1;
    }
    proof {
        assert(spec_xs.subrange(0, xs@.len() as int) =~= spec_xs);
    }
}

fn add_enum_copies(acc: &mut Vec<EnumDef>, xs: &Vec<EnumDef>, Ghost(spec_acc): Ghost<Seq<EnumDef>>,
    Ghost(spec_xs): Ghost<Seq<EnumDef>>)
    requires
        same_enums(old(acc)@, spec_acc),
        same_enums(xs@, spec_xs),
    ensures
        same_enums(final(acc)@, add_enums(spec_acc, spec_xs)),
{
    let mut i: usize = 0;
    proof {
        assert(spec_xs.subrange(0, 0) =~= Seq::<EnumDef>::empty());
    }
    while i < xs.len()
        invariant
            i <= xs@.len(),
            same_enums(xs@, spec_xs),
            same_enums(acc@, add_enums(spec_acc, spec_xs.subrange(0, i as int))),
        decreases xs@.len() - i,
    {
        let ghost sa = add_enums(spec_acc, spec_xs.subrange(0, i as int));
        proof {
            assert(spec_xs.subrange(0, i + 1).drop_last() =~= spec_xs.subrange(0, i as int));
            assert(spec_xs.subrange(0, i + 1).last() == spec_xs[i as int]);
            assert(enum_view(xs@[i as int]) == enum_view(spec_xs[i as int]));
        }
        let mut found = false;
        let mut k: usize = 0;
        while k < acc.len()
            invariant
                k <= acc@.len(),
                i < xs@.len(),
                same_enums(acc@, sa),
                found == exists|j: int| 0 <= j < k && (#[trigger] acc@[j]).name@ == xs@[i as int].name@,
            decreases acc@.len() - k,
        {
            if str_is(acc[k].name.as_str(), xs[i].name.as_str()) {
                found = true;
            }
            k = k + 1;
        }
        proof {
            if found {
                let j = choose|j: int| 0 <= j < acc@.len() && (#[trigger] acc@[j]).name@ == xs@[i as int].name@;
                assert(enum_view(acc@[j]) == enum_view(sa[j]));
                assert(has_enum_named(sa, spec_xs[i as int].name@));
            } else {
                assert forall|j: int| 0 <= j < sa.len() implies (#[trigger] sa[j]).name@ != spec_xs[i as int].name@ by {
                    assert(enum_view(acc@[j]) == enum_view(sa[j]));
                }
                assert(!has_enum_named(sa, spec_xs[i as int].name@));
            }
        }
        if !found {
            let c = copy_enum(&xs[i]);
            acc.push(c);
            proof {
                let sb = sa.push(spec_xs[i as int]);
                assert forall|j: int| 0 <= j < acc@.len() implies enum_view(#[trigger] acc@[j]) == enum_view(sb[j]) by {
                    if j < sa.len() {
                        assert(acc@[j] == acc@.drop_last()[j]);
                    }
                }
            }
        }
        i = i + 1;
    }
    proof {
        assert(spec_xs.subrange(0, xs@.len() as int) =~= spec_xs);
    }
}

/// The structs of every readable inventory in the tree, each name once, in
/// the order first declared; each a copy of the one declared.
pub fn collect_all_structs(d: &FolderSnap) -> (r: Vec<StructDef>)
    ensures
        same_structs(r@, structs_of(*d)),
    decreases d,
{
    let mut r: Vec<StructDef> = Vec::new();
    if let InvRead::Found(inv) = &d.inventory {
        proof {
            assert(same_structs(inv.structs@, inv.structs@));
        }
        add_struct_copies(&mut r, &inv.structs, Ghost(Seq::empty()), Ghost(inv.structs@));
        let ghost start = add_structs(Seq::empty(), inv.structs@);
        let mut i: usize = 0;
        proof {
            assert(d.subdirs@.subrange(0, 0) =~= Seq::<FolderSnap>::empty());
        }
        while i < d.subdirs.len()
            invariant
                i <= d.subdirs@.len(),
                same_structs(r@, structs_in(start, d.subdirs@.subrange(0, i as int))),
            decreases d.subdirs@.len() - i,
        {
            proof {
                assert(d.subdirs@.subrange(0, i + 1).drop_last() =~= d.subdirs@.subrange(0, i as int));
                assert(d.subdirs@.subrange(0, i + 1).last() == d.subdirs@[i as int]);
            }
            let sub = collect_all_structs(&d.subdirs[i]);
            add_struct_copies(&mut r, &sub, Ghost(structs_in(start, d.subdirs@.subrange(0, i as int))),
                Ghost(structs_of(d.subdirs@[i as int])));
            i = i + 1;
        }
        proof {
            assert(d.subdirs@.subrange(0, d.subdirs@.len() as int) =~= d.subdirs@);
        }
    }
    r
}

/// The enums of every readable inventory in the tree, each name once, in
/// the order first declared; each a copy of the one declared.
pub fn collect_all_enums(d: &FolderSnap) -> (r: Vec<EnumDef>)
    ensures
        same_enums(r@, enums_of(*d)),
    decreases d,
{
    let mut r: Vec<EnumDef> = Vec::new();
    if let InvRead::Found(inv) = &d.inventory {
        proof {
            assert(same_enums(inv.enums@, inv.enums@));
        }
        add_enum_copies(&mut r, &inv.enums, Ghost(Seq::empty()), Ghost(inv.enums@));
        let ghost start = add_enums(Seq::empty(), inv.enums@);
        let mut i: usize = 0;
        proof {
            assert(d.subdirs@.subrange(0, 0) =~= Seq::<FolderSnap>::empty());
        }
        while i < d.subdirs.len()
            invariant
                i <= d.subdirs@.len(),
                same_enums(r@, enums_in(start, d.subdirs@.subrange(0, i as int))),
            decreases d.subdirs@.len() - i,
        {
            proof {
                assert(d.subdirs@.subrange(0, i + 1).drop_last() =~= d.subdirs@.subrange(0, i as int));
                assert(d.subdirs@.subrange(0, i + 1).last() == d.subdirs@[i as int]);
            }
            let sub = collect_all_enums(&d.subdirs[i]);
            add_enum_copies(&mut r, &sub, Ghost(enums_in(start, d.subdirs@.subrange(0, i as int))),
                Ghost(enums_of(d.subdirs@[i as int])));
            i = i + 1;
        }
        proof {
            assert(d.subdirs@.subrange(0, d.subdirs@.len() as int) =~= d.subdirs@);
        }
    }
    r
}

// ── Source files of the tree ──────────────────────────────────────────────────

/// Where a file of this stem is among a folder's source files.
pub open spec fn stem_index(files: Seq<SourceSnap>, stem: Seq<char>) -> Option<int>
    decreases files.len(),
{
    if files.len() == 0 {
        None
    } else if files[0].stem@ == stem {
        Some(0)
    } else {
        match stem_index(files.drop_first(), stem) {
            Some(i) => Some(i + 1),
            None => None,
        }
    }
}

/// The file that an inventory entry names: `main.bu` for `main`, else the
/// source file of that stem, if the folder has one.
pub open spec fn entry_snap(d: FolderSnap, stem: Seq<char>) -> Option<SourceSnap> {
    if stem == "main"@ {
        d.main
    } else {
        match stem_index(d.files@, stem) {
            Some(i) => Some(d.files@[i]),
            None => None,
        }
    }
}

/// The source file that a file holds, when it could be read and parsed as
/// one.
pub open spec fn snap_source(s: SourceSnap) -> Option<SourceFile> {
    if s.read is Ok { s.strict } else { None }
}

pub open spec fn entry_sources(d: FolderSnap, es: Seq<InvEntry>) -> Seq<(String, SourceFile)>
    decreases es.len(),
{
    if es.len() == 0 {
        Seq::empty()
    } else {
        let e = es.last();
        entry_sources(d, es.drop_last()) + match entry_snap(d, e.file@) {
            Some(s) => match snap_source(s) {
                Some(sf) => seq![(e.file, sf)],
                None => Seq::empty(),
            },
            None => Seq::empty(),
        }
    }
}

/// Each source file that the readable inventories list, with its stem, in
/// inventory order, a folder's own before its sub-folders'.
pub open spec fn sources_of(d: FolderSnap) -> Seq<(String, SourceFile)>
    decreases d,
{
    match d.inventory {
        InvRead::Found(inv) => entry_sources(d, inv.entries@) + sources_in(d.subdirs@),
        _ => Seq::empty(),
    }
}

pub open spec fn sources_in(subs: Seq<FolderSnap>) -> Seq<(String, SourceFile)>
    decreases subs,
{
    if subs.len() == 0 {
        Seq::empty()
    } else {
        sources_in(subs.drop_last()) + sources_of(subs.last())
    }
}

pub proof fn lemma_stem_index(files: Seq<SourceSnap>, stem: Seq<char>)
    ensures
        stem_index(files, stem) matches Some(i) ==> 0 <= i < files.len() && files[i].stem@ == stem,
    decreases files.len(),
{
    if files.len() > 0 {
        lemma_stem_index(files.drop_first(), stem);
    }
}

fn find_stem(files: &Vec<SourceSnap>, stem: &str) -> (r: Option<usize>)
    ensures
        r matches Some(i) ==> stem_index(files@, stem@) == Some(i as int) && i < files@.len(),
        r is None ==> stem_index(files@, stem@) is None,
{
    proof {
        assert(files@.subrange(0, files@.len() as int) =~= files@);
        lemma_stem_index(files@, stem@);
    }
    let mut i: usize = 0;
    while i < files.len()
        invariant
            i <= files@.len(),
            stem_index(files@, stem@) == match stem_index(files@.subrange(i as int, files@.len() as int), stem@) {
                Some(j) => Some(j + i),
                None => None,
            },
        decreases files@.len() - i,
    {
        proof {
            let rest = files@.subrange(i as int, files@.len() as int);
            assert(rest[0] == files@[i as int]);
            assert(rest.drop_first() =~= files@.subrange(i + 1, files@.len() as int));
        }
        if str_is(files[i].stem.as_str(), stem) {
            return Some(i);
        }
        i = i + 1;
    }
    proof {
        assert(files@.subrange(i as int, files@.len() as int) =~= Seq::<SourceSnap>::empty());
    }
    None
}

pub(crate) fn entry_snap_exec<'a>(d: &'a FolderSnap, stem: &str) -> (r: Option<&'a SourceSnap>)
    ensures
        match entry_snap(*d, stem@) {
            Some(s) => r matches Some(x) && *x == s,
            None => r is None,
        },
{
    proof {
        reveal_strlit("main");
    }
    if str_is(stem, "main") {
        return match &d.main {
            Some(m) => Some(m),
            None => None,
        };
    }
    proof {
        assert(stem@ != "main"@);
        lemma_stem_index(d.files@, stem@);
    }
    match find_stem(&d.files, stem) {
        Some(i) => {
            proof {
                assert(stem_index(d.files@, stem@) == Some(i as int));
                assert(entry_snap(*d, stem@) == Some(d.files@[i as int]));
            }
            Some(&d.files[i])
        },
        None => None,
    }
}

/// The order in which tuple types are first met, from a list seen so far.
pub open spec fn scan_files(seen: Seq<Seq<TyV>>, files: Seq<(String, SourceFile)>) -> Seq<Seq<TyV>>
    decreases files.len(),
{
    if files.len() == 0 {
        seen
    } else {
        scan_bullets(scan_files(seen, files.drop_last()), files.last().1.bullets@)
    }
}

pub proof fn lemma_scan_files_empty(files: Seq<(String, SourceFile)>)
    ensures
        scan_files(Seq::empty(), files) == project_tuples(files),
    decreases files.len(),
{
    if files.len() > 0 {
        lemma_scan_files_empty(files.drop_last());
    }
}

pub proof fn lemma_scan_files_cat(seen: Seq<Seq<TyV>>, a: Seq<(String, SourceFile)>, b: Seq<(String, SourceFile)>)
    ensures
        scan_files(seen, a + b) == scan_files(scan_files(seen, a), b),
    decreases b.len(),
{
    if b.len() > 0 {
        assert((a + b).drop_last() =~= a + b.drop_last());
        lemma_scan_files_cat(seen, a, b.drop_last());
    } else {
        assert(a + b =~= a);
    }
}

fn tuples_into(d: &FolderSnap, seen: &mut Vec<Vec<BuType>>)
    ensures
        tuples_view(final(seen)@) == scan_files(tuples_view(old(seen)@), sources_of(*d)),
    decreases d,
{
    let ghost s0 = tuples_view(seen@);
    if let InvRead::Found(inv) = &d.inventory {
        let mut i: usize = 0;
        proof {
            assert(inv.entries@.subrange(0, 0) =~= Seq::<InvEntry>::empty());
        }
        while i < inv.entries.len()
            invariant
                i <= inv.entries@.len(),
                d.inventory == InvRead::Found(*inv),
                tuples_view(seen@) == scan_files(s0, entry_sources(*d, inv.entries@.subrange(0, i as int))),
            decreases inv.entries@.len() - i,
        {
            let ghost es = inv.entries@.subrange(0, i + 1);
            proof {
                assert(es.drop_last() =~= inv.entries@.subrange(0, i as int));
                assert(es.last() == inv.entries@[i as int]);
            }
            let e = &inv.entries[i];
            let ghost prev = entry_sources(*d, inv.entries@.subrange(0, i as int));
            match entry_snap_exec(d, e.file.as_str()) {
                Some(snap) => {
                    if snap.read.is_ok() {
                        if let Some(sf) = &snap.strict {
                            let ghost before = tuples_view(seen@);
                            scan_file_tuples(seen, &sf.bullets);
                            proof {
                                let one = seq![(e.file, *sf)];
                                assert(entry_sources(*d, es) == prev + one);
                                lemma_scan_files_cat(s0, prev, one);
                                assert(one.drop_last() =~= Seq::<(String, SourceFile)>::empty());
                                assert(scan_files(before, Seq::<(String, SourceFile)>::empty()) == before);
                                assert(scan_files(before, one) == scan_bullets(before, sf.bullets@));
                            }
                        } else {
                            proof {
                                assert(entry_sources(*d, es) =~= prev);
                            }
                        }
                    } else {
                        proof {
                            assert(entry_sources(*d, es) =~= prev);
                        }
                    }
                },
                None => {
                    proof {
                        assert(entry_sources(*d, es) =~= prev);
                    }
                },
            }
            i = i + 1;
        }
        proof {
            assert(inv.entries@.subrange(0, inv.entries@.len() as int) =~= inv.entries@);
        }
        let ghost s1 = tuples_view(seen@);
        let mut j: usize = 0;
        proof {
            assert(d.subdirs@.subrange(0, 0) =~= Seq::<FolderSnap>::empty());
            assert(sources_in(Seq::<FolderSnap>::empty()) =~= Seq::<(String, SourceFile)>::empty());
        }
        while j < d.subdirs.len()
            invariant
                j <= d.subdirs@.len(),
                tuples_view(seen@) == scan_files(s1, sources_in(d.subdirs@.subrange(0, j as int))),
            decreases d.subdirs@.len() - j,
        {
            proof {
                assert(d.subdirs@.subrange(0, j + 1).drop_last() =~= d.subdirs@.subrange(0, j as int));
                assert(d.subdirs@.subrange(0, j + 1).last() == d.subdirs@[j as int]);
                lemma_scan_files_cat(s1, sources_in(d.subdirs@.subrange(0, j as int)), sources_of(d.subdirs@[j as int]));
            }
            tuples_into(&d.subdirs[j], seen);
            j = j + 1;
        }
        proof {
            assert(d.subdirs@.subrange(0, d.subdirs@.len() as int) =~= d.subdirs@);
            lemma_scan_files_cat(s0, entry_sources(*d, inv.entries@), sources_in(d.subdirs@));
        }
    } else {
        proof {
            assert(sources_of(*d) =~= Seq::<(String, SourceFile)>::empty());
        }
    }
}

/// Every tuple type that a parameter or an output of a listed source file
/// uses, once each, in the order first met.
pub fn collect_tree_tuples(d: &FolderSnap) -> (r: Vec<Vec<BuType>>)
    ensures
        tuples_view(r@) == project_tuples(sources_of(*d)),
{
    let mut seen: Vec<Vec<BuType>> = Vec::new();
    proof {
        assert(tuples_view(seen@) =~= Seq::<Seq<TyV>>::empty());
        lemma_scan_files_empty(sources_of(*d));
    }
    tuples_into(d, &mut seen);
    seen
}

} // verus!
