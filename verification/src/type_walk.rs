//! Type checking a whole project. Folders are checked bottom-up: a folder
//! sees the structs and enums of its own inventory, then everything the
//! folders below it make known, and each of its files in turn also sees the
//! functions of the files listed before it.
use vstd::prelude::*;
use crate::ast::{Atom, Bullet, BulletBody, BulletSig, EnumDef, Expr, Param, Rank, SourceFile, StructDef, TyV};
use crate::builder::{copy_struct, copy_enum};
use crate::table::NameTable;
use crate::typecheck::{
    DiagV, SigV, TypeError, type_diags, file_diags, checkable, atom_has_bare, expr_has_bare, exprs_have_bare,
    output_ty, check_source_file, is_checkable, sigs_view, structs_view, enums_view, fields_view, variant_names, sig_view,
};
use crate::ast::{tys_view, lemma_tys_view};

verus! {

/// A source file as type checking sees it: its path, and, where it could be
/// read and parsed, its functions with their enum references resolved.
pub struct TcFile {
    pub path: String,
    pub source: Option<SourceFile>,
}

/// A readable inventory: the folder's rank, its own structs and enums, and
/// the files it lists, in order.
pub struct TcInventory {
    pub rank: Rank,
    pub structs: Vec<StructDef>,
    pub enums: Vec<EnumDef>,
    pub files: Vec<TcFile>,
}

/// A folder: its inventory, where it can be read, and its subfolders.
pub struct TcFolder {
    pub inventory: Option<TcInventory>,
    pub subdirs: Vec<TcFolder>,
}

/// What a folder makes known to the one above it: function signatures,
/// structs and enums, each by name, a later one shadowing an earlier.
pub struct TcEnvs {
    pub fns: NameTable<BulletSig>,
    pub structs: NameTable<StructDef>,
    pub enums: NameTable<EnumDef>,
}

#[verifier::ext_equal]
pub struct EnvV {
    pub fns: Seq<(Seq<char>, SigV)>,
    pub structs: Seq<(Seq<char>, Seq<(Seq<char>, TyV)>)>,
    pub enums: Seq<(Seq<char>, Seq<Seq<char>>)>,
}

impl View for TcEnvs {
    type V = EnvV;

    open spec fn view(&self) -> EnvV {
        EnvV {
            fns: sigs_view(self.fns.entries()),
            structs: structs_view(self.structs.entries()),
            enums: enums_view(self.enums.entries()),
        }
    }
}

pub open spec fn no_env() -> EnvV {
    EnvV { fns: Seq::empty(), structs: Seq::empty(), enums: Seq::empty() }
}

pub open spec fn env_cat(a: EnvV, b: EnvV) -> EnvV {
    EnvV { fns: a.fns + b.fns, structs: a.structs + b.structs, enums: a.enums + b.enums }
}

/// The structs and enums that a folder's own inventory declares.
pub open spec fn own_env(inv: TcInventory) -> EnvV {
    EnvV {
        fns: Seq::empty(),
        structs: inv.structs@.map_values(|s: StructDef| (s.name@, fields_view(s.fields@))),
        enums: inv.enums@.map_values(|e: EnumDef| (e.name@, variant_names(e))),
    }
}

/// The signatures that a file's functions declare, in order.
pub open spec fn declared_sigs(bs: Seq<Bullet>) -> Seq<(Seq<char>, SigV)> {
    bs.map_values(|b: Bullet| (b.name@, SigV { params: b.params@.map_values(|p: Param| p.ty@), returns: output_ty(b) }))
}

/// Checking a folder's files in order, from what is known before the
/// first: what is known after the last, and what the checks report. A file
/// that could not be read or parsed is passed over.
pub open spec fn files_tc(env: EnvV, skirmish: bool, fs: Seq<TcFile>) -> (EnvV, Seq<DiagV>)
    decreases fs.len(),
{
    if fs.len() == 0 {
        (env, Seq::empty())
    } else {
        let (e, d) = files_tc(env, skirmish, fs.drop_last());
        match fs.last().source {
            Some(sf) => (
                EnvV { fns: e.fns + declared_sigs(sf.bullets@), structs: e.structs, enums: e.enums },
                d + file_diags(e.fns, e.structs, e.enums, skirmish, fs.last().path@, sf.bullets@),
            ),
            None => (e, d),
        }
    }
}

/// Checking a folder: what it makes known to the folder above, and what the
/// checks below and in it report, in order. A folder whose inventory cannot
/// be read makes nothing known; a skirmish has no subfolders to check, and a
/// war no files.
pub open spec fn folder_tc(d: TcFolder) -> (EnvV, Seq<DiagV>)
    decreases d,
{
    match d.inventory {
        None => (no_env(), Seq::empty()),
        Some(inv) => {
            let own = own_env(inv);
            let below = if inv.rank is Skirmish {
                (own, Seq::<DiagV>::empty())
            } else {
                let s = subs_tc(d.subdirs@);
                (env_cat(own, s.0), s.1)
            };
            if inv.rank is War {
                below
            } else {
                let f = files_tc(below.0, inv.rank is Skirmish, inv.files@);
                (f.0, below.1 + f.1)
            }
        },
    }
}

pub open spec fn subs_tc(subs: Seq<TcFolder>) -> (EnvV, Seq<DiagV>)
    decreases subs,
{
    if subs.len() == 0 {
        (no_env(), Seq::empty())
    } else {
        let a = subs_tc(subs.drop_last());
        let b = folder_tc(subs.last());
        (env_cat(a.0, b.0), a.1 + b.1)
    }
}

/// Whether every function of a file has types to infer.
pub open spec fn file_ok(f: TcFile) -> bool {
    match f.source {
        Some(sf) => forall|k: int| 0 <= k < sf.bullets@.len() ==> checkable(#[trigger] sf.bullets@[k]),
        None => true,
    }
}

pub open spec fn files_ok(fs: Seq<TcFile>) -> bool {
    forall|i: int| 0 <= i < fs.len() ==> file_ok(#[trigger] fs[i])
}

/// Whether every function that checking the folder infers has types to
/// infer.
pub open spec fn folder_ok(d: TcFolder) -> bool
    decreases d,
{
    match d.inventory {
        None => true,
        Some(inv) => (inv.rank is Skirmish || subs_ok(d.subdirs@)) && (inv.rank is War || files_ok(inv.files@)),
    }
}

pub open spec fn subs_ok(subs: Seq<TcFolder>) -> bool
    decreases subs,
{
    if subs.len() == 0 {
        true
    } else {
        subs_ok(subs.drop_last()) && folder_ok(subs.last())
    }
}

proof fn lemma_subs_ok(subs: Seq<TcFolder>)
    requires
        subs_ok(subs),
    ensures
        forall|i: int| 0 <= i < subs.len() ==> folder_ok(#[trigger] subs[i]),
    decreases subs.len(),
{
    if subs.len() > 0 {
        lemma_subs_ok(subs.drop_last());
        assert forall|i: int| 0 <= i < subs.len() implies folder_ok(#[trigger] subs[i]) by {
            if i < subs.len() - 1 {
                assert(subs[i] == subs.drop_last()[i]);
            }
        }
    }
}

fn empty_envs() -> (r: TcEnvs)
    ensures
        r@ == no_env(),
{
    let r = TcEnvs { fns: NameTable::new(), structs: NameTable::new(), enums: NameTable::new() };
    proof {
        assert(r@.fns =~= Seq::<(Seq<char>, SigV)>::empty());
        assert(r@.structs =~= Seq::<(Seq<char>, Seq<(Seq<char>, TyV)>)>::empty());
        assert(r@.enums =~= Seq::<(Seq<char>, Seq<Seq<char>>)>::empty());
    }
    r
}

/// The structs and enums of a folder's own inventory.
fn own_envs(inv: &TcInventory) -> (r: TcEnvs)
    ensures
        r@ == own_env(*inv),
{
    let mut r = empty_envs();
    let mut i: usize = 0;
    while i < inv.structs.len()
        invariant
            i <= inv.structs@.len(),
            r@.fns == Seq::<(Seq<char>, SigV)>::empty(),
            r@.enums == Seq::<(Seq<char>, Seq<Seq<char>>)>::empty(),
            r@.structs == inv.structs@.subrange(0, i as int).map_values(|s: StructDef| (s.name@, fields_view(s.fields@))),
        decreases inv.structs@.len() - i,
    {
        let ghost before = r.structs.entries();
        let s = &inv.structs[i];
        let c = copy_struct(s);
        r.structs.insert(s.name.clone(), c);
        proof {
            assert(structs_view(r.structs.entries()) =~= structs_view(before).push((s.name@, fields_view(c.fields@))));
            assert(inv.structs@.subrange(0, i + 1).map_values(|s: StructDef| (s.name@, fields_view(s.fields@)))
                =~= inv.structs@.subrange(0, i as int).map_values(|s: StructDef| (s.name@, fields_view(s.fields@))).push(
                (s.name@, fields_view(s.fields@)),
            ));
        }
        i = i + 1;
    }
    let mut j: usize = 0;
    while j < inv.enums.len()
        invariant
            j <= inv.enums@.len(),
            r@.fns == Seq::<(Seq<char>, SigV)>::empty(),
            r@.structs == inv.structs@.map_values(|s: StructDef| (s.name@, fields_view(s.fields@))),
            r@.enums == inv.enums@.subrange(0, j as int).map_values(|e: EnumDef| (e.name@, variant_names(e))),
        decreases inv.enums@.len() - j,
    {
        let ghost before = r.enums.entries();
        let e = &inv.enums[j];
        let c = copy_enum(e);
        r.enums.insert(e.name.clone(), c);
        proof {
            assert(enums_view(r.enums.entries()) =~= enums_view(before).push((e.name@, variant_names(c))));
            assert(inv.enums@.subrange(0, j + 1).map_values(|e: EnumDef| (e.name@, variant_names(e)))
                =~= inv.enums@.subrange(0, j as int).map_values(|e: EnumDef| (e.name@, variant_names(e))).push(
                (e.name@, variant_names(*e)),
            ));
        }
        j = j + 1;
    }
    proof {
        assert(inv.enums@.subrange(0, inv.enums@.len() as int) =~= inv.enums@);
    }
    r
}

/// Adds what `other` makes known after what `envs` knows.
fn extend_envs(envs: &mut TcEnvs, other: TcEnvs)
    ensures
        final(envs)@ == env_cat(old(envs)@, other@),
{
    let ghost a = envs@;
    let ghost b = other@;
    let ghost fa = envs.fns.entries();
    let ghost sa = envs.structs.entries();
    let ghost ea = envs.enums.entries();
    let ghost fb = other.fns.entries();
    let ghost sb = other.structs.entries();
    let ghost eb = other.enums.entries();
    envs.fns.extend(other.fns);
    envs.structs.extend(other.structs);
    envs.enums.extend(other.enums);
    proof {
        assert(sigs_view(fa + fb) =~= sigs_view(fa) + sigs_view(fb));
        assert(structs_view(sa + sb) =~= structs_view(sa) + structs_view(sb));
        assert(enums_view(ea + eb) =~= enums_view(ea) + enums_view(eb));
    }
}

/// Checks a folder's files in order, each against what is known before it.
fn check_files(fs: &Vec<TcFile>, skirmish: bool, envs: &mut TcEnvs, errors: &mut Vec<TypeError>)
    requires
        files_ok(fs@),
    ensures
        final(envs)@ == files_tc(old(envs)@, skirmish, fs@).0,
        type_diags(final(errors)@) == type_diags(old(errors)@) + files_tc(old(envs)@, skirmish, fs@).1,
{
    let ghost e0 = envs@;
    let ghost d0 = type_diags(errors@);
    let mut i: usize = 0;
    proof {
        assert(fs@.subrange(0, 0) =~= Seq::<TcFile>::empty());
        assert(d0 + Seq::<DiagV>::empty() =~= d0);
    }
    while i < fs.len()
        invariant
            i <= fs@.len(),
            files_ok(fs@),
            envs@ == files_tc(e0, skirmish, fs@.subrange(0, i as int)).0,
            type_diags(errors@) == d0 + files_tc(e0, skirmish, fs@.subrange(0, i as int)).1,
        decreases fs@.len() - i,
    {
        let ghost pre = fs@.subrange(0, i as int);
        proof {
            assert(fs@.subrange(0, i + 1).drop_last() =~= pre);
            assert(fs@.subrange(0, i + 1).last() == fs@[i as int]);
            assert(file_ok(fs@[i as int]));
        }
        let f = &fs[i];
        match &f.source {
            Some(sf) => {
                let ghost before = envs@;
                let ghost dprev = type_diags(errors@);
                let ghost fa = envs.fns.entries();
                let fe = check_source_file(sf, f.path.as_str(), &envs.fns, &envs.structs, &envs.enums, skirmish, errors);
                proof {
                    let fb = fe.entries();
                    assert forall|k: int| 0 <= k < fb.len() implies #[trigger] sigs_view(fb)[k] == declared_sigs(sf.bullets@)[k] by {
                        let b = sf.bullets@[k];
                        lemma_tys_view(fb[k].1.params@);
                        assert(sig_view(fb[k].1).params =~= b.params@.map_values(|p: Param| p.ty@));
                    }
                    assert(sigs_view(fb) =~= declared_sigs(sf.bullets@));
                }
                let ghost fb = fe.entries();
                envs.fns.extend(fe);
                proof {
                    assert(sigs_view(fa + fb) =~= sigs_view(fa) + sigs_view(fb));
                    let fd = file_diags(before.fns, before.structs, before.enums, skirmish, f.path@, sf.bullets@);
                    assert(d0 + files_tc(e0, skirmish, pre).1 + fd =~= d0 + (files_tc(e0, skirmish, pre).1 + fd));
                }
            },
            None => {},
        }
        i = i + 1;
    }
    proof {
        assert(fs@.subrange(0, fs@.len() as int) =~= fs@);
    }
}

/// Checks every folder below, in order, adding what each makes known.
fn check_subfolders(subs: &Vec<TcFolder>, envs: &mut TcEnvs, errors: &mut Vec<TypeError>)
    requires
        subs_ok(subs@),
    ensures
        final(envs)@ == env_cat(old(envs)@, subs_tc(subs@).0),
        type_diags(final(errors)@) == type_diags(old(errors)@) + subs_tc(subs@).1,
    decreases subs,
{
    let ghost e0 = envs@;
    let ghost d0 = type_diags(errors@);
    proof {
        lemma_subs_ok(subs@);
        assert(subs@.subrange(0, 0) =~= Seq::<TcFolder>::empty());
        assert(d0 + Seq::<DiagV>::empty() =~= d0);
        assert(env_cat(e0, no_env()) =~= e0);
    }
    let mut i: usize = 0;
    while i < subs.len()
        invariant
            i <= subs@.len(),
            forall|j: int| 0 <= j < subs@.len() ==> folder_ok(#[trigger] subs@[j]),
            envs@ == env_cat(e0, subs_tc(subs@.subrange(0, i as int)).0),
            type_diags(errors@) == d0 + subs_tc(subs@.subrange(0, i as int)).1,
        decreases subs@.len() - i,
    {
        let ghost pre = subs@.subrange(0, i as int);
        proof {
            assert(subs@.subrange(0, i + 1).drop_last() =~= pre);
            assert(subs@.subrange(0, i + 1).last() == subs@[i as int]);
            assert(folder_ok(subs@[i as int]));
        }
        let sub = check_folder(&subs[i], errors);
        extend_envs(envs, sub);
        proof {
            let a = subs_tc(pre);
            let b = folder_tc(subs@[i as int]);
            assert(env_cat(env_cat(e0, a.0), b.0) =~= env_cat(e0, env_cat(a.0, b.0)));
            assert(d0 + a.1 + b.1 =~= d0 + (a.1 + b.1));
        }
        i = i + 1;
    }
    proof {
        assert(subs@.subrange(0, subs@.len() as int) =~= subs@);
    }
}

/// Checks a folder and everything below it.
fn check_folder(d: &TcFolder, errors: &mut Vec<TypeError>) -> (r: TcEnvs)
    requires
        folder_ok(*d),
    ensures
        r@ == folder_tc(*d).0,
        type_diags(final(errors)@) == type_diags(old(errors)@) + folder_tc(*d).1,
    decreases d,
{
    let inv = match &d.inventory {
        Some(inv) => inv,
        None => {
            proof {
                assert(type_diags(errors@) + Seq::<DiagV>::empty() =~= type_diags(errors@));
            }
            return empty_envs();
        },
    };
    let ghost d0 = type_diags(errors@);
    let mut envs = own_envs(inv);
    let skirmish = match inv.rank {
        Rank::Skirmish => true,
        _ => false,
    };
    let war = match inv.rank {
        Rank::War => true,
        _ => false,
    };
    if !skirmish {
        check_subfolders(&d.subdirs, &mut envs, errors);
    } else {
        proof {
            assert(d0 + Seq::<DiagV>::empty() =~= d0);
        }
    }
    if war {
        return envs;
    }
    let ghost mid = type_diags(errors@);
    check_files(&inv.files, skirmish, &mut envs, errors);
    proof {
        let below = if inv.rank is Skirmish {
            (own_env(*inv), Seq::<DiagV>::empty())
        } else {
            let s = subs_tc(d.subdirs@);
            (env_cat(own_env(*inv), s.0), s.1)
        };
        let f = files_tc(below.0, skirmish, inv.files@);
        assert(d0 + below.1 + f.1 =~= d0 + (below.1 + f.1));
    }
    envs
}

/// Type checks a whole project from its root folder: every error that the
/// checks of its folders report, in the order of a bottom-up walk.
pub fn typecheck_tree(root: &TcFolder) -> (r: Vec<TypeError>)
    requires
        folder_ok(*root),
    ensures
        type_diags(r@) == folder_tc(*root).1,
{
    let mut errors: Vec<TypeError> = Vec::new();
    proof {
        assert(type_diags(errors@) =~= Seq::<DiagV>::empty());
    }
    let _ = check_folder(root, &mut errors);
    proof {
        assert(Seq::<DiagV>::empty() + folder_tc(*root).1 =~= folder_tc(*root).1);
    }
    errors
}

fn source_checkable(sf: &SourceFile) -> (r: bool)
    ensures
        r == forall|k: int| 0 <= k < sf.bullets@.len() ==> checkable(#[trigger] sf.bullets@[k]),
{
    let mut k: usize = 0;
    while k < sf.bullets.len()
        invariant
            k <= sf.bullets@.len(),
            forall|j: int| 0 <= j < k ==> checkable(#[trigger] sf.bullets@[j]),
        decreases sf.bullets@.len() - k,
    {
        if !is_checkable(&sf.bullets[k]) {
            return false;
        }
        k = k + 1;
    }
    true
}

fn files_checkable(fs: &Vec<TcFile>) -> (r: bool)
    ensures
        r == files_ok(fs@),
{
    let mut i: usize = 0;
    while i < fs.len()
        invariant
            i <= fs@.len(),
            forall|j: int| 0 <= j < i ==> file_ok(#[trigger] fs@[j]),
        decreases fs@.len() - i,
    {
        match &fs[i].source {
            Some(sf) => {
                if !source_checkable(sf) {
                    proof {
                        assert(!file_ok(fs@[i as int]));
                    }
                    return false;
                }
            },
            None => {},
        }
        i = i + 1;
    }
    true
}

fn subs_checkable(subs: &Vec<TcFolder>) -> (r: bool)
    ensures
        r == subs_ok(subs@),
    decreases subs,
{
    let mut i: usize = 0;
    proof {
        assert(subs@.subrange(0, 0) =~= Seq::<TcFolder>::empty());
    }
    while i < subs.len()
        invariant
            i <= subs@.len(),
            subs_ok(subs@.subrange(0, i as int)),
        decreases subs@.len() - i,
    {
        proof {
            assert(subs@.subrange(0, i + 1).drop_last() =~= subs@.subrange(0, i as int));
            assert(subs@.subrange(0, i + 1).last() == subs@[i as int]);
        }
        if !tree_is_checkable(&subs[i]) {
            proof {
                if subs_ok(subs@) {
                    lemma_subs_ok_prefix(subs@, i + 1);
                }
            }
            return false;
        }
        i = i + 1;
    }
    proof {
        assert(subs@.subrange(0, subs@.len() as int) =~= subs@);
    }
    true
}

proof fn lemma_subs_ok_prefix(subs: Seq<TcFolder>, n: int)
    requires
        0 <= n <= subs.len(),
        subs_ok(subs),
    ensures
        subs_ok(subs.subrange(0, n)),
    decreases subs.len(),
{
    if n < subs.len() {
        assert(subs.drop_last() =~= subs.subrange(0, subs.len() - 1));
        lemma_subs_ok_prefix(subs.drop_last(), n);
        assert(subs.drop_last().subrange(0, n) =~= subs.subrange(0, n));
    } else {
        assert(subs.subrange(0, n) =~= subs);
    }
}

/// Whether every function that checking the folder infers has types to
/// infer: where one does not, the folder cannot be type checked.
pub fn tree_is_checkable(d: &TcFolder) -> (r: bool)
    ensures
        r == folder_ok(*d),
    decreases d,
{
    match &d.inventory {
        None => true,
        Some(inv) => {
            let skirmish = match inv.rank {
                Rank::Skirmish => true,
                _ => false,
            };
            let war = match inv.rank {
                Rank::War => true,
                _ => false,
            };
            (skirmish || subs_checkable(&d.subdirs)) && (war || files_checkable(&inv.files))
        },
    }
}

} // verus!
