//! Decisions of the `convert` command: which language a file or project is
//! converted to, where the output goes, whether escape blocks conflict with
//! the target, how a project that mixes languages is split, and what is
//! printed at the end.
use vstd::prelude::*;
use crate::add::opt_str;
use crate::ast::{
    Backend, BackendV, Bullet, BulletBody, SourceFile, backend_ext, backend_keyword, backend_from_ext,
};
use crate::project::{extension, path_ext};
use crate::text::{str_is, push_str, chars_of, string_of};
use crate::validator::{join, join_path, name_seq};
use crate::codegen_rs::joined;


verus! {

/// The extensions `convert` takes as a language.
pub open spec fn known_ext(s: Seq<char>) -> bool {
    s == "rs"@ || s == "py"@ || s == "c"@ || s == "cpp"@ || s == "go"@
}

pub fn is_known_ext(s: &str) -> (r: bool)
    ensures
        r == known_ext(s@),
{
    str_is(s, "rs") || str_is(s, "py") || str_is(s, "c") || str_is(s, "cpp") || str_is(s, "go")
}

/// The language of a single file with none given: that of the inventory
/// beside it, else that of the project's inventory, else Rust.
pub open spec fn detect_lang_spec(dir_lang: Option<BackendV>, probe_lang: Option<BackendV>) -> Seq<char> {
    match dir_lang {
        Some(b) => backend_ext(b),
        None => match probe_lang {
            Some(b) => backend_ext(b),
            None => "rs"@,
        },
    }
}

pub open spec fn opt_backend(b: Option<Backend>) -> Option<BackendV> {
    match b {
        Some(x) => Some(x@),
        None => None,
    }
}

pub fn detect_lang(dir_lang: &Option<Backend>, probe_lang: &Option<Backend>) -> (r: String)
    ensures
        r@ == detect_lang_spec(opt_backend(*dir_lang), opt_backend(*probe_lang)),
{
    match dir_lang {
        Some(b) => b.ext(),
        None => match probe_lang {
            Some(b) => b.ext(),
            None => String::from_str("rs"),
        },
    }
}

/// The message for an output path whose extension names no language.
pub open spec fn msg_cannot_infer(s: Seq<char>) -> Seq<char> {
    "error: cannot infer language from '"@ + s + "' \u{2014} use a known extension (rs, py, c, cpp, go)"@
}

/// The language and the explicit output path of a single-file conversion:
/// no second argument takes the detected language; a known extension is
/// the language; anything else is an output path whose extension must be
/// known.
pub open spec fn single_second_spec(second: Option<Seq<char>>, detected: Seq<char>) -> Result<(Seq<char>, Option<Seq<char>>), Seq<char>> {
    match second {
        None => Ok((detected, None)),
        Some(s) => if known_ext(s) {
            Ok((s, None))
        } else {
            match path_ext(s) {
                Some(e) => if known_ext(e) { Ok((e, Some(s))) } else { Err(msg_cannot_infer(s)) },
                None => Err(msg_cannot_infer(s)),
            }
        },
    }
}

pub fn resolve_single_second(second: &Option<String>, detected: &str) -> (r: Result<(String, Option<String>), String>)
    ensures
        match (r, single_second_spec(opt_str(*second), detected@)) {
            (Ok((a, b)), Ok((x, y))) => a@ == x && opt_str(b) == y,
            (Err(a), Err(x)) => a@ == x,
            _ => false,
        },
{
    match second {
        None => Ok((String::from_str(detected), None)),
        Some(s) => {
            if is_known_ext(s.as_str()) {
                return Ok((s.clone(), None));
            }
            let bad = {
                let mut m = String::from_str("error: cannot infer language from '");
                push_str(&mut m, s.as_str());
                push_str(&mut m, "' \u{2014} use a known extension (rs, py, c, cpp, go)");
                m
            };
            match extension(s.as_str()) {
                Some(e) => if is_known_ext(e.as_str()) { Ok((e, Some(s.clone()))) } else { Err(bad) },
                None => Err(bad),
            }
        },
    }
}

/// The message for a language argument that names no backend.
pub open spec fn msg_not_backend(s: Seq<char>) -> Seq<char> {
    "error: '"@ + s + "' is not a recognised backend \u{2014} use rs py c cpp go java"@
}

/// A project's language argument, checked.
pub fn check_lang_override(second: &Option<String>) -> (r: Result<Option<String>, String>)
    ensures
        match *second {
            None => r matches Ok(None),
            Some(s) => if known_ext(s@) {
                r matches Ok(Some(x)) && x@ == s@
            } else {
                r matches Err(m) && m@ == msg_not_backend(s@)
            },
        },
{
    match second {
        None => Ok(None),
        Some(s) => if is_known_ext(s.as_str()) {
            Ok(Some(s.clone()))
        } else {
            let mut m = String::from_str("error: '");
            push_str(&mut m, s.as_str());
            push_str(&mut m, "' is not a recognised backend \u{2014} use rs py c cpp go java");
            Err(m)
        },
    }
}

// ── Escape blocks against the target ─────────────────────────────────────────

/// Whether a function's first escape block is for a known backend other
/// than the target.
pub open spec fn conflicts(b: Bullet, target: BackendV) -> bool {
    match b.body {
        BulletBody::Natives(bs) => bs@.len() > 0 && bs@[0].backend@ != target && !(bs@[0].backend@ is Unknown),
        _ => false,
    }
}

pub open spec fn first_conflict(bs: Seq<Bullet>, target: BackendV) -> Option<int>
    decreases bs.len(),
{
    if bs.len() == 0 {
        None
    } else if conflicts(bs[0], target) {
        Some(0)
    } else {
        match first_conflict(bs.drop_first(), target) {
            Some(i) => Some(i + 1),
            None => None,
        }
    }
}

pub open spec fn msg_conflict(path: Seq<char>, b: Bullet, target: BackendV) -> Seq<char> {
    let kw = match b.body {
        BulletBody::Natives(bs) => backend_keyword(bs@[0].backend@),
        _ => Seq::empty(),
    };
    "error: '"@ + path + "': function '"@ + b.name@ + "' has a @"@ + kw + " escape block but target is "@
        + backend_keyword(target) + ". Remove the override or match the backend."@
}

/// Why a file cannot be converted to a target, if it cannot: the first
/// function whose escape block is for another known backend.
pub open spec fn escape_conflict_spec(bs: Seq<Bullet>, target: BackendV, path: Seq<char>) -> Option<Seq<char>> {
    match first_conflict(bs, target) {
        Some(i) => Some(msg_conflict(path, bs[i], target)),
        None => None,
    }
}

pub fn check_escape_compat(sf: &SourceFile, backend: &Backend, path: &str) -> (r: Option<String>)
    ensures
        opt_str(r) == escape_conflict_spec(sf.bullets@, backend@, path@),
{
    let bs = &sf.bullets;
    let mut i: usize = 0;
    proof {
        assert(bs@.subrange(0, bs@.len() as int) =~= bs@);
    }
    while i < bs.len()
        invariant
            i <= bs@.len(),
            bs@ == sf.bullets@,
            first_conflict(bs@, backend@) == match first_conflict(bs@.subrange(i as int, bs@.len() as int), backend@) {
                Some(j) => Some(j + i),
                None => None,
            },
        decreases bs@.len() - i,
    {
        let ghost rest = bs@.subrange(i as int, bs@.len() as int);
        proof {
            assert(rest[0] == bs@[i as int]);
            assert(rest.drop_first() =~= bs@.subrange(i + 1, bs@.len() as int));
        }
        if let BulletBody::Natives(blocks) = &bs[i].body {
            if blocks.len() > 0 && !blocks[0].backend.same(backend) && !blocks[0].backend.is_unknown() {
                let mut m = String::from_str("error: '");
                push_str(&mut m, path);
                push_str(&mut m, "': function '");
                push_str(&mut m, bs[i].name.as_str());
                push_str(&mut m, "' has a @");
                let kw = blocks[0].backend.escape_keyword();
                push_str(&mut m, kw.as_str());
                push_str(&mut m, " escape block but target is ");
                let tk = backend.escape_keyword();
                push_str(&mut m, tk.as_str());
                push_str(&mut m, ". Remove the override or match the backend.");
                proof {
                    assert(conflicts(bs@[i as int], backend@));
                    assert(first_conflict(rest, backend@) == Some(0int));
                    assert(first_conflict(bs@, backend@) == Some(i as int));
                    assert(m@ =~= msg_conflict(path@, bs@[i as int], backend@));
                    assert(escape_conflict_spec(bs@, backend@, path@) == Some(m@));
                }
                return Some(m);
            }
        }
        proof {
            assert(!conflicts(bs@[i as int], backend@));
        }
        i = i + 1;
    }
    None
}

/// The extension of a single converted file: the target's, Rust's for an
/// unknown target.
pub open spec fn out_ext_spec(b: BackendV) -> Seq<char> {
    match b {
        BackendV::Unknown(_) => "rs"@,
        _ => backend_ext(b),
    }
}

pub fn out_ext(b: &Backend) -> (r: String)
    ensures
        r@ == out_ext_spec(b@),
{
    match b {
        Backend::Unknown(_) => String::from_str("rs"),
        _ => b.ext(),
    }
}

/// The target of a single-file conversion: the language named, Rust where
/// it names no backend.
pub open spec fn single_target_spec(lang: Seq<char>) -> BackendV {
    match backend_from_ext(lang) {
        Some(b) => b,
        None => BackendV::Rust,
    }
}

pub fn single_target(lang: &str) -> (r: Backend)
    ensures
        r@ == single_target_spec(lang@),
{
    match Backend::from_ext(lang) {
        Some(b) => b,
        None => Backend::Rust,
    }
}

// ── Projects ──────────────────────────────────────────────────────────────────

/// A project's folders with the language each declares.
pub struct LangTree {
    pub lang: Option<Backend>,
    pub children: Vec<LangTree>,
}

/// The language each folder is converted to, in walk order (a folder, then
/// its subfolders): its own, else the nearest ancestor's.
pub open spec fn folder_langs(t: LangTree, parent: Option<BackendV>) -> Seq<Option<BackendV>>
    decreases t,
{
    let eff = match t.lang {
        Some(b) => Some(b@),
        None => parent,
    };
    seq![eff] + children_langs(t.children@, eff)
}

pub open spec fn children_langs(cs: Seq<LangTree>, parent: Option<BackendV>) -> Seq<Option<BackendV>>
    decreases cs,
{
    if cs.len() == 0 {
        Seq::empty()
    } else {
        children_langs(cs.drop_last(), parent) + folder_langs(cs.last(), parent)
    }
}

/// The distinct languages, as extensions, in the order first seen.
pub open spec fn distinct_exts(ls: Seq<Option<BackendV>>) -> Seq<Seq<char>>
    decreases ls.len(),
{
    if ls.len() == 0 {
        Seq::empty()
    } else {
        let r = distinct_exts(ls.drop_last());
        match ls.last() {
            Some(b) => if r.contains(backend_ext(b)) { r } else { r.push(backend_ext(b)) },
            None => r,
        }
    }
}

fn push_langs(t: &LangTree, parent: &Option<Backend>, seen: &mut Vec<String>)
    ensures
        name_seq(final(seen)@) == distinct_exts_from(name_seq(old(seen)@), folder_langs(*t, opt_backend(*parent))),
    decreases t, 1nat,
{
    let eff: Option<Backend> = match &t.lang {
        Some(b) => Some(b.copy()),
        None => match parent {
            Some(p) => Some(p.copy()),
            None => None,
        },
    };
    let ghost e = opt_backend(eff);
    proof {
        assert(e == match t.lang { Some(b) => Some(b@), None => opt_backend(*parent) });
    }
    let ghost s0 = name_seq(seen@);
    proof {
        assert(seq![e].drop_last() =~= Seq::<Option<BackendV>>::empty());
        assert(seq![e].last() == e);
        assert(distinct_exts_from(s0, Seq::<Option<BackendV>>::empty()) == s0);
    }
    match &eff {
        Some(b) => {
            let x = b.ext();
            add_distinct(seen, &x);
        },
        None => {},
    }
    let ghost mid = name_seq(seen@);
    proof {
        assert(distinct_exts_from(s0, seq![e]) == mid);
    }
    push_children_langs(&t.children, &eff, seen);
    proof {
        lemma_distinct_exts_from_cat(name_seq(old(seen)@), seq![e], children_langs(t.children@, e));
        assert(seq![e] + children_langs(t.children@, e) == folder_langs(*t, opt_backend(*parent)));
    }
}

fn push_children_langs(cs: &Vec<LangTree>, parent: &Option<Backend>, seen: &mut Vec<String>)
    ensures
        name_seq(final(seen)@) == distinct_exts_from(name_seq(old(seen)@), children_langs(cs@, opt_backend(*parent))),
    decreases cs, 1nat,
{
    let ghost s0 = name_seq(seen@);
    let ghost p = opt_backend(*parent);
    let mut i: usize = 0;
    proof {
        assert(cs@.subrange(0, 0) =~= Seq::<LangTree>::empty());
    }
    while i < cs.len()
        invariant
            i <= cs@.len(),
            p == opt_backend(*parent),
            name_seq(seen@) == distinct_exts_from(s0, children_langs(cs@.subrange(0, i as int), p)),
        decreases cs@.len() - i,
    {
        proof {
            assert(cs@.subrange(0, i + 1).drop_last() =~= cs@.subrange(0, i as int));
            assert(cs@.subrange(0, i + 1).last() == cs@[i as int]);
            lemma_distinct_exts_from_cat(s0, children_langs(cs@.subrange(0, i as int), p), folder_langs(cs@[i as int], p));
        }
        push_langs(&cs[i], parent, seen);
        i = i + 1;
    }
    proof {
        assert(cs@.subrange(0, cs@.len() as int) =~= cs@);
    }
}

/// `distinct_exts`, continuing from extensions already seen.
pub open spec fn distinct_exts_from(seen: Seq<Seq<char>>, ls: Seq<Option<BackendV>>) -> Seq<Seq<char>>
    decreases ls.len(),
{
    if ls.len() == 0 {
        seen
    } else {
        let r = distinct_exts_from(seen, ls.drop_last());
        match ls.last() {
            Some(b) => if r.contains(backend_ext(b)) { r } else { r.push(backend_ext(b)) },
            None => r,
        }
    }
}

proof fn lemma_distinct_exts_from_cat(s: Seq<Seq<char>>, a: Seq<Option<BackendV>>, b: Seq<Option<BackendV>>)
    ensures
        distinct_exts_from(s, a + b) == distinct_exts_from(distinct_exts_from(s, a), b),
    decreases b.len(),
{
    if b.len() == 0 {
        assert(a + b =~= a);
    } else {
        assert((a + b).drop_last() =~= a + b.drop_last());
        lemma_distinct_exts_from_cat(s, a, b.drop_last());
    }
}

proof fn lemma_distinct_exts_empty(ls: Seq<Option<BackendV>>)
    ensures
        distinct_exts_from(Seq::empty(), ls) == distinct_exts(ls),
    decreases ls.len(),
{
    if ls.len() > 0 {
        lemma_distinct_exts_empty(ls.drop_last());
    }
}

fn add_distinct(seen: &mut Vec<String>, x: &String)
    ensures
        name_seq(final(seen)@) == (if name_seq(old(seen)@).contains(x@) { name_seq(old(seen)@) } else { name_seq(old(seen)@).push(x@) }),
{
    let mut i: usize = 0;
    while i < seen.len()
        invariant
            i <= seen@.len(),
            forall|j: int| 0 <= j < i ==> seen@[j]@ != x@,
        decreases seen@.len() - i,
    {
        if str_is(seen[i].as_str(), x.as_str()) {
            proof {
                assert(name_seq(seen@)[i as int] == x@);
            }
            return;
        }
        i = i + 1;
    }
    let ghost before = name_seq(seen@);
    proof {
        if before.contains(x@) {
            let j = choose|j: int| 0 <= j < before.len() && before[j] == x@;
            assert(seen@[j]@ == x@);
        }
    }
    seen.push(x.clone());
    proof {
        assert(name_seq(seen@) =~= before.push(x@));
    }
}

/// The distinct languages of a project's folders, as extensions, in the
/// order first met walking the tree.
pub fn project_langs(root: &LangTree) -> (r: Vec<String>)
    ensures
        name_seq(r@) == distinct_exts(folder_langs(*root, None)),
{
    let mut seen: Vec<String> = Vec::new();
    proof {
        assert(name_seq(seen@) =~= Seq::<Seq<char>>::empty());
    }
    push_langs(root, &None, &mut seen);
    proof {
        lemma_distinct_exts_empty(folder_langs(*root, None));
    }
    seen
}

/// How a project is converted.
pub enum ProjectMode {
    /// Several languages and one given: refused, with the languages.
    Refused(Vec<String>),
    /// Several languages: each language folder on its own.
    Multi,
    /// One language: the whole project to this target.
    Single(Backend),
    /// The language to convert to names no backend.
    UnknownBackend(String),
}

/// The language of a one-language project: the one given, else that of
/// the project's inventory, else Rust.
pub open spec fn resolved_lang(given: Option<Seq<char>>, probe_lang: Option<BackendV>) -> Seq<char> {
    match given {
        Some(g) => g,
        None => match probe_lang {
            Some(b) => backend_ext(b),
            None => "rs"@,
        },
    }
}

pub open spec fn project_mode_ok(langs: Seq<Seq<char>>, given: Option<Seq<char>>, probe_lang: Option<BackendV>, r: ProjectMode) -> bool {
    if langs.len() > 1 {
        if given is Some {
            r matches ProjectMode::Refused(ls) && name_seq(ls@) == langs
        } else {
            r is Multi
        }
    } else {
        match backend_from_ext(resolved_lang(given, probe_lang)) {
            Some(b) => r matches ProjectMode::Single(x) && x@ == b,
            None => r matches ProjectMode::UnknownBackend(s) && s@ == resolved_lang(given, probe_lang),
        }
    }
}

/// How a project is converted, given its distinct languages, the language
/// argument, and the language of its root inventory.
pub fn project_mode(langs: Vec<String>, given: &Option<String>, probe_lang: &Option<Backend>) -> (r: ProjectMode)
    ensures
        project_mode_ok(name_seq(langs@), opt_str(*given), opt_backend(*probe_lang), r),
{
    if langs.len() > 1 {
        if given.is_some() {
            return ProjectMode::Refused(langs);
        }
        return ProjectMode::Multi;
    }
    let lang: String = match given {
        Some(g) => g.clone(),
        None => match probe_lang {
            Some(b) => b.ext(),
            None => String::from_str("rs"),
        },
    };
    match Backend::from_ext(lang.as_str()) {
        Some(b) => ProjectMode::Single(b),
        None => ProjectMode::UnknownBackend(lang),
    }
}

/// The message that refuses a language argument for a project of several
/// languages.
pub open spec fn msg_multi(langs: Seq<Seq<char>>) -> Seq<char> {
    "error: this project uses multiple languages ("@ + joined(langs, ", "@) + ")."@
}

/// The message for a language that names no backend.
pub open spec fn msg_unknown_backend(s: Seq<char>) -> Seq<char> {
    "error: unknown backend '"@ + s + "' \u{2014} use rs py c cpp go java"@
}

/// Where a project's output goes: beside its source folder, named after it
/// with a leading `_`.
pub open spec fn project_out_dir(parent: Seq<char>, source_name: Seq<char>) -> Seq<char> {
    join(parent, "_"@ + source_name)
}

pub fn project_out(parent: &str, source_name: &str) -> (r: String)
    ensures
        r@ == project_out_dir(parent@, source_name@),
{
    let mut n = String::from_str("_");
    push_str(&mut n, source_name);
    join_path(parent, n.as_str())
}

/// The folder and crate a language folder of a mixed project is converted
/// to: `_<folder>` inside the source folder.
pub fn multi_target(source_dir: &str, folder_name: &str) -> (r: (String, String))
    ensures
        r.0@ == join(source_dir@, "_"@ + folder_name@),
        r.1@ == "_"@ + folder_name@,
{
    let mut n = String::from_str("_");
    push_str(&mut n, folder_name);
    let dir = join_path(source_dir, n.as_str());
    (dir, n)
}

/// What to do after a conversion, or why nothing can be said of it.
pub open spec fn next_steps_spec(b: BackendV, out_dir: Seq<char>, crate_name: Seq<char>) -> Result<Seq<char>, Seq<char>> {
    match b {
        BackendV::Rust => Ok("to compile:\n  cd "@ + out_dir + " && cargo build"@),
        BackendV::Python => Ok("to run:\n  cd "@ + out_dir + " && python3 -m "@ + crate_name),
        BackendV::C => Ok("to compile:\n  cd "@ + out_dir + " && make"@),
        BackendV::Cpp => Ok("to compile:\n  cd "@ + out_dir + " && make"@),
        BackendV::Go => Ok("to run:\n  cd "@ + out_dir + " && go run ."@),
        BackendV::Java => Ok("to compile:\n  cd "@ + out_dir + " && javac *.java && java Main"@),
        BackendV::Unknown(kw) => Err("error: unknown backend '"@ + kw + "'"@),
    }
}

pub fn next_steps(b: &Backend, out_dir: &str, crate_name: &str) -> (r: Result<String, String>)
    ensures
        match (r, next_steps_spec(b@, out_dir@, crate_name@)) {
            (Ok(a), Ok(x)) => a@ == x,
            (Err(a), Err(x)) => a@ == x,
            _ => false,
        },
{
    let mut m = String::new();
    match b {
        Backend::Rust => {
            push_str(&mut m, "to compile:\n  cd ");
            push_str(&mut m, out_dir);
            push_str(&mut m, " && cargo build");
            Ok(m)
        },
        Backend::Python => {
            push_str(&mut m, "to run:\n  cd ");
            push_str(&mut m, out_dir);
            push_str(&mut m, " && python3 -m ");
            push_str(&mut m, crate_name);
            Ok(m)
        },
        Backend::C | Backend::Cpp => {
            push_str(&mut m, "to compile:\n  cd ");
            push_str(&mut m, out_dir);
            push_str(&mut m, " && make");
            Ok(m)
        },
        Backend::Go => {
            push_str(&mut m, "to run:\n  cd ");
            push_str(&mut m, out_dir);
            push_str(&mut m, " && go run .");
            Ok(m)
        },
        Backend::Java => {
            push_str(&mut m, "to compile:\n  cd ");
            push_str(&mut m, out_dir);
            push_str(&mut m, " && javac *.java && java Main");
            Ok(m)
        },
        Backend::Unknown(kw) => {
            push_str(&mut m, "error: unknown backend '");
            push_str(&mut m, kw.as_str());
            push_str(&mut m, "'");
            Err(m)
        },
    }
}

// ── Where the output may go ───────────────────────────────────────────────────

/// A path segment as a component: an empty one (from repeated or trailing
/// separators) and `.` stand for nothing.
pub open spec fn seg_counts(seg: Seq<char>) -> bool {
    seg.len() > 0 && seg != seq!['.']
}

/// The segments of `p[i..]` between `/`s, given the segment `cur` read so
/// far and the segments `acc` already cut.
pub open spec fn segs_from(p: Seq<char>, i: int, cur: Seq<char>, acc: Seq<Seq<char>>) -> Seq<Seq<char>>
    decreases p.len() - i,
{
    if i < 0 || i >= p.len() {
        if seg_counts(cur) { acc.push(cur) } else { acc }
    } else if p[i] == '/' {
        segs_from(p, i + 1, Seq::empty(), if seg_counts(cur) { acc.push(cur) } else { acc })
    } else {
        segs_from(p, i + 1, cur.push(p[i]), acc)
    }
}

/// A path's normal components, its root aside.
pub open spec fn path_segs(p: Seq<char>) -> Seq<Seq<char>> {
    segs_from(p, 0, Seq::empty(), Seq::empty())
}

pub open spec fn path_absolute(p: Seq<char>) -> bool {
    p.len() > 0 && p[0] == '/'
}

/// Whether `p` starts with the path `base`, as `Path::starts_with` compares
/// them: component by component, both rooted or both relative.
pub open spec fn path_prefix(base: Seq<char>, p: Seq<char>) -> bool {
    &&& path_absolute(base) == path_absolute(p)
    &&& path_segs(base).len() <= path_segs(p).len()
    &&& path_segs(base) == path_segs(p).subrange(0, path_segs(base).len() as int)
}

fn segments(p: &str) -> (r: Vec<String>)
    ensures
        name_seq(r@) == path_segs(p@),
{
    let v = chars_of(p);
    let mut acc: Vec<String> = Vec::new();
    let mut cur: Vec<char> = Vec::new();
    let mut i: usize = 0;
    proof {
        assert(name_seq(acc@) =~= Seq::<Seq<char>>::empty());
        assert(cur@ =~= Seq::<char>::empty());
    }
    while i < v.len()
        invariant
            i <= v@.len(),
            v@ == p@,
            path_segs(p@) == segs_from(p@, i as int, cur@, name_seq(acc@)),
        decreases v@.len() - i,
    {
        let c = v[i];
        if c == '/' {
            let keep = cur.len() > 0 && !(cur.len() == 1 && cur[0] == '.');
            proof {
                assert(keep == seg_counts(cur@)) by {
                    if cur@.len() == 1 && cur@[0] == '.' {
                        assert(cur@ =~= seq!['.']);
                    }
                    if cur@ == seq!['.'] {
                        assert(cur@.len() == 1 && cur@[0] == '.');
                    }
                }
            }
            if keep {
                let ghost before = name_seq(acc@);
                acc.push(string_of(cur.as_slice(), 0, cur.len()));
                proof {
                    assert(cur@.subrange(0, cur@.len() as int) =~= cur@);
                    assert(name_seq(acc@) =~= before.push(cur@));
                }
            }
            cur = Vec::new();
            proof {
                assert(cur@ =~= Seq::<char>::empty());
            }
        } else {
            cur.push(c);
        }
        i = i + 1;
    }
    let keep = cur.len() > 0 && !(cur.len() == 1 && cur[0] == '.');
    proof {
        assert(keep == seg_counts(cur@)) by {
            if cur@.len() == 1 && cur@[0] == '.' {
                assert(cur@ =~= seq!['.']);
            }
            if cur@ == seq!['.'] {
                assert(cur@.len() == 1 && cur@[0] == '.');
            }
        }
    }
    if keep {
        let ghost before = name_seq(acc@);
        acc.push(string_of(cur.as_slice(), 0, cur.len()));
        proof {
            assert(cur@.subrange(0, cur@.len() as int) =~= cur@);
            assert(name_seq(acc@) =~= before.push(cur@));
        }
    }
    acc
}

fn starts_with_path(base: &str, p: &str) -> (r: bool)
    ensures
        r == path_prefix(base@, p@),
{
    let bv = chars_of(base);
    let pv = chars_of(p);
    let ba = bv.len() > 0 && bv[0] == '/';
    let pa = pv.len() > 0 && pv[0] == '/';
    if ba != pa {
        return false;
    }
    let bs = segments(base);
    let ps = segments(p);
    proof {
        assert(name_seq(bs@).len() == bs@.len());
        assert(name_seq(ps@).len() == ps@.len());
    }
    if bs.len() > ps.len() {
        return false;
    }
    let ghost b = path_segs(base@);
    let ghost q = path_segs(p@);
    proof {
        assert(name_seq(bs@).len() == bs@.len());
        assert(name_seq(ps@).len() == ps@.len());
    }
    let mut i: usize = 0;
    while i < bs.len()
        invariant
            i <= bs@.len() <= ps@.len(),
            name_seq(bs@) == b,
            name_seq(ps@) == q,
            b.len() == bs@.len(),
            q.len() == ps@.len(),
            b == path_segs(base@),
            q == path_segs(p@),
            forall|k: int| 0 <= k < i ==> b[k] == q[k],
        decreases bs@.len() - i,
    {
        if !str_is(bs[i].as_str(), ps[i].as_str()) {
            proof {
                assert(b[i as int] == bs@[i as int]@);
                assert(q[i as int] == ps@[i as int]@);
                assert(b[i as int] != q.subrange(0, b.len() as int)[i as int]);
                assert(b != q.subrange(0, b.len() as int));
                assert(!path_prefix(base@, p@));
            }
            return false;
        }
        proof {
            assert(b[i as int] == bs@[i as int]@);
            assert(q[i as int] == ps@[i as int]@);
        }
        i = i + 1;
    }
    proof {
        assert(b =~= q.subrange(0, b.len() as int));
    }
    true
}

/// Whether the output folder and the source tree overlap: either lies
/// inside the other, so the output cannot be written outside the source.
pub fn output_clash(out_dir: &str, root: &str) -> (r: bool)
    ensures
        r == (path_prefix(root@, out_dir@) || path_prefix(out_dir@, root@)),
{
    starts_with_path(root, out_dir) || starts_with_path(out_dir, root)
}

// ── The passes of a conversion and of a check ────────────────────────────────

/// The passes that `convert` and `check` run over a project, in order.
pub enum Pass {
    /// Structural validation.
    Validate,
    /// Whether the escape blocks suit the target backend.
    Compatibility,
    /// Type checking.
    Types,
    /// Whether the files are in canonical format.
    Format,
    /// Writing the output.
    Build,
}

/// What follows a pass that succeeded: a conversion validates, checks the
/// backend's escape blocks, type checks and then builds.
pub open spec fn convert_after(p: Pass) -> Option<Pass> {
    match p {
        Pass::Validate => Some(Pass::Compatibility),
        Pass::Compatibility => Some(Pass::Types),
        Pass::Types => Some(Pass::Build),
        _ => None,
    }
}

/// What follows a pass that succeeded: a check validates, type checks and
/// then checks the format.
pub open spec fn check_after(p: Pass) -> Option<Pass> {
    match p {
        Pass::Validate => Some(Pass::Types),
        Pass::Types => Some(Pass::Format),
        _ => None,
    }
}

/// The pass a conversion runs next; a pass that failed stops it.
pub fn convert_next(p: &Pass, failed: bool) -> (r: Option<Pass>)
    ensures
        r == (if failed { None } else { convert_after(*p) }),
{
    if failed {
        return None;
    }
    match p {
        Pass::Validate => Some(Pass::Compatibility),
        Pass::Compatibility => Some(Pass::Types),
        Pass::Types => Some(Pass::Build),
        _ => None,
    }
}

/// The pass a check runs next; a pass that failed stops it.
pub fn check_next(p: &Pass, failed: bool) -> (r: Option<Pass>)
    ensures
        r == (if failed { None } else { check_after(*p) }),
{
    if failed {
        return None;
    }
    match p {
        Pass::Validate => Some(Pass::Types),
        Pass::Types => Some(Pass::Format),
        _ => None,
    }
}

} // verus!
