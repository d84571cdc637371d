//! Project-wide decisions: where a project's root is, which formatter a
//! generated file goes through, which `.bu` files are not in canonical form,
//! and the folders and inventories that `init` lays out.
use vstd::prelude::*;
use crate::ast::{Rank, rank_name, rank_child};
use crate::add::{opt_str, strip_all_suffix, after_last_slash};
use crate::text::{chars_of, string_of, lemma_first_at, find_char_in, str_is};
use crate::validator::{join, join_path, name_seq};

verus! {

// ── The root ──────────────────────────────────────────────────────────────────

/// How many of the flags, from the first on, are set.
pub open spec fn leading_set(flags: Seq<bool>) -> nat
    decreases flags.len(),
{
    if flags.len() == 0 || !flags[0] {
        0
    } else {
        1 + leading_set(flags.drop_first())
    }
}

/// The root of the project that `ancestors[0]` lies in: the highest folder
/// reached by going up from it through folders that hold `inventory.bu`.
/// `ancestors` is the start folder and then each parent in turn;
/// `has_inventory[i]` says whether `ancestors[i]` holds `inventory.bu`. A
/// start folder without one is its own answer.
pub open spec fn probe_root(ancestors: Seq<Seq<char>>, has_inventory: Seq<bool>) -> Seq<char> {
    let n = leading_set(has_inventory);
    if n == 0 { ancestors[0] } else { ancestors[n - 1] }
}

pub proof fn lemma_leading_set(flags: Seq<bool>)
    ensures
        leading_set(flags) <= flags.len(),
        forall|i: int| 0 <= i < leading_set(flags) ==> flags[i],
        leading_set(flags) < flags.len() ==> !flags[leading_set(flags) as int],
    decreases flags.len(),
{
    if flags.len() > 0 && flags[0] {
        lemma_leading_set(flags.drop_first());
        assert forall|i: int| 0 <= i < leading_set(flags) implies flags[i] by {
            if i > 0 {
                assert(flags[i] == flags.drop_first()[i - 1]);
            }
        }
    }
}

/// Probing again from the root that a probe found finds that root again:
/// the root's own ancestors are the tail of the start folder's, from it on.
pub proof fn law_probe_idempotent(ancestors: Seq<Seq<char>>, has_inventory: Seq<bool>)
    requires
        ancestors.len() > 0,
        ancestors.len() == has_inventory.len(),
    ensures
        ({
            let n = leading_set(has_inventory);
            let k: int = if n == 0 { 0 } else { n - 1 };
            probe_root(ancestors.subrange(k, ancestors.len() as int), has_inventory.subrange(k, has_inventory.len() as int))
                == probe_root(ancestors, has_inventory)
        }),
{
    let n = leading_set(has_inventory);
    lemma_leading_set(has_inventory);
    if n == 0 {
        assert(ancestors.subrange(0, ancestors.len() as int) =~= ancestors);
        assert(has_inventory.subrange(0, has_inventory.len() as int) =~= has_inventory);
    } else {
        let k = n - 1;
        let f = has_inventory.subrange(k, has_inventory.len() as int);
        assert(f[0] == has_inventory[k]);
        assert(f.drop_first() =~= has_inventory.subrange(n as int, has_inventory.len() as int));
        if n < has_inventory.len() {
            assert(f.drop_first()[0] == has_inventory[n as int]);
        }
        assert(leading_set(f.drop_first()) == 0);
        assert(leading_set(f) == 1);
        assert(ancestors.subrange(k, ancestors.len() as int)[0] == ancestors[k]);
    }
}

pub fn find_root_from_probe(ancestors: &Vec<String>, has_inventory: &Vec<bool>) -> (r: String)
    requires
        ancestors@.len() > 0,
        ancestors@.len() == has_inventory@.len(),
    ensures
        r@ == probe_root(name_seq(ancestors@), has_inventory@),
{
    proof {
        lemma_leading_set(has_inventory@);
    }
    let mut n: usize = 0;
    while n < has_inventory.len() && has_inventory[n]
        invariant
            n <= has_inventory@.len(),
            forall|i: int| 0 <= i < n ==> has_inventory@[i],
            n <= leading_set(has_inventory@),
        decreases has_inventory@.len() - n,
    {
        proof {
            lemma_leading_set(has_inventory@);
        }
        n = n + 1;
    }
    proof {
        assert(n == leading_set(has_inventory@));
    }
    if n == 0 {
        ancestors[0].clone()
    } else {
        ancestors[n - 1].clone()
    }
}

// ── Formatters ────────────────────────────────────────────────────────────────

/// The file name: what follows the last `/`, trailing `/`s aside.
pub open spec fn file_name_of(p: Seq<char>) -> Seq<char> {
    after_last_slash(strip_all_suffix(p, "/"@))
}

/// A file's extension: what follows the last `.` of its name, where that
/// `.` is not the name's first character; `..` and an empty name have none.
pub open spec fn path_ext(p: Seq<char>) -> Option<Seq<char>> {
    let n = file_name_of(p);
    if n.len() == 0 || n == ".."@ {
        None
    } else {
        match last_dot(n) {
            Some(i) => if i > 0 { Some(n.subrange(i + 1, n.len() as int)) } else { None },
            None => None,
        }
    }
}

/// Index of the last `.`.
pub open spec fn last_dot(s: Seq<char>) -> Option<int>
    decreases s.len(),
{
    if s.len() == 0 {
        None
    } else if s.last() == '.' {
        Some(s.len() - 1)
    } else {
        last_dot(s.drop_last())
    }
}

/// A program to run and its arguments.
pub struct Formatter {
    pub program: String,
    pub args: Vec<String>,
}

pub open spec fn formatter_cmd(ext: Seq<char>) -> Option<Seq<Seq<char>>> {
    if ext == "rs"@ {
        Some(seq!["rustfmt"@, "--edition"@, "2024"@])
    } else if ext == "py"@ {
        Some(seq!["black"@, "-q"@, "-"@])
    } else if ext == "go"@ {
        Some(seq!["gofmt"@])
    } else if ext == "c"@ || ext == "cpp"@ || ext == "h"@ || ext == "hpp"@ {
        Some(seq!["clang-format"@, "--style=LLVM"@])
    } else if ext == "java"@ {
        Some(seq!["google-java-format"@, "-"@])
    } else {
        None
    }
}

/// The formatter that a generated file of this path goes through, by its
/// extension: program first, then its arguments.
pub open spec fn formatter_of(path: Seq<char>) -> Option<Seq<Seq<char>>> {
    match path_ext(path) {
        Some(e) => formatter_cmd(e),
        None => None,
    }
}

pub open spec fn cmd_view(f: Formatter) -> Seq<Seq<char>> {
    seq![f.program@] + name_seq(f.args@)
}

pub(crate) fn file_name_bounds(v: &Vec<char>) -> (r: (usize, usize))
    ensures
        r.0 <= r.1 <= v@.len(),
        v@.subrange(r.0 as int, r.1 as int) == file_name_of(v@),
{
    let mut end = v.len();
    proof {
        assert(v@.subrange(0, v@.len() as int) =~= v@);
    }
    while end > 0 && v[end - 1] == '/'
        invariant
            end <= v@.len(),
            strip_all_suffix(v@, "/"@) == strip_all_suffix(v@.subrange(0, end as int), "/"@),
        decreases end,
    {
        proof {
            reveal_strlit("/");
            let cur = v@.subrange(0, end as int);
            assert(cur.subrange(cur.len() - 1, cur.len() as int) =~= "/"@);
            assert(cur.subrange(0, cur.len() - 1) =~= v@.subrange(0, end - 1));
        }
        end = end - 1;
    }
    proof {
        reveal_strlit("/");
        let cur = v@.subrange(0, end as int);
        if end > 0 {
            assert(cur.subrange(cur.len() - 1, cur.len() as int)[0] == v@[end - 1]);
            assert(!(cur.subrange(cur.len() - 1, cur.len() as int) =~= "/"@));
        }
        assert(strip_all_suffix(cur, "/"@) == cur);
    }
    let mut start: usize = 0;
    proof {
        assert(v@.subrange(0, end as int).subrange(0, end as int) =~= v@.subrange(0, end as int));
    }
    loop
        invariant
            start <= end <= v@.len(),
            file_name_of(v@) == after_last_slash(v@.subrange(start as int, end as int)),
        decreases end - start,
    {
        let ghost cur = v@.subrange(start as int, end as int);
        proof {
            lemma_first_at(cur, '/');
        }
        match find_char_in(v.as_slice(), '/', start, end) {
            Some(i) => {
                proof {
                    assert(cur.subrange((i - start) + 1, cur.len() as int) =~= v@.subrange(i + 1, end as int));
                }
                start = i + 1;
            },
            None => {
                return (start, end);
            },
        }
    }
}

/// The extension of a path, if it has one.
pub fn extension(path: &str) -> (r: Option<String>)
    ensures
        opt_str(r) == path_ext(path@),
{
    let v = chars_of(path);
    let (a, b) = file_name_bounds(&v);
    let ghost n = v@.subrange(a as int, b as int);
    if a == b || (b - a == 2 && v[a] == '.' && v[a + 1] == '.') {
        proof {
            if b - a == 2 {
                reveal_strlit("..");
                assert(n =~= ".."@);
            }
        }
        return None;
    }
    proof {
        reveal_strlit("..");
        if n.len() == 2 {
            assert(n[0] == v@[a as int] && n[1] == v@[a + 1]);
            assert(n != ".."@);
        }
    }
    let mut k = b;
    proof {
        assert(v@.subrange(a as int, k as int) =~= n);
    }
    while k > a && v[k - 1] != '.'
        invariant
            a <= k <= b <= v@.len(),
            n == v@.subrange(a as int, b as int),
            last_dot(n) == last_dot(v@.subrange(a as int, k as int)),
        decreases k - a,
    {
        proof {
            assert(v@.subrange(a as int, k as int).drop_last() =~= v@.subrange(a as int, k - 1));
        }
        k = k - 1;
    }
    if k == a {
        proof {
            assert(v@.subrange(a as int, k as int).len() == 0);
        }
        return None;
    }
    proof {
        assert(v@.subrange(a as int, k as int).last() == v@[k - 1]);
        assert(last_dot(n) == Some((k - 1 - a) as int));
    }
    if k - 1 == a {
        return None;
    }
    proof {
        assert(n.subrange((k - a) as int, n.len() as int) =~= v@.subrange(k as int, b as int));
    }
    Some(string_of(v.as_slice(), k, b))
}

fn strings(items: &[&str]) -> (r: Vec<String>)
    ensures
        r@.len() == items@.len(),
        forall|i: int| 0 <= i < items@.len() ==> (#[trigger] r@[i])@ == items@[i]@,
{
    let mut r: Vec<String> = Vec::new();
    let mut i: usize = 0;
    while i < items.len()
        invariant
            i <= items@.len(),
            r@.len() == i,
            forall|j: int| 0 <= j < i ==> (#[trigger] r@[j])@ == items@[j]@,
        decreases items@.len() - i,
    {
        r.push(String::from_str(items[i]));
        i = i + 1;
    }
    r
}

/// The formatter for a generated file, by its extension.
pub fn formatter_for(path: &str) -> (r: Option<Formatter>)
    ensures
        match r {
            Some(f) => formatter_of(path@) == Some(cmd_view(f)),
            None => formatter_of(path@) is None,
        },
{
    let e = match extension(path) {
        Some(e) => e,
        None => { return None; },
    };
    let ext = e.as_str();
    let items: &[&str];
    if str_is(ext, "rs") {
        let a: [&str; 2] = ["--edition", "2024"];
        let f = Formatter { program: String::from_str("rustfmt"), args: strings(&a) };
        proof { assert(cmd_view(f) =~= seq!["rustfmt"@, "--edition"@, "2024"@]); }
        Some(f)
    } else if str_is(ext, "py") {
        let a: [&str; 2] = ["-q", "-"];
        let f = Formatter { program: String::from_str("black"), args: strings(&a) };
        proof { assert(cmd_view(f) =~= seq!["black"@, "-q"@, "-"@]); }
        Some(f)
    } else if str_is(ext, "go") {
        let a: [&str; 0] = [];
        let f = Formatter { program: String::from_str("gofmt"), args: strings(&a) };
        proof { assert(cmd_view(f) =~= seq!["gofmt"@]); }
        Some(f)
    } else if str_is(ext, "c") || str_is(ext, "cpp") || str_is(ext, "h") || str_is(ext, "hpp") {
        let a: [&str; 1] = ["--style=LLVM"];
        let f = Formatter { program: String::from_str("clang-format"), args: strings(&a) };
        proof { assert(cmd_view(f) =~= seq!["clang-format"@, "--style=LLVM"@]); }
        Some(f)
    } else if str_is(ext, "java") {
        let a: [&str; 1] = ["-"];
        let f = Formatter { program: String::from_str("google-java-format"), args: strings(&a) };
        proof { assert(cmd_view(f) =~= seq!["google-java-format"@, "-"@]); }
        Some(f)
    } else {
        None
    }
}

/// What running a formatter on a file's text gave.
pub enum FormatRun {
    /// The program could not be started.
    NotFound,
    /// Handing it the text or waiting for it failed.
    Broken,
    /// It finished; whether it reported success, whether it printed
    /// anything, and what it printed when that is UTF-8.
    Finished { success: bool, printed: bool, text: Option<String> },
}

/// The formatted text, if any, and the warning to show, if any.
pub struct FormatOutcome {
    pub text: Option<String>,
    pub warning: Option<String>,
}

pub open spec fn warn_not_found(prog: Seq<char>) -> Seq<char> {
    "warning: `"@ + prog + "` not found \u{2014} generated output will be unformatted (install it for readable output)"@
}

pub open spec fn warn_failed(prog: Seq<char>) -> Seq<char> {
    "warning: `"@ + prog + "` failed to format generated output \u{2014} leaving it unformatted"@
}

/// What formatting a generated file comes to: the formatter's output when it
/// succeeded and printed something; otherwise the text stays unformatted, with
/// a warning unless handing the text over broke down. A file with no
/// formatter for its extension is left as it is, silently.
pub open spec fn format_outcome(path: Seq<char>, run: FormatRun) -> (Option<Seq<char>>, Option<Seq<char>>) {
    match formatter_of(path) {
        None => (None, None),
        Some(cmd) => match run {
            FormatRun::NotFound => (None, Some(warn_not_found(cmd[0]))),
            FormatRun::Broken => (None, None),
            FormatRun::Finished { success, printed, text } => if success && printed {
                (opt_str(text), None)
            } else {
                (None, Some(warn_failed(cmd[0])))
            },
        },
    }
}

pub fn format_source(path: &str, run: FormatRun) -> (r: FormatOutcome)
    ensures
        (opt_str(r.text), opt_str(r.warning)) == format_outcome(path@, run),
{
    let f = match formatter_for(path) {
        Some(f) => f,
        None => { return FormatOutcome { text: None, warning: None }; },
    };
    match run {
        FormatRun::NotFound => {
            let mut w = String::from_str("warning: `");
            w.append(f.program.as_str());
            w.append("` not found \u{2014} generated output will be unformatted (install it for readable output)");
            FormatOutcome { text: None, warning: Some(w) }
        },
        FormatRun::Broken => FormatOutcome { text: None, warning: None },
        FormatRun::Finished { success, printed, text } => {
            if success && printed {
                FormatOutcome { text, warning: None }
            } else {
                let mut w = String::from_str("warning: `");
                w.append(f.program.as_str());
                w.append("` failed to format generated output \u{2014} leaving it unformatted");
                FormatOutcome { text: None, warning: Some(w) }
            }
        },
    }
}

// ── Canonical form ────────────────────────────────────────────────────────────

/// A `.bu` file as read from disk.
pub struct FmtDoc {
    pub path: String,
    /// Its text, or why it could not be read.
    pub source: Result<String, String>,
    /// Its canonical form when it parses, or the parse error.
    pub formatted: Result<String, String>,
}

/// A folder of a project: its inventory, its source files (sorted), its
/// `main.bu`, and its sub-folders (sorted).
pub struct FmtTree {
    pub inventory: Option<FmtDoc>,
    pub files: Vec<FmtDoc>,
    pub main: Option<FmtDoc>,
    pub subdirs: Vec<FmtTree>,
}

/// Whether a file reads and parses, and its canonical form differs from it.
pub open spec fn off_canon(d: FmtDoc) -> bool {
    match (d.source, d.formatted) {
        (Ok(s), Ok(f)) => f@ != s@,
        _ => false,
    }
}

pub open spec fn doc_hits(d: FmtDoc) -> Seq<Seq<char>> {
    if off_canon(d) { seq![d.path@] } else { Seq::empty() }
}

pub open spec fn opt_doc_hits(d: Option<FmtDoc>) -> Seq<Seq<char>> {
    match d {
        Some(x) => doc_hits(x),
        None => Seq::empty(),
    }
}

pub open spec fn docs_hits(ds: Seq<FmtDoc>) -> Seq<Seq<char>>
    decreases ds.len(),
{
    if ds.len() == 0 { Seq::empty() } else { docs_hits(ds.drop_last()) + doc_hits(ds.last()) }
}

/// The files of a tree that are not in canonical form, in the order the
/// walk meets them: a folder's inventory, its source files, its `main.bu`,
/// then each sub-folder.
pub open spec fn tree_hits(t: FmtTree) -> Seq<Seq<char>>
    decreases t,
{
    opt_doc_hits(t.inventory) + docs_hits(t.files@) + opt_doc_hits(t.main) + trees_hits(t.subdirs@)
}

pub open spec fn trees_hits(ts: Seq<FmtTree>) -> Seq<Seq<char>>
    decreases ts,
{
    if ts.len() == 0 { Seq::empty() } else { trees_hits(ts.drop_last()) + tree_hits(ts.last()) }
}

fn check_doc(d: &FmtDoc, out: &mut Vec<String>)
    ensures
        name_seq(final(out)@) == name_seq(old(out)@) + doc_hits(*d),
{
    let ghost before = out@;
    if let Ok(s) = &d.source {
        if let Ok(f) = &d.formatted {
            if *f != *s {
                out.push(d.path.clone());
                proof {
                    assert(name_seq(out@) =~= name_seq(before) + seq![d.path@]);
                }
                return;
            }
        }
    }
    proof {
        assert(name_seq(out@) =~= name_seq(before) + Seq::<Seq<char>>::empty());
    }
}

fn check_opt_doc(d: &Option<FmtDoc>, out: &mut Vec<String>)
    ensures
        name_seq(final(out)@) == name_seq(old(out)@) + opt_doc_hits(*d),
{
    match d {
        Some(x) => check_doc(x, out),
        None => {
            proof {
                assert(name_seq(out@) =~= name_seq(out@) + Seq::<Seq<char>>::empty());
            }
        },
    }
}

fn check_tree(t: &FmtTree, out: &mut Vec<String>)
    ensures
        name_seq(final(out)@) == name_seq(old(out)@) + tree_hits(*t),
    decreases t,
{
    let ghost o0 = name_seq(out@);
    check_opt_doc(&t.inventory, out);
    let ghost o1 = name_seq(out@);
    let mut i: usize = 0;
    proof {
        assert(t.files@.subrange(0, 0) =~= Seq::<FmtDoc>::empty());
        assert(o1 + Seq::<Seq<char>>::empty() =~= o1);
    }
    while i < t.files.len()
        invariant
            i <= t.files@.len(),
            name_seq(out@) == o1 + docs_hits(t.files@.subrange(0, i as int)),
        decreases t.files@.len() - i,
    {
        proof {
            assert(t.files@.subrange(0, i + 1).drop_last() =~= t.files@.subrange(0, i as int));
            assert(t.files@.subrange(0, i + 1).last() == t.files@[i as int]);
        }
        check_doc(&t.files[i], out);
        proof {
            let a = docs_hits(t.files@.subrange(0, i as int));
            assert(o1 + a + doc_hits(t.files@[i as int]) =~= o1 + (a + doc_hits(t.files@[i as int])));
        }
        i = i + 1;
    }
    proof {
        assert(t.files@.subrange(0, t.files@.len() as int) =~= t.files@);
    }
    check_opt_doc(&t.main, out);
    check_trees(&t.subdirs, out);
    proof {
        assert(name_seq(out@) =~= o0 + tree_hits(*t));
    }
}

fn check_trees(ts: &Vec<FmtTree>, out: &mut Vec<String>)
    ensures
        name_seq(final(out)@) == name_seq(old(out)@) + trees_hits(ts@),
    decreases ts,
{
    let ghost o0 = name_seq(out@);
    let mut i: usize = 0;
    proof {
        assert(ts@.subrange(0, 0) =~= Seq::<FmtTree>::empty());
        assert(o0 + Seq::<Seq<char>>::empty() =~= o0);
    }
    while i < ts.len()
        invariant
            i <= ts@.len(),
            name_seq(out@) == o0 + trees_hits(ts@.subrange(0, i as int)),
        decreases ts@.len() - i,
    {
        proof {
            assert(ts@.subrange(0, i + 1).drop_last() =~= ts@.subrange(0, i as int));
            assert(ts@.subrange(0, i + 1).last() == ts@[i as int]);
        }
        check_tree(&ts[i], out);
        proof {
            let a = trees_hits(ts@.subrange(0, i as int));
            assert(o0 + a + tree_hits(ts@[i as int]) =~= o0 + (a + tree_hits(ts@[i as int])));
        }
        i = i + 1;
    }
    proof {
        assert(ts@.subrange(0, ts@.len() as int) =~= ts@);
    }
}

/// The paths of all `.bu` files of a project that are not in canonical
/// form; nothing is written.
pub fn check_formatting(root: &FmtTree) -> (r: Vec<String>)
    ensures
        name_seq(r@) == tree_hits(*root),
{
    let mut out: Vec<String> = Vec::new();
    proof {
        assert(name_seq(out@) =~= Seq::<Seq<char>>::empty());
        assert(Seq::<Seq<char>>::empty() + tree_hits(*root) =~= tree_hits(*root));
    }
    check_tree(root, &mut out);
    out
}

// ── Scaffolding ───────────────────────────────────────────────────────────────

/// The rank of a project's root for a depth from 1 to 6.
pub open spec fn depth_rank(depth: u8) -> Option<Rank> {
    if depth == 1 {
        Some(Rank::Skirmish)
    } else if depth == 2 {
        Some(Rank::Tactic)
    } else if depth == 3 {
        Some(Rank::Strategy)
    } else if depth == 4 {
        Some(Rank::Battle)
    } else if depth == 5 {
        Some(Rank::Theater)
    } else if depth == 6 {
        Some(Rank::War)
    } else {
        None
    }
}

pub fn rank_for_depth(depth: u8) -> (r: Option<Rank>)
    ensures
        r == depth_rank(depth),
{
    match depth {
        1 => Some(Rank::Skirmish),
        2 => Some(Rank::Tactic),
        3 => Some(Rank::Strategy),
        4 => Some(Rank::Battle),
        5 => Some(Rank::Theater),
        6 => Some(Rank::War),
        _ => None,
    }
}

pub open spec fn all_ranks() -> Seq<Rank> {
    seq![Rank::War, Rank::Theater, Rank::Battle, Rank::Strategy, Rank::Tactic, Rank::Skirmish]
}

/// The ranks from the root down to skirmish for a depth: the last `depth`
/// of war, theater, battle, strategy, tactic, skirmish (all six beyond 6).
pub open spec fn chain(depth: u8) -> Seq<Rank> {
    let start: int = if depth >= 6 { 0 } else { 6 - depth };
    all_ranks().subrange(start, 6)
}

/// A project of depth N (1 to 6) has N levels: the first has the rank the
/// depth names, the last is a skirmish, and each level's rank is the child
/// rank of the one above it.
pub proof fn law_depth_chain(depth: u8)
    requires
        1 <= depth <= 6,
    ensures
        chain(depth).len() == depth,
        depth_rank(depth) == Some(chain(depth)[0]),
        chain(depth).last() == Rank::Skirmish,
        forall|i: int| 0 <= i < depth - 1 ==> rank_child(#[trigger] chain(depth)[i]) == Some(chain(depth)[i + 1]),
{
    let c = chain(depth);
    let all = all_ranks();
    assert(c =~= all.subrange(6 - depth, 6));
    assert forall|i: int| 0 <= i < depth - 1 implies rank_child(#[trigger] c[i]) == Some(c[i + 1]) by {
        assert(c[i] == all[6 - depth + i]);
        assert(c[i + 1] == all[6 - depth + i + 1]);
    }
}

pub fn rank_chain(depth: u8) -> (r: Vec<Rank>)
    ensures
        r@ == chain(depth),
{
    let all: [Rank; 6] = [Rank::War, Rank::Theater, Rank::Battle, Rank::Strategy, Rank::Tactic, Rank::Skirmish];
    let start: usize = if depth >= 6 { 0 } else { 6 - depth as usize };
    let mut r: Vec<Rank> = Vec::new();
    let mut i = start;
    proof {
        assert(all@ =~= all_ranks());
    }
    while i < 6
        invariant
            start <= i <= 6,
            all@ == all_ranks(),
            r@ == all_ranks().subrange(start as int, i as int),
        decreases 6 - i,
    {
        r.push(all[i]);
        proof {
            assert(r@ =~= all_ranks().subrange(start as int, i + 1));
        }
        i = i + 1;
    }
    r
}

/// One folder that `init` creates, with its inventory.
pub struct InitLevel {
    pub dir: String,
    pub inventory: String,
    pub content: String,
}

/// Where `init` put a project, and the files it created, in order.
pub struct InitResult {
    pub root: String,
    pub files_created: Vec<String>,
}

/// The folders to create, from the root down, and the result they make.
pub struct InitPlan {
    pub levels: Vec<InitLevel>,
    pub result: InitResult,
}

/// The folder of the `k`-th level: the root, then `<rank>_<name>` under
/// the level above.
pub open spec fn level_dir(root: Seq<char>, ranks: Seq<Rank>, name: Seq<char>, k: nat) -> Seq<char>
    decreases k,
{
    if k == 0 {
        root
    } else {
        join(level_dir(root, ranks, name, (k - 1) as nat), rank_name(ranks[k as int]) + "_"@ + name)
    }
}

pub open spec fn lib_lines(libs: Seq<Seq<char>>) -> Seq<char>
    decreases libs.len(),
{
    if libs.len() == 0 { Seq::empty() } else { lib_lines(libs.drop_last()) + "#lib: "@ + libs.last() + ";\n"@ }
}

/// The inventory of a level: its rank; at the root also the language and
/// the libraries, each after a blank line.
pub open spec fn level_content(rank: Rank, is_root: bool, lang: Option<Seq<char>>, libs: Seq<Seq<char>>) -> Seq<char> {
    "#rank: "@ + rank_name(rank) + ";\n"@ + if is_root {
        (match lang {
            Some(l) => "\n#lang: "@ + l + ";\n"@,
            None => Seq::empty(),
        }) + if libs.len() > 0 { "\n"@ + lib_lines(libs) } else { Seq::empty() }
    } else {
        Seq::empty()
    }
}

pub open spec fn msg_exists(root: Seq<char>) -> Seq<char> {
    "'"@ + root + "' already exists. Choose a different name or remove the existing folder."@
}

/// Whether a plan lays out the project `name` under `parent`, `depth`
/// levels deep, as `init` does.
pub open spec fn plans(p: InitPlan, parent: Seq<char>, name: Seq<char>, depth: u8, lang: Option<Seq<char>>, libs: Seq<Seq<char>>) -> bool {
    let root = join(parent, name);
    let ranks = chain(depth);
    &&& p.result.root@ == root
    &&& p.levels@.len() == ranks.len()
    &&& p.result.files_created@.len() == ranks.len()
    &&& forall|k: int| 0 <= k < ranks.len() ==> {
        &&& (#[trigger] p.levels@[k]).dir@ == level_dir(root, ranks, name, k as nat)
        &&& p.levels@[k].inventory@ == join(level_dir(root, ranks, name, k as nat), "inventory.bu"@)
        &&& p.levels@[k].content@ == level_content(ranks[k], k == 0, lang, libs)
        &&& p.result.files_created@[k]@ == p.levels@[k].inventory@
    }
}

/// Lays out a new project `name` under `parent`: one folder per rank from
/// the root down to skirmish, each with its inventory. Refused when the
/// root already exists.
pub fn init(
    parent: &str,
    name: &str,
    depth: u8,
    lang: Option<&str>,
    libs: &Vec<String>,
    root_exists: bool,
) -> (r: Result<InitPlan, String>)
    requires
        root_exists || depth >= 1,
    ensures
        root_exists ==> (r matches Err(e) && e@ == msg_exists(join(parent@, name@))),
        !root_exists ==> (r matches Ok(p) && plans(p, parent@, name@, depth, match lang {
            Some(l) => Some(l@),
            None => None,
        }, name_seq(libs@))),
{
    let root = join_path(parent, name);
    if root_exists {
        let mut m = String::from_str("'");
        m.append(root.as_str());
        m.append("' already exists. Choose a different name or remove the existing folder.");
        return Err(m);
    }
    let ghost lv: Option<Seq<char>> = match lang {
        Some(l) => Some(l@),
        None => None,
    };
    let ranks = rank_chain(depth);
    let mut levels: Vec<InitLevel> = Vec::new();
    let mut files: Vec<String> = Vec::new();
    let mut dir = root.clone();
    let mut k: usize = 0;
    while k < ranks.len()
        invariant
            ranks@ == chain(depth),
            ranks@.len() <= 6,
            k <= ranks@.len(),
            levels@.len() == k,
            files@.len() == k,
            k < ranks@.len() ==> dir@ == level_dir(root@, ranks@, name@, k as nat),
            root@ == join(parent@, name@),
            lv == match lang {
                Some(l) => Some(l@),
                None => None::<Seq<char>>,
            },
            forall|j: int| 0 <= j < k ==> {
                &&& (#[trigger] levels@[j]).dir@ == level_dir(root@, ranks@, name@, j as nat)
                &&& levels@[j].inventory@ == join(level_dir(root@, ranks@, name@, j as nat), "inventory.bu"@)
                &&& levels@[j].content@ == level_content(ranks@[j], j == 0, lv, name_seq(libs@))
                &&& files@[j]@ == levels@[j].inventory@
            },
        decreases ranks@.len() - k,
    {
        let rank = ranks[k];
        let mut content = String::from_str("#rank: ");
        let rn = rank.name();
        content.append(rn.as_str());
        content.append(";\n");
        if k == 0 {
            let ghost c0 = content@;
            let ghost lang_part: Seq<char> = match lv {
                Some(l) => "\n#lang: "@ + l + ";\n"@,
                None => Seq::<char>::empty(),
            };
            match lang {
                Some(l) => {
                    content.append("\n#lang: ");
                    content.append(l);
                    content.append(";\n");
                    proof {
                        assert(content@ =~= c0 + ("\n#lang: "@ + l@ + ";\n"@));
                    }
                },
                None => {
                    proof {
                        assert(content@ =~= c0 + Seq::<char>::empty());
                    }
                },
            }
            let ghost c1 = content@;
            proof {
                assert(c0 == "#rank: "@ + rank_name(rank) + ";\n"@);
                assert(c1 == c0 + lang_part);
            }
            if libs.len() > 0 {
                content.append("\n");
                let mut j: usize = 0;
                let ghost c2 = content@;
                proof {
                    assert(name_seq(libs@).subrange(0, 0) =~= Seq::<Seq<char>>::empty());
                    assert(c2 + lib_lines(Seq::<Seq<char>>::empty()) =~= c2);
                }
                while j < libs.len()
                    invariant
                        j <= libs@.len(),
                        content@ == c2 + lib_lines(name_seq(libs@).subrange(0, j as int)),
                    decreases libs@.len() - j,
                {
                    content.append("#lib: ");
                    content.append(libs[j].as_str());
                    content.append(";\n");
                    proof {
                        assert(name_seq(libs@).subrange(0, j + 1).drop_last() =~= name_seq(libs@).subrange(0, j as int));
                        assert(name_seq(libs@).subrange(0, j + 1).last() == libs@[j as int]@);
                    }
                    j = j + 1;
                }
                proof {
                    assert(name_seq(libs@).subrange(0, libs@.len() as int) =~= name_seq(libs@));
                    assert(content@ == c1 + ("\n"@ + lib_lines(name_seq(libs@))));
                }
            } else {
                proof {
                    assert(content@ =~= c1 + Seq::<char>::empty());
                }
            }
            proof {
                assert(content@ =~= level_content(rank, true, lv, name_seq(libs@)));
            }
        } else {
            proof {
                assert(content@ =~= level_content(rank, false, lv, name_seq(libs@)));
            }
        }
        let inv = join_path(dir.as_str(), "inventory.bu");
        files.push(inv.clone());
        let next_dir = if k + 1 < ranks.len() {
            let mut child = ranks[k + 1].name();
            child.append("_");
            child.append(name);
            join_path(dir.as_str(), child.as_str())
        } else {
            dir.clone()
        };
        levels.push(InitLevel { dir, inventory: inv, content });
        dir = next_dir;
        k = k + 1;
    }
    Ok(InitPlan { levels, result: InitResult { root, files_created: files } })
}


/// A project made with a language names it in its root inventory: the rank
/// line, a blank line, then `#lang: <language>;`, before anything else; with
/// no libraries that is the whole inventory.
pub proof fn law_root_inventory_names_language(rank: Rank, lang: Seq<char>, libs: Seq<Seq<char>>)
    ensures
        ({
            let head = "#rank: "@ + rank_name(rank) + ";\n"@ + "\n"@ + "#lang: "@ + lang + ";\n"@;
            let c = level_content(rank, true, Some(lang), libs);
            &&& head.len() <= c.len()
            &&& c.subrange(0, head.len() as int) == head
            &&& libs.len() == 0 ==> c == head
        }),
{
    reveal_strlit("\n");
    reveal_strlit("#lang: ");
    reveal_strlit("\n#lang: ");
    let head = "#rank: "@ + rank_name(rank) + ";\n"@ + "\n"@ + "#lang: "@ + lang + ";\n"@;
    let c = level_content(rank, true, Some(lang), libs);
    let lib_part: Seq<char> = if libs.len() > 0 { "\n"@ + lib_lines(libs) } else { Seq::empty() };
    assert(c =~= head + lib_part);
    assert(c.subrange(0, head.len() as int) =~= head);
    if libs.len() == 0 {
        assert(c =~= head);
    }
}


/// Below the root, a level's inventory holds its rank line alone, whatever
/// language and libraries the project was made with.
pub proof fn law_inner_inventory_rank_only(rank: Rank, lang: Option<Seq<char>>, libs: Seq<Seq<char>>)
    ensures
        level_content(rank, false, lang, libs) == "#rank: "@ + rank_name(rank) + ";\n"@,
{
    assert(level_content(rank, false, lang, libs) =~= "#rank: "@ + rank_name(rank) + ";\n"@);
}

/// A project made with no language and no libraries has a root inventory
/// that holds its rank line alone.
pub proof fn law_plain_root_inventory(rank: Rank)
    ensures
        level_content(rank, true, None, Seq::empty()) == "#rank: "@ + rank_name(rank) + ";\n"@,
{
    assert(level_content(rank, true, None, Seq::empty()) =~= "#rank: "@ + rank_name(rank) + ";\n"@);
}

} // verus!
