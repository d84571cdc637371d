//! Decisions of the `remove` and `update` commands: which package entry
//! goes, which build features stay, what `cargo` is asked to do, which
//! cached checkouts and binaries are cleared, and how installed and remote
//! versions are read.
use vstd::prelude::*;
use crate::add::opt_str;
use crate::text::{chars_of, string_of, str_is, push_str, is_ws, is_whitespace};
use crate::validator::{join, join_path, name_seq};
use crate::codegen_rs::{joined, join_strings};
use crate::add::{strip_all_suffix, strip_suffixes, utf8_len};
use crate::text::{trim_start_seq, first_at, lemma_first_at, find_char_in, has_suffix};

verus! {

// ── Text search ───────────────────────────────────────────────────────────────

/// Whether `needle` occurs in `hay` starting at `i`.
pub open spec fn occurs_at(hay: Seq<char>, needle: Seq<char>, i: int) -> bool {
    0 <= i && i + needle.len() <= hay.len() && hay.subrange(i, i + needle.len()) == needle
}

/// `str::contains` for a text pattern.
pub open spec fn has_infix(hay: Seq<char>, needle: Seq<char>) -> bool {
    exists|i: int| #[trigger] occurs_at(hay, needle, i)
}

pub fn contains_str(hay: &str, needle: &str) -> (r: bool)
    ensures
        r == has_infix(hay@, needle@),
{
    let h = chars_of(hay);
    let n = chars_of(needle);
    if n.len() > h.len() {
        proof {
            assert forall|i: int| !occurs_at(hay@, needle@, i) by {}
        }
        return false;
    }
    let mut i: usize = 0;
    while i <= h.len() - n.len()
        invariant
            h@ == hay@,
            n@ == needle@,
            n@.len() <= h@.len(),
            i <= h@.len() - n@.len() + 1,
            forall|j: int| 0 <= j < i ==> !occurs_at(hay@, needle@, j),
        decreases h@.len() - n@.len() + 1 - i,
    {
        let mut k: usize = 0;
        let mut same = true;
        while k < n.len()
            invariant
                h@ == hay@,
                n@ == needle@,
                i + n@.len() <= h@.len(),
                h@.len() <= usize::MAX,
                k <= n@.len(),
                same == (forall|m: int| 0 <= m < k ==> h@[i + m] == n@[m]),
            decreases n@.len() - k,
        {
            if h[i + k] != n[k] {
                same = false;
            }
            k = k + 1;
        }
        if same {
            proof {
                assert(hay@.subrange(i as int, i + needle@.len()) =~= needle@);
                assert(occurs_at(hay@, needle@, i as int));
            }
            return true;
        }
        proof {
            assert(!(hay@.subrange(i as int, i + needle@.len()) =~= needle@)) by {
                let m = choose|m: int| 0 <= m < n@.len() && h@[i + m] != n@[m];
                assert(hay@.subrange(i as int, i + needle@.len())[m] == h@[i + m]);
            }
        }
        i = i + 1;
    }
    proof {
        assert forall|j: int| !occurs_at(hay@, needle@, j) by {
            if occurs_at(hay@, needle@, j) {
                assert(j < i);
            }
        }
    }
    false
}

// ── remove ────────────────────────────────────────────────────────────────────

/// The repository that Bullarchy is reinstalled from.
pub const BULLARCHY_REPO: &'static str = "https://github.com/The-Bullang-Foundation/Bullarchy.git";

/// One entry of `bull.lock`: a package's name and the build feature it
/// brought, where its `feature` field is a string.
pub struct LockEntry {
    pub name: String,
    pub feature: Option<String>,
}

pub struct LockV {
    pub name: Seq<char>,
    pub feature: Option<Seq<char>>,
}

impl View for LockEntry {
    type V = LockV;

    open spec fn view(&self) -> LockV {
        LockV { name: self.name@, feature: opt_str(self.feature) }
    }
}

pub open spec fn lock_view(v: Seq<LockEntry>) -> Seq<LockV> {
    v.map_values(|e: LockEntry| e@)
}

/// What `remove` does.
pub enum RemovePlan {
    /// No package was named.
    Usage,
    /// The package is not in the lock file.
    NotInstalled(String),
    /// Remove the package; where it brought a feature, reinstall Bullarchy
    /// with these `cargo` arguments.
    Remove { name: String, feature: Option<String>, reinstall: Option<Vec<String>> },
}

/// The last entry of a name (a JSON object keeps the last of a repeated key).
pub open spec fn lock_find(lock: Seq<LockV>, name: Seq<char>) -> Option<int>
    decreases lock.len(),
{
    if lock.len() == 0 {
        None
    } else if lock.last().name == name {
        Some(lock.len() - 1)
    } else {
        lock_find(lock.drop_last(), name)
    }
}

/// A feature that is a non-empty string.
pub open spec fn real_feature(f: Option<Seq<char>>) -> Option<Seq<char>> {
    match f {
        Some(s) => if s.len() > 0 { Some(s) } else { None },
        None => None,
    }
}

/// The features of the other packages, each once, in order, without the
/// removed one.
pub open spec fn remaining_features(lock: Seq<LockV>, removed_name: Seq<char>, removed: Seq<char>) -> Seq<Seq<char>>
    decreases lock.len(),
{
    if lock.len() == 0 {
        Seq::empty()
    } else {
        let r = remaining_features(lock.drop_last(), removed_name, removed);
        let e = lock.last();
        match real_feature(e.feature) {
            Some(f) => if e.name != removed_name && f != removed && !r.contains(f) { r.push(f) } else { r },
            None => r,
        }
    }
}

/// The `cargo` arguments that reinstall Bullarchy with some features.
pub open spec fn reinstall_spec(features: Seq<Seq<char>>) -> Seq<Seq<char>> {
    if features.len() == 0 {
        seq!["install"@, "--git"@, BULLARCHY_REPO@, "--force"@, "bullarchy"@]
    } else {
        seq!["install"@, "--git"@, BULLARCHY_REPO@, "--features"@, joined(features, ","@), "--force"@, "bullarchy"@]
    }
}

pub open spec fn plan_ok(args: Seq<Seq<char>>, lock: Seq<LockV>, r: RemovePlan) -> bool {
    if args.len() == 0 {
        r is Usage
    } else {
        let name = args[0];
        match lock_find(lock, name) {
            None => r matches RemovePlan::NotInstalled(n) && n@ == name,
            Some(i) => r matches RemovePlan::Remove { name: n, feature, reinstall } && n@ == name
                && opt_str(feature) == real_feature(lock[i].feature) && match real_feature(lock[i].feature) {
                    None => reinstall is None,
                    Some(f) => reinstall matches Some(a)
                        && name_seq(a@) == reinstall_spec(remaining_features(lock, name, f)),
                },
        }
    }
}

pub(crate) fn lit_strings(xs: Vec<&str>) -> (r: Vec<String>)
    ensures
        name_seq(r@) == xs@.map_values(|s: &str| s@),
{
    let mut out: Vec<String> = Vec::new();
    let mut i: usize = 0;
    while i < xs.len()
        invariant
            i <= xs@.len(),
            out@.len() == i,
            forall|j: int| 0 <= j < i ==> (#[trigger] out@[j])@ == xs@[j]@,
        decreases xs@.len() - i,
    {
        out.push(String::from_str(xs[i]));
        i = i + 1;
    }
    proof {
        assert(name_seq(out@) =~= xs@.map_values(|s: &str| s@));
    }
    out
}

/// The `cargo install` arguments for a set of features.
pub fn reinstall_args(features: &Vec<String>) -> (r: Vec<String>)
    ensures
        name_seq(r@) == reinstall_spec(name_seq(features@)),
{
    if features.len() == 0 {
        let r = lit_strings(vec!["install", "--git", BULLARCHY_REPO, "--force", "bullarchy"]);
        proof {
            assert(name_seq(r@) =~= reinstall_spec(name_seq(features@)));
        }
        r
    } else {
        let joined_features = join_strings(features, ",");
        let mut r = lit_strings(vec!["install", "--git", BULLARCHY_REPO, "--features"]);
        let ghost head = name_seq(r@);
        proof {
            assert(head.len() == 4);
            assert(head[0] == "install"@);
            assert(head[1] == "--git"@);
            assert(head[2] == BULLARCHY_REPO@);
            assert(head[3] == "--features"@);
        }
        r.push(joined_features);
        r.push(String::from_str("--force"));
        r.push(String::from_str("bullarchy"));
        proof {
            assert(name_seq(r@) =~= head.push(joined(name_seq(features@), ","@)).push("--force"@).push("bullarchy"@));
            assert(name_seq(r@) =~= reinstall_spec(name_seq(features@)));
        }
        r
    }
}

fn seq_has(v: &Vec<String>, s: &String) -> (r: bool)
    ensures
        r == name_seq(v@).contains(s@),
{
    let mut i: usize = 0;
    while i < v.len()
        invariant
            i <= v@.len(),
            forall|j: int| 0 <= j < i ==> v@[j]@ != s@,
        decreases v@.len() - i,
    {
        if str_is(v[i].as_str(), s.as_str()) {
            proof {
                assert(name_seq(v@)[i as int] == s@);
            }
            return true;
        }
        i = i + 1;
    }
    proof {
        if name_seq(v@).contains(s@) {
            let j = choose|j: int| 0 <= j < name_seq(v@).len() && name_seq(v@)[j] == s@;
            assert(v@[j]@ == s@);
        }
    }
    false
}

fn lock_index(lock: &Vec<LockEntry>, name: &String) -> (r: Option<usize>)
    ensures
        match r {
            Some(k) => lock_find(lock_view(lock@), name@) == Some(k as int) && k < lock@.len(),
            None => lock_find(lock_view(lock@), name@) is None,
        },
{
    let ghost lv = lock_view(lock@);
    let mut i = lock.len();
    proof {
        assert(lv.subrange(0, i as int) =~= lv);
    }
    while i > 0
        invariant
            i <= lock@.len(),
            lv == lock_view(lock@),
            lock_find(lv, name@) == lock_find(lv.subrange(0, i as int), name@),
        decreases i,
    {
        let ghost pre = lv.subrange(0, i as int);
        proof {
            assert(pre.drop_last() =~= lv.subrange(0, i - 1));
            assert(pre.last() == lock@[i - 1]@);
        }
        if str_is(lock[i - 1].name.as_str(), name.as_str()) {
            return Some(i - 1);
        }
        i = i - 1;
    }
    None
}

/// What `remove <name>` does, given the entries of `bull.lock`.
pub fn remove_plan(args: &Vec<String>, lock: &Vec<LockEntry>) -> (r: RemovePlan)
    ensures
        plan_ok(name_seq(args@), lock_view(lock@), r),
{
    if args.len() == 0 {
        return RemovePlan::Usage;
    }
    let name = &args[0];
    let ghost lv = lock_view(lock@);
    let found = lock_index(lock, name);
    let k = match found {
        None => return RemovePlan::NotInstalled(name.clone()),
        Some(k) => k,
    };
    let feature: Option<String> = match &lock[k].feature {
        Some(f) => if f.unicode_len() > 0 { Some(f.clone()) } else { None },
        None => None,
    };
    let reinstall = match &feature {
        None => None,
        Some(f) => {
            let mut rest: Vec<String> = Vec::new();
            let mut j: usize = 0;
            proof {
                assert(lv.subrange(0, 0) =~= Seq::<LockV>::empty());
                assert(name_seq(rest@) =~= Seq::<Seq<char>>::empty());
            }
            while j < lock.len()
                invariant
                    j <= lock@.len(),
                    lv == lock_view(lock@),
                    name_seq(rest@) == remaining_features(lv.subrange(0, j as int), name@, f@),
                decreases lock@.len() - j,
            {
                proof {
                    assert(lv.subrange(0, j + 1).drop_last() =~= lv.subrange(0, j as int));
                    assert(lv.subrange(0, j + 1).last() == lock@[j as int]@);
                }
                let e = &lock[j];
                match &e.feature {
                    Some(g) => {
                        if g.unicode_len() > 0 && !str_is(e.name.as_str(), name.as_str())
                            && !str_is(g.as_str(), f.as_str()) && !seq_has(&rest, g) {
                            let ghost before = name_seq(rest@);
                            rest.push(g.clone());
                            proof {
                                assert(name_seq(rest@) =~= before.push(g@));
                            }
                        }
                    },
                    None => {},
                }
                j = j + 1;
            }
            proof {
                assert(lv.subrange(0, lock@.len() as int) =~= lv);
            }
            Some(reinstall_args(&rest))
        },
    };
    RemovePlan::Remove { name: name.clone(), feature, reinstall }
}

// ── update ────────────────────────────────────────────────────────────────────

/// The tools that `update` reinstalls, whose cached checkouts it clears.
pub open spec fn updated_tools() -> Seq<Seq<char>> {
    seq!["bullang"@, "bullarchy"@, "bullscript"@]
}

/// What `str::to_lowercase` gives for a text, by the Unicode tables of the
/// standard library.
pub uninterp spec fn lower_of(s: Seq<char>) -> Seq<char>;

/// An ASCII letter in lower case; any other character as it is.
pub open spec fn ascii_lower(c: char) -> char {
    if 'A' <= c <= 'Z' { ((c as u32) + 32) as char } else { c }
}

/// `str::to_lowercase`. An all-ASCII text has its capitals lowered and
/// nothing else changed, as its documentation states.
#[verifier::external_body]
fn lowercase(s: &str) -> (r: String)
    ensures
        r@ == lower_of(s@),
        (forall|i: int| 0 <= i < s@.len() ==> (#[trigger] s@[i] as u32) < 128)
            ==> r@ == s@.map_values(|c: char| ascii_lower(c)),
{
    s.to_lowercase()
}

/// Whether a cached checkout belongs to a tool: its name, lower-cased,
/// holds the tool's name.
pub fn cache_hit(entry_name: &str, tool: &str) -> (r: bool)
    ensures
        r == has_infix(lower_of(entry_name@), tool@),
{
    let l = lowercase(entry_name);
    contains_str(l.as_str(), tool)
}

/// The binaries that `update` deletes before reinstalling: each tool's, and
/// the same with `.exe`.
pub open spec fn stale_binaries_spec() -> Seq<Seq<char>> {
    seq![
        "bullang"@, "bullang.exe"@, "bullarchy"@, "bullarchy.exe"@,
        "bullscript"@, "bullscript.exe"@, "bullarchy-gui"@, "bullarchy-gui.exe"@,
    ]
}

pub fn stale_binaries() -> (r: Vec<String>)
    ensures
        name_seq(r@) == stale_binaries_spec(),
{
    let r = lit_strings(vec![
        "bullang", "bullang.exe", "bullarchy", "bullarchy.exe",
        "bullscript", "bullscript.exe", "bullarchy-gui", "bullarchy-gui.exe",
    ]);
    proof {
        assert(name_seq(r@) =~= stale_binaries_spec());
    }
    r
}

/// The `cargo` arguments that reinstall one tool from its repository.
pub fn install_args(repo: &str, bin: &str) -> (r: Vec<String>)
    ensures
        name_seq(r@) == seq!["install"@, "--git"@, repo@, "--force"@, bin@],
{
    let r = lit_strings(vec!["install", "--git", repo, "--force", bin]);
    proof {
        assert(name_seq(r@) =~= seq!["install"@, "--git"@, repo@, "--force"@, bin@]);
    }
    r
}

/// Cargo's home: `CARGO_HOME` where it is set, else `.cargo` under the
/// home folder (`HOME`, else `USERPROFILE`, else the current folder).
pub open spec fn cargo_home_spec(cargo_home: Option<Seq<char>>, home: Option<Seq<char>>, profile: Option<Seq<char>>) -> Seq<char> {
    match cargo_home {
        Some(c) => c,
        None => {
            let h = match home {
                Some(h) => h,
                None => match profile {
                    Some(p) => p,
                    None => Seq::empty(),
                },
            };
            join(h, ".cargo"@)
        },
    }
}

pub fn cargo_home_from(cargo_home: Option<String>, home: Option<String>, profile: Option<String>) -> (r: String)
    ensures
        r@ == cargo_home_spec(opt_str(cargo_home), opt_str(home), opt_str(profile)),
{
    match cargo_home {
        Some(c) => c,
        None => {
            let h = match home {
                Some(h) => h,
                None => match profile {
                    Some(p) => p,
                    None => {
                        let e = String::new();
                        proof {
                            assert(e@ =~= Seq::<char>::empty());
                        }
                        e
                    },
                },
            };
            join_path(h.as_str(), ".cargo")
        },
    }
}

/// Whether one modification time is at most another; an unknown time is
/// earliest.
pub open spec fn time_le(a: Option<(u64, u32)>, b: Option<(u64, u32)>) -> bool {
    match (a, b) {
        (None, _) => true,
        (Some(_), None) => false,
        (Some(x), Some(y)) => x.0 < y.0 || (x.0 == y.0 && x.1 <= y.1),
    }
}

/// The position of the latest entry, the last one among equals, as
/// `Iterator::max_by_key` picks it.
pub open spec fn latest(ts: Seq<Option<(u64, u32)>>) -> Option<int>
    decreases ts.len(),
{
    if ts.len() == 0 {
        None
    } else {
        match latest(ts.drop_last()) {
            None => Some(ts.len() - 1),
            Some(i) => if time_le(ts[i], ts.last()) { Some(ts.len() - 1) } else { Some(i) },
        }
    }
}

proof fn lemma_latest(ts: Seq<Option<(u64, u32)>>)
    ensures
        latest(ts) matches Some(i) ==> 0 <= i < ts.len(),
        ts.len() > 0 ==> latest(ts) is Some,
    decreases ts.len(),
{
    if ts.len() > 0 {
        lemma_latest(ts.drop_last());
    }
}

pub fn pick_latest(ts: &Vec<Option<(u64, u32)>>) -> (r: Option<usize>)
    ensures
        match r {
            Some(i) => latest(ts@) == Some(i as int),
            None => latest(ts@) is None,
        },
{
    let mut best: Option<usize> = None;
    let mut i: usize = 0;
    proof {
        assert(ts@.subrange(0, 0) =~= Seq::<Option<(u64, u32)>>::empty());
    }
    while i < ts.len()
        invariant
            i <= ts@.len(),
            match best {
                Some(b) => latest(ts@.subrange(0, i as int)) == Some(b as int) && b < i,
                None => latest(ts@.subrange(0, i as int)) is None,
            },
        decreases ts@.len() - i,
    {
        proof {
            assert(ts@.subrange(0, i + 1).drop_last() =~= ts@.subrange(0, i as int));
            lemma_latest(ts@.subrange(0, i as int));
        }
        let newer = match best {
            None => true,
            Some(b) => match (ts[b], ts[i]) {
                (None, _) => true,
                (Some(_), None) => false,
                (Some(x), Some(y)) => x.0 < y.0 || (x.0 == y.0 && x.1 <= y.1),
            },
        };
        if newer {
            best = Some(i);
        }
        i = i + 1;
    }
    proof {
        assert(ts@.subrange(0, ts@.len() as int) =~= ts@);
    }
    best
}

/// The first run of non-whitespace characters of a text.
pub open spec fn take_word(s: Seq<char>) -> Seq<char>
    decreases s.len(),
{
    if s.len() == 0 || is_ws(s[0]) { Seq::empty() } else { seq![s[0]] + take_word(s.drop_first()) }
}

pub open spec fn first_word(s: Seq<char>) -> Option<Seq<char>> {
    let t = trim_start_seq(s);
    if t.len() == 0 { None } else { Some(take_word(t)) }
}

/// The commit a `git ls-remote` listing starts with: its first word, where
/// that word is 40 bytes long.
pub open spec fn head_hash_spec(listing: Seq<char>) -> Option<Seq<char>> {
    match first_word(listing) {
        Some(w) => if utf8_len(w) == 40 { Some(w) } else { None },
        None => None,
    }
}

pub fn head_hash(listing: &str) -> (r: Option<String>)
    ensures
        opt_str(r) == head_hash_spec(listing@),
{
    let v = chars_of(listing);
    let n = v.len();
    let mut a: usize = 0;
    proof {
        assert(v@.subrange(0, n as int) =~= v@);
    }
    while a < n && is_whitespace(v[a])
        invariant
            a <= n == v@.len(),
            v@ == listing@,
            trim_start_seq(listing@) == trim_start_seq(v@.subrange(a as int, n as int)),
        decreases n - a,
    {
        proof {
            assert(v@.subrange(a as int, n as int).drop_first() =~= v@.subrange(a + 1, n as int));
        }
        a = a + 1;
    }
    proof {
        let t = v@.subrange(a as int, n as int);
        if a < n {
            assert(t[0] == v@[a as int]);
        }
        assert(trim_start_seq(t) == t);
    }
    if a == n {
        return None;
    }
    let mut b = a;
    proof {
        assert(v@.subrange(a as int, a as int) =~= Seq::<char>::empty());
    }
    while b < n && !is_whitespace(v[b])
        invariant
            a <= b <= n == v@.len(),
            take_word(v@.subrange(a as int, n as int))
                == v@.subrange(a as int, b as int) + take_word(v@.subrange(b as int, n as int)),
        decreases n - b,
    {
        proof {
            let t = v@.subrange(b as int, n as int);
            assert(t.drop_first() =~= v@.subrange(b + 1, n as int));
            assert(t[0] == v@[b as int]);
            assert(v@.subrange(a as int, b + 1) =~= v@.subrange(a as int, b as int).push(v@[b as int]));
            assert(v@.subrange(a as int, b as int) + (seq![v@[b as int]] + take_word(t.drop_first()))
                =~= v@.subrange(a as int, b + 1) + take_word(t.drop_first()));
        }
        b = b + 1;
    }
    proof {
        let t = v@.subrange(b as int, n as int);
        if b < n {
            assert(t[0] == v@[b as int]);
        }
        assert(take_word(t) =~= Seq::<char>::empty());
        assert(v@.subrange(a as int, b as int) + Seq::<char>::empty() =~= v@.subrange(a as int, b as int));
    }
    let ghost w = v@.subrange(a as int, b as int);
    proof {
        assert(first_word(listing@) == Some(w));
    }
    let mut bytes: u64 = 0;
    let mut k = a;
    proof {
        assert(v@.subrange(a as int, a as int) =~= Seq::<char>::empty());
    }
    while k < b
        invariant
            a <= k <= b <= n == v@.len(),
            v@ == listing@,
            w == v@.subrange(a as int, b as int),
            first_word(listing@) == Some(w),
            bytes == utf8_len(v@.subrange(a as int, k as int)),
            bytes <= 40,
        decreases b - k,
    {
        let c = v[k];
        let wd: u64 = if (c as u32) < 0x80 { 1 } else if (c as u32) < 0x800 { 2 } else if (c as u32) < 0x10000 { 3 } else { 4 };
        proof {
            assert(v@.subrange(a as int, k + 1).drop_last() =~= v@.subrange(a as int, k as int));
            assert(v@.subrange(a as int, k + 1).last() == c);
        }
        bytes = bytes + wd;
        if bytes > 40 {
            proof {
                assert(w.subrange(0, k + 1 - a) =~= v@.subrange(a as int, k + 1));
                lemma_utf8_len_grows(w, k + 1 - a);
            }
            return None;
        }
        k = k + 1;
    }
    proof {
        assert(v@.subrange(a as int, k as int) == w);
    }
    if bytes == 40 { Some(string_of(v.as_slice(), a, b)) } else { None }
}

/// A longer prefix has at least the bytes of a shorter one.
proof fn lemma_utf8_len_grows(s: Seq<char>, k: int)
    requires
        0 <= k <= s.len(),
    ensures
        utf8_len(s.subrange(0, k)) <= utf8_len(s),
    decreases s.len() - k,
{
    if k < s.len() {
        lemma_utf8_len_grows(s, k + 1);
        assert(s.subrange(0, k + 1).drop_last() =~= s.subrange(0, k));
    } else {
        assert(s.subrange(0, k) =~= s);
    }
}

/// Whether a key of cargo's install record names a package installed from
/// a repository on a branch: it holds all three texts.
pub open spec fn key_matches(k: Seq<char>, package: Seq<char>, frag: Seq<char>, tag: Seq<char>) -> bool {
    has_infix(k, package) && has_infix(k, frag) && has_infix(k, tag)
}

pub open spec fn first_match(keys: Seq<Seq<char>>, package: Seq<char>, frag: Seq<char>, tag: Seq<char>) -> Option<int>
    decreases keys.len(),
{
    if keys.len() == 0 {
        None
    } else if key_matches(keys[0], package, frag, tag) {
        Some(0)
    } else {
        match first_match(keys.drop_first(), package, frag, tag) {
            Some(i) => Some(i + 1),
            None => None,
        }
    }
}

/// The commit in a key: what follows its first `#`, up to the next `#`,
/// with trailing `)` taken off; none where the key has no `#`.
pub open spec fn hash_of_key(k: Seq<char>) -> Option<Seq<char>> {
    match first_at(k, '#') {
        None => None,
        Some(i) => {
            let rest = k.subrange(i + 1, k.len() as int);
            let part = match first_at(rest, '#') {
                Some(j) => rest.subrange(0, j),
                None => rest,
            };
            Some(strip_all_suffix(part, ")"@))
        },
    }
}

/// The installed commit of a package, read from the keys of cargo's
/// install record in their order: the first key that names the package,
/// the repository (its `.git` endings taken off) and `branch=<branch>`
/// decides.
pub open spec fn installed_hash_spec(keys: Seq<Seq<char>>, package: Seq<char>, repo: Seq<char>, branch: Seq<char>) -> Option<Seq<char>> {
    match first_match(keys, package, strip_all_suffix(repo, ".git"@), "branch="@ + branch) {
        None => None,
        Some(i) => hash_of_key(keys[i]),
    }
}

fn hash_in_key(k: &str) -> (r: Option<String>)
    ensures
        opt_str(r) == hash_of_key(k@),
{
    let v = chars_of(k);
    let n = v.len();
    proof {
        assert(v@.subrange(0, n as int) =~= v@);
        lemma_first_at(v@, '#');
    }
    let i = match find_char_in(v.as_slice(), '#', 0, n) {
        None => return None,
        Some(i) => i,
    };
    let ghost rest = v@.subrange(i + 1, n as int);
    proof {
        lemma_first_at(rest, '#');
    }
    let j = match find_char_in(v.as_slice(), '#', i + 1, n) {
        Some(j) => j,
        None => n,
    };
    proof {
        if j < n {
            assert(rest.subrange(0, j - i - 1) =~= v@.subrange(i + 1, j as int));
        }
        reveal_strlit(")");
    }
    let ghost part = v@.subrange(i + 1, j as int);
    let mut end = j;
    while end > i + 1 && v[end - 1] == ')'
        invariant
            i + 1 <= end <= j <= n == v@.len(),
            part == v@.subrange(i + 1, j as int),
            strip_all_suffix(part, ")"@) == strip_all_suffix(v@.subrange(i + 1, end as int), ")"@),
        decreases end,
    {
        proof {
            reveal_strlit(")");
            let cur = v@.subrange(i + 1, end as int);
            assert(cur.subrange(cur.len() - 1, cur.len() as int) =~= ")"@);
            assert(cur.subrange(0, cur.len() - 1) =~= v@.subrange(i + 1, end - 1));
        }
        end = end - 1;
    }
    proof {
        let cur = v@.subrange(i + 1, end as int);
        if cur.len() >= 1 {
            assert(cur.subrange(cur.len() - 1, cur.len() as int)[0] == v@[end - 1]);
            assert(!has_suffix(cur, ")"@));
        } else {
            assert(!has_suffix(cur, ")"@));
        }
    }
    Some(string_of(v.as_slice(), i + 1, end))
}

pub fn installed_hash_in(keys: &Vec<String>, package: &str, repo: &str, branch: &str) -> (r: Option<String>)
    ensures
        opt_str(r) == installed_hash_spec(name_seq(keys@), package@, repo@, branch@),
{
    let rv = chars_of(repo);
    let fend = strip_suffixes(&rv, rv.len(), ".git");
    proof {
        assert(rv@.subrange(0, rv@.len() as int) =~= repo@);
    }
    let frag = string_of(rv.as_slice(), 0, fend);
    let mut tag = String::from_str("branch=");
    push_str(&mut tag, branch);
    let ghost ks = name_seq(keys@);
    let mut i: usize = 0;
    proof {
        assert(ks.subrange(0, ks.len() as int) =~= ks);
    }
    while i < keys.len()
        invariant
            i <= keys@.len(),
            ks == name_seq(keys@),
            frag@ == strip_all_suffix(repo@, ".git"@),
            tag@ == "branch="@ + branch@,
            first_match(ks, package@, frag@, tag@) == (match first_match(ks.subrange(i as int, ks.len() as int), package@, frag@, tag@) {
                Some(j) => Some(j + i),
                None => None,
            }),
        decreases keys@.len() - i,
    {
        let ghost cur = ks.subrange(i as int, ks.len() as int);
        proof {
            assert(cur.drop_first() =~= ks.subrange(i + 1, ks.len() as int));
            assert(cur[0] == keys@[i as int]@);
        }
        let k = &keys[i];
        if contains_str(k.as_str(), package) && contains_str(k.as_str(), frag.as_str())
            && contains_str(k.as_str(), tag.as_str()) {
            return hash_in_key(k.as_str());
        }
        i = i + 1;
    }
    None
}

/// The message that tells of a newer version: shown when both commits are
/// known and differ.
pub open spec fn update_notice_spec(remote: Option<Seq<char>>, installed: Option<Seq<char>>) -> Option<Seq<char>> {
    match (remote, installed) {
        (Some(r), Some(i)) => if r == i { None } else { Some(UPDATE_NOTICE@) },
        _ => None,
    }
}

pub const UPDATE_NOTICE: &'static str = "\n  A new version of Bullarchy is available. Run 'update' to install.";

pub fn update_notice(remote: &Option<String>, installed: &Option<String>) -> (r: Option<String>)
    ensures
        opt_str(r) == update_notice_spec(opt_str(*remote), opt_str(*installed)),
{
    match (remote, installed) {
        (Some(r), Some(i)) => if str_is(r.as_str(), i.as_str()) { None } else { Some(String::from_str(UPDATE_NOTICE)) },
        _ => None,
    }
}

/// Whether no text occurs twice.
pub open spec fn no_repeats(v: Seq<Seq<char>>) -> bool {
    forall|i: int, j: int| 0 <= i < j < v.len() ==> v[i] != v[j]
}

/// After `remove`, Bullarchy is rebuilt with the features of the other
/// packages only: the removed feature is not among them, none is empty,
/// and none comes twice.
pub proof fn law_remaining_features(lock: Seq<LockV>, name: Seq<char>, removed: Seq<char>)
    ensures
        !remaining_features(lock, name, removed).contains(removed),
        forall|k: int| 0 <= k < remaining_features(lock, name, removed).len()
            ==> #[trigger] remaining_features(lock, name, removed)[k].len() > 0,
        no_repeats(remaining_features(lock, name, removed)),
    decreases lock.len(),
{
    if lock.len() > 0 {
        law_remaining_features(lock.drop_last(), name, removed);
        let r = remaining_features(lock.drop_last(), name, removed);
        let e = lock.last();
        match real_feature(e.feature) {
            Some(f) => {
                if e.name != name && f != removed && !r.contains(f) {
                    let out = r.push(f);
                    assert forall|i: int, j: int| 0 <= i < j < out.len() implies out[i] != out[j] by {
                        if j == out.len() - 1 {
                            assert(out[i] == r[i]);
                        }
                    }
                    assert(!out.contains(removed)) by {
                        if out.contains(removed) {
                            let k = choose|k: int| 0 <= k < out.len() && out[k] == removed;
                            if k < r.len() {
                                assert(r[k] == out[k]);
                            }
                        }
                    }
                }
            },
            None => {},
        }
    }
}

/// The notice of a newer version comes only when both commits are known
/// and they differ.
pub proof fn law_update_notice(remote: Option<Seq<char>>, installed: Option<Seq<char>>)
    ensures
        update_notice_spec(remote, installed) is Some <==> (remote is Some && installed is Some && remote != installed),
{
}

} // verus!
