//! The package manager's decisions: what an `add` argument asks for, the
//! name a package installs under, which release tag is the latest, and what
//! the registry listing shows.
use vstd::prelude::*;
use crate::tools::lit_strings;
use crate::validator::name_seq;
use crate::text::{
    chars_of, string_of, first_at, lemma_first_at, find_char, has_prefix, has_suffix, starts_with,
    ends_with, lines_of, split_lines, push_char, find_char_in, prefix_at, suffix_at,
};

verus! {

pub open spec fn opt_str(o: Option<String>) -> Option<Seq<char>> {
    match o {
        Some(s) => Some(s@),
        None => None,
    }
}

// ── The argument ──────────────────────────────────────────────────────────────

/// What `add` was asked to do.
pub enum AddAction {
    /// List the registry's packages.
    List,
    /// Install from a git URL, at a pinned version or the latest tag.
    FromUrl { url: String, version: Option<String> },
    /// Install a package of the registry.
    FromRegistry { name: String, version: Option<String> },
}

pub enum AddV {
    List,
    FromUrl(Seq<char>, Option<Seq<char>>),
    FromRegistry(Seq<char>, Option<Seq<char>>),
}

impl View for AddAction {
    type V = AddV;

    open spec fn view(&self) -> AddV {
        match self {
            AddAction::List => AddV::List,
            AddAction::FromUrl { url, version } => AddV::FromUrl(url@, opt_str(*version)),
            AddAction::FromRegistry { name, version } => AddV::FromRegistry(name@, opt_str(*version)),
        }
    }
}

/// `source@version` split at the first `@`.
pub open spec fn split_pin(s: Seq<char>) -> (Seq<char>, Option<Seq<char>>) {
    match first_at(s, '@') {
        Some(i) => (s.subrange(0, i), Some(s.subrange(i + 1, s.len() as int))),
        None => (s, None),
    }
}

pub open spec fn is_url(s: Seq<char>) -> bool {
    has_prefix(s, "https://"@) || has_prefix(s, "http://"@)
}

pub open spec fn add_spec(args: Seq<Seq<char>>) -> AddV {
    if args.len() == 0 {
        AddV::List
    } else {
        let (src, ver) = split_pin(args[0]);
        if is_url(src) {
            AddV::FromUrl(src, ver)
        } else {
            AddV::FromRegistry(src, ver)
        }
    }
}

/// Reads the arguments of `add`: none lists the registry; `name@version`
/// or `url@version` pins a version; a source starting with `https://` or
/// `http://` is a git URL.
pub fn cmd_add(args: &Vec<String>) -> (r: AddAction)
    ensures
        r@ == add_spec(args@.map_values(|a: String| a@)),
{
    if args.len() == 0 {
        return AddAction::List;
    }
    let v = chars_of(args[0].as_str());
    proof {
        assert(args@.map_values(|a: String| a@)[0] == args@[0]@);
        lemma_first_at(v@, '@');
        assert(v@.subrange(0, v@.len() as int) =~= v@);
    }
    let (src, ver) = match find_char(v.as_slice(), '@', 0) {
        Some(i) => (string_of(v.as_slice(), 0, i), Some(string_of(v.as_slice(), i + 1, v.len()))),
        None => (args[0].clone(), None),
    };
    let sv = chars_of(src.as_str());
    if starts_with(sv.as_slice(), "https://") || starts_with(sv.as_slice(), "http://") {
        AddAction::FromUrl { url: src, version: ver }
    } else {
        AddAction::FromRegistry { name: src, version: ver }
    }
}

// ── Versions ──────────────────────────────────────────────────────────────────

/// The text with every leading `v` taken off.
pub open spec fn trim_v(s: Seq<char>) -> Seq<char>
    decreases s.len(),
{
    if s.len() > 0 && s[0] == 'v' { trim_v(s.drop_first()) } else { s }
}

pub open spec fn is_digit(c: char) -> bool {
    '0' <= c && c <= '9'
}

/// How many dots a text holds.
pub open spec fn count_dots(t: Seq<char>) -> nat
    decreases t.len(),
{
    if t.len() == 0 { 0 } else { count_dots(t.drop_last()) + if t.last() == '.' { 1nat } else { 0nat } }
}

/// `vX`, `vX.Y` or `vX.Y.Z`, where each part is one or more digits (any
/// number of leading `v`s, or none).
pub open spec fn semver_spec(s: Seq<char>) -> bool {
    let t = trim_v(s);
    &&& t.len() > 0
    &&& count_dots(t) <= 2
    &&& t[0] != '.'
    &&& t.last() != '.'
    &&& forall|i: int| 0 <= i < t.len() ==> is_digit(#[trigger] t[i]) || t[i] == '.'
    &&& forall|i: int| 0 <= i < t.len() - 1 ==> !(#[trigger] t[i] == '.' && t[i + 1] == '.')
}

pub fn is_semver(s: &str) -> (r: bool)
    ensures
        r == semver_spec(s@),
{
    let v = chars_of(s);
    let mut k: usize = 0;
    proof {
        assert(v@.subrange(0, v@.len() as int) =~= v@);
    }
    while k < v.len() && v[k] == 'v'
        invariant
            k <= v@.len(),
            v@ == s@,
            trim_v(s@) == trim_v(v@.subrange(k as int, v@.len() as int)),
        decreases v@.len() - k,
    {
        proof {
            assert(v@.subrange(k as int, v@.len() as int).drop_first() =~= v@.subrange(k + 1, v@.len() as int));
        }
        k = k + 1;
    }
    let ghost t = v@.subrange(k as int, v@.len() as int);
    proof {
        assert(trim_v(t) == t);
    }
    if k == v.len() || v[k] == '.' || v[v.len() - 1] == '.' {
        proof {
            if k < v@.len() {
                assert(t[0] == v@[k as int]);
                assert(t.last() == v@[v@.len() - 1]);
            }
        }
        return false;
    }
    proof {
        assert(t[0] == v@[k as int]);
        assert(t.last() == v@[v@.len() - 1]);
    }
    let mut i = k;
    let mut dots: usize = 0;
    proof {
        assert(t.subrange(0, 0) =~= Seq::<char>::empty());
    }
    while i < v.len()
        invariant
            k <= i <= v@.len(),
            k < v@.len(),
            t == v@.subrange(k as int, v@.len() as int),
            trim_v(s@) == t,
            dots == count_dots(t.subrange(0, i - k)),
            dots <= i - k,
            forall|j: int| 0 <= j < i - k ==> is_digit(#[trigger] t[j]) || t[j] == '.',
            forall|j: int| 0 <= j < i - k && j < t.len() - 1 ==> !(#[trigger] t[j] == '.' && t[j + 1] == '.'),
        decreases v@.len() - i,
    {
        let c = v[i];
        if !(('0' <= c && c <= '9') || c == '.') {
            proof {
                assert(t[i - k] == c);
                assert(!(is_digit(t[i - k]) || t[i - k] == '.'));
            }
            return false;
        }
        if c == '.' && i + 1 < v.len() && v[i + 1] == '.' {
            proof {
                assert(t[i - k] == '.' && t[i - k + 1] == '.');
            }
            return false;
        }
        proof {
            assert(t[i - k] == c);
            if i + 1 < v@.len() {
                assert(t[i - k + 1] == v@[i + 1]);
            }
            assert(t.subrange(0, i - k + 1).drop_last() =~= t.subrange(0, i - k));
            assert(t.subrange(0, i - k + 1).last() == c);
        }
        if c == '.' {
            dots = dots + 1;
        }
        i = i + 1;
    }
    proof {
        assert(trim_v(s@) == t);
        assert(t.subrange(0, i - k) =~= t);
    }
    dots <= 2
}

// ── Package names ─────────────────────────────────────────────────────────────

/// The text with every trailing `p` taken off.
pub open spec fn strip_all_suffix(s: Seq<char>, p: Seq<char>) -> Seq<char>
    decreases s.len(),
{
    if p.len() > 0 && has_suffix(s, p) {
        strip_all_suffix(s.subrange(0, s.len() - p.len()), p)
    } else {
        s
    }
}

/// The text with every leading `p` taken off.
pub open spec fn strip_all_prefix(s: Seq<char>, p: Seq<char>) -> Seq<char>
    decreases s.len(),
{
    if p.len() > 0 && has_prefix(s, p) {
        strip_all_prefix(s.subrange(p.len() as int, s.len() as int), p)
    } else {
        s
    }
}

/// What follows the last `/` (all of it when there is none).
pub open spec fn after_last_slash(s: Seq<char>) -> Seq<char>
    decreases s.len(),
{
    match first_at(s, '/') {
        Some(i) => if 0 <= i < s.len() { after_last_slash(s.subrange(i + 1, s.len() as int)) } else { s },
        None => s,
    }
}

/// The name a package installed from a git URL gets: the URL's last path
/// segment, trailing `/`s and `.git`s taken off.
pub open spec fn url_name(url: Seq<char>) -> Seq<char> {
    after_last_slash(strip_all_suffix(strip_all_suffix(url, "/"@), ".git"@))
}

pub(crate) fn strip_suffixes(v: &Vec<char>, to: usize, p: &str) -> (r: usize)
    requires
        to <= v@.len(),
    ensures
        r <= to,
        v@.subrange(0, r as int) == strip_all_suffix(v@.subrange(0, to as int), p@),
{
    let pv = chars_of(p);
    let mut end = to;
    while pv.len() > 0 && end >= pv.len() && suffix_at(v.as_slice(), end, p)
        invariant
            end <= to <= v@.len(),
            pv@ == p@,
            strip_all_suffix(v@.subrange(0, to as int), p@) == strip_all_suffix(v@.subrange(0, end as int), p@),
        decreases end,
    {
        proof {
            assert(v@.subrange(0, end as int).subrange(0, end - pv@.len()) =~= v@.subrange(0, end - pv@.len()));
        }
        end = end - pv.len();
    }
    proof {
        if pv@.len() > 0 && end < pv@.len() {
            assert(!has_suffix(v@.subrange(0, end as int), p@));
        }
    }
    end
}

/// The name a package from `url` installs under.
pub fn package_name_from_url(url: &str) -> (r: String)
    ensures
        r@ == url_name(url@),
{
    let v = chars_of(url);
    proof {
        assert(v@.subrange(0, v@.len() as int) =~= v@);
    }
    let e1 = strip_suffixes(&v, v.len(), "/");
    let e2 = strip_suffixes(&v, e1, ".git");
    let ghost s2 = v@.subrange(0, e2 as int);
    let mut start: usize = 0;
    proof {
        assert(s2.subrange(0, s2.len() as int) =~= s2);
    }
    loop
        invariant
            start <= e2 <= v@.len(),
            url_name(url@) == after_last_slash(v@.subrange(start as int, e2 as int)),
        decreases e2 - start,
    {
        let ghost cur = v@.subrange(start as int, e2 as int);
        proof {
            lemma_first_at(cur, '/');
        }
        match find_char_in(v.as_slice(), '/', start, e2) {
            Some(i) => {
                proof {
                    assert(cur.subrange((i - start) + 1, cur.len() as int) =~= v@.subrange(i + 1, e2 as int));
                }
                start = i + 1;
            },
            None => {
                return string_of(v.as_slice(), start, e2);
            },
        }
    }
}

/// The installed name: the registry's name, or the URL's.
pub fn install_name(url: &str, package_name: Option<&str>) -> (r: String)
    ensures
        r@ == match package_name {
            Some(n) => n@,
            None => url_name(url@),
        },
{
    match package_name {
        Some(n) => String::from_str(n),
        None => package_name_from_url(url),
    }
}

// ── Tags ──────────────────────────────────────────────────────────────────────

/// The second tab-separated field of a line, if it has one.
pub open spec fn second_field(line: Seq<char>) -> Option<Seq<char>> {
    match first_at(line, '\t') {
        Some(i) => {
            let rest = line.subrange(i + 1, line.len() as int);
            Some(
                match first_at(rest, '\t') {
                    Some(j) => rest.subrange(0, j),
                    None => rest,
                },
            )
        },
        None => None,
    }
}

/// The release tag that a line of `git ls-remote --tags` names, if it is a
/// version tag and not a peeled `^{}` entry.
pub open spec fn tag_of_line(line: Seq<char>) -> Option<Seq<char>> {
    match second_field(line) {
        Some(f) => if has_suffix(f, "^{}"@) {
            None
        } else {
            let t = strip_all_prefix(f, "refs/tags/"@);
            if semver_spec(t) { Some(t) } else { None }
        },
        None => None,
    }
}

pub open spec fn first_tag(ls: Seq<Seq<char>>) -> Option<Seq<char>>
    decreases ls.len(),
{
    if ls.len() == 0 {
        None
    } else {
        match tag_of_line(ls[0]) {
            Some(t) => Some(t),
            None => first_tag(ls.drop_first()),
        }
    }
}

fn line_tag(line: &str) -> (r: Option<String>)
    ensures
        opt_str(r) == tag_of_line(line@),
{
    let v = chars_of(line);
    let sl = v.as_slice();
    let n = v.len();
    proof {
        assert(sl@ == v@);
        assert(n == v@.len());
        assert(v@.subrange(0, v@.len() as int) =~= v@);
        lemma_first_at(v@, '\t');
    }
    let i = match find_char(sl, '\t', 0) {
        Some(i) => i,
        None => { return None; },
    };
    proof {
        assert(i < v@.len());
    }
    let ghost rest = v@.subrange(i + 1, v@.len() as int);
    proof {
        lemma_first_at(rest, '\t');
    }
    let end = match find_char(sl, '\t', i + 1) {
        Some(j) => j,
        None => v.len(),
    };
    proof {
        assert(i + 1 <= end <= v@.len());
    }
    let field = string_of(v.as_slice(), i + 1, end);
    proof {
        match first_at(rest, '\t') {
            Some(j) => {
                assert(rest.subrange(0, j) =~= v@.subrange(i + 1, end as int));
            },
            None => {
                assert(rest =~= v@.subrange(i + 1, end as int));
            },
        }
        assert(second_field(line@) == Some(field@));
    }
    let fv = chars_of(field.as_str());
    if ends_with(fv.as_slice(), "^{}") {
        return None;
    }
    let pre = chars_of("refs/tags/");
    let mut s: usize = 0;
    proof {
        assert(fv@.subrange(0, fv@.len() as int) =~= fv@);
    }
    while pre.len() <= fv.len() - s && prefix_at(fv.as_slice(), s, "refs/tags/")
        invariant
            s <= fv@.len(),
            pre@ == "refs/tags/"@,
            strip_all_prefix(field@, "refs/tags/"@) == strip_all_prefix(fv@.subrange(s as int, fv@.len() as int), "refs/tags/"@),
        decreases fv@.len() - s,
    {
        proof {
            reveal_strlit("refs/tags/");
            let cur = fv@.subrange(s as int, fv@.len() as int);
            assert(cur.subrange(10, cur.len() as int) =~= fv@.subrange(s + 10, fv@.len() as int));
        }
        s = s + pre.len();
    }
    proof {
        reveal_strlit("refs/tags/");
        let cur = fv@.subrange(s as int, fv@.len() as int);
        if s + 10 > fv@.len() {
            assert(!has_prefix(cur, "refs/tags/"@));
        }
    }
    let tag = string_of(fv.as_slice(), s, fv.len());
    if is_semver(tag.as_str()) {
        Some(tag)
    } else {
        None
    }
}

/// The first version tag that the output of `git ls-remote --tags
/// --sort=-version:refname` names: the latest release.
pub fn latest_tag(listing: &str) -> (r: Option<String>)
    ensures
        opt_str(r) == first_tag(lines_of(listing@)),
{
    let ls = split_lines(listing);
    let ghost lv = ls@.map_values(|x: String| x@);
    let mut i: usize = 0;
    proof {
        assert(lv.subrange(0, lv.len() as int) =~= lv);
    }
    while i < ls.len()
        invariant
            i <= ls@.len(),
            lv == ls@.map_values(|x: String| x@),
            lv == lines_of(listing@),
            first_tag(lv) == first_tag(lv.subrange(i as int, lv.len() as int)),
        decreases ls@.len() - i,
    {
        proof {
            let cur = lv.subrange(i as int, lv.len() as int);
            assert(cur[0] == ls@[i as int]@);
            assert(cur.drop_first() =~= lv.subrange(i + 1, lv.len() as int));
        }
        if let Some(t) = line_tag(ls[i].as_str()) {
            return Some(t);
        }
        i = i + 1;
    }
    proof {
        assert(lv.subrange(lv.len() as int, lv.len() as int) =~= Seq::<Seq<char>>::empty());
    }
    None
}

// ── The registry ──────────────────────────────────────────────────────────────

/// One package of the registry.
pub struct Package {
    pub name: String,
    pub description: Option<String>,
    pub version: Option<String>,
    pub git: Option<String>,
}

/// What fetching the registry gave.
pub enum Registry {
    /// It could not be fetched.
    Unreachable,
    /// It was fetched but is not a JSON object.
    Malformed,
    /// Its packages, in the order of its keys.
    Packages(Vec<Package>),
}

/// Text written to standard output and to standard error.
pub struct Printed {
    pub out: String,
    pub err: String,
}

/// How many bytes the UTF-8 encoding of a character takes.
pub open spec fn char_utf8_len(c: char) -> nat {
    if (c as u32) < 0x80 {
        1
    } else if (c as u32) < 0x800 {
        2
    } else if (c as u32) < 0x10000 {
        3
    } else {
        4
    }
}

/// How many bytes the UTF-8 encoding of a text takes.
pub open spec fn utf8_len(s: Seq<char>) -> nat
    decreases s.len(),
{
    if s.len() == 0 {
        0
    } else {
        utf8_len(s.drop_last()) + char_utf8_len(s.last())
    }
}

pub fn utf8_length(s: &str) -> (r: usize)
    requires
        utf8_len(s@) <= usize::MAX,
    ensures
        r == utf8_len(s@),
{
    let v = chars_of(s);
    let mut n: usize = 0;
    let mut i: usize = 0;
    while i < v.len()
        invariant
            i <= v@.len(),
            v@ == s@,
            utf8_len(s@) <= usize::MAX,
            n == utf8_len(v@.subrange(0, i as int)),
        decreases v@.len() - i,
    {
        proof {
            assert(v@.subrange(0, i + 1).drop_last() =~= v@.subrange(0, i as int));
            lemma_utf8_len_prefix(v@, i + 1);
        }
        let c = v[i];
        let w: usize = if (c as u32) < 0x80 { 1 } else if (c as u32) < 0x800 { 2 } else if (c as u32) < 0x10000 { 3 } else { 4 };
        n = n + w;
        i = i + 1;
    }
    proof {
        assert(v@.subrange(0, v@.len() as int) =~= v@);
    }
    n
}

pub proof fn lemma_utf8_len_prefix(s: Seq<char>, k: int)
    requires
        0 <= k <= s.len(),
    ensures
        utf8_len(s.subrange(0, k)) <= utf8_len(s),
    decreases s.len() - k,
{
    if k < s.len() {
        lemma_utf8_len_prefix(s, k + 1);
        assert(s.subrange(0, k + 1).drop_last() =~= s.subrange(0, k));
    } else {
        assert(s.subrange(0, k) =~= s);
    }
}

/// `n` spaces.
pub open spec fn spaces(n: nat) -> Seq<char>
    decreases n,
{
    if n == 0 { Seq::empty() } else { spaces((n - 1) as nat).push(' ') }
}

/// The text padded with spaces on the right to `w` characters.
pub open spec fn pad_right(s: Seq<char>, w: nat) -> Seq<char> {
    if s.len() < w { s + spaces((w - s.len()) as nat) } else { s }
}

/// The widest name, counted in bytes.
pub open spec fn name_width(ps: Seq<Package>) -> nat
    decreases ps.len(),
{
    if ps.len() == 0 {
        0
    } else {
        let w = name_width(ps.drop_last());
        let l = utf8_len(ps.last().name@);
        if l > w { l } else { w }
    }
}

pub open spec fn or_text(o: Option<String>, d: Seq<char>) -> Seq<char> {
    match o {
        Some(s) => s@,
        None => d,
    }
}

pub open spec fn package_line(p: Package, w: nat) -> Seq<char> {
    "    "@ + pad_right(p.name@, w) + "  "@ + or_text(p.version, "?"@) + "  \u{2014} "@
        + or_text(p.description, "No description."@) + "\n"@
}

pub open spec fn package_lines(ps: Seq<Package>, w: nat) -> Seq<char>
    decreases ps.len(),
{
    if ps.len() == 0 {
        Seq::empty()
    } else {
        package_lines(ps.drop_last(), w) + package_line(ps.last(), w)
    }
}

pub open spec fn listing_head() -> Seq<char> {
    "  Fetching package list...\n\n"@
}

pub open spec fn listing_tail() -> Seq<char> {
    "\n  Install with:  add <name>\n  Version pin:   add <name>@<version>\n  From URL:      add <https://github.com/...>\n\n"@
}

pub open spec fn unreachable_text() -> Seq<char> {
    "  Could not reach the Bullarchy registry.\n  Check your internet connection or visit:\n  https://github.com/The-Bullang-Foundation/Bullarchy-registery\n"@
}

/// What listing the registry prints.
pub open spec fn listing(reg: Registry) -> (Seq<char>, Seq<char>) {
    match reg {
        Registry::Unreachable => (listing_head(), unreachable_text()),
        Registry::Malformed => (listing_head(), "  Registry format error.\n"@),
        Registry::Packages(ps) => if ps@.len() == 0 {
            (listing_head() + "  No packages available yet.\n"@, Seq::empty())
        } else {
            (listing_head() + "  Available packages:\n\n"@ + package_lines(ps@, name_width(ps@)) + listing_tail(), Seq::empty())
        },
    }
}

fn pad_to(s: &mut String, name: &str, w: usize)
    ensures
        final(s)@ == old(s)@ + pad_right(name@, w as nat),
{
    s.append(name);
    let n = name.unicode_len();
    let ghost s0 = old(s)@ + name@;
    if n < w {
        let mut k: usize = 0;
        while k < w - n
            invariant
                n == name@.len(),
                n < w,
                k <= w - n,
                s@ == s0 + spaces(k as nat),
            decreases w - n - k,
        {
            push_char(s, ' ');
            proof {
                assert(s0 + spaces((k + 1) as nat) =~= (s0 + spaces(k as nat)).push(' '));
            }
            k = k + 1;
        }
        proof {
            assert(s0 + spaces((w - n) as nat) =~= old(s)@ + (name@ + spaces((w - name@.len()) as nat)));
        }
    } else {
        proof {
            assert(s@ == old(s)@ + name@);
        }
    }
}

fn push_package_line(out: &mut String, p: &Package, w: usize)
    ensures
        final(out)@ == old(out)@ + package_line(*p, w as nat),
{
    out.append("    ");
    pad_to(out, p.name.as_str(), w);
    out.append("  ");
    match &p.version {
        Some(v) => out.append(v.as_str()),
        None => out.append("?"),
    }
    out.append("  \u{2014} ");
    match &p.description {
        Some(d) => out.append(d.as_str()),
        None => out.append("No description."),
    }
    out.append("\n");
    proof {
        assert(out@ =~= old(out)@ + package_line(*p, w as nat));
    }
}

/// What `add` with no argument prints for what fetching the registry gave:
/// each package with its version and description, names padded to the
/// widest name.
pub fn list_packages(reg: &Registry) -> (r: Printed)
    requires
        reg matches Registry::Packages(ps) ==> name_width(ps@) <= usize::MAX,
    ensures
        (r.out@, r.err@) == listing(*reg),
{
    let mut out = String::from_str("  Fetching package list...\n\n");
    match reg {
        Registry::Unreachable => {
            let err = String::from_str(
                "  Could not reach the Bullarchy registry.\n  Check your internet connection or visit:\n  https://github.com/The-Bullang-Foundation/Bullarchy-registery\n",
            );
            Printed { out, err }
        },
        Registry::Malformed => Printed { out, err: String::from_str("  Registry format error.\n") },
        Registry::Packages(ps) => {
            if ps.len() == 0 {
                out.append("  No packages available yet.\n");
                return Printed { out, err: String::new() };
            }
            let mut w: usize = 0;
            let mut i: usize = 0;
            while i < ps.len()
                invariant
                    i <= ps@.len(),
                    name_width(ps@) <= usize::MAX,
                    w == name_width(ps@.subrange(0, i as int)),
                decreases ps@.len() - i,
            {
                proof {
                    assert(ps@.subrange(0, i + 1).drop_last() =~= ps@.subrange(0, i as int));
                    lemma_name_width_prefix(ps@, i + 1);
                    lemma_utf8_le_width(ps@.subrange(0, i + 1));
                }
                let l = utf8_length(ps[i].name.as_str());
                if l > w {
                    w = l;
                }
                i = i + 1;
            }
            proof {
                assert(ps@.subrange(0, ps@.len() as int) =~= ps@);
            }
            out.append("  Available packages:\n\n");
            let ghost o0 = out@;
            let mut j: usize = 0;
            proof {
                assert(o0 + package_lines(ps@.subrange(0, 0), w as nat) =~= o0);
            }
            while j < ps.len()
                invariant
                    j <= ps@.len(),
                    w == name_width(ps@),
                    out@ == o0 + package_lines(ps@.subrange(0, j as int), w as nat),
                decreases ps@.len() - j,
            {
                let ghost before = out@;
                push_package_line(&mut out, &ps[j], w);
                proof {
                    assert(ps@.subrange(0, j + 1).drop_last() =~= ps@.subrange(0, j as int));
                }
                j = j + 1;
            }
            proof {
                assert(ps@.subrange(0, ps@.len() as int) =~= ps@);
            }
            out.append("\n  Install with:  add <name>\n  Version pin:   add <name>@<version>\n  From URL:      add <https://github.com/...>\n\n");
            Printed { out, err: String::new() }
        },
    }
}

pub proof fn lemma_name_width_prefix(ps: Seq<Package>, k: int)
    requires
        0 <= k <= ps.len(),
    ensures
        name_width(ps.subrange(0, k)) <= name_width(ps),
    decreases ps.len() - k,
{
    if k < ps.len() {
        lemma_name_width_prefix(ps, k + 1);
        assert(ps.subrange(0, k + 1).drop_last() =~= ps.subrange(0, k));
    } else {
        assert(ps.subrange(0, k) =~= ps);
    }
}

pub proof fn lemma_utf8_le_width(ps: Seq<Package>)
    requires
        ps.len() > 0,
    ensures
        utf8_len(ps.last().name@) <= name_width(ps),
{
}

/// The git URL of a registry package, or the message for why there is none.
pub open spec fn registry_git(reg: Registry, name: Seq<char>) -> Result<Seq<char>, Seq<char>> {
    match reg {
        Registry::Unreachable => Err("  Could not reach the Bullarchy registry."@),
        Registry::Malformed => Err("  Unknown package '"@ + name + "'. Run 'add' to see available packages."@),
        Registry::Packages(ps) => match first_package(ps@, name) {
            None => Err("  Unknown package '"@ + name + "'. Run 'add' to see available packages."@),
            Some(k) => match ps@[k].git {
                Some(g) => Ok(g@),
                None => Err("  Registry entry for '"@ + name + "' has no git URL."@),
            },
        },
    }
}

pub open spec fn first_package(ps: Seq<Package>, name: Seq<char>) -> Option<int>
    decreases ps.len(),
{
    if ps.len() == 0 {
        None
    } else if ps[0].name@ == name {
        Some(0)
    } else {
        match first_package(ps.drop_first(), name) {
            Some(i) => Some(i + 1),
            None => None,
        }
    }
}

/// Finds the git URL to install a registry package from.
pub fn install_from_registry(reg: &Registry, name: &str) -> (r: Result<String, String>)
    ensures
        match (r, registry_git(*reg, name@)) {
            (Ok(a), Ok(b)) => a@ == b,
            (Err(a), Err(b)) => a@ == b,
            _ => false,
        },
{
    let unknown = || -> (m: String)
        ensures
            m@ == "  Unknown package '"@ + name@ + "'. Run 'add' to see available packages."@,
    {
        let mut m = String::from_str("  Unknown package '");
        m.append(name);
        m.append("'. Run 'add' to see available packages.");
        m
    };
    match reg {
        Registry::Unreachable => Err(String::from_str("  Could not reach the Bullarchy registry.")),
        Registry::Malformed => Err(unknown()),
        Registry::Packages(ps) => {
            let key = String::from_str(name);
            let mut i: usize = 0;
            proof {
                assert(ps@.subrange(0, ps@.len() as int) =~= ps@);
            }
            while i < ps.len()
                invariant
                    i <= ps@.len(),
                    key@ == name@,
                    *reg == Registry::Packages(*ps),
                    first_package(ps@, name@) == match first_package(ps@.subrange(i as int, ps@.len() as int), name@) {
                        Some(j) => Some(j + i),
                        None => None,
                    },
                decreases ps@.len() - i,
            {
                proof {
                    let rest = ps@.subrange(i as int, ps@.len() as int);
                    assert(rest[0] == ps@[i as int]);
                    assert(rest.drop_first() =~= ps@.subrange(i + 1, ps@.len() as int));
                }
                if ps[i].name == key {
                    proof {
                        assert(first_package(ps@.subrange(i as int, ps@.len() as int), name@) == Some(0int));
                        assert(first_package(ps@, name@) == Some(i as int));
                    }
                    match &ps[i].git {
                        Some(g) => {
                            let r = g.clone();
                            proof {
                                assert(registry_git(*reg, name@) == Ok::<Seq<char>, Seq<char>>(g@));
                            }
                            return Ok(r);
                        },
                        None => {
                            let mut m = String::from_str("  Registry entry for '");
                            m.append(name);
                            m.append("' has no git URL.");
                            proof {
                                assert(registry_git(*reg, name@) == Err::<Seq<char>, Seq<char>>(m@));
                            }
                            return Err(m);
                        },
                    }
                }
                i = i + 1;
            }
            Err(unknown())
        },
    }
}

/// The `git` arguments that fetch one release of a package from its
/// repository into `dest`: a shallow clone of the tag.
pub fn clone_args(url: &str, version: &str, dest: &str) -> (r: Vec<String>)
    ensures
        name_seq(r@) == seq!["clone"@, "--depth"@, "1"@, "--branch"@, version@, url@, dest@],
{
    let r = lit_strings(vec!["clone", "--depth", "1", "--branch", version, url, dest]);
    proof {
        assert(name_seq(r@) =~= seq!["clone"@, "--depth"@, "1"@, "--branch"@, version@, url@, dest@]);
    }
    r
}

/// The `git` arguments that list a repository's tags, newest version first.
pub fn tag_listing_args(url: &str) -> (r: Vec<String>)
    ensures
        name_seq(r@) == seq!["ls-remote"@, "--tags"@, "--sort=-version:refname"@, url@],
{
    let r = lit_strings(vec!["ls-remote", "--tags", "--sort=-version:refname", url]);
    proof {
        assert(name_seq(r@) =~= seq!["ls-remote"@, "--tags"@, "--sort=-version:refname"@, url@]);
    }
    r
}


/// `add <source>@<version>`: the source is the text before the `@` and the
/// version, kept, is the text after it. A source that is not an http(s) URL
/// names a registry package, installed at that version.
pub proof fn law_pinned_version_kept(args: Seq<Seq<char>>, src: Seq<char>, ver: Seq<char>)
    requires
        args.len() > 0,
        args[0] == src + seq!['@'] + ver,
        !src.contains('@'),
    ensures
        !is_url(src) ==> add_spec(args) == AddV::FromRegistry(src, Some(ver)),
        is_url(src) ==> add_spec(args) == AddV::FromUrl(src, Some(ver)),
{
    let s = args[0];
    lemma_first_at(s, '@');
    assert(s[src.len() as int] == '@');
    match first_at(s, '@') {
        Some(i) => {
            if i < src.len() {
                assert(s[i] == src[i]);
                assert(src.contains('@'));
            }
            if i > src.len() {
                assert(s.subrange(0, i)[src.len() as int] == '@');
            }
            assert(i == src.len());
            assert(s.subrange(0, i) =~= src);
            assert(s.subrange(i + 1, s.len() as int) =~= ver);
        },
        None => {
            assert(s.contains('@'));
        },
    }
}


/// `add` with no argument lists the registry; an argument without `@` pins
/// no version and is the source whole.
pub proof fn law_unpinned_source(args: Seq<Seq<char>>)
    ensures
        args.len() == 0 ==> add_spec(args) == AddV::List,
        args.len() > 0 && !args[0].contains('@') && !is_url(args[0]) ==> add_spec(args) == AddV::FromRegistry(args[0], None),
        args.len() > 0 && !args[0].contains('@') && is_url(args[0]) ==> add_spec(args) == AddV::FromUrl(args[0], None),
{
    if args.len() > 0 {
        lemma_first_at(args[0], '@');
        if let Some(i) = first_at(args[0], '@') {
            if !args[0].contains('@') {
                assert(args[0][i] == '@');
            }
        }
    }
}

} // verus!
