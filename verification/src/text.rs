//! Character-level text helpers shared by every pass: building strings,
//! decimal numbers, whitespace, prefixes and suffixes.
use vstd::prelude::*;
use crate::ast::{digit_char, nat_decimal, int_decimal};

verus! {

/// Appends one character (`String::push`).
#[verifier::external_body]
pub fn push_char(s: &mut String, c: char)
    ensures
        final(s)@ == old(s)@.push(c),
{
    s.push(c);
}

/// Appends a string (`String::push_str` through `append`).
pub fn push_str(s: &mut String, t: &str)
    ensures
        final(s)@ == old(s)@ + t@,
{
    s.append(t);
}

pub fn digit(d: u64) -> (c: char)
    requires
        d < 10,
    ensures
        c == digit_char(d as nat),
{
    if d == 0 { '0' } else if d == 1 { '1' } else if d == 2 { '2' } else if d == 3 { '3' }
    else if d == 4 { '4' } else if d == 5 { '5' } else if d == 6 { '6' } else if d == 7 { '7' }
    else if d == 8 { '8' } else { '9' }
}

/// Decimal text of an unsigned number.
pub fn u64_to_string(n: u64) -> (r: String)
    ensures
        r@ == nat_decimal(n as nat),
    decreases n,
{
    if n < 10 {
        let mut s = String::new();
        push_char(&mut s, digit(n));
        s
    } else {
        let mut s = u64_to_string(n / 10);
        push_char(&mut s, digit(n % 10));
        s
    }
}

pub fn usize_to_string(n: usize) -> (r: String)
    ensures
        r@ == nat_decimal(n as nat),
{
    u64_to_string(n as u64)
}

/// Decimal text of a signed number.
pub fn i64_to_string(n: i64) -> (r: String)
    ensures
        r@ == int_decimal(n as int),
{
    if n < 0 {
        let m: u64 = if n == i64::MIN { 9223372036854775808u64 } else { (-n) as u64 };
        let mut s = String::new();
        push_char(&mut s, '-');
        let t = u64_to_string(m);
        s.append(t.as_str());
        s
    } else {
        u64_to_string(n as u64)
    }
}

/// The characters of a string.
pub fn chars_of(s: &str) -> (r: Vec<char>)
    ensures
        r@ == s@,
{
    let n = s.unicode_len();
    let mut v: Vec<char> = Vec::new();
    let mut i: usize = 0;
    while i < n
        invariant
            n == s@.len(),
            i <= n,
            v@ == s@.subrange(0, i as int),
        decreases n - i,
    {
        v.push(s.get_char(i));
        i = i + 1;
    }
    v
}

/// The string made of a run of characters.
pub fn string_of(v: &[char], from: usize, to: usize) -> (r: String)
    requires
        from <= to <= v@.len(),
    ensures
        r@ == v@.subrange(from as int, to as int),
{
    let mut s = String::new();
    let mut i = from;
    while i < to
        invariant
            from <= i <= to <= v@.len(),
            s@ == v@.subrange(from as int, i as int),
        decreases to - i,
    {
        push_char(&mut s, v[i]);
        i = i + 1;
    }
    s
}

/// `char::is_whitespace`: the Unicode White_Space property.
pub open spec fn is_ws(c: char) -> bool {
    ||| c == ' ' || c == '\t' || c == '\n' || c == '\r' || c == '\x0B' || c == '\x0C'
    ||| c == '\u{85}' || c == '\u{A0}' || c == '\u{1680}'
    ||| ('\u{2000}' <= c && c <= '\u{200A}')
    ||| c == '\u{2028}' || c == '\u{2029}' || c == '\u{202F}' || c == '\u{205F}' || c == '\u{3000}'
}

pub fn is_whitespace(c: char) -> (r: bool)
    ensures
        r == is_ws(c),
{
    c == ' ' || c == '\t' || c == '\n' || c == '\r' || c == '\x0B' || c == '\x0C'
        || c == '\u{85}' || c == '\u{A0}' || c == '\u{1680}'
        || ('\u{2000}' <= c && c <= '\u{200A}')
        || c == '\u{2028}' || c == '\u{2029}' || c == '\u{202F}' || c == '\u{205F}' || c == '\u{3000}'
}

/// The text with every whitespace character taken out
/// (`split_whitespace().collect::<String>()`).
pub open spec fn strip_ws(s: Seq<char>) -> Seq<char>
    decreases s.len(),
{
    if s.len() == 0 {
        Seq::empty()
    } else if is_ws(s.last()) {
        strip_ws(s.drop_last())
    } else {
        strip_ws(s.drop_last()).push(s.last())
    }
}

pub fn remove_whitespace(s: &str) -> (r: String)
    ensures
        r@ == strip_ws(s@),
{
    let v = chars_of(s);
    let mut out = String::new();
    let mut i: usize = 0;
    while i < v.len()
        invariant
            v@ == s@,
            i <= v@.len(),
            out@ == strip_ws(v@.subrange(0, i as int)),
        decreases v@.len() - i,
    {
        proof {
            assert(v@.subrange(0, i + 1).drop_last() == v@.subrange(0, i as int));
        }
        if !is_whitespace(v[i]) {
            push_char(&mut out, v[i]);
        }
        i = i + 1;
    }
    proof {
        assert(v@.subrange(0, v@.len() as int) == v@);
    }
    out
}

/// Whether `s` begins with `p`.
pub open spec fn has_prefix(s: Seq<char>, p: Seq<char>) -> bool {
    p.len() <= s.len() && s.subrange(0, p.len() as int) == p
}

/// Whether `s` ends with `p`.
pub open spec fn has_suffix(s: Seq<char>, p: Seq<char>) -> bool {
    p.len() <= s.len() && s.subrange(s.len() - p.len(), s.len() as int) == p
}

pub fn starts_with(s: &[char], p: &str) -> (r: bool)
    ensures
        r == has_prefix(s@, p@),
{
    let pv = chars_of(p);
    if pv.len() > s.len() {
        return false;
    }
    let mut i: usize = 0;
    while i < pv.len()
        invariant
            pv@ == p@,
            pv@.len() <= s@.len(),
            i <= pv@.len(),
            forall|j: int| 0 <= j < i ==> s@[j] == pv@[j],
        decreases pv@.len() - i,
    {
        if s[i] != pv[i] {
            proof {
                assert(s@.subrange(0, pv@.len() as int)[i as int] != p@[i as int]);
            }
            return false;
        }
        i = i + 1;
    }
    proof {
        assert(s@.subrange(0, pv@.len() as int) =~= p@);
    }
    true
}

pub fn ends_with(s: &[char], p: &str) -> (r: bool)
    ensures
        r == has_suffix(s@, p@),
{
    let pv = chars_of(p);
    if pv.len() > s.len() {
        return false;
    }
    let off = s.len() - pv.len();
    let mut i: usize = 0;
    while i < pv.len()
        invariant
            pv@ == p@,
            pv@.len() <= s@.len(),
            off == s@.len() - pv@.len(),
            s@.len() <= usize::MAX,
            i <= pv@.len(),
            forall|j: int| 0 <= j < i ==> s@[off + j] == pv@[j],
        decreases pv@.len() - i,
    {
        if s[off + i] != pv[i] {
            proof {
                assert(s@.subrange(off as int, s@.len() as int)[i as int] != p@[i as int]);
            }
            return false;
        }
        i = i + 1;
    }
    proof {
        assert(s@.subrange(off as int, s@.len() as int) =~= p@);
    }
    true
}

/// Whether two character runs are equal.
pub fn chars_eq(a: &[char], b: &[char]) -> (r: bool)
    ensures
        r == (a@ == b@),
{
    if a.len() != b.len() {
        return false;
    }
    let mut i: usize = 0;
    while i < a.len()
        invariant
            a@.len() == b@.len(),
            i <= a@.len(),
            forall|j: int| 0 <= j < i ==> a@[j] == b@[j],
        decreases a@.len() - i,
    {
        if a[i] != b[i] {
            return false;
        }
        i = i + 1;
    }
    proof {
        assert(a@ =~= b@);
    }
    true
}

/// Whether the text equals a literal.
pub fn str_is(s: &str, lit: &str) -> (r: bool)
    ensures
        r == (s@ == lit@),
{
    let a = String::from_str(s);
    let b = String::from_str(lit);
    a == b
}

/// Whitespace taken off the front.
pub open spec fn trim_start_seq(s: Seq<char>) -> Seq<char>
    decreases s.len(),
{
    if s.len() > 0 && is_ws(s[0]) { trim_start_seq(s.drop_first()) } else { s }
}

/// Whitespace taken off the back.
pub open spec fn trim_end_seq(s: Seq<char>) -> Seq<char>
    decreases s.len(),
{
    if s.len() > 0 && is_ws(s.last()) { trim_end_seq(s.drop_last()) } else { s }
}

/// `str::trim`: whitespace taken off both ends.
pub open spec fn trim_seq(s: Seq<char>) -> Seq<char> {
    trim_end_seq(trim_start_seq(s))
}

/// Bounds of the trimmed run inside `v[from..to]`.
pub fn trim_bounds(v: &[char], from: usize, to: usize) -> (r: (usize, usize))
    requires
        from <= to <= v@.len(),
    ensures
        from <= r.0 <= r.1 <= to,
        v@.subrange(r.0 as int, r.1 as int) == trim_seq(v@.subrange(from as int, to as int)),
{
    let mut a = from;
    while a < to && is_whitespace(v[a])
        invariant
            from <= a <= to <= v@.len(),
            trim_start_seq(v@.subrange(from as int, to as int)) == trim_start_seq(v@.subrange(a as int, to as int)),
        decreases to - a,
    {
        proof {
            assert(v@.subrange(a as int, to as int).drop_first() =~= v@.subrange(a + 1, to as int));
        }
        a = a + 1;
    }
    let mut b = to;
    while b > a && is_whitespace(v[b - 1])
        invariant
            from <= a <= b <= to <= v@.len(),
            trim_seq(v@.subrange(from as int, to as int)) == trim_end_seq(v@.subrange(a as int, b as int)),
        decreases b - a,
    {
        proof {
            assert(v@.subrange(a as int, b as int).drop_last() =~= v@.subrange(a as int, b - 1));
        }
        b = b - 1;
    }
    (a, b)
}

/// The run `v[from..to]` with whitespace taken off both ends.
pub fn trim_chars(v: &[char], from: usize, to: usize) -> (r: String)
    requires
        from <= to <= v@.len(),
    ensures
        r@ == trim_seq(v@.subrange(from as int, to as int)),
{
    let (a, b) = trim_bounds(v, from, to);
    string_of(v, a, b)
}

/// What `char::to_uppercase` gives for a character: one or more characters,
/// by the Unicode tables of the standard library.
pub uninterp spec fn upper_of(c: char) -> Seq<char>;

/// `char::to_uppercase`, collected. For `a` to `z` the result is the one
/// matching capital letter, as its documentation states for ASCII.
#[verifier::external_body]
pub fn char_to_upper(c: char) -> (r: String)
    ensures
        r@ == upper_of(c),
        'a' <= c <= 'z' ==> r@ == seq![((c as u32) - 32) as char],
{
    c.to_uppercase().collect::<String>()
}

/// The text with its first character in upper case.
pub open spec fn capitalized(s: Seq<char>) -> Seq<char> {
    if s.len() == 0 {
        s
    } else {
        upper_of(s[0]) + s.drop_first()
    }
}

pub fn capitalize(s: &str) -> (r: String)
    ensures
        r@ == capitalized(s@),
        s@.len() > 0 && 'a' <= s@[0] <= 'z' ==> r@ == seq![((s@[0] as u32) - 32) as char] + s@.drop_first(),
{
    let v = chars_of(s);
    if v.len() == 0 {
        return String::new();
    }
    let mut r = char_to_upper(v[0]);
    let rest = string_of(v.as_slice(), 1, v.len());
    r.append(rest.as_str());
    proof {
        assert(v@.subrange(1, v@.len() as int) =~= s@.drop_first());
    }
    r
}

/// Index of the first occurrence of `c`.
pub open spec fn first_at(s: Seq<char>, c: char) -> Option<int>
    decreases s.len(),
{
    if s.len() == 0 {
        None
    } else if s[0] == c {
        Some(0)
    } else {
        match first_at(s.drop_first(), c) {
            Some(i) => Some(i + 1),
            None => None,
        }
    }
}

pub proof fn lemma_first_at(s: Seq<char>, c: char)
    ensures
        first_at(s, c) matches Some(i) ==> 0 <= i < s.len() && s[i] == c && !s.subrange(0, i).contains(c),
        first_at(s, c) is None ==> !s.contains(c),
    decreases s.len(),
{
    if s.len() > 0 {
        lemma_first_at(s.drop_first(), c);
        if let Some(i) = first_at(s, c) {
            if i > 0 {
                assert forall|j: int| 0 <= j < i implies s.subrange(0, i)[j] != c by {
                    if j > 0 {
                        assert(s.subrange(0, i)[j] == s.drop_first().subrange(0, i - 1)[j - 1]);
                    }
                }
            }
        } else {
            assert forall|j: int| 0 <= j < s.len() implies s[j] != c by {
                if j > 0 {
                    assert(s[j] == s.drop_first()[j - 1]);
                }
            }
        }
    }
}

/// Position of the first `c` at or after `from`.
pub fn find_char(v: &[char], c: char, from: usize) -> (r: Option<usize>)
    requires
        from <= v@.len(),
    ensures
        match first_at(v@.subrange(from as int, v@.len() as int), c) {
            Some(i) => r == Some((from + i) as usize),
            None => r is None,
        },
{
    let mut i = from;
    while i < v.len()
        invariant
            from <= i <= v@.len(),
            first_at(v@.subrange(from as int, v@.len() as int), c) == match first_at(v@.subrange(i as int, v@.len() as int), c) {
                Some(j) => Some(j + (i - from)),
                None => None,
            },
        decreases v@.len() - i,
    {
        proof {
            let rest = v@.subrange(i as int, v@.len() as int);
            assert(rest[0] == v@[i as int]);
            assert(rest.drop_first() =~= v@.subrange(i + 1, v@.len() as int));
        }
        if v[i] == c {
            return Some(i);
        }
        i = i + 1;
    }
    None
}

/// A line without the `\r` of a `\r\n` ending.
pub open spec fn drop_cr(l: Seq<char>) -> Seq<char> {
    if l.len() > 0 && l.last() == '\r' { l.drop_last() } else { l }
}

/// The lines of a text as `str::lines` gives them: split at `\n` (a `\r`
/// before it dropped), with no empty line after a final `\n`.
pub open spec fn lines_of(s: Seq<char>) -> Seq<Seq<char>>
    decreases s.len(),
{
    if s.len() == 0 {
        Seq::empty()
    } else {
        match first_at(s, '\n') {
            Some(i) => if 0 <= i < s.len() {
                seq![drop_cr(s.subrange(0, i))] + lines_of(s.subrange(i + 1, s.len() as int))
            } else {
                seq![s]
            },
            None => seq![s],
        }
    }
}

pub fn split_lines(s: &str) -> (r: Vec<String>)
    ensures
        r@.map_values(|x: String| x@) == lines_of(s@),
{
    let v = chars_of(s);
    let mut out: Vec<String> = Vec::new();
    let mut start: usize = 0;
    proof {
        assert(v@.subrange(0, v@.len() as int) =~= v@);
        assert(out@.map_values(|x: String| x@) + lines_of(v@) =~= lines_of(v@));
    }
    while start < v.len()
        invariant
            v@ == s@,
            start <= v@.len(),
            lines_of(s@) == out@.map_values(|x: String| x@) + lines_of(v@.subrange(start as int, v@.len() as int)),
        decreases v@.len() - start,
    {
        let ghost rest = v@.subrange(start as int, v@.len() as int);
        proof {
            lemma_first_at(rest, '\n');
        }
        let ghost before = out@.map_values(|x: String| x@);
        match find_char(v.as_slice(), '\n', start) {
            Some(i) => {
                let mut end = i;
                if end > start && v[end - 1] == '\r' {
                    end = end - 1;
                }
                let line = string_of(v.as_slice(), start, end);
                proof {
                    let ii = (i - start) as int;
                    assert(rest.subrange(0, ii) =~= v@.subrange(start as int, i as int));
                    assert(line@ == drop_cr(rest.subrange(0, ii)));
                    assert(rest.subrange(ii + 1, rest.len() as int) =~= v@.subrange(i + 1, v@.len() as int));
                }
                out.push(line);
                proof {
                    assert(out@.map_values(|x: String| x@) =~= before.push(line@));
                    assert(before.push(line@) + lines_of(v@.subrange(i + 1, v@.len() as int))
                        =~= before + (seq![line@] + lines_of(v@.subrange(i + 1, v@.len() as int))));
                }
                start = i + 1;
            },
            None => {
                let line = string_of(v.as_slice(), start, v.len());
                out.push(line);
                proof {
                    assert(out@.map_values(|x: String| x@) =~= before.push(rest));
                    assert(v@.subrange(v@.len() as int, v@.len() as int) =~= Seq::<char>::empty());
                    assert(before.push(rest) + Seq::<Seq<char>>::empty() =~= before + seq![rest]);
                }
                start = v.len();
            },
        }
    }
    proof {
        assert(v@.subrange(v@.len() as int, v@.len() as int) =~= Seq::<char>::empty());
        assert(out@.map_values(|x: String| x@) + Seq::<Seq<char>>::empty() =~= out@.map_values(|x: String| x@));
    }
    out
}

/// Position of the first `c` in `from..to`.
pub fn find_char_in(v: &[char], c: char, from: usize, to: usize) -> (r: Option<usize>)
    requires
        from <= to <= v@.len(),
    ensures
        match first_at(v@.subrange(from as int, to as int), c) {
            Some(i) => r == Some((from + i) as usize),
            None => r is None,
        },
{
    let mut i = from;
    while i < to
        invariant
            from <= i <= to <= v@.len(),
            first_at(v@.subrange(from as int, to as int), c) == match first_at(v@.subrange(i as int, to as int), c) {
                Some(j) => Some(j + (i - from)),
                None => None,
            },
        decreases to - i,
    {
        proof {
            let rest = v@.subrange(i as int, to as int);
            assert(rest[0] == v@[i as int]);
            assert(rest.drop_first() =~= v@.subrange(i + 1, to as int));
        }
        if v[i] == c {
            return Some(i);
        }
        i = i + 1;
    }
    None
}

/// Whether `v[start..]` starts with `p`.
pub fn prefix_at(v: &[char], start: usize, p: &str) -> (r: bool)
    requires
        start <= v@.len(),
    ensures
        r == has_prefix(v@.subrange(start as int, v@.len() as int), p@),
{
    let pv = chars_of(p);
    if pv.len() > v.len() - start {
        return false;
    }
    let mut i: usize = 0;
    while i < pv.len()
        invariant
            pv@ == p@,
            start <= v@.len(),
            v@.len() <= usize::MAX,
            start + pv@.len() <= v@.len(),
            i <= pv@.len(),
            forall|j: int| 0 <= j < i ==> v@[start + j] == pv@[j],
        decreases pv@.len() - i,
    {
        if v[start + i] != pv[i] {
            proof {
                assert(v@.subrange(start as int, v@.len() as int).subrange(0, pv@.len() as int)[i as int] != p@[i as int]);
            }
            return false;
        }
        i = i + 1;
    }
    proof {
        assert(v@.subrange(start as int, v@.len() as int).subrange(0, pv@.len() as int) =~= p@);
    }
    true
}

/// Whether `v[..end]` ends with `p`.
pub fn suffix_at(v: &[char], end: usize, p: &str) -> (r: bool)
    requires
        end <= v@.len(),
    ensures
        r == has_suffix(v@.subrange(0, end as int), p@),
{
    let pv = chars_of(p);
    if pv.len() > end {
        return false;
    }
    let off = end - pv.len();
    let mut i: usize = 0;
    while i < pv.len()
        invariant
            pv@ == p@,
            pv@.len() <= end <= v@.len(),
            off == end - pv@.len(),
            i <= pv@.len(),
            forall|j: int| 0 <= j < i ==> v@[off + j] == pv@[j],
        decreases pv@.len() - i,
    {
        if v[off + i] != pv[i] {
            proof {
                assert(v@.subrange(0, end as int).subrange(off as int, end as int)[i as int] != p@[i as int]);
            }
            return false;
        }
        i = i + 1;
    }
    proof {
        assert(v@.subrange(0, end as int).subrange(off as int, end as int) =~= p@);
    }
    true
}

pub proof fn lemma_trim_start_len(s: Seq<char>)
    ensures
        trim_start_seq(s).len() <= s.len(),
    decreases s.len(),
{
    if s.len() > 0 {
        lemma_trim_start_len(s.drop_first());
    }
}

pub proof fn lemma_trim_end_len(s: Seq<char>)
    ensures
        trim_end_seq(s).len() <= s.len(),
    decreases s.len(),
{
    if s.len() > 0 {
        lemma_trim_end_len(s.drop_last());
    }
}

pub proof fn lemma_trim_len(s: Seq<char>)
    ensures
        trim_seq(s).len() <= s.len(),
{
    lemma_trim_start_len(s);
    lemma_trim_end_len(trim_start_seq(s));
}

pub proof fn lemma_strip_ws_len(s: Seq<char>)
    ensures
        strip_ws(s).len() <= s.len(),
    decreases s.len(),
{
    if s.len() > 0 {
        lemma_strip_ws_len(s.drop_last());
    }
}

/// Index of the first `->`.
pub open spec fn find_arrow(s: Seq<char>) -> Option<int>
    decreases s.len(),
{
    if s.len() < 2 {
        None
    } else if s[0] == '-' && s[1] == '>' {
        Some(0)
    } else {
        match find_arrow(s.drop_first()) {
            Some(i) => Some(i + 1),
            None => None,
        }
    }
}

pub proof fn lemma_find_arrow(s: Seq<char>)
    ensures
        find_arrow(s) matches Some(i) ==> 0 <= i && i + 2 <= s.len(),
    decreases s.len(),
{
    if s.len() >= 2 {
        lemma_find_arrow(s.drop_first());
    }
}

/// Position of the first `->` in `v[from..to]`.
pub fn find_arrow_in(v: &[char], from: usize, to: usize) -> (r: Option<usize>)
    requires
        from <= to <= v@.len(),
    ensures
        match find_arrow(v@.subrange(from as int, to as int)) {
            Some(i) => r == Some((from + i) as usize),
            None => r is None,
        },
{
    let mut i = from;
    while to - i >= 2
        invariant
            from <= i <= to <= v@.len(),
            find_arrow(v@.subrange(from as int, to as int)) == match find_arrow(v@.subrange(i as int, to as int)) {
                Some(j) => Some(j + (i - from)),
                None => None,
            },
        decreases to - i,
    {
        proof {
            let rest = v@.subrange(i as int, to as int);
            assert(rest[0] == v@[i as int]);
            assert(rest[1] == v@[i + 1]);
            assert(rest.drop_first() =~= v@.subrange(i + 1, to as int));
        }
        if v[i] == '-' && v[i + 1] == '>' {
            return Some(i);
        }
        i = i + 1;
    }
    None
}

/// What `char::is_alphanumeric` answers for a character, by the Unicode
/// tables of the standard library.
pub uninterp spec fn alnum(c: char) -> bool;

/// `char::is_alphanumeric`. Among ASCII characters exactly the letters and
/// digits are alphanumeric, as its documentation states.
#[verifier::external_body]
pub fn is_alnum(c: char) -> (r: bool)
    ensures
        r == alnum(c),
        ('a' <= c <= 'z' || 'A' <= c <= 'Z' || '0' <= c <= '9') ==> r,
        (c as u32) < 128 ==> (r <==> ('a' <= c <= 'z' || 'A' <= c <= 'Z' || '0' <= c <= '9')),
{
    c.is_alphanumeric()
}

/// Whether a text can name a variable in a template: not empty, and only
/// alphanumerics and `_`.
pub open spec fn var_ok(n: Seq<char>) -> bool {
    n.len() > 0 && forall|i: int| 0 <= i < n.len() ==> alnum(#[trigger] n[i]) || n[i] == '_'
}

pub fn is_var_name(v: &Vec<char>, from: usize, to: usize) -> (r: bool)
    requires
        from <= to <= v@.len(),
    ensures
        r == var_ok(v@.subrange(from as int, to as int)),
{
    if from == to {
        return false;
    }
    let mut i = from;
    while i < to
        invariant
            from <= i <= to <= v@.len(),
            forall|k: int| from <= k < i ==> alnum(#[trigger] v@[k]) || v@[k] == '_',
        decreases to - i,
    {
        if !(is_alnum(v[i]) || v[i] == '_') {
            proof {
                assert(v@.subrange(from as int, to as int)[i - from] == v@[i as int]);
            }
            return false;
        }
        i = i + 1;
    }
    proof {
        assert forall|k: int| 0 <= k < v@.subrange(from as int, to as int).len() implies
            alnum(#[trigger] v@.subrange(from as int, to as int)[k]) || v@.subrange(from as int, to as int)[k] == '_' by {
            assert(v@.subrange(from as int, to as int)[k] == v@[from + k]);
        }
    }
    true
}

} // verus!
