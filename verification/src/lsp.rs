//! The language server's decisions: URIs and paths, the project root of a
//! document, diagnostics, hover text, go-to-definition, and what each
//! message from the editor does to the server's state. The wire protocol
//! and the reading of files stay with the caller, which hands events in
//! and carries the actions out.
use vstd::prelude::*;
use crate::add::opt_str;
use crate::text::{
    push_char, push_str, chars_of, string_of, str_is, lines_of, split_lines, alnum, is_alnum, trim_seq,
    trim_chars,
};
use crate::add::char_utf8_len;
use crate::ast::{BuType, TyV, ty_view, tys_view, lemma_tys_view, nat_decimal, Bullet, Param, SourceFile};
use crate::table::{NameTable, last_index, lemma_last_index, last_key, view_entries, lemma_view_entries};
use crate::typecheck::{DiagV, TypeError, type_diags};
use crate::validator::{AllErrors, AllV, val_diags, parse_diags};
use crate::codegen_rs::joined;
use crate::add::after_last_slash;
use crate::text::{lemma_first_at, find_char_in};
use crate::text::usize_to_string;

verus! {

// ── Percent-decoding ──────────────────────────────────────────────────────────

/// The value of a hexadecimal digit, as `char::to_digit(16)` reads it.
pub open spec fn hex_val(c: char) -> Option<nat> {
    if '0' <= c && c <= '9' {
        Some((c as nat - '0' as nat) as nat)
    } else if 'a' <= c && c <= 'f' {
        Some((c as nat - 'a' as nat + 10) as nat)
    } else if 'A' <= c && c <= 'F' {
        Some((c as nat - 'A' as nat + 10) as nat)
    } else {
        None
    }
}

/// What `u8::from_str_radix(h1h2, 16)` gives for two characters: an
/// optional `+` sign and then hexadecimal digits.
pub open spec fn pair_val(h1: char, h2: char) -> Option<nat> {
    if h1 == '+' {
        hex_val(h2)
    } else {
        match (hex_val(h1), hex_val(h2)) {
            (Some(a), Some(b)) => Some(16 * a + b),
            _ => None,
        }
    }
}

/// `%XY` escapes replaced by the byte they name, read as a character; a
/// missing digit reads as `0`; an escape that is no number is dropped.
pub open spec fn pct_decode(s: Seq<char>) -> Seq<char>
    decreases s.len(),
{
    if s.len() == 0 {
        Seq::empty()
    } else if s[0] == '%' {
        let h1 = if s.len() > 1 { s[1] } else { '0' };
        let h2 = if s.len() > 2 { s[2] } else { '0' };
        let rest = if s.len() > 3 { s.subrange(3, s.len() as int) } else { Seq::<char>::empty() };
        match pair_val(h1, h2) {
            Some(v) => seq![v as char] + pct_decode(rest),
            None => pct_decode(rest),
        }
    } else {
        seq![s[0]] + pct_decode(s.drop_first())
    }
}

fn hex_digit(c: char) -> (r: Option<u8>)
    ensures
        match hex_val(c) {
            Some(v) => r == Some(v as u8),
            None => r is None,
        },
{
    if '0' <= c && c <= '9' {
        Some(((c as u32) - ('0' as u32)) as u8)
    } else if 'a' <= c && c <= 'f' {
        Some(((c as u32) - ('a' as u32) + 10) as u8)
    } else if 'A' <= c && c <= 'F' {
        Some(((c as u32) - ('A' as u32) + 10) as u8)
    } else {
        None
    }
}

fn hex_pair(h1: char, h2: char) -> (r: Option<u8>)
    ensures
        match pair_val(h1, h2) {
            Some(v) => v < 256 && r == Some(v as u8),
            None => r is None,
        },
{
    if h1 == '+' {
        hex_digit(h2)
    } else {
        match (hex_digit(h1), hex_digit(h2)) {
            (Some(a), Some(b)) => Some(16 * a + b),
            _ => None,
        }
    }
}

/// Decodes `%XY` escapes.
pub fn percent_decode(s: &str) -> (r: String)
    ensures
        r@ == pct_decode(s@),
{
    let v = chars_of(s);
    let n = v.len();
    let mut out = String::new();
    let mut i: usize = 0;
    proof {
        assert(v@.subrange(0, n as int) =~= v@);
    }
    while i < n
        invariant
            n == v@.len(),
            v@ == s@,
            i <= n,
            pct_decode(s@) == out@ + pct_decode(v@.subrange(i as int, n as int)),
        decreases n - i,
    {
        let ghost cur = v@.subrange(i as int, n as int);
        let c = v[i];
        if c == '%' {
            let h1 = if n - i > 1 { v[i + 1] } else { '0' };
            let h2 = if n - i > 2 { v[i + 2] } else { '0' };
            let next = if n - i > 3 { i + 3 } else { n };
            proof {
                if cur.len() > 3 {
                    assert(cur.subrange(3, cur.len() as int) =~= v@.subrange(next as int, n as int));
                } else {
                    assert(v@.subrange(next as int, n as int) =~= Seq::<char>::empty());
                }
            }
            match hex_pair(h1, h2) {
                Some(b) => {
                    let ghost before = out@;
                    push_char(&mut out, b as char);
                    proof {
                        assert(out@ + pct_decode(v@.subrange(next as int, n as int))
                            =~= before + (seq![b as char] + pct_decode(v@.subrange(next as int, n as int))));
                    }
                },
                None => {},
            }
            i = next;
        } else {
            let ghost before = out@;
            push_char(&mut out, c);
            proof {
                assert(cur.drop_first() =~= v@.subrange(i + 1, n as int));
                assert(out@ + pct_decode(v@.subrange(i + 1, n as int))
                    =~= before + (seq![c] + pct_decode(v@.subrange(i + 1, n as int))));
            }
            i = i + 1;
        }
    }
    proof {
        assert(v@.subrange(n as int, n as int) =~= Seq::<char>::empty());
        assert(out@ + Seq::<char>::empty() =~= out@);
    }
    out
}

// ── URIs and paths ────────────────────────────────────────────────────────────

pub open spec fn file_scheme() -> Seq<char> {
    "file://"@
}

/// The path a `file://` URI names, escapes decoded.
pub open spec fn uri_path(uri: Seq<char>) -> Option<Seq<char>> {
    if uri.len() >= 7 && uri.subrange(0, 7) == file_scheme() {
        Some(pct_decode(uri.subrange(7, uri.len() as int)))
    } else {
        None
    }
}

/// The `file://` URI of a path, written as the path reads.
pub open spec fn path_uri(path: Seq<char>) -> Seq<char> {
    file_scheme() + path
}

pub fn uri_to_path(uri: &str) -> (r: Option<String>)
    ensures
        opt_str(r) == uri_path(uri@),
{
    proof {
        reveal_strlit("file://");
    }
    let v = chars_of(uri);
    if v.len() >= 7 && v[0] == 'f' && v[1] == 'i' && v[2] == 'l' && v[3] == 'e' && v[4] == ':'
        && v[5] == '/' && v[6] == '/' {
        proof {
            assert(v@.subrange(0, 7) =~= file_scheme());
        }
        let rest = string_of(v.as_slice(), 7, v.len());
        Some(percent_decode(rest.as_str()))
    } else {
        proof {
            if v@.len() >= 7 && v@.subrange(0, 7) == file_scheme() {
                assert(v@[0] == v@.subrange(0, 7)[0]);
                assert(v@[1] == v@.subrange(0, 7)[1]);
                assert(v@[2] == v@.subrange(0, 7)[2]);
                assert(v@[3] == v@.subrange(0, 7)[3]);
                assert(v@[4] == v@.subrange(0, 7)[4]);
                assert(v@[5] == v@.subrange(0, 7)[5]);
                assert(v@[6] == v@.subrange(0, 7)[6]);
            }
        }
        None
    }
}

pub fn path_to_uri(path: &str) -> (r: String)
    ensures
        r@ == path_uri(path@),
{
    let mut s = String::new();
    push_str(&mut s, "file://");
    push_str(&mut s, path);
    s
}

/// Text without `%` decodes to itself.
pub proof fn lemma_pct_decode_plain(s: Seq<char>)
    requires
        forall|i: int| 0 <= i < s.len() ==> s[i] != '%',
    ensures
        pct_decode(s) == s,
    decreases s.len(),
{
    if s.len() > 0 {
        assert(s[0] != '%');
        lemma_pct_decode_plain(s.drop_first());
        assert(seq![s[0]] + s.drop_first() =~= s);
    }
}

/// A path without `%` in it comes back from its URI unchanged.
pub proof fn law_uri_round_trip(path: Seq<char>)
    requires
        forall|i: int| 0 <= i < path.len() ==> path[i] != '%',
    ensures
        uri_path(path_uri(path)) == Some(path),
{
    reveal_strlit("file://");
    let u = path_uri(path);
    assert(u.subrange(0, 7) =~= file_scheme());
    assert(u.subrange(7, u.len() as int) =~= path);
    lemma_pct_decode_plain(path);
}

// ── The project root ──────────────────────────────────────────────────────────

/// Index of the last set flag.
pub open spec fn last_set(flags: Seq<bool>) -> Option<int>
    decreases flags.len(),
{
    if flags.len() == 0 {
        None
    } else if flags.last() {
        Some(flags.len() - 1)
    } else {
        last_set(flags.drop_last())
    }
}

/// The topmost folder, among a document's folder and its ancestors (listed
/// from the nearest up), that holds `inventory.bu`; `has_inventory[i]` says
/// whether `dirs[i]` holds one.
pub open spec fn topmost_root(dirs: Seq<Seq<char>>, has_inventory: Seq<bool>) -> Option<Seq<char>> {
    match last_set(has_inventory) {
        Some(i) => Some(dirs[i]),
        None => None,
    }
}

pub proof fn lemma_last_set(flags: Seq<bool>)
    ensures
        last_set(flags) matches Some(i) ==> 0 <= i < flags.len() && flags[i]
            && forall|j: int| i < j < flags.len() ==> !flags[j],
        last_set(flags) is None ==> forall|j: int| 0 <= j < flags.len() ==> !flags[j],
    decreases flags.len(),
{
    if flags.len() > 0 && !flags.last() {
        lemma_last_set(flags.drop_last());
        assert forall|j: int| 0 <= j < flags.len() - 1 implies flags[j] == flags.drop_last()[j] by {}
    }
}

pub fn find_root(dirs: &Vec<String>, has_inventory: &Vec<bool>) -> (r: Option<String>)
    requires
        dirs@.len() == has_inventory@.len(),
    ensures
        opt_str(r) == topmost_root(dirs@.map_values(|d: String| d@), has_inventory@),
{
    let mut i = has_inventory.len();
    proof {
        assert(has_inventory@.subrange(0, i as int) =~= has_inventory@);
    }
    while i > 0
        invariant
            i <= has_inventory@.len(),
            dirs@.len() == has_inventory@.len(),
            last_set(has_inventory@) == last_set(has_inventory@.subrange(0, i as int)),
        decreases i,
    {
        proof {
            assert(has_inventory@.subrange(0, i as int).drop_last() =~= has_inventory@.subrange(0, i - 1));
        }
        if has_inventory[i - 1] {
            return Some(dirs[i - 1].clone());
        }
        i = i - 1;
    }
    None
}

// ── The word under the cursor ─────────────────────────────────────────────────

/// A character that can stand in a name.
pub open spec fn word_char(c: char) -> bool {
    alnum(c) || c == '_'
}

/// The UTF-8 length of a text, counted from the front.
pub open spec fn byte_len(l: Seq<char>) -> nat
    decreases l.len(),
{
    if l.len() == 0 { 0 } else { char_utf8_len(l[0]) + byte_len(l.drop_first()) }
}

/// The number of characters that the first `col` bytes of `l` hold, where
/// `col` falls between two characters.
pub open spec fn char_boundary(l: Seq<char>, col: int) -> Option<int>
    decreases l.len(),
{
    if col == 0 {
        Some(0)
    } else if col < 0 || l.len() == 0 {
        None
    } else {
        match char_boundary(l.drop_first(), col - char_utf8_len(l[0])) {
            Some(k) => Some(k + 1),
            None => None,
        }
    }
}

/// Where the name that reaches up to position `k` starts.
pub open spec fn word_start(l: Seq<char>, k: int) -> int
    decreases k,
{
    if k <= 0 {
        0
    } else if !word_char(l[k - 1]) {
        k
    } else {
        word_start(l, k - 1)
    }
}

/// Where the name that goes on from position `k` ends.
pub open spec fn word_end(l: Seq<char>, k: int) -> int
    decreases l.len() - k,
{
    if k >= l.len() {
        l.len() as int
    } else if !word_char(l[k]) {
        k
    } else {
        word_end(l, k + 1)
    }
}

/// Line number `n` (from 0) of a text, as `str::lines` splits it.
pub open spec fn line_at(source: Seq<char>, n: nat) -> Option<Seq<char>> {
    if n < lines_of(source).len() { Some(lines_of(source)[n as int]) } else { None }
}

/// Whether the byte position `col` of line `line` can be looked at: it
/// falls between two characters, and the character that ends the text
/// before the name there takes one byte. Elsewhere the byte slicing of the
/// lookup fails.
pub open spec fn position_ok(source: Seq<char>, line: nat, col: nat) -> bool {
    match line_at(source, line) {
        None => true,
        Some(l) => col > byte_len(l) || match char_boundary(l, col as int) {
            None => false,
            Some(k) => {
                let s = word_start(l, k);
                s == 0 || char_utf8_len(l[s - 1]) == 1
            },
        },
    }
}

/// The name at a position (line and byte column, both from 0): the run of
/// name characters around it, trimmed; none where the line or the column is
/// past the end, or the run is empty.
pub open spec fn word_at_spec(source: Seq<char>, line: nat, col: nat) -> Option<Seq<char>> {
    match line_at(source, line) {
        None => None,
        Some(l) => if col > byte_len(l) {
            None
        } else {
            match char_boundary(l, col as int) {
                None => None,
                Some(k) => {
                    let w = trim_seq(l.subrange(word_start(l, k), word_end(l, k)));
                    if w.len() == 0 { None } else { Some(w) }
                },
            }
        },
    }
}

pub proof fn lemma_word_bounds(l: Seq<char>, k: int)
    requires
        0 <= k <= l.len(),
    ensures
        0 <= word_start(l, k) <= k,
        k <= word_end(l, k) <= l.len(),
        word_start(l, k) > 0 ==> !word_char(l[word_start(l, k) - 1]),
    decreases l.len() - k + k,
{
    if k > 0 && word_char(l[k - 1]) {
        lemma_word_start(l, k - 1);
    }
    lemma_word_end(l, k);
}

proof fn lemma_word_start(l: Seq<char>, k: int)
    requires
        0 <= k <= l.len(),
    ensures
        0 <= word_start(l, k) <= k,
        word_start(l, k) > 0 ==> !word_char(l[word_start(l, k) - 1]),
    decreases k,
{
    if k > 0 && word_char(l[k - 1]) {
        lemma_word_start(l, k - 1);
    }
}

proof fn lemma_word_end(l: Seq<char>, k: int)
    requires
        0 <= k <= l.len(),
    ensures
        k <= word_end(l, k) <= l.len(),
    decreases l.len() - k,
{
    if k < l.len() && word_char(l[k]) {
        lemma_word_end(l, k + 1);
    }
}

fn utf8_width(c: char) -> (r: u64)
    ensures
        r == char_utf8_len(c),
{
    if (c as u32) < 0x80 { 1 } else if (c as u32) < 0x800 { 2 } else if (c as u32) < 0x10000 { 3 } else { 4 }
}

/// The character position that byte `col` of `l` falls on, if it falls
/// between two characters and not past the end.
pub(crate) fn locate(l: &Vec<char>, col: u64) -> (r: Option<usize>)
    ensures
        r matches Some(k) ==> col <= byte_len(l@) && char_boundary(l@, col as int) == Some(k as int)
            && k <= l@.len(),
        r is None ==> col > byte_len(l@) || char_boundary(l@, col as int) is None,
{
    let n = l.len();
    let mut i: usize = 0;
    let mut acc: u64 = 0;
    proof {
        assert(l@.subrange(0, n as int) =~= l@);
    }
    while acc < col
        invariant
            n == l@.len(),
            i <= n,
            acc <= col,
            byte_len(l@) == acc + byte_len(l@.subrange(i as int, n as int)),
            char_boundary(l@, col as int) == (match char_boundary(l@.subrange(i as int, n as int), col - acc) {
                Some(k) => Some(k + i),
                None => None,
            }),
        decreases n - i,
    {
        let ghost rest = l@.subrange(i as int, n as int);
        if i == n {
            return None;
        }
        let w = utf8_width(l[i]);
        proof {
            assert(rest.drop_first() =~= l@.subrange(i + 1, n as int));
            assert(rest[0] == l@[i as int]);
        }
        if w > col - acc {
            proof {
                assert(char_boundary(rest.drop_first(), (col - acc) - w) is None);
                assert(char_boundary(rest, col - acc) is None);
            }
            return None;
        }
        proof {
            assert(byte_len(rest) == w + byte_len(rest.drop_first()));
        }
        acc = acc + w;
        i = i + 1;
    }
    Some(i)
}

/// The bounds of the name run at byte `col` of `l`, if the column is a
/// position in the line.
fn word_bounds(l: &Vec<char>, col: u64) -> (r: Option<(usize, usize, usize)>)
    ensures
        r matches Some((k, s, e)) ==> col <= byte_len(l@) && char_boundary(l@, col as int) == Some(k as int)
            && s == word_start(l@, k as int) && e == word_end(l@, k as int) && s <= k <= e <= l@.len(),
        r is None ==> col > byte_len(l@) || char_boundary(l@, col as int) is None,
{
    match locate(l, col) {
        None => None,
        Some(k) => {
            proof {
                lemma_word_bounds(l@, k as int);
            }
            let mut s = k;
            while s > 0 && (is_alnum(l[s - 1]) || l[s - 1] == '_')
                invariant
                    s <= k <= l@.len(),
                    word_start(l@, k as int) == word_start(l@, s as int),
                decreases s,
            {
                s = s - 1;
            }
            let mut e = k;
            while e < l.len() && (is_alnum(l[e]) || l[e] == '_')
                invariant
                    k <= e <= l@.len(),
                    word_end(l@, k as int) == word_end(l@, e as int),
                decreases l@.len() - e,
            {
                e = e + 1;
            }
            Some((k, s, e))
        },
    }
}

fn line_chars(source: &str, line: u64) -> (r: Option<Vec<char>>)
    ensures
        match line_at(source@, line as nat) {
            Some(l) => r matches Some(v) && v@ == l,
            None => r is None,
        },
{
    let lines = split_lines(source);
    proof {
        assert(lines@.map_values(|x: String| x@).len() == lines@.len());
    }
    if line >= lines.len() as u64 {
        return None;
    }
    let idx = line as usize;
    proof {
        assert(lines@.map_values(|x: String| x@)[idx as int] == lines@[idx as int]@);
    }
    Some(chars_of(lines[idx].as_str()))
}

/// Whether a position can be looked at (see `position_ok`).
pub fn position_valid(source: &str, line: u64, col: u64) -> (r: bool)
    ensures
        r == position_ok(source@, line as nat, col as nat),
{
    match line_chars(source, line) {
        None => true,
        Some(l) => match word_bounds(&l, col) {
            None => byte_past(&l, col),
            Some((_k, s, _e)) => s == 0 || (l[s - 1] as u32) < 0x80,
        },
    }
}

pub(crate) fn byte_past(l: &Vec<char>, col: u64) -> (r: bool)
    ensures
        r == (col > byte_len(l@)),
{
    let n = l.len();
    let mut i: usize = n;
    let mut total: u64 = 0;
    proof {
        assert(l@.subrange(n as int, n as int) =~= Seq::<char>::empty());
    }
    while i > 0
        invariant
            i <= n == l@.len(),
            total == byte_len(l@.subrange(i as int, n as int)),
            total <= col,
        decreases i,
    {
        let w = utf8_width(l[i - 1]);
        proof {
            let cur = l@.subrange(i - 1, n as int);
            assert(cur.drop_first() =~= l@.subrange(i as int, n as int));
            assert(cur[0] == l@[i - 1]);
        }
        proof {
            let cur = l@.subrange(i - 1, n as int);
            assert(byte_len(cur) == w + total);
        }
        if w > col - total {
            proof {
                lemma_byte_len_prefix(l@, i - 1);
                let cur = l@.subrange(i - 1, n as int);
                assert(byte_len(cur) > col);
                assert(byte_len(cur) <= byte_len(l@));
                assert(col < byte_len(l@));
            }
            return false;
        }
        total = total + w;
        i = i - 1;
    }
    proof {
        assert(l@.subrange(0, n as int) =~= l@);
        assert(total == byte_len(l@));
    }
    total < col
}

/// The bytes of a tail are at most those of the whole text.
proof fn lemma_byte_len_prefix(l: Seq<char>, i: int)
    requires
        0 <= i <= l.len(),
    ensures
        byte_len(l.subrange(i, l.len() as int)) <= byte_len(l),
    decreases i,
{
    if i > 0 {
        lemma_byte_len_prefix(l, i - 1);
        let cur = l.subrange(i - 1, l.len() as int);
        assert(cur.drop_first() =~= l.subrange(i, l.len() as int));
    } else {
        assert(l.subrange(0, l.len() as int) =~= l);
    }
}

/// The name at a position (line and byte column, both from 0).
pub fn word_at(source: &str, line: u64, col: u64) -> (r: Option<String>)
    requires
        position_ok(source@, line as nat, col as nat),
    ensures
        opt_str(r) == word_at_spec(source@, line as nat, col as nat),
{
    match line_chars(source, line) {
        None => None,
        Some(l) => match word_bounds(&l, col) {
            None => None,
            Some((_k, s, e)) => {
                let w = trim_chars(l.as_slice(), s, e);
                if w.unicode_len() == 0 { None } else { Some(w) }
            },
        },
    }
}

// ── Diagnostics ───────────────────────────────────────────────────────────────

/// An editor diagnostic: a range on one line (from 0), a severity
/// (1 error, 2 warning, 3 information, 4 hint), its source and message.
pub struct Diagnostic {
    pub line: u64,
    pub character: u64,
    pub end_character: u64,
    pub severity: u8,
    pub source: String,
    pub message: String,
}

pub struct DiagnosticV {
    pub line: nat,
    pub character: nat,
    pub end_character: nat,
    pub severity: nat,
    pub source: Seq<char>,
    pub message: Seq<char>,
}

impl View for Diagnostic {
    type V = DiagnosticV;

    open spec fn view(&self) -> DiagnosticV {
        DiagnosticV {
            line: self.line as nat,
            character: self.character as nat,
            end_character: self.end_character as nat,
            severity: self.severity as nat,
            source: self.source@,
            message: self.message@,
        }
    }
}

/// A position counted from 1 (0 for none), counted from 0.
pub open spec fn from_one(n: nat) -> nat {
    if n == 0 { 0 } else { (n - 1) as nat }
}

/// The diagnostic for a message at a line and column counted from 1: it
/// spans 80 characters from the column.
pub open spec fn diag_spec(line: nat, col: nat, msg: Seq<char>, severity: nat) -> DiagnosticV {
    DiagnosticV {
        line: from_one(line),
        character: from_one(col),
        end_character: from_one(col) + 80,
        severity: severity,
        source: "bullang"@,
        message: msg,
    }
}

pub fn make_diag(line: usize, col: usize, msg: &str, severity: u8) -> (r: Diagnostic)
    requires
        col + 80 <= u64::MAX,
    ensures
        r@ == diag_spec(line as nat, col as nat, msg@, severity as nat),
{
    let l: u64 = if line == 0 { 0 } else { (line - 1) as u64 };
    let c: u64 = if col == 0 { 0 } else { (col - 1) as u64 };
    Diagnostic {
        line: l,
        character: c,
        end_character: c + 80,
        severity: severity,
        source: String::from_str("bullang"),
        message: String::from_str(msg),
    }
}

/// What a project reports: its parse and structural errors, or, where there
/// are none, its type errors.
pub open spec fn project_diags(all: AllV, types: Seq<DiagV>) -> Seq<DiagV> {
    if all.parse.len() == 0 && all.structural.len() == 0 { types } else { all.parse + all.structural }
}

/// The diagnostics, in order, of the errors that lie in the file of `uri`.
pub open spec fn diags_at(ds: Seq<DiagV>, uri: Seq<char>) -> Seq<DiagnosticV>
    decreases ds.len(),
{
    if ds.len() == 0 {
        Seq::empty()
    } else {
        let r = diags_at(ds.drop_last(), uri);
        let d = ds.last();
        if path_uri(d.file) == uri { r.push(diag_spec(d.line, d.col, d.message, 1)) } else { r }
    }
}

/// Every column leaves room for the diagnostic's span.
pub open spec fn cols_fit(ds: Seq<DiagV>) -> bool {
    forall|i: int| 0 <= i < ds.len() ==> #[trigger] ds[i].col + 80 <= u64::MAX
}

pub open spec fn diags_view(v: Seq<Diagnostic>) -> Seq<DiagnosticV> {
    v.map_values(|d: Diagnostic| d@)
}

fn add_diag(out: &mut Vec<Diagnostic>, uri: &str, file: &str, line: usize, col: usize, msg: &str)
    requires
        col + 80 <= u64::MAX,
    ensures
        diags_view(final(out)@) == (if path_uri(file@) == uri@ {
            diags_view(old(out)@).push(diag_spec(line as nat, col as nat, msg@, 1))
        } else {
            diags_view(old(out)@)
        }),
{
    let u = path_to_uri(file);
    if str_is(u.as_str(), uri) {
        let ghost before = diags_view(out@);
        out.push(make_diag(line, col, msg, 1));
        proof {
            assert(diags_view(out@) =~= before.push(diag_spec(line as nat, col as nat, msg@, 1)));
        }
    }
}

/// The diagnostics to show for one file of a project.
pub fn diagnostics_for(all: &AllErrors, types: &Vec<TypeError>, uri: &str) -> (r: Vec<Diagnostic>)
    requires
        cols_fit(project_diags(all@, type_diags(types@))),
    ensures
        diags_view(r@) == diags_at(project_diags(all@, type_diags(types@)), uri@),
{
    let ghost ds = project_diags(all@, type_diags(types@));
    let mut out: Vec<Diagnostic> = Vec::new();
    if all.is_empty() {
        let mut i: usize = 0;
        proof {
            assert(ds.subrange(0, 0) =~= Seq::<DiagV>::empty());
            assert(diags_view(out@) =~= Seq::<DiagnosticV>::empty());
        }
        while i < types.len()
            invariant
                ds == type_diags(types@),
                i <= types@.len(),
                cols_fit(ds),
                diags_view(out@) == diags_at(ds.subrange(0, i as int), uri@),
            decreases types@.len() - i,
        {
            proof {
                assert(ds.subrange(0, i + 1).drop_last() =~= ds.subrange(0, i as int));
                assert(ds[i as int] == types@[i as int]@);
                assert(ds[i as int].col + 80 <= u64::MAX);
            }
            let e = &types[i];
            add_diag(&mut out, uri, e.file.as_str(), e.line, e.col, e.message.as_str());
            i = i + 1;
        }
        proof {
            assert(ds.subrange(0, types@.len() as int) =~= ds);
        }
        out
    } else {
        let ghost p = parse_diags(all.parse@);
        let ghost q = val_diags(all.structural@);
        let mut i: usize = 0;
        proof {
            assert(ds == p + q);
            assert(ds.subrange(0, 0) =~= Seq::<DiagV>::empty());
            assert(diags_view(out@) =~= Seq::<DiagnosticV>::empty());
        }
        while i < all.parse.len()
            invariant
                ds == p + q,
                p == parse_diags(all.parse@),
                p.len() == all.parse@.len(),
                i <= all.parse@.len(),
                cols_fit(ds),
                diags_view(out@) == diags_at(ds.subrange(0, i as int), uri@),
            decreases all.parse@.len() - i,
        {
            proof {
                assert(ds.subrange(0, i + 1).drop_last() =~= ds.subrange(0, i as int));
                assert(ds[i as int] == all.parse@[i as int]@);
                assert(ds[i as int].col + 80 <= u64::MAX);
            }
            let e = &all.parse[i];
            add_diag(&mut out, uri, e.file.as_str(), e.line, e.col, e.message.as_str());
            i = i + 1;
        }
        let np = all.parse.len();
        let mut j: usize = 0;
        while j < all.structural.len()
            invariant
                ds == p + q,
                p.len() == np,
                q == val_diags(all.structural@),
                q.len() == all.structural@.len(),
                j <= all.structural@.len(),
                cols_fit(ds),
                diags_view(out@) == diags_at(ds.subrange(0, np + j), uri@),
            decreases all.structural@.len() - j,
        {
            proof {
                assert(ds.subrange(0, np + j + 1).drop_last() =~= ds.subrange(0, np + j));
                assert(ds[np + j] == all.structural@[j as int]@);
                assert(ds[np + j].col + 80 <= u64::MAX);
            }
            let e = &all.structural[j];
            add_diag(&mut out, uri, e.file.as_str(), e.line, e.col, e.message.as_str());
            j = j + 1;
        }
        proof {
            assert(ds.subrange(0, np + all.structural@.len()) =~= ds);
        }
        out
    }
}

// ── Hover ─────────────────────────────────────────────────────────────────────

/// A type as hover text shows it: a tuple as `Tuple[A, B]`.
pub open spec fn hover_ty(t: TyV) -> Seq<char>
    decreases t,
{
    match t {
        TyV::Named(s) => s,
        TyV::Tuple(ts) => "Tuple["@ + hover_tys(ts) + "]"@,
        TyV::Array(b, n) => "["@ + hover_ty(*b) + "; "@ + nat_decimal(n) + "]"@,
        TyV::Unknown => "_"@,
    }
}

/// Types as hover text, joined by `", "`.
pub open spec fn hover_tys(s: Seq<TyV>) -> Seq<char>
    decreases s,
{
    if s.len() == 0 {
        Seq::empty()
    } else if s.len() == 1 {
        hover_ty(s[0])
    } else {
        hover_ty(s[0]) + ", "@ + hover_tys(s.drop_first())
    }
}

pub fn fmt_type(ty: &BuType) -> (r: String)
    ensures
        r@ == hover_ty(ty@),
    decreases ty,
{
    match ty {
        BuType::Named(s) => s.clone(),
        BuType::Tuple(ts) => {
            let mut out = String::from_str("Tuple[");
            let inner = fmt_types(ts);
            out.append(inner.as_str());
            out.append("]");
            out
        },
        BuType::Array(b, n) => {
            let mut out = String::from_str("[");
            let inner = fmt_type(&**b);
            out.append(inner.as_str());
            out.append("; ");
            let ns = usize_to_string(*n);
            out.append(ns.as_str());
            out.append("]");
            out
        },
        BuType::Unknown => String::from_str("_"),
    }
}

fn fmt_types(ts: &Vec<BuType>) -> (r: String)
    ensures
        r@ == hover_tys(tys_view(ts@)),
    decreases ts,
{
    let n = ts.len();
    proof {
        lemma_tys_view(ts@);
    }
    let mut parts: Vec<String> = Vec::new();
    let mut k: usize = 0;
    while k < n
        invariant
            n == ts@.len(),
            k <= n,
            parts@.len() == k,
            forall|j: int| 0 <= j < k ==> (#[trigger] parts@[j])@ == hover_ty(ty_view(ts@[j])),
        decreases n - k,
    {
        parts.push(fmt_type(&ts[k]));
        k = k + 1;
    }
    let mut out = String::new();
    let mut i: usize = n;
    while i > 0
        invariant
            n == ts@.len(),
            parts@.len() == n,
            i <= n,
            forall|j: int| 0 <= j < n ==> (#[trigger] parts@[j])@ == hover_ty(ty_view(ts@[j])),
            tys_view(ts@).len() == n,
            forall|j: int| 0 <= j < n ==> #[trigger] tys_view(ts@)[j] == ty_view(ts@[j]),
            out@ == hover_tys(tys_view(ts@).subrange(i as int, n as int)),
        decreases i,
    {
        let ghost tail = tys_view(ts@).subrange(i as int, n as int);
        let ghost whole = tys_view(ts@).subrange(i - 1, n as int);
        proof {
            assert(whole.drop_first() =~= tail);
            assert(whole[0] == ty_view(ts@[i - 1]));
        }
        let mut s = parts[i - 1].clone();
        if i < n {
            s.append(", ");
        }
        s.append(out.as_str());
        out = s;
        i = i - 1;
    }
    proof {
        assert(tys_view(ts@).subrange(0, n as int) =~= tys_view(ts@));
    }
    out
}

/// A path with trailing `/` and `/.` taken off.
pub open spec fn strip_trailing(p: Seq<char>) -> Seq<char>
    decreases p.len(),
{
    if p.len() >= 1 && p.last() == '/' {
        strip_trailing(p.drop_last())
    } else if p.len() >= 2 && p.last() == '.' && p[p.len() - 2] == '/' {
        strip_trailing(p.subrange(0, p.len() - 2))
    } else {
        p
    }
}

/// `Path::file_name` on a `/`-separated path: the last component, none
/// where it is empty, `.` or `..`.
pub open spec fn path_file_name(p: Seq<char>) -> Option<Seq<char>> {
    let n = after_last_slash(strip_trailing(p));
    if n.len() == 0 || n == "."@ || n == ".."@ { None } else { Some(n) }
}

/// The file name of a path.
pub fn file_name(path: &str) -> (r: Option<String>)
    ensures
        opt_str(r) == path_file_name(path@),
{
    let v = chars_of(path);
    let mut end = v.len();
    proof {
        assert(v@.subrange(0, end as int) =~= v@);
    }
    loop
        invariant
            end <= v@.len(),
            strip_trailing(v@) == strip_trailing(v@.subrange(0, end as int)),
        ensures
            end <= v@.len(),
            strip_trailing(v@) == v@.subrange(0, end as int),
        decreases end,
    {
        let ghost cur = v@.subrange(0, end as int);
        if end >= 1 && v[end - 1] == '/' {
            proof {
                assert(cur.drop_last() =~= v@.subrange(0, end - 1));
            }
            end = end - 1;
        } else if end >= 2 && v[end - 1] == '.' && v[end - 2] == '/' {
            proof {
                assert(cur.subrange(0, cur.len() - 2) =~= v@.subrange(0, end - 2));
            }
            end = end - 2;
        } else {
            proof {
                if cur.len() >= 1 {
                    assert(cur.last() == v@[end - 1]);
                }
                if cur.len() >= 2 {
                    assert(cur[cur.len() - 2] == v@[end - 2]);
                }
                assert(strip_trailing(cur) == cur);
            }
            break;
        }
    }
    let mut start: usize = 0;
    proof {
        assert(v@.subrange(0, end as int).subrange(0, end as int) =~= v@.subrange(0, end as int));
    }
    loop
        invariant
            start <= end <= v@.len(),
            after_last_slash(strip_trailing(v@)) == after_last_slash(v@.subrange(start as int, end as int)),
        ensures
            start <= end <= v@.len(),
            after_last_slash(strip_trailing(v@)) == v@.subrange(start as int, end as int),
        decreases end - start,
    {
        let ghost cur = v@.subrange(start as int, end as int);
        proof {
            lemma_first_at(cur, '/');
        }
        match find_char_in(v.as_slice(), '/', start, end) {
            Some(i) => {
                proof {
                    assert(cur.subrange((i - start) + 1, cur.len() as int) =~= v@.subrange(i + 1, end as int));
                }
                start = i + 1;
            },
            None => {
                break;
            },
        }
    }
    proof {
        reveal_strlit(".");
        reveal_strlit("..");
    }
    let ghost n = v@.subrange(start as int, end as int);
    if end == start || (end - start == 1 && v[start] == '.')
        || (end - start == 2 && v[start] == '.' && v[start + 1] == '.') {
        proof {
            if end - start == 1 {
                assert(n =~= "."@);
            }
            if end - start == 2 {
                assert(n =~= ".."@);
            }
        }
        None
    } else {
        proof {
            if n =~= "."@ {
                assert(n[0] == '.');
            }
            if n =~= ".."@ {
                assert(n[0] == '.' && n[1] == '.');
            }
        }
        Some(string_of(v.as_slice(), start, end))
    }
}

/// A function of a project and the file that declares it.
pub struct FnDef {
    pub bullet: Bullet,
    pub file: String,
}

/// The name of a file as hover text shows it.
pub open spec fn display_file(file: Seq<char>) -> Seq<char> {
    match path_file_name(file) {
        Some(n) => n,
        None => file,
    }
}

pub open spec fn param_text(p: Param) -> Seq<char> {
    p.name@ + ": "@ + hover_ty(p.ty@)
}

/// The hover text of a function: its signature in a code block, then the
/// name of its file in italics.
pub open spec fn hover_text(b: Bullet, file: Seq<char>) -> Seq<char> {
    let out_name = match b.output {
        Some(o) => o.name@,
        None => "_"@,
    };
    let out_ty = match b.output {
        Some(o) => hover_ty(o.ty@),
        None => Seq::empty(),
    };
    "```\nlet "@ + b.name@ + "("@ + joined(b.params@.map_values(|p: Param| param_text(p)), ", "@) + ") -> "@
        + out_name + ": "@ + out_ty + "\n```\n*"@ + display_file(file) + "*"@
}

pub fn format_hover(bullet: &Bullet, file: &str) -> (r: String)
    ensures
        r@ == hover_text(*bullet, file@),
{
    let ghost ps = bullet.params@.map_values(|p: Param| param_text(p));
    let mut params = String::new();
    let mut i: usize = 0;
    proof {
        assert(ps.subrange(0, 0) =~= Seq::<Seq<char>>::empty());
    }
    while i < bullet.params.len()
        invariant
            i <= bullet.params@.len(),
            ps == bullet.params@.map_values(|p: Param| param_text(p)),
            params@ == joined(ps.subrange(0, i as int), ", "@),
        decreases bullet.params@.len() - i,
    {
        proof {
            assert(ps.subrange(0, i + 1).drop_last() =~= ps.subrange(0, i as int));
            assert(ps.subrange(0, i + 1).last() == param_text(bullet.params@[i as int]));
            if i == 0 {
                assert(ps.subrange(0, 1)[0] == param_text(bullet.params@[0]));
            }
        }
        if i > 0 {
            params.append(", ");
        }
        let p = &bullet.params[i];
        params.append(p.name.as_str());
        params.append(": ");
        let t = fmt_type(&p.ty);
        params.append(t.as_str());
        i = i + 1;
    }
    proof {
        assert(ps.subrange(0, bullet.params@.len() as int) =~= ps);
    }
    let mut out = String::from_str("```\nlet ");
    out.append(bullet.name.as_str());
    out.append("(");
    out.append(params.as_str());
    out.append(") -> ");
    match &bullet.output {
        Some(o) => {
            out.append(o.name.as_str());
            out.append(": ");
            let t = fmt_type(&o.ty);
            out.append(t.as_str());
        },
        None => {
            out.append("_");
            out.append(": ");
            proof {
                reveal_strlit("");
            }
        },
    }
    out.append("\n```\n*");
    match file_name(file) {
        Some(n) => out.append(n.as_str()),
        None => out.append(file),
    }
    out.append("*");
    proof {
        assert(out@ =~= hover_text(*bullet, file@));
    }
    out
}

// ── Function index ────────────────────────────────────────────────────────────

/// Whether a file's functions go into the index: a `.bu` file other than an
/// inventory or a blueprint.
pub open spec fn indexed_file(name: Seq<char>) -> bool {
    name.len() >= 3 && name.subrange(name.len() - 3, name.len() as int) == ".bu"@
        && name != "inventory.bu"@ && name != "blueprint.bu"@
}

pub fn is_indexed_file(name: &str) -> (r: bool)
    ensures
        r == indexed_file(name@),
{
    proof {
        reveal_strlit(".bu");
    }
    let v = chars_of(name);
    let n = v.len();
    if n < 3 || !(v[n - 3] == '.' && v[n - 2] == 'b' && v[n - 1] == 'u') {
        proof {
            if n >= 3 && v@.subrange(n - 3, n as int) == ".bu"@ {
                assert(v@.subrange(n - 3, n as int)[0] == v@[n - 3]);
                assert(v@.subrange(n - 3, n as int)[1] == v@[n - 2]);
                assert(v@.subrange(n - 3, n as int)[2] == v@[n - 1]);
            }
        }
        return false;
    }
    proof {
        assert(v@.subrange(n - 3, n as int) =~= ".bu"@);
    }
    !str_is(name, "inventory.bu") && !str_is(name, "blueprint.bu")
}

/// The index entries of the functions of some files, in order: each
/// function under its name, with the file that declares it.
pub open spec fn index_entries(files: Seq<(String, SourceFile)>) -> Seq<(String, FnDef)>
    decreases files.len(),
{
    if files.len() == 0 {
        Seq::empty()
    } else {
        index_entries(files.drop_last()) + file_entries(files.last().1.bullets@, files.last().0)
    }
}

pub open spec fn file_entries(bs: Seq<Bullet>, file: String) -> Seq<(String, FnDef)> {
    bs.map_values(|b: Bullet| (b.name, FnDef { bullet: b, file: file }))
}

/// The index of a project's functions; a later function of the same name
/// shadows an earlier one.
pub fn build_fn_index(files: Vec<(String, SourceFile)>) -> (r: NameTable<FnDef>)
    ensures
        r.entries() == index_entries(files@),
{
    let ghost all = files@;
    let n = files.len();
    let mut files = files;
    let mut t: NameTable<FnDef> = NameTable::new();
    let mut k: usize = 0;
    proof {
        assert(all.subrange(0, 0) =~= Seq::<(String, SourceFile)>::empty());
        assert(all.subrange(0, n as int) =~= all);
    }
    while k < n
        invariant
            n == all.len(),
            k <= n,
            files@ == all.subrange(k as int, n as int),
            t.entries() == index_entries(all.subrange(0, k as int)),
        decreases n - k,
    {
        let (path, sf) = files.remove(0);
        let ghost bs0 = sf.bullets@;
        let ghost before = t.entries();
        proof {
            assert(all.subrange(k as int, n as int)[0] == all[k as int]);
        }
        let mut bs = sf.bullets;
        let m = bs.len();
        let mut j: usize = 0;
        proof {
            assert(file_entries(bs0.subrange(0, 0), path) =~= Seq::<(String, FnDef)>::empty());
            assert(before + Seq::<(String, FnDef)>::empty() =~= before);
            assert(bs0.subrange(0, m as int) =~= bs0);
        }
        while j < m
            invariant
                m == bs0.len(),
                j <= m,
                bs@ == bs0.subrange(j as int, m as int),
                t.entries() == before + file_entries(bs0.subrange(0, j as int), path),
            decreases m - j,
        {
            let b = bs.remove(0);
            proof {
                assert(bs0.subrange(j as int, m as int)[0] == bs0[j as int]);
                assert(bs@ =~= bs0.subrange(j + 1, m as int));
            }
            let name = b.name.clone();
            let f = path.clone();
            let ghost e = (name, FnDef { bullet: b, file: f });
            t.insert(name, FnDef { bullet: b, file: f });
            proof {
                assert(file_entries(bs0.subrange(0, j + 1), path)
                    =~= file_entries(bs0.subrange(0, j as int), path).push(e));
                assert(before + file_entries(bs0.subrange(0, j + 1), path)
                    =~= (before + file_entries(bs0.subrange(0, j as int), path)).push(e));
            }
            j = j + 1;
        }
        proof {
            assert(bs0.subrange(0, m as int) =~= bs0);
            assert(all.subrange(0, k + 1).drop_last() =~= all.subrange(0, k as int));
            assert(all.subrange(0, k + 1).last() == (path, sf));
            assert(files@ =~= all.subrange(k + 1, n as int));
        }
        k = k + 1;
    }
    t
}

// ── Server state ──────────────────────────────────────────────────────────────

/// The documents that a list of entries holds: a later entry for a URI
/// replaces an earlier one.
pub open spec fn docs_map(s: Seq<(Seq<char>, Seq<char>)>) -> Map<Seq<char>, Seq<char>>
    decreases s.len(),
{
    if s.len() == 0 {
        Map::empty()
    } else {
        docs_map(s.drop_last()).insert(s.last().0, s.last().1)
    }
}

/// The entries without those for `k`.
pub open spec fn drop_key(s: Seq<(Seq<char>, Seq<char>)>, k: Seq<char>) -> Seq<(Seq<char>, Seq<char>)>
    decreases s.len(),
{
    if s.len() == 0 {
        Seq::empty()
    } else {
        let r = drop_key(s.drop_last(), k);
        if s.last().0 == k { r } else { r.push(s.last()) }
    }
}

proof fn lemma_drop_key(s: Seq<(Seq<char>, Seq<char>)>, k: Seq<char>)
    ensures
        docs_map(drop_key(s, k)) == docs_map(s).remove(k),
    decreases s.len(),
{
    if s.len() == 0 {
        assert(docs_map(s).remove(k) =~= Map::<Seq<char>, Seq<char>>::empty());
    } else {
        lemma_drop_key(s.drop_last(), k);
        let r = drop_key(s.drop_last(), k);
        if s.last().0 == k {
            assert(docs_map(s).remove(k) =~= docs_map(s.drop_last()).remove(k));
        } else {
            assert(r.push(s.last()).drop_last() =~= r);
            assert(docs_map(s).remove(k) =~= docs_map(s.drop_last()).remove(k).insert(s.last().0, s.last().1));
        }
    }
}

proof fn lemma_docs_map(s: Seq<(Seq<char>, Seq<char>)>, k: Seq<char>)
    ensures
        docs_map(s).dom().contains(k) == (last_key(s, k) is Some),
        last_key(s, k) matches Some(i) ==> 0 <= i < s.len() && docs_map(s)[k] == s[i].1,
    decreases s.len(),
{
    if s.len() > 0 {
        lemma_docs_map(s.drop_last(), k);
    }
}

/// The language server's state: the open documents, and for each project
/// root the index of its functions.
pub struct Server {
    docs: Vec<(String, String)>,
    index: NameTable<NameTable<FnDef>>,
}

impl Server {
    pub closed spec fn doc_entries(&self) -> Seq<(Seq<char>, Seq<char>)> {
        view_entries(self.docs@)
    }

    /// Open documents: URI to text.
    pub open spec fn docs(&self) -> Map<Seq<char>, Seq<char>> {
        docs_map(self.doc_entries())
    }

    /// URIs of the open documents, in the order they were last opened.
    pub open spec fn doc_uris(&self) -> Seq<Seq<char>> {
        self.doc_entries().map_values(|e: (Seq<char>, Seq<char>)| e.0)
    }

    /// The function index of a project root.
    pub closed spec fn index_for(&self, root: Seq<char>) -> Option<NameTable<FnDef>> {
        self.index.lookup(root)
    }

    pub fn new() -> (r: Server)
        ensures
            r.docs() == Map::<Seq<char>, Seq<char>>::empty(),
            forall|root: Seq<char>| #[trigger] r.index_for(root) is None,
    {
        Server { docs: Vec::new(), index: NameTable::new() }
    }

    /// The text of an open document.
    pub fn document(&self, uri: &str) -> (r: Option<&String>)
        ensures
            match r {
                Some(t) => self.docs().dom().contains(uri@) && t@ == self.docs()[uri@],
                None => !self.docs().dom().contains(uri@),
            },
    {
        proof {
            lemma_view_entries(self.docs@, uri@);
            lemma_docs_map(self.doc_entries(), uri@);
            lemma_last_index(self.docs@, uri@);
        }
        let mut i = self.docs.len();
        proof {
            assert(self.docs@.subrange(0, i as int) =~= self.docs@);
        }
        while i > 0
            invariant
                i <= self.docs@.len(),
                last_index(self.docs@, uri@) == last_index(self.docs@.subrange(0, i as int), uri@),
            decreases i,
        {
            let ghost pre = self.docs@.subrange(0, i as int);
            proof {
                assert(pre.drop_last() =~= self.docs@.subrange(0, i - 1));
                assert(pre.last() == self.docs@[i - 1]);
            }
            if str_is(self.docs[i - 1].0.as_str(), uri) {
                proof {
                    assert(last_index(pre, uri@) == Some(i - 1));
                    assert(last_index(self.docs@, uri@) == Some(i - 1));
                    lemma_view_entries(self.docs@, uri@);
                    assert(last_key(self.doc_entries(), uri@) == Some(i - 1));
                    lemma_docs_map(self.doc_entries(), uri@);
                    assert(view_entries(self.docs@)[i - 1] == (self.docs@[i - 1].0@, self.docs@[i - 1].1@));
                    assert(self.docs()[uri@] == self.doc_entries()[i - 1].1);
                }
                return Some(&self.docs[i - 1].1);
            }
            i = i - 1;
        }
        None
    }

    /// Opens a document, or replaces the text of an open one.
    pub fn open_document(&mut self, uri: String, text: String)
        ensures
            final(self).docs() == old(self).docs().insert(uri@, text@),
            forall|root: Seq<char>| #[trigger] final(self).index_for(root) == old(self).index_for(root),
    {
        self.close_document(uri.as_str());
        let ghost before = self.doc_entries();
        let ghost mid = *self;
        self.docs.push((uri, text));
        proof {
            assert(self.index == mid.index);
            assert forall|root: Seq<char>| #[trigger] self.index_for(root) == old(self).index_for(root) by {
                assert(mid.index_for(root) == old(self).index_for(root));
            }
            assert(self.doc_entries() =~= before.push((uri@, text@)));
            assert(self.doc_entries().drop_last() =~= before);
            assert(old(self).docs().remove(uri@).insert(uri@, text@) =~= old(self).docs().insert(uri@, text@));
        }
    }

    /// Closes a document.
    pub fn close_document(&mut self, uri: &str)
        ensures
            final(self).docs() == old(self).docs().remove(uri@),
            forall|root: Seq<char>| #[trigger] final(self).index_for(root) == old(self).index_for(root),
    {
        let ghost es = self.doc_entries();
        let mut kept: Vec<(String, String)> = Vec::new();
        let mut i: usize = 0;
        proof {
            assert(es.subrange(0, 0) =~= Seq::<(Seq<char>, Seq<char>)>::empty());
            assert(view_entries(kept@) =~= Seq::<(Seq<char>, Seq<char>)>::empty());
        }
        while i < self.docs.len()
            invariant
                es == view_entries(self.docs@),
                i <= self.docs@.len(),
                view_entries(kept@) == drop_key(es.subrange(0, i as int), uri@),
            decreases self.docs@.len() - i,
        {
            proof {
                assert(es.subrange(0, i + 1).drop_last() =~= es.subrange(0, i as int));
                assert(es.subrange(0, i + 1).last() == (self.docs@[i as int].0@, self.docs@[i as int].1@));
            }
            if !str_is(self.docs[i].0.as_str(), uri) {
                let ghost before = view_entries(kept@);
                let e = (self.docs[i].0.clone(), self.docs[i].1.clone());
                kept.push(e);
                proof {
                    assert(view_entries(kept@) =~= before.push((self.docs@[i as int].0@, self.docs@[i as int].1@)));
                }
            }
            i = i + 1;
        }
        proof {
            assert(es.subrange(0, self.docs@.len() as int) =~= es);
            lemma_drop_key(es, uri@);
        }
        self.docs = kept;
    }

    /// Replaces the function index of a project root.
    pub fn set_index(&mut self, root: String, index: NameTable<FnDef>)
        ensures
            final(self).docs() == old(self).docs(),
            final(self).index_for(root@) == Some(index),
            forall|r: Seq<char>| r != root@ ==> #[trigger] final(self).index_for(r) == old(self).index_for(r),
    {
        let ghost key = root@;
        let ghost idx = index;
        self.index.insert(root, index);
        proof {
            let s = self.index.entries();
            assert(s.drop_last() =~= old(self).index.entries());
            assert(last_index(s, key) == Some(s.len() - 1));
            assert forall|r: Seq<char>| r != key implies #[trigger] self.index_for(r) == old(self).index_for(r) by {
                let o = old(self).index.entries();
                assert(s.last().0@ == key);
                assert(last_index(s, r) == last_index(o, r));
                lemma_last_index(o, r);
                if let Some(i) = last_index(o, r) {
                    assert(s[i] == o[i]);
                }
            }
        }
    }

    /// The URIs of the open documents.
    pub fn open_uris(&self) -> (r: Vec<String>)
        ensures
            r@.map_values(|u: String| u@) == self.doc_uris(),
    {
        let mut out: Vec<String> = Vec::new();
        let mut i: usize = 0;
        while i < self.docs.len()
            invariant
                i <= self.docs@.len(),
                out@.len() == i,
                forall|j: int| 0 <= j < i ==> (#[trigger] out@[j])@ == self.docs@[j].0@,
            decreases self.docs@.len() - i,
        {
            out.push(self.docs[i].0.clone());
            i = i + 1;
        }
        proof {
            assert(out@.map_values(|u: String| u@) =~= self.doc_uris());
        }
        out
    }
}

// ── Lookups ───────────────────────────────────────────────────────────────────

/// Where a definition is: a URI, and a line and column from 0.
pub struct Location {
    pub uri: String,
    pub line: u64,
    pub character: u64,
}

pub struct LocationV {
    pub uri: Seq<char>,
    pub line: nat,
    pub character: nat,
}

impl View for Location {
    type V = LocationV;

    open spec fn view(&self) -> LocationV {
        LocationV { uri: self.uri@, line: self.line as nat, character: self.character as nat }
    }
}

/// The place a function is declared at.
pub open spec fn location_of(d: FnDef) -> LocationV {
    LocationV {
        uri: path_uri(d.file@),
        line: from_one(d.bullet.span.line as nat),
        character: from_one(d.bullet.span.col as nat),
    }
}

impl Server {
    /// Whether a position in a document can be looked at.
    pub open spec fn position_fits(&self, uri: Seq<char>, line: nat, col: nat) -> bool {
        self.docs().dom().contains(uri) ==> position_ok(self.docs()[uri], line, col)
    }

    /// The function named at a position of an open document, looked up in
    /// the index of the document's project root.
    pub open spec fn def_at(&self, uri: Seq<char>, line: nat, col: nat, root: Option<Seq<char>>) -> Option<FnDef> {
        if !self.docs().dom().contains(uri) {
            None
        } else {
            match word_at_spec(self.docs()[uri], line, col) {
                None => None,
                Some(w) => match root {
                    None => None,
                    Some(r) => match self.index_for(r) {
                        None => None,
                        Some(t) => t.lookup(w),
                    },
                },
            }
        }
    }

    fn lookup_def(&self, uri: &str, line: u64, col: u64, root: &Option<String>) -> (r: Option<&FnDef>)
        requires
            self.position_fits(uri@, line as nat, col as nat),
        ensures
            match r {
                Some(d) => self.def_at(uri@, line as nat, col as nat, opt_str(*root)) == Some(*d),
                None => self.def_at(uri@, line as nat, col as nat, opt_str(*root)) is None,
            },
    {
        let text = match self.document(uri) {
            Some(t) => t,
            None => return None,
        };
        let word = match word_at(text.as_str(), line, col) {
            Some(w) => w,
            None => return None,
        };
        let r = match root {
            Some(r) => r,
            None => return None,
        };
        let i = match self.index.find(r.as_str()) {
            Some(i) => i,
            None => return None,
        };
        let table = self.index.at(i);
        proof {
            assert(self.index_for(r@) == Some(*table));
        }
        match table.find(word.as_str()) {
            Some(j) => {
                let d = table.at(j);
                Some(d)
            },
            None => None,
        }
    }

    /// The hover text for a position.
    pub fn hover(&self, uri: &str, line: u64, col: u64, root: &Option<String>) -> (r: Option<String>)
        requires
            self.position_fits(uri@, line as nat, col as nat),
        ensures
            opt_str(r) == (match self.def_at(uri@, line as nat, col as nat, opt_str(*root)) {
                Some(d) => Some(hover_text(d.bullet, d.file@)),
                None => None,
            }),
    {
        match self.lookup_def(uri, line, col, root) {
            Some(d) => Some(format_hover(&d.bullet, d.file.as_str())),
            None => None,
        }
    }

    /// The definition of the function named at a position.
    pub fn definition(&self, uri: &str, line: u64, col: u64, root: &Option<String>) -> (r: Option<Location>)
        requires
            self.position_fits(uri@, line as nat, col as nat),
        ensures
            match self.def_at(uri@, line as nat, col as nat, opt_str(*root)) {
                Some(d) => r matches Some(l) && l@ == location_of(d),
                None => r is None,
            },
    {
        match self.lookup_def(uri, line, col, root) {
            Some(d) => {
                let sl = d.bullet.span.line;
                let sc = d.bullet.span.col;
                let l: u64 = if sl > 0 { (sl - 1) as u64 } else { 0 };
                let c: u64 = if sc > 0 { (sc - 1) as u64 } else { 0 };
                Some(Location { uri: path_to_uri(d.file.as_str()), line: l, character: c })
            },
            None => None,
        }
    }
}

// ── Messages ──────────────────────────────────────────────────────────────────

/// The kinds of message the server tells apart by their method.
pub enum MethodKind {
    Initialize,
    Initialized,
    Shutdown,
    Exit,
    DidOpen,
    DidChange,
    DidSave,
    DidClose,
    Hover,
    Definition,
    Other,
}

pub open spec fn method_kind_spec(m: Seq<char>) -> MethodKind {
    if m == "initialize"@ {
        MethodKind::Initialize
    } else if m == "initialized"@ {
        MethodKind::Initialized
    } else if m == "shutdown"@ {
        MethodKind::Shutdown
    } else if m == "exit"@ {
        MethodKind::Exit
    } else if m == "textDocument/didOpen"@ {
        MethodKind::DidOpen
    } else if m == "textDocument/didChange"@ {
        MethodKind::DidChange
    } else if m == "textDocument/didSave"@ {
        MethodKind::DidSave
    } else if m == "textDocument/didClose"@ {
        MethodKind::DidClose
    } else if m == "textDocument/hover"@ {
        MethodKind::Hover
    } else if m == "textDocument/definition"@ {
        MethodKind::Definition
    } else {
        MethodKind::Other
    }
}

pub fn method_kind(m: &str) -> (r: MethodKind)
    ensures
        r == method_kind_spec(m@),
{
    if str_is(m, "initialize") {
        MethodKind::Initialize
    } else if str_is(m, "initialized") {
        MethodKind::Initialized
    } else if str_is(m, "shutdown") {
        MethodKind::Shutdown
    } else if str_is(m, "exit") {
        MethodKind::Exit
    } else if str_is(m, "textDocument/didOpen") {
        MethodKind::DidOpen
    } else if str_is(m, "textDocument/didChange") {
        MethodKind::DidChange
    } else if str_is(m, "textDocument/didSave") {
        MethodKind::DidSave
    } else if str_is(m, "textDocument/didClose") {
        MethodKind::DidClose
    } else if str_is(m, "textDocument/hover") {
        MethodKind::Hover
    } else if str_is(m, "textDocument/definition") {
        MethodKind::Definition
    } else {
        MethodKind::Other
    }
}

/// The JSON-RPC error code of a request for an unknown method.
pub const METHOD_NOT_FOUND: i64 = -32601;

/// A message from the editor, with what the server needs of it. `root` is
/// the project root of the document's path, where one was found.
#[allow(inconsistent_fields)]
pub enum LspEvent {
    Initialize,
    Initialized,
    Shutdown,
    Exit,
    DidOpen { uri: String, text: String },
    /// `text` is the last change's full text, if the message holds a change.
    DidChange { uri: String, text: Option<String> },
    DidSave { uri: String },
    DidClose { uri: String },
    Hover { uri: String, line: u64, col: u64, root: Option<String> },
    Definition { uri: String, line: u64, col: u64, root: Option<String> },
    /// Any other method; `is_request` when the message carries an id.
    Unknown { is_request: bool },
}

/// What the server does in answer to a message.
pub enum LspAction {
    /// Reply with the server's capabilities.
    Capabilities,
    /// Reply with `null`.
    Null,
    /// Stop the process.
    Quit,
    /// Re-index the document's project and publish its diagnostics.
    PushDiagnostics(String),
    /// Publish an empty list of diagnostics for a document.
    ClearDiagnostics(String),
    /// Reply with hover text, or `null`.
    Hover(Option<String>),
    /// Reply with a location, or `null`.
    Definition(Option<Location>),
    /// Reply with the error "method not found".
    MethodNotFound,
    /// No reply.
    Nothing,
}

/// The open documents after a message.
pub open spec fn next_docs(m: Map<Seq<char>, Seq<char>>, ev: LspEvent) -> Map<Seq<char>, Seq<char>> {
    match ev {
        LspEvent::DidOpen { uri, text } => m.insert(uri@, text@),
        LspEvent::DidChange { uri, text: Some(t) } => m.insert(uri@, t@),
        LspEvent::DidClose { uri } => m.remove(uri@),
        _ => m,
    }
}

impl Server {
    /// What a message needs of the state: a hover or definition request
    /// names a position that can be looked at.
    pub open spec fn event_ok(&self, ev: LspEvent) -> bool {
        match ev {
            LspEvent::Hover { uri, line, col, .. } => self.position_fits(uri@, line as nat, col as nat),
            LspEvent::Definition { uri, line, col, .. } => self.position_fits(uri@, line as nat, col as nat),
            _ => true,
        }
    }

    /// The action that answers a message, on the state before it.
    pub open spec fn action_ok(&self, ev: LspEvent, a: LspAction) -> bool {
        match ev {
            LspEvent::Initialize => a is Capabilities,
            LspEvent::Initialized => a is Nothing,
            LspEvent::Shutdown => a is Null,
            LspEvent::Exit => a is Quit,
            LspEvent::DidOpen { uri, .. } => a matches LspAction::PushDiagnostics(u) && u@ == uri@,
            LspEvent::DidChange { uri, .. } => a matches LspAction::PushDiagnostics(u) && u@ == uri@,
            LspEvent::DidSave { uri } => a matches LspAction::PushDiagnostics(u) && u@ == uri@,
            LspEvent::DidClose { uri } => a matches LspAction::ClearDiagnostics(u) && u@ == uri@,
            LspEvent::Hover { uri, line, col, root } => a matches LspAction::Hover(h) && opt_str(h) == (
                match self.def_at(uri@, line as nat, col as nat, opt_str(root)) {
                    Some(d) => Some(hover_text(d.bullet, d.file@)),
                    None => None,
                }),
            LspEvent::Definition { uri, line, col, root } => a matches LspAction::Definition(l) && (
                match self.def_at(uri@, line as nat, col as nat, opt_str(root)) {
                    Some(d) => l matches Some(x) && x@ == location_of(d),
                    None => l is None,
                }),
            LspEvent::Unknown { is_request } => if is_request { a is MethodNotFound } else { a is Nothing },
        }
    }

    /// Handles one message: updates the open documents and says what to do.
    pub fn handle(&mut self, ev: LspEvent) -> (r: LspAction)
        requires
            old(self).event_ok(ev),
        ensures
            final(self).docs() == next_docs(old(self).docs(), ev),
            forall|root: Seq<char>| #[trigger] final(self).index_for(root) == old(self).index_for(root),
            old(self).action_ok(ev, r),
    {
        match ev {
            LspEvent::Initialize => LspAction::Capabilities,
            LspEvent::Initialized => LspAction::Nothing,
            LspEvent::Shutdown => LspAction::Null,
            LspEvent::Exit => LspAction::Quit,
            LspEvent::DidOpen { uri, text } => {
                let u = uri.clone();
                self.open_document(uri, text);
                LspAction::PushDiagnostics(u)
            },
            LspEvent::DidChange { uri, text } => {
                let u = uri.clone();
                match text {
                    Some(t) => self.open_document(uri, t),
                    None => {},
                }
                LspAction::PushDiagnostics(u)
            },
            LspEvent::DidSave { uri } => LspAction::PushDiagnostics(uri),
            LspEvent::DidClose { uri } => {
                self.close_document(uri.as_str());
                LspAction::ClearDiagnostics(uri)
            },
            LspEvent::Hover { uri, line, col, root } => {
                LspAction::Hover(self.hover(uri.as_str(), line, col, &root))
            },
            LspEvent::Definition { uri, line, col, root } => {
                LspAction::Definition(self.definition(uri.as_str(), line, col, &root))
            },
            LspEvent::Unknown { is_request } => {
                if is_request { LspAction::MethodNotFound } else { LspAction::Nothing }
            },
        }
    }
}

impl Server {
    fn position_can_fit(&self, uri: &String, line: u64, col: u64) -> (r: bool)
        ensures
            r == self.position_fits(uri@, line as nat, col as nat),
    {
        match self.document(uri.as_str()) {
            Some(t) => position_valid(t.as_str(), line, col),
            None => true,
        }
    }

    /// Whether a message can be handled: a hover or definition request on an
    /// open document names a position on a character of one of its lines.
    pub fn event_can_handle(&self, ev: &LspEvent) -> (r: bool)
        ensures
            r == self.event_ok(*ev),
    {
        match ev {
            LspEvent::Hover { uri, line, col, .. } => self.position_can_fit(uri, *line, *col),
            LspEvent::Definition { uri, line, col, .. } => self.position_can_fit(uri, *line, *col),
            _ => true,
        }
    }

    /// Handles a message where it can be handled, as `handle` does; `None`,
    /// and nothing changed, where its position does not fall on a character.
    pub fn handle_checked(&mut self, ev: LspEvent) -> (r: Option<LspAction>)
        ensures
            old(self).event_ok(ev) ==> (r matches Some(a) && old(self).action_ok(ev, a)
                && final(self).docs() == next_docs(old(self).docs(), ev)),
            !old(self).event_ok(ev) ==> r is None && *final(self) == *old(self),
            forall|root: Seq<char>| #[trigger] final(self).index_for(root) == old(self).index_for(root),
    {
        if self.event_can_handle(&ev) {
            Some(self.handle(ev))
        } else {
            None
        }
    }
}

/// What the server announces when it starts: full-text document sync
/// (kind 1), hover, go-to-definition, and its name.
pub struct ServerInfo {
    pub text_document_sync: u8,
    pub hover_provider: bool,
    pub definition_provider: bool,
    pub name: String,
}

pub fn server_info() -> (r: ServerInfo)
    ensures
        r.text_document_sync == 1,
        r.hover_provider,
        r.definition_provider,
        r.name@ == "bullang-lsp"@,
{
    ServerInfo { text_document_sync: 1, hover_provider: true, definition_provider: true, name: String::from_str("bullang-lsp") }
}

// ── Publishing diagnostics ────────────────────────────────────────────────────

/// The diagnostics to publish for one document.
pub struct Publish {
    pub uri: String,
    pub diagnostics: Vec<Diagnostic>,
}

pub open spec fn publish_view(p: Publish) -> (Seq<char>, Seq<DiagnosticV>) {
    (p.uri@, diags_view(p.diagnostics@))
}

pub open spec fn open_view(open: Seq<(String, Option<String>)>) -> Seq<(Seq<char>, Option<Seq<char>>)> {
    open.map_values(|e: (String, Option<String>)| (e.0@, opt_str(e.1)))
}

/// For each open document of the project at `root`, in order, its
/// diagnostics.
pub open spec fn open_pubs(open: Seq<(Seq<char>, Option<Seq<char>>)>, root: Seq<char>, ds: Seq<DiagV>)
    -> Seq<(Seq<char>, Seq<DiagnosticV>)>
    decreases open.len(),
{
    if open.len() == 0 {
        Seq::empty()
    } else {
        let p = open_pubs(open.drop_last(), root, ds);
        let e = open.last();
        if e.1 == Some(root) { p.push((e.0, diags_at(ds, e.0))) } else { p }
    }
}

/// What is published after a change to `trigger`: where the document lies
/// in no project, an empty list for it alone; else the diagnostics of every
/// open document of its project (each paired with the root of its own
/// path), and last those of the document itself.
pub open spec fn publish_spec(
    trigger: Seq<char>,
    root: Option<Seq<char>>,
    open: Seq<(Seq<char>, Option<Seq<char>>)>,
    ds: Seq<DiagV>,
) -> Seq<(Seq<char>, Seq<DiagnosticV>)> {
    match root {
        None => seq![(trigger, Seq::<DiagnosticV>::empty())],
        Some(r) => open_pubs(open, r, ds).push((trigger, diags_at(ds, trigger))),
    }
}

pub fn publish_plan(
    trigger: &str,
    root: &Option<String>,
    open: &Vec<(String, Option<String>)>,
    all: &AllErrors,
    types: &Vec<TypeError>,
) -> (r: Vec<Publish>)
    requires
        cols_fit(project_diags(all@, type_diags(types@))),
    ensures
        r@.map_values(|p: Publish| publish_view(p))
            == publish_spec(trigger@, opt_str(*root), open_view(open@), project_diags(all@, type_diags(types@))),
{
    let ghost ds = project_diags(all@, type_diags(types@));
    let mut out: Vec<Publish> = Vec::new();
    let r = match root {
        None => {
            let none: Vec<Diagnostic> = Vec::new();
            proof {
                assert(diags_view(none@) =~= Seq::<DiagnosticV>::empty());
            }
            out.push(Publish { uri: String::from_str(trigger), diagnostics: none });
            proof {
                assert(out@.map_values(|p: Publish| publish_view(p)) =~= seq![(trigger@, Seq::<DiagnosticV>::empty())]);
            }
            return out;
        },
        Some(r) => r,
    };
    let ghost ov = open_view(open@);
    let mut i: usize = 0;
    proof {
        assert(ov.subrange(0, 0) =~= Seq::<(Seq<char>, Option<Seq<char>>)>::empty());
        assert(out@.map_values(|p: Publish| publish_view(p)) =~= Seq::<(Seq<char>, Seq<DiagnosticV>)>::empty());
    }
    while i < open.len()
        invariant
            ov == open_view(open@),
            i <= open@.len(),
            cols_fit(ds),
            ds == project_diags(all@, type_diags(types@)),
            out@.map_values(|p: Publish| publish_view(p)) == open_pubs(ov.subrange(0, i as int), r@, ds),
        decreases open@.len() - i,
    {
        proof {
            assert(ov.subrange(0, i + 1).drop_last() =~= ov.subrange(0, i as int));
            assert(ov.subrange(0, i + 1).last() == (open@[i as int].0@, opt_str(open@[i as int].1)));
        }
        let e = &open[i];
        let same = match &e.1 {
            Some(x) => str_is(x.as_str(), r.as_str()),
            None => false,
        };
        if same {
            let ghost before = out@.map_values(|p: Publish| publish_view(p));
            let ds_here = diagnostics_for(all, types, e.0.as_str());
            out.push(Publish { uri: e.0.clone(), diagnostics: ds_here });
            proof {
                assert(out@.map_values(|p: Publish| publish_view(p))
                    =~= before.push((open@[i as int].0@, diags_at(ds, open@[i as int].0@))));
            }
        }
        i = i + 1;
    }
    let ghost before = out@.map_values(|p: Publish| publish_view(p));
    let mine = diagnostics_for(all, types, trigger);
    out.push(Publish { uri: String::from_str(trigger), diagnostics: mine });
    proof {
        assert(ov.subrange(0, open@.len() as int) =~= ov);
        assert(out@.map_values(|p: Publish| publish_view(p)) =~= before.push((trigger@, diags_at(ds, trigger@))));
    }
    out
}

// ── Laws ──────────────────────────────────────────────────────────────────────

/// Opening a document and then closing it leaves the open documents as they
/// were without it.
pub proof fn law_open_then_close(m: Map<Seq<char>, Seq<char>>, uri: String, text: String)
    ensures
        next_docs(next_docs(m, LspEvent::DidOpen { uri: uri, text: text }), LspEvent::DidClose { uri: uri })
            == m.remove(uri@),
{
    assert(m.insert(uri@, text@).remove(uri@) =~= m.remove(uri@));
}

/// A document's latest text is the one that counts: opening it twice is
/// opening it once with the second text.
pub proof fn law_latest_text_wins(m: Map<Seq<char>, Seq<char>>, uri: String, t1: String, t2: String)
    ensures
        next_docs(next_docs(m, LspEvent::DidOpen { uri: uri, text: t1 }), LspEvent::DidOpen { uri: uri, text: t2 })
            == next_docs(m, LspEvent::DidOpen { uri: uri, text: t2 }),
        next_docs(m, LspEvent::DidOpen { uri: uri, text: t2 })[uri@] == t2@,
{
    assert(m.insert(uri@, t1@).insert(uri@, t2@) =~= m.insert(uri@, t2@));
}

/// A document that is not open has no hover and no definition.
pub proof fn law_closed_document_answers_nothing(s: Server, uri: Seq<char>, line: nat, col: nat, root: Option<Seq<char>>)
    requires
        !s.docs().dom().contains(uri),
    ensures
        s.def_at(uri, line, col, root) is None,
{
}

/// After a change the document that changed is always published, last;
/// outside any project it alone is published, with no diagnostics.
pub proof fn law_trigger_published_last(
    trigger: Seq<char>,
    root: Option<Seq<char>>,
    open: Seq<(Seq<char>, Option<Seq<char>>)>,
    ds: Seq<DiagV>,
)
    ensures
        publish_spec(trigger, root, open, ds).len() > 0,
        publish_spec(trigger, root, open, ds).last().0 == trigger,
        root is None ==> publish_spec(trigger, root, open, ds) == seq![(trigger, Seq::<DiagnosticV>::empty())],
{
}

/// Type errors are reported only for a project without parse or
/// structural errors: where there are some, they alone are reported.
pub proof fn law_type_errors_after_validation(all: AllV, types: Seq<DiagV>)
    ensures
        (all.parse.len() > 0 || all.structural.len() > 0) ==> project_diags(all, types) == all.parse + all.structural,
        (all.parse.len() == 0 && all.structural.len() == 0) ==> project_diags(all, types) == types,
{
}

} // verus!
