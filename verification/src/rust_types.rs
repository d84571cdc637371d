//! How Bullang types are written in Rust: bracket generics become angle
//! brackets (`Vec[T]` to `Vec<T>`), `Tuple[A, B]` becomes `(A, B)` and
//! `Fn[A -> R]` becomes `fn(A) -> R`; anything else passes through.
use vstd::prelude::*;
use crate::ast::{BuType, TyV, tys_view, nat_decimal, lemma_tys_view};
use crate::text::{
    chars_of, string_of, has_prefix, has_suffix, trim_seq, trim_chars, find_arrow, lemma_find_arrow,
    find_arrow_in, lemma_trim_len, prefix_at, usize_to_string,
};

verus! {

// ── Splitting at the top level ────────────────────────────────────────────────

/// Whether a character opens a nesting level.
pub open spec fn opens(c: char) -> bool {
    c == '[' || c == '(' || c == '<'
}

/// Whether the character at `i` closes a nesting level: `]`, `)`, or a
/// `>` that is not the end of an arrow `->`.
pub open spec fn closes(s: Seq<char>, i: int) -> bool {
    s[i] == ']' || s[i] == ')' || (s[i] == '>' && !(i > 0 && s[i - 1] == '-'))
}

/// The parts of `s[i..]` between the separators that stand outside any
/// brackets, each trimmed, given the nesting `depth` at `i`, the part `cur`
/// read so far and the parts `acc` already cut; a last part that is blank
/// is dropped.
pub open spec fn split_from(s: Seq<char>, sep: char, i: int, depth: int, cur: Seq<char>, acc: Seq<Seq<char>>) -> Seq<Seq<char>>
    decreases s.len() - i,
{
    if i < 0 || i >= s.len() {
        if trim_seq(cur).len() > 0 { acc.push(trim_seq(cur)) } else { acc }
    } else {
        let c = s[i];
        if opens(c) {
            split_from(s, sep, i + 1, depth + 1, cur.push(c), acc)
        } else if closes(s, i) {
            split_from(s, sep, i + 1, depth - 1, cur.push(c), acc)
        } else if c == sep && depth == 0 {
            split_from(s, sep, i + 1, depth, Seq::empty(), acc.push(trim_seq(cur)))
        } else {
            split_from(s, sep, i + 1, depth, cur.push(c), acc)
        }
    }
}

/// `s` split at the separators that stand outside any brackets.
pub open spec fn split_top(s: Seq<char>, sep: char) -> Seq<Seq<char>> {
    split_from(s, sep, 0, 0, Seq::empty(), Seq::empty())
}

/// Every part is no longer than the text it came from.
pub proof fn lemma_split_from_len(s: Seq<char>, sep: char, i: int, depth: int, cur: Seq<char>, acc: Seq<Seq<char>>)
    requires
        0 <= i <= s.len(),
        cur.len() <= i,
        forall|k: int| 0 <= k < acc.len() ==> (#[trigger] acc[k]).len() <= s.len(),
    ensures
        forall|k: int| 0 <= k < split_from(s, sep, i, depth, cur, acc).len() ==> (#[trigger] split_from(s, sep, i, depth, cur, acc)[k]).len() <= s.len(),
    decreases s.len() - i,
{
    lemma_trim_len(cur);
    let pushed = acc.push(trim_seq(cur));
    assert forall|k: int| 0 <= k < pushed.len() implies (#[trigger] pushed[k]).len() <= s.len() by {
        if k < acc.len() {
            assert(pushed[k] == acc[k]);
        }
    }
    let r = split_from(s, sep, i, depth, cur, acc);
    if i < s.len() {
        let c = s[i];
        if opens(c) {
            lemma_split_from_len(s, sep, i + 1, depth + 1, cur.push(c), acc);
            assert(r == split_from(s, sep, i + 1, depth + 1, cur.push(c), acc));
        } else if closes(s, i) {
            lemma_split_from_len(s, sep, i + 1, depth - 1, cur.push(c), acc);
            assert(r == split_from(s, sep, i + 1, depth - 1, cur.push(c), acc));
        } else if c == sep && depth == 0 {
            lemma_split_from_len(s, sep, i + 1, depth, Seq::empty(), pushed);
            assert(r == split_from(s, sep, i + 1, depth, Seq::empty(), pushed));
        } else {
            lemma_split_from_len(s, sep, i + 1, depth, cur.push(c), acc);
            assert(r == split_from(s, sep, i + 1, depth, cur.push(c), acc));
        }
    } else {
        assert(r == (if trim_seq(cur).len() > 0 { pushed } else { acc }));
    }
}

pub fn split_top_level(s: &str, sep: char) -> (r: Vec<String>)
    ensures
        r@.map_values(|x: String| x@) == split_top(s@, sep),
{
    let v = chars_of(s);
    let mut parts: Vec<String> = Vec::new();
    let mut cur: Vec<char> = Vec::new();
    let mut depth: i128 = 0;
    let mut i: usize = 0;
    let n = v.len();
    proof {
        assert(parts@.map_values(|x: String| x@) =~= Seq::<Seq<char>>::empty());
        assert(cur@ =~= Seq::<char>::empty());
    }
    while i < v.len()
        invariant
            i <= v@.len(),
            v@ == s@,
            -(i as int) <= depth <= i as int,
            v@.len() <= usize::MAX,
            split_top(s@, sep) == split_from(s@, sep, i as int, depth as int, cur@, parts@.map_values(|x: String| x@)),
        decreases v@.len() - i,
    {
        let c = v[i];
        let ghost acc = parts@.map_values(|x: String| x@);
        if c == '[' || c == '(' || c == '<' {
            depth = depth + 1;
            cur.push(c);
        } else if c == ']' || c == ')' || (c == '>' && !(i > 0 && v[i - 1] == '-')) {
            depth = depth - 1;
            cur.push(c);
        } else if c == sep && depth == 0 {
            let t = trim_chars(cur.as_slice(), 0, cur.len());
            proof {
                assert(cur@.subrange(0, cur@.len() as int) =~= cur@);
            }
            parts.push(t);
            proof {
                assert(parts@.map_values(|x: String| x@) =~= acc.push(trim_seq(cur@)));
            }
            cur = Vec::new();
        } else {
            cur.push(c);
        }
        i = i + 1;
    }
    let t = trim_chars(cur.as_slice(), 0, cur.len());
    proof {
        assert(cur@.subrange(0, cur@.len() as int) =~= cur@);
    }
    if t.unicode_len() > 0 {
        let ghost acc = parts@.map_values(|x: String| x@);
        parts.push(t);
        proof {
            assert(parts@.map_values(|x: String| x@) =~= acc.push(trim_seq(cur@)));
        }
    }
    parts
}

// ── Translation ───────────────────────────────────────────────────────────────

/// The Rust text of a type name.
pub open spec fn rs_named(s: Seq<char>) -> Seq<char>
    decreases s.len(), 2nat,
{
    let n = s.len();
    if has_prefix(s, "Vec["@) && has_suffix(s, "]"@) && n >= 5 {
        "Vec<"@ + rs_named(s.subrange(4, n - 1)) + ">"@
    } else if has_prefix(s, "Option["@) && has_suffix(s, "]"@) && n >= 8 {
        "Option<"@ + rs_named(s.subrange(7, n - 1)) + ">"@
    } else if has_prefix(s, "Tuple["@) && has_suffix(s, "]"@) && n >= 7 {
        "("@ + rs_list(split_top(s.subrange(6, n - 1), ','), n) + ")"@
    } else if has_prefix(s, "Fn["@) && has_suffix(s, "]"@) && n >= 4 {
        rs_fn(s.subrange(3, n - 1))
    } else if has_prefix(s, "Box["@) && has_suffix(s, "]"@) && n >= 5 {
        "Box<"@ + rs_named(s.subrange(4, n - 1)) + ">"@
    } else if has_prefix(s, "HashMap["@) && has_suffix(s, "]"@) && n >= 9 && split_top(s.subrange(8, n - 1), ',').len() == 2 {
        let ps = split_top(s.subrange(8, n - 1), ',');
        "HashMap<"@ + rs_list(ps, n) + ">"@
    } else {
        s
    }
}

/// The parts, each trimmed and written in Rust, joined by `, `; `lim`
/// bounds their lengths.
pub open spec fn rs_list(ps: Seq<Seq<char>>, lim: nat) -> Seq<char>
    decreases lim, 1nat, ps.len(),
{
    if ps.len() == 0 {
        Seq::empty()
    } else if ps.last().len() >= lim {
        Seq::empty()
    } else {
        proof {
            lemma_trim_len(ps.last());
        }
        let last = rs_named(trim_seq(ps.last()));
        if ps.len() == 1 {
            last
        } else {
            rs_list(ps.drop_last(), lim) + ", "@ + last
        }
    }
}

/// The contents of `Fn[..]` written as a Rust function pointer type.
pub open spec fn rs_fn(inner: Seq<char>) -> Seq<char>
    decreases inner.len() + 1, 2nat,
{
    match find_arrow(inner) {
        Some(a) => {
            proof {
                lemma_find_arrow(inner);
                lemma_trim_len(inner.subrange(0, a));
                lemma_trim_len(inner.subrange(a + 2, inner.len() as int));
            }
            let ps = trim_seq(inner.subrange(0, a));
            let rs = trim_seq(inner.subrange(a + 2, inner.len() as int));
            let params = if ps.len() == 0 { Seq::empty() } else { rs_list(split_top(ps, ','), inner.len() + 1) };
            if rs.len() == 0 {
                "fn("@ + params + ")"@
            } else {
                "fn("@ + params + ") -> "@ + rs_named(rs)
            }
        },
        None => if trim_seq(inner).len() == 0 {
            "fn()"@
        } else {
            proof {
                lemma_trim_len(inner);
            }
            "fn() -> "@ + rs_named(trim_seq(inner))
        },
    }
}

fn trimmed_str(s: &str) -> (r: String)
    ensures
        r@ == trim_seq(s@),
{
    let v = chars_of(s);
    proof {
        assert(v@.subrange(0, v@.len() as int) =~= v@);
    }
    trim_chars(v.as_slice(), 0, v.len())
}

fn ends_bracket(v: &Vec<char>) -> (r: bool)
    ensures
        r == has_suffix(v@, "]"@),
{
    proof {
        reveal_strlit("]");
    }
    let n = v.len();
    if n == 0 {
        return false;
    }
    proof {
        assert(v@.subrange(n - 1, n as int)[0] == v@[n - 1]);
        if v@[n - 1] == ']' {
            assert(v@.subrange(n - 1, n as int) =~= "]"@);
        }
    }
    v[n - 1] == ']'
}

/// The Rust text of a type name (`translate_named_to_rust`).
pub fn translate_named_to_rust(s: &str) -> (r: String)
    ensures
        r@ == rs_named(s@),
    decreases s@.len(), 2nat,
{
    let v = chars_of(s);
    let n = v.len();
    let ends = ends_bracket(&v);
    proof {
        reveal_strlit("Vec[");
        reveal_strlit("Option[");
        reveal_strlit("Tuple[");
        reveal_strlit("Fn[");
        reveal_strlit("Box[");
        reveal_strlit("HashMap[");
        assert(v@.subrange(0, n as int) =~= v@);
    }
    if prefix_at(v.as_slice(), 0, "Vec[") && ends && n >= 5 {
        let inner = string_of(v.as_slice(), 4, n - 1);
        let mut r = String::from_str("Vec<");
        let t = translate_named_to_rust(inner.as_str());
        r.append(t.as_str());
        r.append(">");
        return r;
    }
    if prefix_at(v.as_slice(), 0, "Option[") && ends && n >= 8 {
        let inner = string_of(v.as_slice(), 7, n - 1);
        let mut r = String::from_str("Option<");
        let t = translate_named_to_rust(inner.as_str());
        r.append(t.as_str());
        r.append(">");
        return r;
    }
    if prefix_at(v.as_slice(), 0, "Tuple[") && ends && n >= 7 {
        let inner = string_of(v.as_slice(), 6, n - 1);
        let parts = split_top_level(inner.as_str(), ',');
        proof {
            lemma_split_from_len(inner@, ',', 0, 0, Seq::empty(), Seq::empty());
            assert forall|k: int| 0 <= k < parts@.len() implies (#[trigger] parts@[k])@.len() < n by {
                assert(parts@[k]@ == parts@.map_values(|x: String| x@)[k]);
            }
        }
        let mut r = String::from_str("(");
        let l = translate_list(&parts, n);
        r.append(l.as_str());
        r.append(")");
        return r;
    }
    if prefix_at(v.as_slice(), 0, "Fn[") && ends && n >= 4 {
        let inner = string_of(v.as_slice(), 3, n - 1);
        return translate_fn_to_rust(inner.as_str());
    }
    if prefix_at(v.as_slice(), 0, "Box[") && ends && n >= 5 {
        let inner = string_of(v.as_slice(), 4, n - 1);
        let mut r = String::from_str("Box<");
        let t = translate_named_to_rust(inner.as_str());
        r.append(t.as_str());
        r.append(">");
        return r;
    }
    if prefix_at(v.as_slice(), 0, "HashMap[") && ends && n >= 9 {
        let inner = string_of(v.as_slice(), 8, n - 1);
        let parts = split_top_level(inner.as_str(), ',');
        if parts.len() == 2 {
            proof {
                lemma_split_from_len(inner@, ',', 0, 0, Seq::empty(), Seq::empty());
                assert forall|k: int| 0 <= k < parts@.len() implies (#[trigger] parts@[k])@.len() < n by {
                    assert(parts@[k]@ == parts@.map_values(|x: String| x@)[k]);
                }
            }
            let mut r = String::from_str("HashMap<");
            let l = translate_list(&parts, n);
            r.append(l.as_str());
            r.append(">");
            return r;
        }
    }
    String::from_str(s)
}

fn translate_list(parts: &Vec<String>, lim: usize) -> (r: String)
    requires
        forall|k: int| 0 <= k < parts@.len() ==> (#[trigger] parts@[k])@.len() < lim,
    ensures
        r@ == rs_list(parts@.map_values(|x: String| x@), lim as nat),
    decreases lim, 1nat,
{
    let ghost ps = parts@.map_values(|x: String| x@);
    let mut r = String::new();
    let mut i: usize = 0;
    proof {
        assert(ps.subrange(0, 0) =~= Seq::<Seq<char>>::empty());
    }
    while i < parts.len()
        invariant
            i <= parts@.len(),
            ps == parts@.map_values(|x: String| x@),
            forall|k: int| 0 <= k < parts@.len() ==> (#[trigger] parts@[k])@.len() < lim,
            r@ == rs_list(ps.subrange(0, i as int), lim as nat),
        decreases parts@.len() - i,
    {
        let ghost pre = ps.subrange(0, i as int);
        let ghost nxt = ps.subrange(0, i + 1);
        proof {
            assert(nxt.drop_last() =~= pre);
            assert(nxt.last() == parts@[i as int]@);
            lemma_trim_len(parts@[i as int]@);
        }
        let t = trimmed_str(parts[i].as_str());
        let g = translate_named_to_rust(t.as_str());
        if i > 0 {
            r.append(", ");
        }
        r.append(g.as_str());
        i = i + 1;
    }
    proof {
        assert(ps.subrange(0, ps.len() as int) =~= ps);
    }
    r
}

/// The contents of `Fn[..]` as a Rust function pointer type.
fn translate_fn_to_rust(inner: &str) -> (r: String)
    requires
        inner@.len() < usize::MAX,
    ensures
        r@ == rs_fn(inner@),
    decreases inner@.len() + 1, 2nat,
{
    let v = chars_of(inner);
    let n = v.len();
    proof {
        lemma_find_arrow(inner@);
        assert(v@.subrange(0, n as int) =~= v@);
    }
    match find_arrow_in(v.as_slice(), 0, n) {
        Some(a) => {
            proof {
                assert(inner@.subrange(0, a as int) =~= v@.subrange(0, a as int));
                lemma_trim_len(inner@.subrange(0, a as int));
                lemma_trim_len(inner@.subrange(a + 2, n as int));
            }
            let ps = crate::text::trim_chars(v.as_slice(), 0, a);
            let rs = crate::text::trim_chars(v.as_slice(), a + 2, n);
            let mut r = String::from_str("fn(");
            if ps.unicode_len() > 0 {
                let parts = split_top_level(ps.as_str(), ',');
                proof {
                    lemma_split_from_len(ps@, ',', 0, 0, Seq::empty(), Seq::empty());
                    assert forall|k: int| 0 <= k < parts@.len() implies (#[trigger] parts@[k])@.len() < n + 1 by {
                        assert(parts@[k]@ == parts@.map_values(|x: String| x@)[k]);
                    }
                }
                let l = translate_list(&parts, n + 1);
                r.append(l.as_str());
            }
            if rs.unicode_len() == 0 {
                r.append(")");
            } else {
                r.append(") -> ");
                let t = translate_named_to_rust(rs.as_str());
                r.append(t.as_str());
            }
            r
        },
        None => {
            let t = crate::text::trim_chars(v.as_slice(), 0, n);
            if t.unicode_len() == 0 {
                String::from_str("fn()")
            } else {
                proof {
                    lemma_trim_len(inner@);
                }
                let mut r = String::from_str("fn() -> ");
                let g = translate_named_to_rust(t.as_str());
                r.append(g.as_str());
                r
            }
        },
    }
}

/// The Rust text of a type.
pub open spec fn rs_type(t: TyV) -> Seq<char>
    decreases t,
{
    match t {
        TyV::Named(s) => rs_named(s),
        TyV::Tuple(ts) => "("@ + rs_types(ts) + ")"@,
        TyV::Array(e, n) => "["@ + rs_type(*e) + "; "@ + nat_decimal(n) + "]"@,
        TyV::Unknown => "_"@,
    }
}

pub open spec fn rs_types(ts: Seq<TyV>) -> Seq<char>
    decreases ts,
{
    if ts.len() == 0 {
        Seq::empty()
    } else if ts.len() == 1 {
        rs_type(ts[0])
    } else {
        rs_types(ts.drop_last()) + ", "@ + rs_type(ts.last())
    }
}

/// The Rust text of a type (`bu_type_to_rust`).
pub fn bu_type_to_rust(t: &BuType) -> (r: String)
    ensures
        r@ == rs_type(t@),
    decreases t,
{
    match t {
        BuType::Named(s) => translate_named_to_rust(s.as_str()),
        BuType::Tuple(ts) => {
            let mut r = String::from_str("(");
            let l = types_to_rust(ts);
            r.append(l.as_str());
            r.append(")");
            r
        },
        BuType::Array(e, n) => {
            let mut r = String::from_str("[");
            let g = bu_type_to_rust(e);
            r.append(g.as_str());
            r.append("; ");
            let k = usize_to_string(*n);
            r.append(k.as_str());
            r.append("]");
            r
        },
        BuType::Unknown => String::from_str("_"),
    }
}

fn types_to_rust(ts: &Vec<BuType>) -> (r: String)
    ensures
        r@ == rs_types(tys_view(ts@)),
    decreases ts,
{
    proof {
        lemma_tys_view(ts@);
    }
    let mut r = String::new();
    let mut i: usize = 0;
    proof {
        assert(tys_view(ts@).subrange(0, 0) =~= Seq::<TyV>::empty());
    }
    while i < ts.len()
        invariant
            i <= ts@.len(),
            tys_view(ts@).len() == ts@.len(),
            forall|k: int| 0 <= k < ts@.len() ==> tys_view(ts@)[k] == (#[trigger] ts@[k])@,
            r@ == rs_types(tys_view(ts@).subrange(0, i as int)),
        decreases ts@.len() - i,
    {
        let ghost nxt = tys_view(ts@).subrange(0, i + 1);
        proof {
            assert(nxt.drop_last() =~= tys_view(ts@).subrange(0, i as int));
            assert(nxt.last() == ts@[i as int]@);
        }
        if i > 0 {
            r.append(", ");
        }
        let g = bu_type_to_rust(&ts[i]);
        r.append(g.as_str());
        i = i + 1;
    }
    proof {
        assert(tys_view(ts@).subrange(0, ts@.len() as int) =~= tys_view(ts@));
    }
    r
}

} // verus!
