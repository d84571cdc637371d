//! How Bullang types are written in Go: primitives by their Go names,
//! `Vec[T]` as `[]T`, `HashMap[K, V]` as `map[K]V`, `Option[T]` as `*T`,
//! `Fn[A -> R]` as `func(A) R`, tuples as named `Tuple_..` structs.
use vstd::prelude::*;
use crate::ast::{BuType, TyV, tys_view, nat_decimal, lemma_tys_view, ty_text};
use crate::add::{strip_all_prefix, strip_all_suffix};
use crate::text::{
    chars_of, string_of, strip_ws, remove_whitespace, has_prefix, has_suffix, trim_seq, trim_bounds, first_at,
    lemma_first_at, find_char_in, find_arrow, lemma_find_arrow, find_arrow_in, lemma_trim_len,
    lemma_strip_ws_len, prefix_at, str_is, usize_to_string,
};

verus! {

/// The Go name of a primitive, if the text names one.
pub open spec fn go_primitive(t: Seq<char>) -> Option<Seq<char>> {
    if t == "i8"@ {
        Some("int8"@)
    } else if t == "i16"@ {
        Some("int16"@)
    } else if t == "i32"@ {
        Some("int32"@)
    } else if t == "i64"@ || t == "i128"@ {
        Some("int64"@)
    } else if t == "isize"@ {
        Some("int"@)
    } else if t == "u8"@ {
        Some("uint8"@)
    } else if t == "u16"@ {
        Some("uint16"@)
    } else if t == "u32"@ {
        Some("uint32"@)
    } else if t == "u64"@ || t == "u128"@ {
        Some("uint64"@)
    } else if t == "usize"@ {
        Some("uint"@)
    } else if t == "f32"@ {
        Some("float32"@)
    } else if t == "f64"@ {
        Some("float64"@)
    } else if t == "bool"@ {
        Some("bool"@)
    } else if t == "char"@ {
        Some("rune"@)
    } else if t == "String"@ || t == "&str"@ {
        Some("string"@)
    } else if t == "()"@ {
        Some(Seq::empty())
    } else {
        None
    }
}

/// The Go text of a type name, whitespace taken out first.
pub open spec fn go_named(s: Seq<char>) -> Seq<char>
    decreases s.len(), 2nat,
{
    let t = strip_ws(s);
    match go_primitive(t) {
        Some(g) => g,
        None => {
            proof {
                lemma_strip_ws_len(s);
            }
            go_generic(t)
        },
    }
}

/// The Go text of a generic or otherwise unknown type name.
pub open spec fn go_generic(s: Seq<char>) -> Seq<char>
    decreases s.len(), 1nat,
{
    let n = s.len();
    if has_prefix(s, "Vec["@) && has_suffix(s, "]"@) && n >= 5 {
        "[]"@ + go_named(s.subrange(4, n - 1))
    } else if has_prefix(s, "HashMap["@) && has_suffix(s, "]"@) && n >= 9 && first_at(s.subrange(8, n - 1), ',') is Some {
        let inner = s.subrange(8, n - 1);
        let i = first_at(inner, ',').unwrap();
        proof {
            lemma_first_at(inner, ',');
            lemma_trim_len(inner.subrange(0, i));
            lemma_trim_len(inner.subrange(i + 1, inner.len() as int));
        }
        "map["@ + go_named(trim_seq(inner.subrange(0, i))) + "]"@ + go_named(trim_seq(inner.subrange(i + 1, inner.len() as int)))
    } else if has_prefix(s, "Option["@) && has_suffix(s, "]"@) && n >= 8 {
        "*"@ + go_named(s.subrange(7, n - 1))
    } else if n > 0 && s[0] == '&' {
        proof {
            lemma_trim_len(s.subrange(1, n as int));
        }
        "*"@ + go_named(trim_seq(s.subrange(1, n as int)))
    } else if has_prefix(s, "Fn["@) {
        go_fn(s)
    } else {
        "interface{}  /* "@ + s + " */"@
    }
}

/// What is inside `Fn[..]`: every leading `Fn[` and trailing `]` taken off.
pub open spec fn fn_inner(s: Seq<char>) -> Seq<char> {
    strip_all_suffix(strip_all_prefix(s, "Fn["@), "]"@)
}

pub proof fn lemma_strip_lens(s: Seq<char>, p: Seq<char>)
    ensures
        strip_all_prefix(s, p).len() <= s.len(),
        strip_all_suffix(s, p).len() <= s.len(),
        p.len() > 0 && has_prefix(s, p) ==> strip_all_prefix(s, p).len() <= s.len() - p.len(),
    decreases s.len(),
{
    if p.len() > 0 && has_prefix(s, p) {
        lemma_strip_lens(s.subrange(p.len() as int, s.len() as int), p);
    }
    if p.len() > 0 && has_suffix(s, p) {
        lemma_strip_lens(s.subrange(0, s.len() - p.len()), p);
    }
}

/// `Fn[A, B -> R]` as `func(A, B) R`.
pub open spec fn go_fn(s: Seq<char>) -> Seq<char>
    decreases s.len(), 0nat,
{
    if !has_prefix(s, "Fn["@) {
        Seq::empty()
    } else {
        let inner = fn_inner(s);
        proof {
            lemma_strip_lens(s, "Fn["@);
            lemma_strip_lens(strip_all_prefix(s, "Fn["@), "]"@);
            reveal_strlit("Fn[");
        }
        if inner.len() == 0 {
            "func()"@
        } else {
            match find_arrow(inner) {
                Some(a) => {
                    proof {
                        lemma_find_arrow(inner);
                        lemma_trim_len(inner.subrange(0, a));
                        lemma_trim_len(inner.subrange(a + 2, inner.len() as int));
                    }
                    let ps = trim_seq(inner.subrange(0, a));
                    let rs = trim_seq(inner.subrange(a + 2, inner.len() as int));
                    let params = if ps.len() == 0 { Seq::empty() } else { go_params(ps) };
                    let ret = go_named(rs);
                    if ret.len() == 0 {
                        "func("@ + params + ")"@
                    } else {
                        "func("@ + params + ") "@ + ret
                    }
                },
                None => {
                    proof {
                        lemma_trim_len(inner);
                    }
                    "func() "@ + go_named(trim_seq(inner))
                },
            }
        }
    }
}

/// Comma-separated parameter types, each trimmed and written in Go, joined
/// by `, `.
pub open spec fn go_params(p: Seq<char>) -> Seq<char>
    decreases p.len(), 3nat,
{
    match first_at(p, ',') {
        Some(i) => {
            proof {
                lemma_first_at(p, ',');
                lemma_trim_len(p.subrange(0, i));
            }
            if 0 <= i < p.len() {
                go_named(trim_seq(p.subrange(0, i))) + ", "@ + go_params(p.subrange(i + 1, p.len() as int))
            } else {
                Seq::empty()
            }
        },
        None => {
            proof {
                lemma_trim_len(p);
            }
            if p.len() > 0 {
                go_named(trim_seq(p))
            } else {
                go_named(Seq::empty())
            }
        },
    }
}

pub(crate) fn trimmed(v: &Vec<char>, from: usize, to: usize) -> (r: String)
    requires
        from <= to <= v@.len(),
    ensures
        r@ == trim_seq(v@.subrange(from as int, to as int)),
{
    let (a, b) = trim_bounds(v.as_slice(), from, to);
    string_of(v.as_slice(), a, b)
}

fn primitive_of(t: &str) -> (r: Option<&'static str>)
    ensures
        match go_primitive(t@) {
            Some(g) => r matches Some(x) && x@ == g,
            None => r is None,
        },
{
    proof {
        reveal_strlit("");
    }
    if str_is(t, "i8") {
        Some("int8")
    } else if str_is(t, "i16") {
        Some("int16")
    } else if str_is(t, "i32") {
        Some("int32")
    } else if str_is(t, "i64") || str_is(t, "i128") {
        Some("int64")
    } else if str_is(t, "isize") {
        Some("int")
    } else if str_is(t, "u8") {
        Some("uint8")
    } else if str_is(t, "u16") {
        Some("uint16")
    } else if str_is(t, "u32") {
        Some("uint32")
    } else if str_is(t, "u64") || str_is(t, "u128") {
        Some("uint64")
    } else if str_is(t, "usize") {
        Some("uint")
    } else if str_is(t, "f32") {
        Some("float32")
    } else if str_is(t, "f64") {
        Some("float64")
    } else if str_is(t, "bool") {
        Some("bool")
    } else if str_is(t, "char") {
        Some("rune")
    } else if str_is(t, "String") || str_is(t, "&str") {
        Some("string")
    } else if str_is(t, "()") {
        Some("")
    } else {
        None
    }
}

/// The Go text of a type name (`rust_type_to_go`).
pub fn rust_type_to_go(s: &str) -> (r: String)
    ensures
        r@ == go_named(s@),
    decreases s@.len(), 2nat,
{
    let t = remove_whitespace(s);
    proof {
        lemma_strip_ws_len(s@);
    }
    match primitive_of(t.as_str()) {
        Some(g) => String::from_str(g),
        None => translate_go_generic(t.as_str()),
    }
}

fn translate_go_generic(s: &str) -> (r: String)
    ensures
        r@ == go_generic(s@),
    decreases s@.len(), 1nat,
{
    let v = chars_of(s);
    let n = v.len();
    proof {
        reveal_strlit("Vec[");
        reveal_strlit("HashMap[");
        reveal_strlit("Option[");
        reveal_strlit("Fn[");
        reveal_strlit("]");
        assert(v@.subrange(0, n as int) =~= v@);
    }
    let ends = n > 0 && v[n - 1] == ']';
    proof {
        if n > 0 {
            assert(has_suffix(s@, "]"@) == (v@[n - 1] == ']')) by {
                assert(v@.subrange(n - 1, n as int)[0] == v@[n - 1]);
                if v@[n - 1] == ']' {
                    assert(v@.subrange(n - 1, n as int) =~= "]"@);
                }
            }
        }
    }
    if prefix_at(v.as_slice(), 0, "Vec[") && ends && n >= 5 {
        let inner = string_of(v.as_slice(), 4, n - 1);
        let mut r = String::from_str("[]");
        let t = rust_type_to_go(inner.as_str());
        r.append(t.as_str());
        return r;
    }
    if prefix_at(v.as_slice(), 0, "HashMap[") && ends && n >= 9 {
        let ghost inner = v@.subrange(8, n - 1);
        proof {
            assert(v@.subrange(8, n - 1) =~= inner);
            lemma_first_at(inner, ',');
        }
        if let Some(c) = find_char_in(v.as_slice(), ',', 8, n - 1) {
            let i = c - 8;
            proof {
                assert(inner.subrange(0, i as int) =~= v@.subrange(8, c as int));
                assert(inner.subrange(i + 1, inner.len() as int) =~= v@.subrange(c + 1, n - 1));
                lemma_trim_len(inner.subrange(0, i as int));
                lemma_trim_len(inner.subrange(i + 1, inner.len() as int));
            }
            let k = trimmed(&v, 8, c);
            let val = trimmed(&v, c + 1, n - 1);
            let mut r = String::from_str("map[");
            let kt = rust_type_to_go(k.as_str());
            r.append(kt.as_str());
            r.append("]");
            let vt = rust_type_to_go(val.as_str());
            r.append(vt.as_str());
            return r;
        }
    }
    if prefix_at(v.as_slice(), 0, "Option[") && ends && n >= 8 {
        let inner = string_of(v.as_slice(), 7, n - 1);
        let mut r = String::from_str("*");
        let t = rust_type_to_go(inner.as_str());
        r.append(t.as_str());
        return r;
    }
    if n > 0 && v[0] == '&' {
        proof {
            lemma_trim_len(v@.subrange(1, n as int));
        }
        let inner = trimmed(&v, 1, n);
        let mut r = String::from_str("*");
        let t = rust_type_to_go(inner.as_str());
        r.append(t.as_str());
        return r;
    }
    if prefix_at(v.as_slice(), 0, "Fn[") {
        return translate_fn_type_go(s);
    }
    let mut r = String::from_str("interface{}  /* ");
    r.append(s);
    r.append(" */");
    r
}

#[verifier::rlimit(40)]
fn translate_fn_type_go(s: &str) -> (r: String)
    requires
        has_prefix(s@, "Fn["@),
    ensures
        r@ == go_fn(s@),
    decreases s@.len(), 0nat,
{
    let v = chars_of(s);
    proof {
        reveal_strlit("Fn[");
        reveal_strlit("]");
        lemma_strip_lens(s@, "Fn["@);
        lemma_strip_lens(strip_all_prefix(s@, "Fn["@), "]"@);
        assert(v@.subrange(0, v@.len() as int) =~= v@);
    }
    let mut a: usize = 0;
    while v.len() - a >= 3 && prefix_at(v.as_slice(), a, "Fn[")
        invariant
            a <= v@.len(),
            v@ == s@,
            strip_all_prefix(s@, "Fn["@) == strip_all_prefix(v@.subrange(a as int, v@.len() as int), "Fn["@),
        decreases v@.len() - a,
    {
        proof {
            reveal_strlit("Fn[");
            let cur = v@.subrange(a as int, v@.len() as int);
            assert(cur.subrange(3, cur.len() as int) =~= v@.subrange(a + 3, v@.len() as int));
        }
        a = a + 3;
    }
    proof {
        let cur = v@.subrange(a as int, v@.len() as int);
        if v@.len() - a < 3 {
            assert(!has_prefix(cur, "Fn["@));
        }
        assert(strip_all_prefix(cur, "Fn["@) == cur);
    }
    let mut b = v.len();
    proof {
        assert(v@.subrange(a as int, b as int) =~= v@.subrange(a as int, v@.len() as int));
    }
    while b > a && v[b - 1] == ']'
        invariant
            a <= b <= v@.len(),
            fn_inner(s@) == strip_all_suffix(v@.subrange(a as int, b as int), "]"@),
        decreases b,
    {
        proof {
            reveal_strlit("]");
            let cur = v@.subrange(a as int, b as int);
            assert(cur.subrange(cur.len() - 1, cur.len() as int) =~= "]"@);
            assert(cur.subrange(0, cur.len() - 1) =~= v@.subrange(a as int, b - 1));
        }
        b = b - 1;
    }
    let ghost inner = v@.subrange(a as int, b as int);
    proof {
        if b > a {
            assert(inner.subrange(inner.len() - 1, inner.len() as int)[0] == v@[b - 1]);
            assert(!(inner.subrange(inner.len() - 1, inner.len() as int) =~= "]"@));
        }
        assert(strip_all_suffix(inner, "]"@) == inner);
        assert(fn_inner(s@) == inner);
    }
    if a == b {
        return String::from_str("func()");
    }
    proof {
        lemma_find_arrow(inner);
    }
    match find_arrow_in(v.as_slice(), a, b) {
        Some(arrow) => {
            let ghost ai = (arrow - a) as int;
            proof {
                assert(inner.subrange(0, ai) =~= v@.subrange(a as int, arrow as int));
                assert(inner.subrange(ai + 2, inner.len() as int) =~= v@.subrange(arrow + 2, b as int));
                lemma_trim_len(inner.subrange(0, ai));
                lemma_trim_len(inner.subrange(ai + 2, inner.len() as int));
            }
            let ps = trimmed(&v, a, arrow);
            let rs = trimmed(&v, arrow + 2, b);
            let params = if ps.unicode_len() == 0 { String::new() } else { go_param_list_of(ps.as_str()) };
            let ret = rust_type_to_go(rs.as_str());
            let mut r = String::from_str("func(");
            r.append(params.as_str());
            if ret.unicode_len() == 0 {
                r.append(")");
            } else {
                r.append(") ");
                r.append(ret.as_str());
            }
            r
        },
        None => {
            proof {
                lemma_trim_len(inner);
            }
            let t = trimmed(&v, a, b);
            let mut r = String::from_str("func() ");
            let g = rust_type_to_go(t.as_str());
            r.append(g.as_str());
            r
        },
    }
}

fn go_param_list_of(p: &str) -> (r: String)
    ensures
        r@ == go_params(p@),
    decreases p@.len(), 3nat,
{
    let v = chars_of(p);
    proof {
        lemma_first_at(p@, ',');
        assert(v@.subrange(0, v@.len() as int) =~= v@);
    }
    match find_char_in(v.as_slice(), ',', 0, v.len()) {
        Some(i) => {
            proof {
                lemma_trim_len(p@.subrange(0, i as int));
            }
            let head = trimmed(&v, 0, i);
            let tail = string_of(v.as_slice(), i + 1, v.len());
            let mut r = rust_type_to_go(head.as_str());
            r.append(", ");
            let rest = go_param_list_of(tail.as_str());
            r.append(rest.as_str());
            r
        },
        None => {
            proof {
                lemma_trim_len(p@);
                if p@.len() == 0 {
                    assert(trim_seq(p@) =~= Seq::<char>::empty());
                }
            }
            let t = trimmed(&v, 0, v.len());
            rust_type_to_go(t.as_str())
        },
    }
}

/// A tuple part's name: `<`, `>`, `[`, `]`, spaces and commas turned into
/// `_`, then `_`s trimmed off both ends.
pub open spec fn name_part(s: Seq<char>) -> Seq<char> {
    trim_underscores(s.map_values(|c: char| if c == '<' || c == '>' || c == '[' || c == ']' || c == ' ' || c == ',' { '_' } else { c }))
}

pub open spec fn trim_underscores(s: Seq<char>) -> Seq<char>
    decreases s.len(),
{
    if s.len() > 0 && s[0] == '_' {
        trim_underscores(s.drop_first())
    } else if s.len() > 0 && s.last() == '_' {
        trim_underscores(s.drop_last())
    } else {
        s
    }
}

/// The Go text of a type.
pub open spec fn go_type(t: TyV) -> Seq<char>
    decreases t,
{
    match t {
        TyV::Named(s) => go_named(s),
        TyV::Tuple(ts) => "Tuple_"@ + tuple_parts(ts),
        TyV::Array(e, n) => "["@ + nat_decimal(n) + "]"@ + go_type(*e),
        TyV::Unknown => "interface{}"@,
    }
}

/// The parts of a tuple type's name, each made of the part's Bullang type
/// text, joined by `_`: `Tuple[i32, f64]` gives `i32_f64`.
pub open spec fn tuple_parts(ts: Seq<TyV>) -> Seq<char>
    decreases ts,
{
    if ts.len() == 0 {
        Seq::empty()
    } else if ts.len() == 1 {
        name_part(ty_text(ts[0]))
    } else {
        tuple_parts(ts.drop_last()) + "_"@ + name_part(ty_text(ts.last()))
    }
}

fn name_part_of(s: &str) -> (r: String)
    ensures
        r@ == name_part(s@),
{
    let v = chars_of(s);
    let mut w: Vec<char> = Vec::new();
    let mut i: usize = 0;
    while i < v.len()
        invariant
            i <= v@.len(),
            v@ == s@,
            w@ == s@.subrange(0, i as int).map_values(|c: char| if c == '<' || c == '>' || c == '[' || c == ']' || c == ' ' || c == ',' { '_' } else { c }),
        decreases v@.len() - i,
    {
        let c = v[i];
        let d = if c == '<' || c == '>' || c == '[' || c == ']' || c == ' ' || c == ',' { '_' } else { c };
        w.push(d);
        proof {
            assert(s@.subrange(0, i + 1).map_values(|c: char| if c == '<' || c == '>' || c == '[' || c == ']' || c == ' ' || c == ',' { '_' } else { c })
                =~= s@.subrange(0, i as int).map_values(|c: char| if c == '<' || c == '>' || c == '[' || c == ']' || c == ' ' || c == ',' { '_' } else { c }).push(d));
        }
        i = i + 1;
    }
    proof {
        assert(s@.subrange(0, s@.len() as int) =~= s@);
    }
    let ghost m = w@;
    let mut a: usize = 0;
    let mut b: usize = w.len();
    proof {
        assert(w@.subrange(0, w@.len() as int) =~= w@);
    }
    while a < b && (w[a] == '_' || w[b - 1] == '_')
        invariant
            a <= b <= w@.len(),
            m == w@,
            trim_underscores(m) == trim_underscores(m.subrange(a as int, b as int)),
        decreases b - a,
    {
        let ghost cur = m.subrange(a as int, b as int);
        if w[a] == '_' {
            proof {
                assert(cur[0] == w@[a as int]);
                assert(cur.drop_first() =~= m.subrange(a + 1, b as int));
            }
            a = a + 1;
        } else {
            proof {
                assert(cur[0] == w@[a as int]);
                assert(cur.last() == w@[b - 1]);
                assert(cur.drop_last() =~= m.subrange(a as int, b - 1));
            }
            b = b - 1;
        }
    }
    proof {
        let cur = m.subrange(a as int, b as int);
        if a < b {
            assert(cur[0] == w@[a as int]);
            assert(cur.last() == w@[b - 1]);
        }
        assert(trim_underscores(cur) == cur);
    }
    string_of(w.as_slice(), a, b)
}

/// The Go text of a type (`bu_type_to_go`).
pub fn bu_type_to_go(t: &BuType) -> (r: String)
    ensures
        r@ == go_type(t@),
    decreases t,
{
    match t {
        BuType::Named(s) => rust_type_to_go(s.as_str()),
        BuType::Tuple(ts) => tuple_go_name(ts),
        BuType::Array(e, n) => {
            let mut r = String::from_str("[");
            let k = usize_to_string(*n);
            r.append(k.as_str());
            r.append("]");
            let g = bu_type_to_go(e);
            r.append(g.as_str());
            r
        },
        BuType::Unknown => String::from_str("interface{}"),
    }
}

/// The name of the Go struct that stands for a tuple of these types:
/// `Tuple_` and the parts, joined by `_`.
pub fn tuple_go_name(ts: &Vec<BuType>) -> (r: String)
    ensures
        r@ == "Tuple_"@ + tuple_parts(tys_view(ts@)),
    decreases ts,
{
    proof {
        lemma_tys_view(ts@);
    }
    let mut r = String::from_str("Tuple_");
    let ghost r0 = r@;
    let mut i: usize = 0;
    proof {
        assert(tys_view(ts@).subrange(0, 0) =~= Seq::<TyV>::empty());
        assert(r0 + tuple_parts(Seq::<TyV>::empty()) =~= r0);
    }
    while i < ts.len()
        invariant
            i <= ts@.len(),
            tys_view(ts@).len() == ts@.len(),
            forall|k: int| 0 <= k < ts@.len() ==> tys_view(ts@)[k] == (#[trigger] ts@[k])@,
            r@ == r0 + tuple_parts(tys_view(ts@).subrange(0, i as int)),
        decreases ts@.len() - i,
    {
        let ghost pre = tys_view(ts@).subrange(0, i as int);
        let ghost nxt = tys_view(ts@).subrange(0, i + 1);
        proof {
            assert(nxt.drop_last() =~= pre);
            assert(nxt.last() == ts@[i as int]@);
        }
        if i > 0 {
            r.append("_");
        }
        let g = ts[i].to_rust();
        let part = name_part_of(g.as_str());
        r.append(part.as_str());
        proof {
            if i == 0 {
                assert(nxt.len() == 1);
                assert(nxt[0] == ts@[0]@);
                assert(r@ =~= r0 + tuple_parts(nxt));
            } else {
                assert(r@ =~= r0 + tuple_parts(nxt));
            }
        }
        i = i + 1;
    }
    proof {
        assert(tys_view(ts@).subrange(0, ts@.len() as int) =~= tys_view(ts@));
    }
    r
}

} // verus!
