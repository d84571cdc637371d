//! How Bullang types are written as Python type hints: integers as `int`,
//! floats as `float`, strings as `str`, `Vec[T]` as `List[T]`, `Option[T]`
//! as `Optional[T]`, `Fn[A -> R]` as `Callable[[A], R]`, tuples as
//! `Tuple[..]`, and anything else as `Any` with the original text in a
//! comment.
use vstd::prelude::*;
use crate::ast::{BuType, TyV, nat_decimal, tys_view, lemma_tys_view};
use crate::add::{strip_all_prefix, strip_all_suffix};
use crate::go_types::{fn_inner, lemma_strip_lens, trimmed};
use crate::text::{
    chars_of, string_of, strip_ws, remove_whitespace, has_prefix, has_suffix, trim_seq, first_at,
    lemma_first_at, find_char_in, find_arrow, lemma_find_arrow, find_arrow_in, lemma_trim_len,
    lemma_strip_ws_len, prefix_at, str_is, usize_to_string,
};

verus! {

/// The Python name of a primitive, if the text names one.
pub open spec fn py_primitive(t: Seq<char>) -> Option<Seq<char>> {
    if t == "i8"@ || t == "i16"@ || t == "i32"@ || t == "i64"@ || t == "i128"@ || t == "isize"@
        || t == "u8"@ || t == "u16"@ || t == "u32"@ || t == "u64"@ || t == "u128"@ || t == "usize"@ {
        Some("int"@)
    } else if t == "f32"@ || t == "f64"@ {
        Some("float"@)
    } else if t == "bool"@ {
        Some("bool"@)
    } else if t == "String"@ || t == "&str"@ || t == "&'staticstr"@ {
        Some("str"@)
    } else if t == "()"@ {
        Some("None"@)
    } else {
        None
    }
}

/// Whether a type text reads as a tuple: `(` first and a comma in it.
pub open spec fn tuple_text(s: Seq<char>) -> bool {
    s.len() >= 2 && s[0] == '(' && first_at(s, ',') is Some
}

/// The Python text of a type name, whitespace taken out first.
pub open spec fn py_named(s: Seq<char>) -> Seq<char>
    decreases s.len(), 2nat,
{
    let t = strip_ws(s);
    match py_primitive(t) {
        Some(p) => p,
        None => {
            proof {
                lemma_strip_ws_len(s);
            }
            py_generic(t)
        },
    }
}

/// The Python text of a generic or otherwise unknown type name.
pub open spec fn py_generic(s: Seq<char>) -> Seq<char>
    decreases s.len(), 1nat,
{
    let n = s.len();
    if has_prefix(s, "Vec["@) && has_suffix(s, "]"@) && n >= 5 {
        "List["@ + py_named(s.subrange(4, n - 1)) + "]"@
    } else if has_prefix(s, "Option["@) && has_suffix(s, "]"@) && n >= 8 {
        "Optional["@ + py_named(s.subrange(7, n - 1)) + "]"@
    } else if has_prefix(s, "Fn["@) {
        py_fn(s)
    } else if tuple_text(s) {
        "Tuple["@ + py_parts(s.subrange(1, n - 1)) + "]"@
    } else {
        "Any  # "@ + s
    }
}

/// Comma-separated type texts, each trimmed and written in Python, joined
/// by `, `.
pub open spec fn py_parts(p: Seq<char>) -> Seq<char>
    decreases p.len(), 3nat,
{
    match first_at(p, ',') {
        Some(i) => {
            proof {
                lemma_first_at(p, ',');
                lemma_trim_len(p.subrange(0, i));
            }
            py_named(trim_seq(p.subrange(0, i))) + ", "@ + py_parts(p.subrange(i + 1, p.len() as int))
        },
        None => {
            proof {
                lemma_trim_len(p);
            }
            py_named(trim_seq(p))
        },
    }
}

/// `Fn[A, B -> R]` as `Callable[[A, B], R]`; no result is `None`.
pub open spec fn py_fn(s: Seq<char>) -> Seq<char>
    decreases s.len(), 0nat,
{
    if !has_prefix(s, "Fn["@) {
        Seq::empty()
    } else {
        let inner = fn_inner(s);
        proof {
            lemma_strip_lens(s, "Fn["@);
            lemma_strip_lens(strip_all_prefix(s, "Fn["@), "]"@);
            reveal_strlit("Fn[");
        }
        if inner.len() == 0 {
            "Callable"@
        } else {
            match find_arrow(inner) {
                Some(a) => {
                    proof {
                        lemma_find_arrow(inner);
                        lemma_trim_len(inner.subrange(0, a));
                        lemma_trim_len(inner.subrange(a + 2, inner.len() as int));
                    }
                    let ps = trim_seq(inner.subrange(0, a));
                    let rs = trim_seq(inner.subrange(a + 2, inner.len() as int));
                    let params = if ps.len() == 0 { Seq::empty() } else { py_parts(ps) };
                    let ret = if rs.len() == 0 { "None"@ } else { py_named(rs) };
                    "Callable[["@ + params + "], "@ + ret + "]"@
                },
                None => {
                    proof {
                        lemma_trim_len(inner);
                    }
                    "Callable[[], "@ + py_named(trim_seq(inner)) + "]"@
                },
            }
        }
    }
}

/// Whether a type name can be translated: wherever the translation reads a
/// tuple text, the text cut just inside its parentheses falls between two
/// characters, which holds when its last character is one byte long.
pub open spec fn py_named_ok(s: Seq<char>) -> bool
    decreases s.len(), 2nat,
{
    let t = strip_ws(s);
    if py_primitive(t) is Some {
        true
    } else {
        proof {
            lemma_strip_ws_len(s);
        }
        py_generic_ok(t)
    }
}

pub open spec fn py_generic_ok(s: Seq<char>) -> bool
    decreases s.len(), 1nat,
{
    let n = s.len();
    if has_prefix(s, "Vec["@) && has_suffix(s, "]"@) && n >= 5 {
        py_named_ok(s.subrange(4, n - 1))
    } else if has_prefix(s, "Option["@) && has_suffix(s, "]"@) && n >= 8 {
        py_named_ok(s.subrange(7, n - 1))
    } else if has_prefix(s, "Fn["@) {
        py_fn_ok(s)
    } else if tuple_text(s) {
        (s.last() as u32) < 128 && py_parts_ok(s.subrange(1, n - 1))
    } else {
        true
    }
}

pub open spec fn py_parts_ok(p: Seq<char>) -> bool
    decreases p.len(), 3nat,
{
    match first_at(p, ',') {
        Some(i) => {
            proof {
                lemma_first_at(p, ',');
                lemma_trim_len(p.subrange(0, i));
            }
            py_named_ok(trim_seq(p.subrange(0, i))) && py_parts_ok(p.subrange(i + 1, p.len() as int))
        },
        None => {
            proof {
                lemma_trim_len(p);
            }
            py_named_ok(trim_seq(p))
        },
    }
}

pub open spec fn py_fn_ok(s: Seq<char>) -> bool
    decreases s.len(), 0nat,
{
    if !has_prefix(s, "Fn["@) {
        true
    } else {
        let inner = fn_inner(s);
        proof {
            lemma_strip_lens(s, "Fn["@);
            lemma_strip_lens(strip_all_prefix(s, "Fn["@), "]"@);
            reveal_strlit("Fn[");
        }
        if inner.len() == 0 {
            true
        } else {
            match find_arrow(inner) {
                Some(a) => {
                    proof {
                        lemma_find_arrow(inner);
                        lemma_trim_len(inner.subrange(0, a));
                        lemma_trim_len(inner.subrange(a + 2, inner.len() as int));
                    }
                    let ps = trim_seq(inner.subrange(0, a));
                    let rs = trim_seq(inner.subrange(a + 2, inner.len() as int));
                    (ps.len() == 0 || py_parts_ok(ps)) && (rs.len() == 0 || py_named_ok(rs))
                },
                None => {
                    proof {
                        lemma_trim_len(inner);
                    }
                    py_named_ok(trim_seq(inner))
                },
            }
        }
    }
}

/// The Python text of a type.
pub open spec fn py_type(t: TyV) -> Seq<char>
    decreases t,
{
    match t {
        TyV::Named(s) => py_named(s),
        TyV::Tuple(ts) => "Tuple["@ + py_types(ts) + "]"@,
        TyV::Array(e, n) => "List["@ + py_type(*e) + "]  # [T; "@ + nat_decimal(n) + "]"@,
        TyV::Unknown => "Any"@,
    }
}

/// Types joined by `, `.
pub open spec fn py_types(ts: Seq<TyV>) -> Seq<char>
    decreases ts,
{
    if ts.len() == 0 {
        Seq::empty()
    } else if ts.len() == 1 {
        py_type(ts[0])
    } else {
        py_types(ts.drop_last()) + ", "@ + py_type(ts.last())
    }
}

/// Whether a type can be translated (see `py_named_ok`).
pub open spec fn py_ok(t: TyV) -> bool
    decreases t,
{
    match t {
        TyV::Named(s) => py_named_ok(s),
        TyV::Tuple(ts) => py_oks(ts),
        TyV::Array(e, _) => py_ok(*e),
        TyV::Unknown => true,
    }
}

pub open spec fn py_oks(ts: Seq<TyV>) -> bool
    decreases ts,
{
    if ts.len() == 0 {
        true
    } else {
        py_oks(ts.drop_last()) && py_ok(ts.last())
    }
}

pub proof fn lemma_py_oks(ts: Seq<TyV>)
    ensures
        py_oks(ts) <==> forall|k: int| 0 <= k < ts.len() ==> py_ok(#[trigger] ts[k]),
    decreases ts.len(),
{
    if ts.len() > 0 {
        lemma_py_oks(ts.drop_last());
        assert forall|k: int| 0 <= k < ts.len() - 1 implies #[trigger] ts.drop_last()[k] == ts[k] by {}
        if py_oks(ts) {
            assert forall|k: int| 0 <= k < ts.len() implies py_ok(#[trigger] ts[k]) by {
                if k < ts.len() - 1 {
                    assert(ts.drop_last()[k] == ts[k]);
                }
            }
        }
        if forall|k: int| 0 <= k < ts.len() ==> py_ok(#[trigger] ts[k]) {
            assert forall|k: int| 0 <= k < ts.drop_last().len() implies py_ok(#[trigger] ts.drop_last()[k]) by {
                assert(ts.drop_last()[k] == ts[k]);
            }
            assert(py_ok(ts[ts.len() - 1]));
        }
    }
}

fn primitive_of(t: &str) -> (r: Option<&'static str>)
    ensures
        match py_primitive(t@) {
            Some(p) => r matches Some(x) && x@ == p,
            None => r is None,
        },
{
    if str_is(t, "i8") || str_is(t, "i16") || str_is(t, "i32") || str_is(t, "i64") || str_is(t, "i128")
        || str_is(t, "isize") || str_is(t, "u8") || str_is(t, "u16") || str_is(t, "u32") || str_is(t, "u64")
        || str_is(t, "u128") || str_is(t, "usize") {
        Some("int")
    } else if str_is(t, "f32") || str_is(t, "f64") {
        Some("float")
    } else if str_is(t, "bool") {
        Some("bool")
    } else if str_is(t, "String") || str_is(t, "&str") || str_is(t, "&'staticstr") {
        Some("str")
    } else if str_is(t, "()") {
        Some("None")
    } else {
        None
    }
}

/// The Python text of a type name.
pub fn rust_type_to_python(s: &str) -> (r: String)
    requires
        py_named_ok(s@),
    ensures
        r@ == py_named(s@),
    decreases s@.len(), 2nat,
{
    let t = remove_whitespace(s);
    proof {
        lemma_strip_ws_len(s@);
    }
    match primitive_of(t.as_str()) {
        Some(p) => String::from_str(p),
        None => translate_generic_type(t.as_str()),
    }
}

fn translate_generic_type(s: &str) -> (r: String)
    requires
        py_generic_ok(s@),
    ensures
        r@ == py_generic(s@),
    decreases s@.len(), 1nat,
{
    let v = chars_of(s);
    let n = v.len();
    proof {
        reveal_strlit("Vec[");
        reveal_strlit("Option[");
        reveal_strlit("Fn[");
        reveal_strlit("]");
        assert(v@.subrange(0, n as int) =~= v@);
    }
    let ends = n > 0 && v[n - 1] == ']';
    proof {
        if n > 0 {
            assert(has_suffix(s@, "]"@) == (v@[n - 1] == ']')) by {
                assert(v@.subrange(n - 1, n as int)[0] == v@[n - 1]);
                if v@[n - 1] == ']' {
                    assert(v@.subrange(n - 1, n as int) =~= "]"@);
                }
            }
        }
    }
    if prefix_at(v.as_slice(), 0, "Vec[") && ends && n >= 5 {
        let inner = string_of(v.as_slice(), 4, n - 1);
        let mut r = String::from_str("List[");
        let t = rust_type_to_python(inner.as_str());
        r.append(t.as_str());
        r.append("]");
        return r;
    }
    if prefix_at(v.as_slice(), 0, "Option[") && ends && n >= 8 {
        let inner = string_of(v.as_slice(), 7, n - 1);
        let mut r = String::from_str("Optional[");
        let t = rust_type_to_python(inner.as_str());
        r.append(t.as_str());
        r.append("]");
        return r;
    }
    if prefix_at(v.as_slice(), 0, "Fn[") {
        return translate_fn_type(s);
    }
    proof {
        lemma_first_at(s@, ',');
    }
    if n >= 2 && v[0] == '(' && find_char_in(v.as_slice(), ',', 0, n).is_some() {
        let inner = string_of(v.as_slice(), 1, n - 1);
        let mut r = String::from_str("Tuple[");
        let t = py_parts_of(inner.as_str());
        r.append(t.as_str());
        r.append("]");
        return r;
    }
    let mut r = String::from_str("Any  # ");
    r.append(s);
    r
}

fn py_parts_of(p: &str) -> (r: String)
    requires
        py_parts_ok(p@),
    ensures
        r@ == py_parts(p@),
    decreases p@.len(), 3nat,
{
    let v = chars_of(p);
    proof {
        lemma_first_at(p@, ',');
        assert(v@.subrange(0, v@.len() as int) =~= v@);
    }
    match find_char_in(v.as_slice(), ',', 0, v.len()) {
        Some(i) => {
            proof {
                lemma_trim_len(p@.subrange(0, i as int));
            }
            let head = trimmed(&v, 0, i);
            let tail = string_of(v.as_slice(), i + 1, v.len());
            let mut r = rust_type_to_python(head.as_str());
            r.append(", ");
            let rest = py_parts_of(tail.as_str());
            r.append(rest.as_str());
            r
        },
        None => {
            proof {
                lemma_trim_len(p@);
            }
            let t = trimmed(&v, 0, v.len());
            rust_type_to_python(t.as_str())
        },
    }
}

/// Where `Fn[..]` has its inside: after every leading `Fn[`, before every
/// trailing `]`.
pub(crate) fn fn_inner_bounds(v: &Vec<char>) -> (r: (usize, usize))
    requires
        has_prefix(v@, "Fn["@),
    ensures
        r.0 <= r.1 <= v@.len(),
        fn_inner(v@) == v@.subrange(r.0 as int, r.1 as int),
{
    proof {
        reveal_strlit("Fn[");
        reveal_strlit("]");
        assert(v@.subrange(0, v@.len() as int) =~= v@);
    }
    let mut a: usize = 0;
    while v.len() - a >= 3 && prefix_at(v.as_slice(), a, "Fn[")
        invariant
            a <= v@.len(),
            strip_all_prefix(v@, "Fn["@) == strip_all_prefix(v@.subrange(a as int, v@.len() as int), "Fn["@),
        decreases v@.len() - a,
    {
        proof {
            reveal_strlit("Fn[");
            let cur = v@.subrange(a as int, v@.len() as int);
            assert(cur.subrange(3, cur.len() as int) =~= v@.subrange(a + 3, v@.len() as int));
        }
        a = a + 3;
    }
    proof {
        let cur = v@.subrange(a as int, v@.len() as int);
        if v@.len() - a < 3 {
            assert(!has_prefix(cur, "Fn["@));
        }
        assert(strip_all_prefix(cur, "Fn["@) == cur);
    }
    let mut b = v.len();
    proof {
        assert(v@.subrange(a as int, b as int) =~= v@.subrange(a as int, v@.len() as int));
    }
    while b > a && v[b - 1] == ']'
        invariant
            a <= b <= v@.len(),
            fn_inner(v@) == strip_all_suffix(v@.subrange(a as int, b as int), "]"@),
        decreases b,
    {
        proof {
            reveal_strlit("]");
            let cur = v@.subrange(a as int, b as int);
            assert(cur.subrange(cur.len() - 1, cur.len() as int) =~= "]"@);
            assert(cur.subrange(0, cur.len() - 1) =~= v@.subrange(a as int, b - 1));
        }
        b = b - 1;
    }
    proof {
        let inner = v@.subrange(a as int, b as int);
        if b > a {
            assert(inner.subrange(inner.len() - 1, inner.len() as int)[0] == v@[b - 1]);
            assert(!(inner.subrange(inner.len() - 1, inner.len() as int) =~= "]"@));
        }
        assert(strip_all_suffix(inner, "]"@) == inner);
    }
    (a, b)
}

/// `Callable[[..], ..]` for the parameter and result texts of a function
/// type.
fn callable_text(ps: &str, rs: &str) -> (r: String)
    requires
        ps@.len() == 0 || py_parts_ok(ps@),
        rs@.len() == 0 || py_named_ok(rs@),
    ensures
        r@ == "Callable[["@ + (if ps@.len() == 0 { Seq::empty() } else { py_parts(ps@) }) + "], "@
            + (if rs@.len() == 0 { "None"@ } else { py_named(rs@) }) + "]"@,
    decreases ps@.len() + rs@.len() + 1, 0nat,
{
    proof {
        reveal_strlit("None");
    }
    let params = if ps.unicode_len() == 0 { String::new() } else { py_parts_of(ps) };
    let ret = if rs.unicode_len() == 0 { String::from_str("None") } else { rust_type_to_python(rs) };
    let mut r = String::from_str("Callable[[");
    r.append(params.as_str());
    r.append("], ");
    r.append(ret.as_str());
    r.append("]");
    r
}

#[verifier::rlimit(80)]
fn translate_fn_type(s: &str) -> (r: String)
    requires
        has_prefix(s@, "Fn["@),
        py_fn_ok(s@),
    ensures
        r@ == py_fn(s@),
    decreases s@.len(), 0nat,
{
    let v = chars_of(s);
    proof {
        lemma_strip_lens(s@, "Fn["@);
        lemma_strip_lens(strip_all_prefix(s@, "Fn["@), "]"@);
        reveal_strlit("Fn[");
    }
    let (a, b) = fn_inner_bounds(&v);
    let ghost inner = v@.subrange(a as int, b as int);
    proof {
        assert(v@ == s@);
        assert(fn_inner(s@) == inner);
        assert(inner.len() + 3 <= s@.len());
    }
    if a == b {
        return String::from_str("Callable");
    }
    proof {
        lemma_find_arrow(inner);
    }
    match find_arrow_in(v.as_slice(), a, b) {
        Some(arrow) => {
            let ghost ai = (arrow - a) as int;
            proof {
                assert(inner.subrange(0, ai) =~= v@.subrange(a as int, arrow as int));
                assert(inner.subrange(ai + 2, inner.len() as int) =~= v@.subrange(arrow + 2, b as int));
                lemma_trim_len(inner.subrange(0, ai));
                lemma_trim_len(inner.subrange(ai + 2, inner.len() as int));
            }
            let ps = trimmed(&v, a, arrow);
            let rs = trimmed(&v, arrow + 2, b);
            proof {
                assert(ps@.len() + rs@.len() + 1 < s@.len());
            }
            callable_text(ps.as_str(), rs.as_str())
        },
        None => {
            proof {
                lemma_trim_len(inner);
            }
            let t = trimmed(&v, a, b);
            let mut r = String::from_str("Callable[[], ");
            let g = rust_type_to_python(t.as_str());
            r.append(g.as_str());
            r.append("]");
            r
        },
    }
}

/// The Python type hint for a type.
pub fn bu_type_to_python(t: &BuType) -> (r: String)
    requires
        py_ok(t@),
    ensures
        r@ == py_type(t@),
    decreases t,
{
    match t {
        BuType::Named(s) => rust_type_to_python(s.as_str()),
        BuType::Tuple(ts) => {
            let mut r = String::from_str("Tuple[");
            let j = py_type_list(ts);
            r.append(j.as_str());
            r.append("]");
            r
        },
        BuType::Array(e, n) => {
            let mut r = String::from_str("List[");
            let g = bu_type_to_python(e);
            r.append(g.as_str());
            r.append("]  # [T; ");
            let k = usize_to_string(*n);
            r.append(k.as_str());
            r.append("]");
            r
        },
        BuType::Unknown => String::from_str("Any"),
    }
}

fn py_type_list(ts: &Vec<BuType>) -> (r: String)
    requires
        py_oks(tys_view(ts@)),
    ensures
        r@ == py_types(tys_view(ts@)),
    decreases ts,
{
    proof {
        lemma_tys_view(ts@);
        lemma_py_oks(tys_view(ts@));
    }
    let mut r = String::new();
    let mut i: usize = 0;
    proof {
        assert(tys_view(ts@).subrange(0, 0) =~= Seq::<TyV>::empty());
    }
    while i < ts.len()
        invariant
            i <= ts@.len(),
            tys_view(ts@).len() == ts@.len(),
            forall|k: int| 0 <= k < ts@.len() ==> tys_view(ts@)[k] == (#[trigger] ts@[k])@,
            forall|k: int| 0 <= k < ts@.len() ==> py_ok(#[trigger] tys_view(ts@)[k]),
            r@ == py_types(tys_view(ts@).subrange(0, i as int)),
        decreases ts@.len() - i,
    {
        let ghost pre = tys_view(ts@).subrange(0, i as int);
        let ghost nxt = tys_view(ts@).subrange(0, i + 1);
        proof {
            assert(nxt.drop_last() =~= pre);
            assert(nxt.last() == ts@[i as int]@);
            assert(py_ok(tys_view(ts@)[i as int]));
        }
        if i > 0 {
            r.append(", ");
        }
        let g = bu_type_to_python(&ts[i]);
        r.append(g.as_str());
        proof {
            if i == 0 {
                assert(nxt.len() == 1);
                assert(nxt[0] == ts@[0]@);
            }
            assert(r@ =~= py_types(nxt));
        }
        i = i + 1;
    }
    proof {
        assert(tys_view(ts@).subrange(0, ts@.len() as int) =~= tys_view(ts@));
    }
    r
}

/// Whether a type name has a Python text: every tuple's text inside it
/// ends in a one-byte character.
pub fn named_py_ok(s: &str) -> (r: bool)
    ensures
        r == py_named_ok(s@),
    decreases s@.len(), 2nat,
{
    let t = remove_whitespace(s);
    proof {
        lemma_strip_ws_len(s@);
    }
    match primitive_of(t.as_str()) {
        Some(_) => true,
        None => generic_py_ok(t.as_str()),
    }
}

fn generic_py_ok(s: &str) -> (r: bool)
    ensures
        r == py_generic_ok(s@),
    decreases s@.len(), 1nat,
{
    let v = chars_of(s);
    let n = v.len();
    proof {
        reveal_strlit("Vec[");
        reveal_strlit("Option[");
        reveal_strlit("Fn[");
        reveal_strlit("]");
        assert(v@.subrange(0, n as int) =~= v@);
    }
    let ends = n > 0 && v[n - 1] == ']';
    proof {
        if n > 0 {
            assert(has_suffix(s@, "]"@) == (v@[n - 1] == ']')) by {
                assert(v@.subrange(n - 1, n as int)[0] == v@[n - 1]);
                if v@[n - 1] == ']' {
                    assert(v@.subrange(n - 1, n as int) =~= "]"@);
                }
            }
        }
    }
    if prefix_at(v.as_slice(), 0, "Vec[") && ends && n >= 5 {
        let inner = string_of(v.as_slice(), 4, n - 1);
        return named_py_ok(inner.as_str());
    }
    if prefix_at(v.as_slice(), 0, "Option[") && ends && n >= 8 {
        let inner = string_of(v.as_slice(), 7, n - 1);
        return named_py_ok(inner.as_str());
    }
    if prefix_at(v.as_slice(), 0, "Fn[") {
        return fn_py_ok(s);
    }
    proof {
        lemma_first_at(s@, ',');
    }
    if n >= 2 && v[0] == '(' && find_char_in(v.as_slice(), ',', 0, n).is_some() {
        if (v[n - 1] as u32) >= 128 {
            return false;
        }
        let inner = string_of(v.as_slice(), 1, n - 1);
        return parts_py_ok(inner.as_str());
    }
    true
}

fn parts_py_ok(p: &str) -> (r: bool)
    ensures
        r == py_parts_ok(p@),
    decreases p@.len(), 3nat,
{
    let v = chars_of(p);
    proof {
        lemma_first_at(p@, ',');
        assert(v@.subrange(0, v@.len() as int) =~= v@);
    }
    match find_char_in(v.as_slice(), ',', 0, v.len()) {
        Some(i) => {
            proof {
                lemma_trim_len(p@.subrange(0, i as int));
            }
            let head = trimmed(&v, 0, i);
            let tail = string_of(v.as_slice(), i + 1, v.len());
            named_py_ok(head.as_str()) && parts_py_ok(tail.as_str())
        },
        None => {
            proof {
                lemma_trim_len(p@);
            }
            let t = trimmed(&v, 0, v.len());
            named_py_ok(t.as_str())
        },
    }
}

#[verifier::rlimit(80)]
fn fn_py_ok(s: &str) -> (r: bool)
    requires
        has_prefix(s@, "Fn["@),
    ensures
        r == py_fn_ok(s@),
    decreases s@.len(), 0nat,
{
    let v = chars_of(s);
    proof {
        lemma_strip_lens(s@, "Fn["@);
        lemma_strip_lens(strip_all_prefix(s@, "Fn["@), "]"@);
        reveal_strlit("Fn[");
    }
    let (a, b) = fn_inner_bounds(&v);
    let ghost inner = v@.subrange(a as int, b as int);
    proof {
        assert(v@ == s@);
        assert(fn_inner(s@) == inner);
        assert(inner.len() + 3 <= s@.len());
    }
    if a == b {
        return true;
    }
    proof {
        lemma_find_arrow(inner);
    }
    match find_arrow_in(v.as_slice(), a, b) {
        Some(arrow) => {
            let ghost ai = (arrow - a) as int;
            proof {
                assert(inner.subrange(0, ai) =~= v@.subrange(a as int, arrow as int));
                assert(inner.subrange(ai + 2, inner.len() as int) =~= v@.subrange(arrow + 2, b as int));
                lemma_trim_len(inner.subrange(0, ai));
                lemma_trim_len(inner.subrange(ai + 2, inner.len() as int));
            }
            let ps = trimmed(&v, a, arrow);
            let rs = trimmed(&v, arrow + 2, b);
            proof {
                assert(ps@.len() + rs@.len() + 1 < s@.len());
            }
            let pok = ps.unicode_len() == 0 || parts_py_ok(ps.as_str());
            let rok = rs.unicode_len() == 0 || named_py_ok(rs.as_str());
            pok && rok
        },
        None => {
            proof {
                lemma_trim_len(inner);
            }
            let t = trimmed(&v, a, b);
            named_py_ok(t.as_str())
        },
    }
}

/// Whether a type has a Python type hint.
pub fn type_py_ok(t: &BuType) -> (r: bool)
    ensures
        r == py_ok(t@),
    decreases t,
{
    match t {
        BuType::Named(s) => named_py_ok(s.as_str()),
        BuType::Tuple(ts) => types_py_ok(ts),
        BuType::Array(e, _) => type_py_ok(e),
        BuType::Unknown => true,
    }
}

fn types_py_ok(ts: &Vec<BuType>) -> (r: bool)
    ensures
        r == py_oks(tys_view(ts@)),
    decreases ts,
{
    proof {
        lemma_tys_view(ts@);
        lemma_py_oks(tys_view(ts@));
    }
    let mut i: usize = 0;
    while i < ts.len()
        invariant
            i <= ts@.len(),
            tys_view(ts@).len() == ts@.len(),
            forall|k: int| 0 <= k < ts@.len() ==> tys_view(ts@)[k] == (#[trigger] ts@[k])@,
            forall|k: int| 0 <= k < i ==> py_ok(#[trigger] tys_view(ts@)[k]),
            py_oks(tys_view(ts@)) <==> forall|k: int| 0 <= k < ts@.len() ==> py_ok(#[trigger] tys_view(ts@)[k]),
        decreases ts@.len() - i,
    {
        if !type_py_ok(&ts[i]) {
            proof {
                assert(!py_ok(tys_view(ts@)[i as int]));
            }
            return false;
        }
        i = i + 1;
    }
    true
}

} // verus!
