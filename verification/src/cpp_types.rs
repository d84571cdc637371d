//! How Bullang types are written in C++: primitives by their fixed-width
//! names, `Vec[T]` as `std::vector<T>`, `HashMap[K, V]` as
//! `std::unordered_map<K, V>`, `Option[T]` as `std::optional<T>`,
//! references as C++ references, `Fn[A -> R]` as `std::function<R(A)>`,
//! tuples as `std::tuple<..>`, and anything else as written, marked with a
//! comment.
use vstd::prelude::*;
use crate::ast::{BuType, TyV, nat_decimal, tys_view, lemma_tys_view};
use crate::add::strip_all_prefix;
use crate::go_types::{fn_inner, lemma_strip_lens, trimmed};
use crate::python_types::{tuple_text, fn_inner_bounds};
use crate::text::{
    chars_of, string_of, strip_ws, remove_whitespace, has_prefix, has_suffix, trim_seq, first_at,
    lemma_first_at, find_char_in, find_arrow, lemma_find_arrow, find_arrow_in, lemma_trim_len,
    lemma_strip_ws_len, prefix_at, str_is, usize_to_string,
};

verus! {

/// The C++ name of a primitive, if the text names one.
pub open spec fn cpp_primitive(t: Seq<char>) -> Option<Seq<char>> {
    if t == "i8"@ {
        Some("int8_t"@)
    } else if t == "i16"@ {
        Some("int16_t"@)
    } else if t == "i32"@ {
        Some("int32_t"@)
    } else if t == "i64"@ {
        Some("int64_t"@)
    } else if t == "i128"@ {
        Some("__int128"@)
    } else if t == "isize"@ {
        Some("ptrdiff_t"@)
    } else if t == "u8"@ {
        Some("uint8_t"@)
    } else if t == "u16"@ {
        Some("uint16_t"@)
    } else if t == "u32"@ {
        Some("uint32_t"@)
    } else if t == "u64"@ {
        Some("uint64_t"@)
    } else if t == "u128"@ {
        Some("unsigned __int128"@)
    } else if t == "usize"@ {
        Some("size_t"@)
    } else if t == "f32"@ {
        Some("float"@)
    } else if t == "f64"@ {
        Some("double"@)
    } else if t == "bool"@ {
        Some("bool"@)
    } else if t == "char"@ {
        Some("char"@)
    } else if t == "String"@ {
        Some("std::string"@)
    } else if t == "&str"@ {
        Some("std::string_view"@)
    } else if t == "()"@ {
        Some("void"@)
    } else {
        None
    }
}

/// The C++ text of a type name, whitespace taken out first.
pub open spec fn cpp_named(s: Seq<char>) -> Seq<char>
    decreases s.len(), 2nat,
{
    let t = strip_ws(s);
    match cpp_primitive(t) {
        Some(p) => p,
        None => {
            proof {
                lemma_strip_ws_len(s);
            }
            cpp_generic(t)
        },
    }
}

/// Whether a `HashMap[..]` text has the comma that splits key from value.
pub open spec fn map_text(s: Seq<char>) -> bool {
    has_prefix(s, "HashMap["@) && has_suffix(s, "]"@) && s.len() >= 9 && first_at(s.subrange(8, s.len() - 1), ',') is Some
}

/// The C++ text of a generic or otherwise unknown type name.
pub open spec fn cpp_generic(s: Seq<char>) -> Seq<char>
    decreases s.len(), 1nat,
{
    let n = s.len();
    if has_prefix(s, "Vec["@) && has_suffix(s, "]"@) && n >= 5 {
        "std::vector<"@ + cpp_named(s.subrange(4, n - 1)) + ">"@
    } else if map_text(s) {
        let inner = s.subrange(8, n - 1);
        let i = first_at(inner, ',').unwrap();
        proof {
            lemma_first_at(inner, ',');
            lemma_trim_len(inner.subrange(0, i));
            lemma_trim_len(inner.subrange(i + 1, inner.len() as int));
        }
        "std::unordered_map<"@ + cpp_named(trim_seq(inner.subrange(0, i))) + ", "@
            + cpp_named(trim_seq(inner.subrange(i + 1, inner.len() as int))) + ">"@
    } else if has_prefix(s, "Option["@) && has_suffix(s, "]"@) && n >= 8 {
        "std::optional<"@ + cpp_named(s.subrange(7, n - 1)) + ">"@
    } else if has_prefix(s, "&mut"@) {
        proof {
            reveal_strlit("&mut");
            lemma_trim_len(s.subrange(4, n as int));
        }
        cpp_named(trim_seq(s.subrange(4, n as int))) + "&"@
    } else if n > 0 && s[0] == '&' {
        proof {
            lemma_trim_len(s.subrange(1, n as int));
        }
        "const "@ + cpp_named(trim_seq(s.subrange(1, n as int))) + "&"@
    } else if has_prefix(s, "Fn["@) {
        cpp_fn(s)
    } else if tuple_text(s) {
        "std::tuple<"@ + cpp_parts(s.subrange(1, n - 1)) + ">"@
    } else {
        s + " /* ? */"@
    }
}

/// Comma-separated type texts, each trimmed and written in C++, joined by
/// `, `.
pub open spec fn cpp_parts(p: Seq<char>) -> Seq<char>
    decreases p.len(), 3nat,
{
    match first_at(p, ',') {
        Some(i) => {
            proof {
                lemma_first_at(p, ',');
                lemma_trim_len(p.subrange(0, i));
            }
            cpp_named(trim_seq(p.subrange(0, i))) + ", "@ + cpp_parts(p.subrange(i + 1, p.len() as int))
        },
        None => {
            proof {
                lemma_trim_len(p);
            }
            cpp_named(trim_seq(p))
        },
    }
}

/// `Fn[A, B -> R]` as `std::function<R(A, B)>`; no result is `void`.
pub open spec fn cpp_fn(s: Seq<char>) -> Seq<char>
    decreases s.len(), 0nat,
{
    if !has_prefix(s, "Fn["@) {
        Seq::empty()
    } else {
        let inner = fn_inner(s);
        proof {
            lemma_strip_lens(s, "Fn["@);
            lemma_strip_lens(strip_all_prefix(s, "Fn["@), "]"@);
            reveal_strlit("Fn[");
        }
        if inner.len() == 0 {
            "std::function<void()>"@
        } else {
            match find_arrow(inner) {
                Some(a) => {
                    proof {
                        lemma_find_arrow(inner);
                        lemma_trim_len(inner.subrange(0, a));
                        lemma_trim_len(inner.subrange(a + 2, inner.len() as int));
                    }
                    let ps = trim_seq(inner.subrange(0, a));
                    let rs = trim_seq(inner.subrange(a + 2, inner.len() as int));
                    let params = if ps.len() == 0 { Seq::empty() } else { cpp_parts(ps) };
                    let ret = if rs.len() == 0 { "void"@ } else { cpp_named(rs) };
                    "std::function<"@ + ret + "("@ + params + ")>"@
                },
                None => {
                    proof {
                        lemma_trim_len(inner);
                    }
                    "std::function<"@ + cpp_named(trim_seq(inner)) + "()>"@
                },
            }
        }
    }
}

/// Whether a type name can be translated: wherever the translation reads a
/// tuple text, the text cut just inside its parentheses falls between two
/// characters, which holds when its last character is one byte long.
pub open spec fn cpp_named_ok(s: Seq<char>) -> bool
    decreases s.len(), 2nat,
{
    let t = strip_ws(s);
    if cpp_primitive(t) is Some {
        true
    } else {
        proof {
            lemma_strip_ws_len(s);
        }
        cpp_generic_ok(t)
    }
}

pub open spec fn cpp_generic_ok(s: Seq<char>) -> bool
    decreases s.len(), 1nat,
{
    let n = s.len();
    if has_prefix(s, "Vec["@) && has_suffix(s, "]"@) && n >= 5 {
        cpp_named_ok(s.subrange(4, n - 1))
    } else if map_text(s) {
        let inner = s.subrange(8, n - 1);
        let i = first_at(inner, ',').unwrap();
        proof {
            lemma_first_at(inner, ',');
            lemma_trim_len(inner.subrange(0, i));
            lemma_trim_len(inner.subrange(i + 1, inner.len() as int));
        }
        cpp_named_ok(trim_seq(inner.subrange(0, i))) && cpp_named_ok(trim_seq(inner.subrange(i + 1, inner.len() as int)))
    } else if has_prefix(s, "Option["@) && has_suffix(s, "]"@) && n >= 8 {
        cpp_named_ok(s.subrange(7, n - 1))
    } else if has_prefix(s, "&mut"@) {
        proof {
            reveal_strlit("&mut");
            lemma_trim_len(s.subrange(4, n as int));
        }
        cpp_named_ok(trim_seq(s.subrange(4, n as int)))
    } else if n > 0 && s[0] == '&' {
        proof {
            lemma_trim_len(s.subrange(1, n as int));
        }
        cpp_named_ok(trim_seq(s.subrange(1, n as int)))
    } else if has_prefix(s, "Fn["@) {
        cpp_fn_ok(s)
    } else if tuple_text(s) {
        (s.last() as u32) < 128 && cpp_parts_ok(s.subrange(1, n - 1))
    } else {
        true
    }
}

pub open spec fn cpp_parts_ok(p: Seq<char>) -> bool
    decreases p.len(), 3nat,
{
    match first_at(p, ',') {
        Some(i) => {
            proof {
                lemma_first_at(p, ',');
                lemma_trim_len(p.subrange(0, i));
            }
            cpp_named_ok(trim_seq(p.subrange(0, i))) && cpp_parts_ok(p.subrange(i + 1, p.len() as int))
        },
        None => {
            proof {
                lemma_trim_len(p);
            }
            cpp_named_ok(trim_seq(p))
        },
    }
}

pub open spec fn cpp_fn_ok(s: Seq<char>) -> bool
    decreases s.len(), 0nat,
{
    if !has_prefix(s, "Fn["@) {
        true
    } else {
        let inner = fn_inner(s);
        proof {
            lemma_strip_lens(s, "Fn["@);
            lemma_strip_lens(strip_all_prefix(s, "Fn["@), "]"@);
            reveal_strlit("Fn[");
        }
        if inner.len() == 0 {
            true
        } else {
            match find_arrow(inner) {
                Some(a) => {
                    proof {
                        lemma_find_arrow(inner);
                        lemma_trim_len(inner.subrange(0, a));
                        lemma_trim_len(inner.subrange(a + 2, inner.len() as int));
                    }
                    let ps = trim_seq(inner.subrange(0, a));
                    let rs = trim_seq(inner.subrange(a + 2, inner.len() as int));
                    (ps.len() == 0 || cpp_parts_ok(ps)) && (rs.len() == 0 || cpp_named_ok(rs))
                },
                None => {
                    proof {
                        lemma_trim_len(inner);
                    }
                    cpp_named_ok(trim_seq(inner))
                },
            }
        }
    }
}

/// The C++ text of a type.
pub open spec fn cpp_type(t: TyV) -> Seq<char>
    decreases t,
{
    match t {
        TyV::Named(s) => cpp_named(s),
        TyV::Tuple(ts) => "std::tuple<"@ + cpp_types(ts) + ">"@,
        TyV::Array(e, n) => "std::array<"@ + cpp_type(*e) + ", "@ + nat_decimal(n) + ">"@,
        TyV::Unknown => "auto"@,
    }
}

/// Types joined by `, `.
pub open spec fn cpp_types(ts: Seq<TyV>) -> Seq<char>
    decreases ts,
{
    if ts.len() == 0 {
        Seq::empty()
    } else if ts.len() == 1 {
        cpp_type(ts[0])
    } else {
        cpp_types(ts.drop_last()) + ", "@ + cpp_type(ts.last())
    }
}

/// Whether a type can be translated (see `cpp_named_ok`).
pub open spec fn cpp_ok(t: TyV) -> bool
    decreases t,
{
    match t {
        TyV::Named(s) => cpp_named_ok(s),
        TyV::Tuple(ts) => cpp_oks(ts),
        TyV::Array(e, _) => cpp_ok(*e),
        TyV::Unknown => true,
    }
}

pub open spec fn cpp_oks(ts: Seq<TyV>) -> bool
    decreases ts,
{
    if ts.len() == 0 {
        true
    } else {
        cpp_oks(ts.drop_last()) && cpp_ok(ts.last())
    }
}

pub proof fn lemma_cpp_oks(ts: Seq<TyV>)
    ensures
        cpp_oks(ts) <==> forall|k: int| 0 <= k < ts.len() ==> cpp_ok(#[trigger] ts[k]),
    decreases ts.len(),
{
    if ts.len() > 0 {
        lemma_cpp_oks(ts.drop_last());
        assert forall|k: int| 0 <= k < ts.len() - 1 implies #[trigger] ts.drop_last()[k] == ts[k] by {}
        if cpp_oks(ts) {
            assert forall|k: int| 0 <= k < ts.len() implies cpp_ok(#[trigger] ts[k]) by {
                if k < ts.len() - 1 {
                    assert(ts.drop_last()[k] == ts[k]);
                }
            }
        }
        if forall|k: int| 0 <= k < ts.len() ==> cpp_ok(#[trigger] ts[k]) {
            assert forall|k: int| 0 <= k < ts.drop_last().len() implies cpp_ok(#[trigger] ts.drop_last()[k]) by {
                assert(ts.drop_last()[k] == ts[k]);
            }
            assert(cpp_ok(ts[ts.len() - 1]));
        }
    }
}

fn primitive_of(t: &str) -> (r: Option<&'static str>)
    ensures
        match cpp_primitive(t@) {
            Some(p) => r matches Some(x) && x@ == p,
            None => r is None,
        },
{
    if str_is(t, "i8") {
        Some("int8_t")
    } else if str_is(t, "i16") {
        Some("int16_t")
    } else if str_is(t, "i32") {
        Some("int32_t")
    } else if str_is(t, "i64") {
        Some("int64_t")
    } else if str_is(t, "i128") {
        Some("__int128")
    } else if str_is(t, "isize") {
        Some("ptrdiff_t")
    } else if str_is(t, "u8") {
        Some("uint8_t")
    } else if str_is(t, "u16") {
        Some("uint16_t")
    } else if str_is(t, "u32") {
        Some("uint32_t")
    } else if str_is(t, "u64") {
        Some("uint64_t")
    } else if str_is(t, "u128") {
        Some("unsigned __int128")
    } else if str_is(t, "usize") {
        Some("size_t")
    } else if str_is(t, "f32") {
        Some("float")
    } else if str_is(t, "f64") {
        Some("double")
    } else if str_is(t, "bool") {
        Some("bool")
    } else if str_is(t, "char") {
        Some("char")
    } else if str_is(t, "String") {
        Some("std::string")
    } else if str_is(t, "&str") {
        Some("std::string_view")
    } else if str_is(t, "()") {
        Some("void")
    } else {
        None
    }
}

/// The C++ text of a type name.
pub fn rust_type_to_cpp(s: &str) -> (r: String)
    requires
        cpp_named_ok(s@),
    ensures
        r@ == cpp_named(s@),
    decreases s@.len(), 2nat,
{
    let t = remove_whitespace(s);
    proof {
        lemma_strip_ws_len(s@);
    }
    match primitive_of(t.as_str()) {
        Some(p) => String::from_str(p),
        None => translate_cpp_generic(t.as_str()),
    }
}

#[verifier::rlimit(40)]
fn translate_cpp_generic(s: &str) -> (r: String)
    requires
        cpp_generic_ok(s@),
    ensures
        r@ == cpp_generic(s@),
    decreases s@.len(), 1nat,
{
    let v = chars_of(s);
    let n = v.len();
    proof {
        reveal_strlit("Vec[");
        reveal_strlit("HashMap[");
        reveal_strlit("Option[");
        reveal_strlit("&mut");
        reveal_strlit("Fn[");
        reveal_strlit("]");
        assert(v@.subrange(0, n as int) =~= v@);
    }
    let ends = n > 0 && v[n - 1] == ']';
    proof {
        if n > 0 {
            assert(has_suffix(s@, "]"@) == (v@[n - 1] == ']')) by {
                assert(v@.subrange(n - 1, n as int)[0] == v@[n - 1]);
                if v@[n - 1] == ']' {
                    assert(v@.subrange(n - 1, n as int) =~= "]"@);
                }
            }
        }
    }
    if prefix_at(v.as_slice(), 0, "Vec[") && ends && n >= 5 {
        let inner = string_of(v.as_slice(), 4, n - 1);
        let mut r = String::from_str("std::vector<");
        let t = rust_type_to_cpp(inner.as_str());
        r.append(t.as_str());
        r.append(">");
        return r;
    }
    if prefix_at(v.as_slice(), 0, "HashMap[") && ends && n >= 9 {
        let ghost inner = v@.subrange(8, n - 1);
        proof {
            lemma_first_at(inner, ',');
        }
        if let Some(c) = find_char_in(v.as_slice(), ',', 8, n - 1) {
            let i = c - 8;
            proof {
                assert(inner.subrange(0, i as int) =~= v@.subrange(8, c as int));
                assert(inner.subrange(i + 1, inner.len() as int) =~= v@.subrange(c + 1, n - 1));
                lemma_trim_len(inner.subrange(0, i as int));
                lemma_trim_len(inner.subrange(i + 1, inner.len() as int));
            }
            let k = trimmed(&v, 8, c);
            let val = trimmed(&v, c + 1, n - 1);
            let mut r = String::from_str("std::unordered_map<");
            let kt = rust_type_to_cpp(k.as_str());
            r.append(kt.as_str());
            r.append(", ");
            let vt = rust_type_to_cpp(val.as_str());
            r.append(vt.as_str());
            r.append(">");
            return r;
        }
    }
    if prefix_at(v.as_slice(), 0, "Option[") && ends && n >= 8 {
        let inner = string_of(v.as_slice(), 7, n - 1);
        let mut r = String::from_str("std::optional<");
        let t = rust_type_to_cpp(inner.as_str());
        r.append(t.as_str());
        r.append(">");
        return r;
    }
    if prefix_at(v.as_slice(), 0, "&mut") {
        proof {
            lemma_trim_len(v@.subrange(4, n as int));
        }
        let inner = trimmed(&v, 4, n);
        let mut r = rust_type_to_cpp(inner.as_str());
        r.append("&");
        return r;
    }
    if n > 0 && v[0] == '&' {
        proof {
            lemma_trim_len(v@.subrange(1, n as int));
        }
        let inner = trimmed(&v, 1, n);
        let mut r = String::from_str("const ");
        let t = rust_type_to_cpp(inner.as_str());
        r.append(t.as_str());
        r.append("&");
        return r;
    }
    if prefix_at(v.as_slice(), 0, "Fn[") {
        return translate_fn_type_cpp(s);
    }
    proof {
        lemma_first_at(s@, ',');
    }
    if n >= 2 && v[0] == '(' && find_char_in(v.as_slice(), ',', 0, n).is_some() {
        let inner = string_of(v.as_slice(), 1, n - 1);
        let mut r = String::from_str("std::tuple<");
        let t = cpp_parts_of(inner.as_str());
        r.append(t.as_str());
        r.append(">");
        return r;
    }
    let mut r = String::from_str(s);
    r.append(" /* ? */");
    r
}

fn cpp_parts_of(p: &str) -> (r: String)
    requires
        cpp_parts_ok(p@),
    ensures
        r@ == cpp_parts(p@),
    decreases p@.len(), 3nat,
{
    let v = chars_of(p);
    proof {
        lemma_first_at(p@, ',');
        assert(v@.subrange(0, v@.len() as int) =~= v@);
    }
    match find_char_in(v.as_slice(), ',', 0, v.len()) {
        Some(i) => {
            proof {
                lemma_trim_len(p@.subrange(0, i as int));
            }
            let head = trimmed(&v, 0, i);
            let tail = string_of(v.as_slice(), i + 1, v.len());
            let mut r = rust_type_to_cpp(head.as_str());
            r.append(", ");
            let rest = cpp_parts_of(tail.as_str());
            r.append(rest.as_str());
            r
        },
        None => {
            proof {
                lemma_trim_len(p@);
            }
            let t = trimmed(&v, 0, v.len());
            rust_type_to_cpp(t.as_str())
        },
    }
}

/// `std::function<..>` for the parameter and result texts of a function
/// type.
fn function_text(ps: &str, rs: &str) -> (r: String)
    requires
        ps@.len() == 0 || cpp_parts_ok(ps@),
        rs@.len() == 0 || cpp_named_ok(rs@),
    ensures
        r@ == "std::function<"@ + (if rs@.len() == 0 { "void"@ } else { cpp_named(rs@) }) + "("@
            + (if ps@.len() == 0 { Seq::empty() } else { cpp_parts(ps@) }) + ")>"@,
    decreases ps@.len() + rs@.len() + 1, 0nat,
{
    proof {
        reveal_strlit("void");
    }
    let params = if ps.unicode_len() == 0 { String::new() } else { cpp_parts_of(ps) };
    let ret = if rs.unicode_len() == 0 { String::from_str("void") } else { rust_type_to_cpp(rs) };
    let mut r = String::from_str("std::function<");
    r.append(ret.as_str());
    r.append("(");
    r.append(params.as_str());
    r.append(")>");
    r
}

#[verifier::rlimit(80)]
fn translate_fn_type_cpp(s: &str) -> (r: String)
    requires
        has_prefix(s@, "Fn["@),
        cpp_fn_ok(s@),
    ensures
        r@ == cpp_fn(s@),
    decreases s@.len(), 0nat,
{
    let v = chars_of(s);
    proof {
        lemma_strip_lens(s@, "Fn["@);
        lemma_strip_lens(strip_all_prefix(s@, "Fn["@), "]"@);
        reveal_strlit("Fn[");
    }
    let (a, b) = fn_inner_bounds(&v);
    let ghost inner = v@.subrange(a as int, b as int);
    proof {
        assert(v@ == s@);
        assert(fn_inner(s@) == inner);
        assert(inner.len() + 3 <= s@.len());
    }
    if a == b {
        return String::from_str("std::function<void()>");
    }
    proof {
        lemma_find_arrow(inner);
    }
    match find_arrow_in(v.as_slice(), a, b) {
        Some(arrow) => {
            let ghost ai = (arrow - a) as int;
            proof {
                assert(inner.subrange(0, ai) =~= v@.subrange(a as int, arrow as int));
                assert(inner.subrange(ai + 2, inner.len() as int) =~= v@.subrange(arrow + 2, b as int));
                lemma_trim_len(inner.subrange(0, ai));
                lemma_trim_len(inner.subrange(ai + 2, inner.len() as int));
            }
            let ps = trimmed(&v, a, arrow);
            let rs = trimmed(&v, arrow + 2, b);
            proof {
                assert(ps@.len() + rs@.len() + 1 < s@.len());
            }
            function_text(ps.as_str(), rs.as_str())
        },
        None => {
            proof {
                lemma_trim_len(inner);
            }
            let t = trimmed(&v, a, b);
            let mut r = String::from_str("std::function<");
            let g = rust_type_to_cpp(t.as_str());
            r.append(g.as_str());
            r.append("()>");
            r
        },
    }
}

/// The C++ text of a type.
pub fn bu_type_to_cpp(t: &BuType) -> (r: String)
    requires
        cpp_ok(t@),
    ensures
        r@ == cpp_type(t@),
    decreases t,
{
    match t {
        BuType::Named(s) => rust_type_to_cpp(s.as_str()),
        BuType::Tuple(ts) => {
            let mut r = String::from_str("std::tuple<");
            let j = cpp_type_list(ts);
            r.append(j.as_str());
            r.append(">");
            r
        },
        BuType::Array(e, n) => {
            let mut r = String::from_str("std::array<");
            let g = bu_type_to_cpp(e);
            r.append(g.as_str());
            r.append(", ");
            let k = usize_to_string(*n);
            r.append(k.as_str());
            r.append(">");
            r
        },
        BuType::Unknown => String::from_str("auto"),
    }
}

fn cpp_type_list(ts: &Vec<BuType>) -> (r: String)
    requires
        cpp_oks(tys_view(ts@)),
    ensures
        r@ == cpp_types(tys_view(ts@)),
    decreases ts,
{
    proof {
        lemma_tys_view(ts@);
        lemma_cpp_oks(tys_view(ts@));
    }
    let mut r = String::new();
    let mut i: usize = 0;
    proof {
        assert(tys_view(ts@).subrange(0, 0) =~= Seq::<TyV>::empty());
    }
    while i < ts.len()
        invariant
            i <= ts@.len(),
            tys_view(ts@).len() == ts@.len(),
            forall|k: int| 0 <= k < ts@.len() ==> tys_view(ts@)[k] == (#[trigger] ts@[k])@,
            forall|k: int| 0 <= k < ts@.len() ==> cpp_ok(#[trigger] tys_view(ts@)[k]),
            r@ == cpp_types(tys_view(ts@).subrange(0, i as int)),
        decreases ts@.len() - i,
    {
        let ghost pre = tys_view(ts@).subrange(0, i as int);
        let ghost nxt = tys_view(ts@).subrange(0, i + 1);
        proof {
            assert(nxt.drop_last() =~= pre);
            assert(nxt.last() == ts@[i as int]@);
            assert(cpp_ok(tys_view(ts@)[i as int]));
        }
        if i > 0 {
            r.append(", ");
        }
        let g = bu_type_to_cpp(&ts[i]);
        r.append(g.as_str());
        proof {
            if i == 0 {
                assert(nxt.len() == 1);
                assert(nxt[0] == ts@[0]@);
            }
            assert(r@ =~= cpp_types(nxt));
        }
        i = i + 1;
    }
    proof {
        assert(tys_view(ts@).subrange(0, ts@.len() as int) =~= tys_view(ts@));
    }
    r
}

} // verus!
