//! How Bullang types are written in Java: primitives by their Java names
//! (unsigned ones widened), `Vec[T]` as `java.util.ArrayList<T>`,
//! `HashMap[K, V]` as `java.util.HashMap<K, V>`, `Option[T]` as the boxed
//! `T`, `Fn[..]` as a functional interface, tuples as `Object[]`.
use vstd::prelude::*;
use crate::ast::{BuType, TyV};
use crate::add::{strip_all_prefix, strip_all_suffix};
use crate::go_types::{fn_inner, lemma_strip_lens, trimmed};
use crate::text::{
    chars_of, string_of, strip_ws, remove_whitespace, has_prefix, has_suffix, trim_seq, first_at,
    lemma_first_at, find_char_in, find_arrow, lemma_find_arrow, find_arrow_in, lemma_trim_len,
    lemma_strip_ws_len, prefix_at, str_is,
};

verus! {

/// The Java name of a primitive, if the text names one.
pub open spec fn java_primitive(t: Seq<char>) -> Option<Seq<char>> {
    if t == "i8"@ {
        Some("byte"@)
    } else if t == "i16"@ {
        Some("short"@)
    } else if t == "i32"@ {
        Some("int"@)
    } else if t == "i64"@ || t == "i128"@ || t == "isize"@ {
        Some("long"@)
    } else if t == "u8"@ || t == "u16"@ {
        Some("int"@)
    } else if t == "u32"@ || t == "u64"@ || t == "u128"@ || t == "usize"@ {
        Some("long"@)
    } else if t == "f32"@ {
        Some("float"@)
    } else if t == "f64"@ {
        Some("double"@)
    } else if t == "bool"@ {
        Some("boolean"@)
    } else if t == "char"@ {
        Some("char"@)
    } else if t == "String"@ || t == "&str"@ {
        Some("String"@)
    } else if t == "()"@ {
        Some("void"@)
    } else {
        None
    }
}

/// The boxed type that Java generics need for a primitive.
pub open spec fn boxed(s: Seq<char>) -> Seq<char> {
    if s == "byte"@ {
        "Byte"@
    } else if s == "short"@ {
        "Short"@
    } else if s == "int"@ {
        "Integer"@
    } else if s == "long"@ {
        "Long"@
    } else if s == "float"@ {
        "Float"@
    } else if s == "double"@ {
        "Double"@
    } else if s == "boolean"@ {
        "Boolean"@
    } else if s == "char"@ {
        "Character"@
    } else {
        s
    }
}

/// The Java text of a type name, whitespace taken out first.
pub open spec fn java_named(s: Seq<char>) -> Seq<char>
    decreases s.len(), 2nat,
{
    let t = strip_ws(s);
    match java_primitive(t) {
        Some(j) => j,
        None => {
            proof {
                lemma_strip_ws_len(s);
            }
            java_generic(t)
        },
    }
}

/// The Java text of a generic or otherwise unknown type name.
pub open spec fn java_generic(s: Seq<char>) -> Seq<char>
    decreases s.len(), 1nat,
{
    let n = s.len();
    if has_prefix(s, "Vec["@) && has_suffix(s, "]"@) && n >= 5 {
        "java.util.ArrayList<"@ + boxed(java_named(s.subrange(4, n - 1))) + ">"@
    } else if has_prefix(s, "HashMap["@) && has_suffix(s, "]"@) && n >= 9 && first_at(s.subrange(8, n - 1), ',') is Some {
        let inner = s.subrange(8, n - 1);
        let i = first_at(inner, ',').unwrap();
        proof {
            lemma_first_at(inner, ',');
            lemma_trim_len(inner.subrange(0, i));
            lemma_trim_len(inner.subrange(i + 1, inner.len() as int));
        }
        "java.util.HashMap<"@ + boxed(java_named(trim_seq(inner.subrange(0, i)))) + ", "@
            + boxed(java_named(trim_seq(inner.subrange(i + 1, inner.len() as int)))) + ">"@
    } else if has_prefix(s, "Option["@) && has_suffix(s, "]"@) && n >= 8 {
        boxed(java_named(s.subrange(7, n - 1)))
    } else if has_prefix(s, "Fn["@) && has_suffix(s, "]"@) {
        java_fn(s)
    } else if has_prefix(s, "Tuple["@) && has_suffix(s, "]"@) {
        "Object[]"@
    } else if n > 0 && s[0] == '&' {
        proof {
            lemma_trim_len(s.subrange(1, n as int));
        }
        java_named(trim_seq(s.subrange(1, n as int)))
    } else {
        s
    }
}

/// A parameter type of a function type, boxed.
pub open spec fn java_param(p: Seq<char>) -> Seq<char>
    decreases p.len(), 3nat,
{
    proof {
        lemma_trim_len(p);
    }
    boxed(java_named(trim_seq(p)))
}

/// `Fn[..]` as the functional interface of its arity: `Runnable`,
/// `Supplier`, `Consumer`, `Function` or `BiFunction`.
pub open spec fn java_fn(s: Seq<char>) -> Seq<char>
    decreases s.len(), 0nat,
{
    if !has_prefix(s, "Fn["@) {
        Seq::empty()
    } else {
        let inner = fn_inner(s);
        proof {
            lemma_strip_lens(s, "Fn["@);
            lemma_strip_lens(strip_all_prefix(s, "Fn["@), "]"@);
            reveal_strlit("Fn[");
        }
        if trim_seq(inner).len() == 0 {
            "java.lang.Runnable"@
        } else {
            match find_arrow(inner) {
                Some(a) => {
                    proof {
                        lemma_find_arrow(inner);
                        lemma_trim_len(inner.subrange(0, a));
                        lemma_trim_len(inner.subrange(a + 2, inner.len() as int));
                    }
                    let ps = trim_seq(inner.subrange(0, a));
                    let rs = trim_seq(inner.subrange(a + 2, inner.len() as int));
                    let ret_empty = rs.len() == 0 || rs == "()"@;
                    let ret = boxed(java_named(rs));
                    if ps.len() == 0 {
                        if ret_empty { "java.lang.Runnable"@ } else { "java.util.function.Supplier<"@ + ret + ">"@ }
                    } else {
                        match first_at(ps, ',') {
                            None => if ret_empty {
                                "java.util.function.Consumer<"@ + java_param(ps) + ">"@
                            } else {
                                "java.util.function.Function<"@ + java_param(ps) + ","@ + ret + ">"@
                            },
                            Some(i) => {
                                proof {
                                    lemma_first_at(ps, ',');
                                }
                                let p0 = ps.subrange(0, i);
                                let rest = ps.subrange(i + 1, ps.len() as int);
                                if first_at(rest, ',') is None && !ret_empty {
                                    "java.util.function.BiFunction<"@ + java_param(p0) + ","@ + java_param(rest) + ","@ + ret + ">"@
                                } else {
                                    "java.util.function.Function<Object,Object> /* multi-arg */"@
                                }
                            },
                        }
                    }
                },
                None => {
                    proof {
                        lemma_trim_len(inner);
                    }
                    "java.util.function.Supplier<"@ + boxed(java_named(trim_seq(inner))) + ">"@
                },
            }
        }
    }
}

/// The Java text of a type.
pub open spec fn java_type(t: TyV) -> Seq<char>
    decreases t,
{
    match t {
        TyV::Named(s) => java_named(s),
        TyV::Tuple(_) => "Object[]"@,
        TyV::Array(e, _) => java_type(*e) + "[]"@,
        TyV::Unknown => "Object"@,
    }
}

fn primitive_of(t: &str) -> (r: Option<&'static str>)
    ensures
        match java_primitive(t@) {
            Some(g) => r matches Some(x) && x@ == g,
            None => r is None,
        },
{
    if str_is(t, "i8") {
        Some("byte")
    } else if str_is(t, "i16") {
        Some("short")
    } else if str_is(t, "i32") {
        Some("int")
    } else if str_is(t, "i64") || str_is(t, "i128") || str_is(t, "isize") {
        Some("long")
    } else if str_is(t, "u8") || str_is(t, "u16") {
        Some("int")
    } else if str_is(t, "u32") || str_is(t, "u64") || str_is(t, "u128") || str_is(t, "usize") {
        Some("long")
    } else if str_is(t, "f32") {
        Some("float")
    } else if str_is(t, "f64") {
        Some("double")
    } else if str_is(t, "bool") {
        Some("boolean")
    } else if str_is(t, "char") {
        Some("char")
    } else if str_is(t, "String") || str_is(t, "&str") {
        Some("String")
    } else if str_is(t, "()") {
        Some("void")
    } else {
        None
    }
}

pub fn box_java_primitive(s: String) -> (r: String)
    ensures
        r@ == boxed(s@),
{
    if str_is(s.as_str(), "byte") {
        String::from_str("Byte")
    } else if str_is(s.as_str(), "short") {
        String::from_str("Short")
    } else if str_is(s.as_str(), "int") {
        String::from_str("Integer")
    } else if str_is(s.as_str(), "long") {
        String::from_str("Long")
    } else if str_is(s.as_str(), "float") {
        String::from_str("Float")
    } else if str_is(s.as_str(), "double") {
        String::from_str("Double")
    } else if str_is(s.as_str(), "boolean") {
        String::from_str("Boolean")
    } else if str_is(s.as_str(), "char") {
        String::from_str("Character")
    } else {
        s
    }
}

/// The Java text of a type name (`rust_type_to_java`).
pub fn rust_type_to_java(s: &str) -> (r: String)
    ensures
        r@ == java_named(s@),
    decreases s@.len(), 2nat,
{
    let t = remove_whitespace(s);
    proof {
        lemma_strip_ws_len(s@);
    }
    match primitive_of(t.as_str()) {
        Some(g) => String::from_str(g),
        None => translate_java_generic(t.as_str()),
    }
}

fn boxed_java(s: &str) -> (r: String)
    ensures
        r@ == boxed(java_named(s@)),
    decreases s@.len(), 3nat,
{
    let t = rust_type_to_java(s);
    box_java_primitive(t)
}

fn translate_java_generic(s: &str) -> (r: String)
    ensures
        r@ == java_generic(s@),
    decreases s@.len(), 1nat,
{
    let v = chars_of(s);
    let n = v.len();
    proof {
        reveal_strlit("Vec[");
        reveal_strlit("HashMap[");
        reveal_strlit("Option[");
        reveal_strlit("Fn[");
        reveal_strlit("]");
        assert(v@.subrange(0, n as int) =~= v@);
    }
    let ends = n > 0 && v[n - 1] == ']';
    proof {
        if n > 0 {
            assert(has_suffix(s@, "]"@) == (v@[n - 1] == ']')) by {
                assert(v@.subrange(n - 1, n as int)[0] == v@[n - 1]);
                if v@[n - 1] == ']' {
                    assert(v@.subrange(n - 1, n as int) =~= "]"@);
                }
            }
        }
    }
    if prefix_at(v.as_slice(), 0, "Vec[") && ends && n >= 5 {
        let inner = string_of(v.as_slice(), 4, n - 1);
        let mut r = String::from_str("java.util.ArrayList<");
        let t = boxed_java(inner.as_str());
        r.append(t.as_str());
        r.append(">");
        return r;
    }
    if prefix_at(v.as_slice(), 0, "HashMap[") && ends && n >= 9 {
        let ghost inner = v@.subrange(8, n - 1);
        proof {
            lemma_first_at(inner, ',');
        }
        if let Some(c) = find_char_in(v.as_slice(), ',', 8, n - 1) {
            let i = c - 8;
            proof {
                assert(inner.subrange(0, i as int) =~= v@.subrange(8, c as int));
                assert(inner.subrange(i + 1, inner.len() as int) =~= v@.subrange(c + 1, n - 1));
                lemma_trim_len(inner.subrange(0, i as int));
                lemma_trim_len(inner.subrange(i + 1, inner.len() as int));
            }
            let k = trimmed(&v, 8, c);
            let val = trimmed(&v, c + 1, n - 1);
            let mut r = String::from_str("java.util.HashMap<");
            let kt = boxed_java(k.as_str());
            r.append(kt.as_str());
            r.append(", ");
            let vt = boxed_java(val.as_str());
            r.append(vt.as_str());
            r.append(">");
            return r;
        }
    }
    if prefix_at(v.as_slice(), 0, "Option[") && ends && n >= 8 {
        let inner = string_of(v.as_slice(), 7, n - 1);
        return boxed_java(inner.as_str());
    }
    if prefix_at(v.as_slice(), 0, "Fn[") && ends {
        return translate_fn_type_java(s);
    }
    proof {
        reveal_strlit("Tuple[");
    }
    if prefix_at(v.as_slice(), 0, "Tuple[") && ends {
        return String::from_str("Object[]");
    }
    if n > 0 && v[0] == '&' {
        proof {
            lemma_trim_len(v@.subrange(1, n as int));
        }
        let inner = trimmed(&v, 1, n);
        return rust_type_to_java(inner.as_str());
    }
    String::from_str(s)
}

fn java_param_of(p: &str) -> (r: String)
    ensures
        r@ == java_param(p@),
    decreases p@.len(), 4nat,
{
    let v = chars_of(p);
    proof {
        lemma_trim_len(p@);
        assert(v@.subrange(0, v@.len() as int) =~= v@);
    }
    let t = trimmed(&v, 0, v.len());
    boxed_java(t.as_str())
}

#[verifier::rlimit(40)]
fn translate_fn_type_java(s: &str) -> (r: String)
    requires
        has_prefix(s@, "Fn["@),
    ensures
        r@ == java_fn(s@),
    decreases s@.len(), 0nat,
{
    let v = chars_of(s);
    proof {
        reveal_strlit("Fn[");
        reveal_strlit("]");
        reveal_strlit("()");
        lemma_strip_lens(s@, "Fn["@);
        lemma_strip_lens(strip_all_prefix(s@, "Fn["@), "]"@);
        assert(v@.subrange(0, v@.len() as int) =~= v@);
    }
    let mut a: usize = 0;
    while v.len() - a >= 3 && prefix_at(v.as_slice(), a, "Fn[")
        invariant
            a <= v@.len(),
            v@ == s@,
            strip_all_prefix(s@, "Fn["@) == strip_all_prefix(v@.subrange(a as int, v@.len() as int), "Fn["@),
        decreases v@.len() - a,
    {
        proof {
            reveal_strlit("Fn[");
            let cur = v@.subrange(a as int, v@.len() as int);
            assert(cur.subrange(3, cur.len() as int) =~= v@.subrange(a + 3, v@.len() as int));
        }
        a = a + 3;
    }
    proof {
        let cur = v@.subrange(a as int, v@.len() as int);
        if v@.len() - a < 3 {
            assert(!has_prefix(cur, "Fn["@));
        }
        assert(strip_all_prefix(cur, "Fn["@) == cur);
    }
    let mut b = v.len();
    proof {
        assert(v@.subrange(a as int, b as int) =~= v@.subrange(a as int, v@.len() as int));
    }
    while b > a && v[b - 1] == ']'
        invariant
            a <= b <= v@.len(),
            fn_inner(s@) == strip_all_suffix(v@.subrange(a as int, b as int), "]"@),
        decreases b,
    {
        proof {
            reveal_strlit("]");
            let cur = v@.subrange(a as int, b as int);
            assert(cur.subrange(cur.len() - 1, cur.len() as int) =~= "]"@);
            assert(cur.subrange(0, cur.len() - 1) =~= v@.subrange(a as int, b - 1));
        }
        b = b - 1;
    }
    let ghost inner = v@.subrange(a as int, b as int);
    proof {
        if b > a {
            assert(inner.subrange(inner.len() - 1, inner.len() as int)[0] == v@[b - 1]);
            assert(!(inner.subrange(inner.len() - 1, inner.len() as int) =~= "]"@));
        }
        assert(strip_all_suffix(inner, "]"@) == inner);
        assert(fn_inner(s@) == inner);
        lemma_trim_len(inner);
    }
    let whole = trimmed(&v, a, b);
    if whole.unicode_len() == 0 {
        return String::from_str("java.lang.Runnable");
    }
    proof {
        lemma_find_arrow(inner);
    }
    match find_arrow_in(v.as_slice(), a, b) {
        Some(arrow) => {
            let ghost ai = (arrow - a) as int;
            proof {
                assert(inner.subrange(0, ai) =~= v@.subrange(a as int, arrow as int));
                assert(inner.subrange(ai + 2, inner.len() as int) =~= v@.subrange(arrow + 2, b as int));
                lemma_trim_len(inner.subrange(0, ai));
                lemma_trim_len(inner.subrange(ai + 2, inner.len() as int));
            }
            let ps = trimmed(&v, a, arrow);
            let rs = trimmed(&v, arrow + 2, b);
            let ret_empty = rs.unicode_len() == 0 || str_is(rs.as_str(), "()");
            let ret = boxed_java(rs.as_str());
            if ps.unicode_len() == 0 {
                if ret_empty {
                    return String::from_str("java.lang.Runnable");
                }
                let mut r = String::from_str("java.util.function.Supplier<");
                r.append(ret.as_str());
                r.append(">");
                return r;
            }
            let pv = chars_of(ps.as_str());
            let pn = pv.len();
            proof {
                lemma_first_at(ps@, ',');
                assert(pv@.subrange(0, pn as int) =~= pv@);
            }
            match find_char_in(pv.as_slice(), ',', 0, pn) {
                None => {
                    let p0 = java_param_of(ps.as_str());
                    let mut r = if ret_empty {
                        String::from_str("java.util.function.Consumer<")
                    } else {
                        String::from_str("java.util.function.Function<")
                    };
                    r.append(p0.as_str());
                    if !ret_empty {
                        r.append(",");
                        r.append(ret.as_str());
                    }
                    r.append(">");
                    r
                },
                Some(i) => {
                    let ghost rest = ps@.subrange(i + 1, ps@.len() as int);
                    proof {
                        lemma_first_at(rest, ',');
                        assert(pv@.subrange(i + 1, pn as int) =~= rest);
                    }
                    let second = find_char_in(pv.as_slice(), ',', i + 1, pn);
                    if second.is_none() && !ret_empty {
                        let h = string_of(pv.as_slice(), 0, i);
                        let t = string_of(pv.as_slice(), i + 1, pn);
                        let p0 = java_param_of(h.as_str());
                        let p1 = java_param_of(t.as_str());
                        let mut r = String::from_str("java.util.function.BiFunction<");
                        r.append(p0.as_str());
                        r.append(",");
                        r.append(p1.as_str());
                        r.append(",");
                        r.append(ret.as_str());
                        r.append(">");
                        r
                    } else {
                        String::from_str("java.util.function.Function<Object,Object> /* multi-arg */")
                    }
                },
            }
        },
        None => {
            let mut r = String::from_str("java.util.function.Supplier<");
            let g = boxed_java(whole.as_str());
            r.append(g.as_str());
            r.append(">");
            r
        },
    }
}

/// The Java text of a type (`bu_type_to_java`).
pub fn bu_type_to_java(t: &BuType) -> (r: String)
    ensures
        r@ == java_type(t@),
    decreases t,
{
    match t {
        BuType::Named(s) => rust_type_to_java(s.as_str()),
        BuType::Tuple(_) => String::from_str("Object[]"),
        BuType::Array(e, _) => {
            let mut r = bu_type_to_java(e);
            r.append("[]");
            r
        },
        BuType::Unknown => String::from_str("Object"),
    }
}

} // verus!
