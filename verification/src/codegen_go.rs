//! Code generation for Go: names, expressions, function bodies with their
//! local type tracking, functions, imports, and the files of a generated
//! package.
use vstd::prelude::*;
use crate::ast::{
    Atom, Backend, BackendV, BinOp, BuType, Bullet, BulletBody, CallArg, EnumDef, Expr, NativeBlock,
    OutputDecl, Param, Pipe, SourceFile, StructDef, TyV, int_decimal, nat_decimal, backend_keyword, ty_view,
    tys_view, lemma_tys_view, same_types, copy_types, Field, Variant,
};
use crate::go_types::{go_type, bu_type_to_go, tuple_go_name, tuple_parts};
use crate::stdlib::{fill, fill_template, emit_builtin, code_for, param_names};
use crate::text::{
    chars_of, string_of, first_at, lemma_first_at, find_char_in, var_ok, is_var_name, i64_to_string,
    usize_to_string, upper_of, char_to_upper, push_char, str_is,
};
use crate::codegen_rs::{joined, join_strings, first_backend, find_block, binding_or_blank};
use crate::table::{NameTable, lookup_key, view_entries, lemma_view_entries};
use crate::lsp::{byte_len, char_boundary, locate, byte_past};
use crate::text::{trim_seq, trim_start_seq, trim_chars, lines_of, split_lines, is_whitespace};
use crate::add::char_utf8_len;
use crate::stdlib::builtin_code;
use crate::tools::{has_infix, contains_str, no_repeats};
use crate::validator::name_seq;

verus! {

// ── Names ─────────────────────────────────────────────────────────────────────

/// The rest of a name in PascalCase: `_` dropped, and the character after
/// one (or the first, when `up`) in upper case.
pub open spec fn pascal_from(s: Seq<char>, up: bool) -> Seq<char>
    decreases s.len(),
{
    if s.len() == 0 {
        Seq::empty()
    } else if s[0] == '_' {
        pascal_from(s.drop_first(), true)
    } else if up {
        upper_of(s[0]) + pascal_from(s.drop_first(), false)
    } else {
        seq![s[0]] + pascal_from(s.drop_first(), false)
    }
}

/// A snake_case name in PascalCase, as Go exports it.
pub open spec fn pascal(s: Seq<char>) -> Seq<char> {
    pascal_from(s, true)
}

pub fn to_pascal_case(s: &str) -> (r: String)
    ensures
        r@ == pascal(s@),
{
    let v = chars_of(s);
    let n = v.len();
    let mut out = String::new();
    let mut up = true;
    let mut i: usize = 0;
    proof {
        assert(v@.subrange(0, n as int) =~= v@);
        assert(out@ + pascal_from(v@, true) =~= pascal_from(v@, true));
    }
    while i < n
        invariant
            n == v@.len(),
            v@ == s@,
            i <= n,
            pascal(s@) == out@ + pascal_from(v@.subrange(i as int, n as int), up),
        decreases n - i,
    {
        let ghost cur = v@.subrange(i as int, n as int);
        let ghost before = out@;
        proof {
            assert(cur.drop_first() =~= v@.subrange(i + 1, n as int));
            assert(cur[0] == v@[i as int]);
        }
        let c = v[i];
        if c == '_' {
            up = true;
        } else if up {
            let u = char_to_upper(c);
            out.append(u.as_str());
            up = false;
            proof {
                assert(before + (upper_of(c) + pascal_from(v@.subrange(i + 1, n as int), false))
                    =~= out@ + pascal_from(v@.subrange(i + 1, n as int), false));
            }
        } else {
            push_char(&mut out, c);
            proof {
                assert(before + (seq![c] + pascal_from(v@.subrange(i + 1, n as int), false))
                    =~= out@ + pascal_from(v@.subrange(i + 1, n as int), false));
            }
        }
        i = i + 1;
    }
    proof {
        assert(v@.subrange(n as int, n as int) =~= Seq::<char>::empty());
        assert(out@ + Seq::<char>::empty() =~= out@);
    }
    out
}

pub open spec fn ascii_alnum(c: char) -> bool {
    ('0' <= c && c <= '9') || ('a' <= c && c <= 'z') || ('A' <= c && c <= 'Z')
}

pub open spec fn ascii_alpha(c: char) -> bool {
    ('a' <= c && c <= 'z') || ('A' <= c && c <= 'Z')
}

/// An ASCII letter or digit in lower case; anything else as `_`.
pub open spec fn pkg_char(c: char) -> char {
    if ascii_alnum(c) {
        if 'A' <= c && c <= 'Z' { ((c as u32) + 32) as char } else { c }
    } else {
        '_'
    }
}

/// Leading characters that are not ASCII letters (underscores and digits,
/// once mapped) taken off.
pub open spec fn trim_non_alpha(s: Seq<char>) -> Seq<char>
    decreases s.len(),
{
    if s.len() > 0 && !ascii_alpha(s[0]) {
        trim_non_alpha(s.drop_first())
    } else {
        s
    }
}

/// A Go package name made of a project name.
pub open spec fn go_pkg(name: Seq<char>) -> Seq<char> {
    trim_non_alpha(name.map_values(|c: char| pkg_char(c)))
}

pub fn sanitize_go_pkg(name: &str) -> (r: String)
    ensures
        r@ == go_pkg(name@),
{
    let v = chars_of(name);
    let mut w: Vec<char> = Vec::new();
    let mut i: usize = 0;
    while i < v.len()
        invariant
            i <= v@.len(),
            v@ == name@,
            w@ == name@.subrange(0, i as int).map_values(|c: char| pkg_char(c)),
        decreases v@.len() - i,
    {
        let c = v[i];
        let d = if ('0' <= c && c <= '9') || ('a' <= c && c <= 'z') {
            c
        } else if 'A' <= c && c <= 'Z' {
            ((c as u8) + 32) as char
        } else {
            '_'
        };
        w.push(d);
        proof {
            assert(name@.subrange(0, i + 1).map_values(|c: char| pkg_char(c))
                =~= name@.subrange(0, i as int).map_values(|c: char| pkg_char(c)).push(d));
        }
        i = i + 1;
    }
    proof {
        assert(name@.subrange(0, name@.len() as int) =~= name@);
    }
    let ghost m = w@;
    let b: usize = w.len();
    let mut a: usize = 0;
    proof {
        assert(w@.subrange(0, w@.len() as int) =~= w@);
    }
    while a < b && !(('a' <= w[a] && w[a] <= 'z') || ('A' <= w[a] && w[a] <= 'Z'))
        invariant
            a <= b == w@.len(),
            m == w@,
            trim_non_alpha(m) == trim_non_alpha(m.subrange(a as int, b as int)),
        decreases b - a,
    {
        let ghost cur = m.subrange(a as int, b as int);
        proof {
            assert(cur[0] == w@[a as int]);
            assert(cur.drop_first() =~= m.subrange(a + 1, b as int));
        }
        a = a + 1;
    }
    proof {
        let cur = m.subrange(a as int, b as int);
        if a < b {
            assert(cur[0] == w@[a as int]);
        }
        assert(trim_non_alpha(cur) == cur);
    }
    string_of(w.as_slice(), a, b)
}

// ── String interpolation ─────────────────────────────────────────────────────

/// A template split into a `fmt.Sprintf` format and the variables it
/// names: each `{name}` becomes `%v`; a `{` not followed by a name and `}`
/// stays.
pub open spec fn sprintf_parts(t: Seq<char>) -> (Seq<char>, Seq<Seq<char>>) {
    interp_parts(t, "%v"@)
}

/// A template split into a format, with `ph` in place of each `{name}`,
/// and the names in order; a `{` not followed by a name and `}` stays.
pub open spec fn interp_parts(t: Seq<char>, ph: Seq<char>) -> (Seq<char>, Seq<Seq<char>>)
    decreases t.len(),
{
    if t.len() == 0 {
        (Seq::empty(), Seq::empty())
    } else {
        match first_at(t, '{') {
            None => (t, Seq::empty()),
            Some(o) => if 0 <= o < t.len() {
                let after = t.subrange(o + 1, t.len() as int);
                match first_at(after, '}') {
                    None => (t, Seq::empty()),
                    Some(c) => if 0 <= c < after.len() {
                        let name = after.subrange(0, c);
                        if var_ok(name) {
                            let rest = interp_parts(after.subrange(c + 1, after.len() as int), ph);
                            (t.subrange(0, o) + ph + rest.0, seq![name] + rest.1)
                        } else {
                            let rest = interp_parts(after, ph);
                            (t.subrange(0, o) + "{"@ + rest.0, rest.1)
                        }
                    } else {
                        (t, Seq::empty())
                    },
                }
            } else {
                (t, Seq::empty())
            },
        }
    }
}

#[verifier::spinoff_prover]
#[verifier::rlimit(50)]
pub(crate) fn interp_split(t: &str, ph: &str) -> (r: (String, Vec<String>))
    ensures
        (r.0@, name_seq(r.1@)) == interp_parts(t@, ph@),
{
    let v = chars_of(t);
    let n = v.len();
    let mut f = String::new();
    let mut vars: Vec<String> = Vec::new();
    let mut start: usize = 0;
    proof {
        assert(v@.subrange(0, n as int) =~= v@);
        reveal_strlit("{");
    }
    while start < n
        invariant
            start <= n,
            n == v@.len(),
            v@ == t@,
            interp_parts(t@, ph@).0 == f@ + interp_parts(v@.subrange(start as int, n as int), ph@).0,
            interp_parts(t@, ph@).1 == name_seq(vars@) + interp_parts(v@.subrange(start as int, n as int), ph@).1,
        decreases n - start,
    {
        proof {
            reveal_strlit("{");
        }
        let ghost cur = v@.subrange(start as int, n as int);
        let ghost f0 = f@;
        let ghost vs0 = name_seq(vars@);
        proof {
            lemma_first_at(cur, '{');
        }
        let o = match find_char_in(v.as_slice(), '{', start, n) {
            Some(o) => o,
            None => {
                let rest = string_of(v.as_slice(), start, n);
                f.append(rest.as_str());
                proof {
                    assert(f@ + Seq::<char>::empty() =~= f@);
                    assert(vs0 + Seq::<Seq<char>>::empty() =~= vs0);
                }
                return (f, vars);
            },
        };
        let ghost after = cur.subrange((o - start) + 1, cur.len() as int);
        proof {
            assert(after =~= v@.subrange(o + 1, n as int));
            lemma_first_at(after, '}');
        }
        let c = match find_char_in(v.as_slice(), '}', o + 1, n) {
            Some(c) => c,
            None => {
                let rest = string_of(v.as_slice(), start, n);
                f.append(rest.as_str());
                proof {
                    assert(f@ + Seq::<char>::empty() =~= f@);
                    assert(vs0 + Seq::<Seq<char>>::empty() =~= vs0);
                }
                return (f, vars);
            },
        };
        proof {
            assert(after.subrange(0, (c - o - 1) as int) =~= v@.subrange(o + 1, c as int));
            assert(after.subrange((c - o - 1) + 1, after.len() as int) =~= v@.subrange(c + 1, n as int));
            assert(cur.subrange(0, (o - start) as int) =~= v@.subrange(start as int, o as int));
        }
        let head = string_of(v.as_slice(), start, o);
        f.append(head.as_str());
        if is_var_name(&v, o + 1, c) {
            f.append(ph);
            let name = string_of(v.as_slice(), o + 1, c);
            vars.push(name);
            proof {
                let rest = interp_parts(v@.subrange(c + 1, n as int), ph@);
                assert(f@ + rest.0 =~= f0 + (v@.subrange(start as int, o as int) + ph@ + rest.0));
                assert(name_seq(vars@) =~= vs0.push(name@));
                assert(name_seq(vars@) + rest.1 =~= vs0 + (seq![name@] + rest.1));
            }
            start = c + 1;
        } else {
            f.append("{");
            proof {
                let rest = interp_parts(v@.subrange(o + 1, n as int), ph@);
                assert(f@ + rest.0 =~= f0 + (v@.subrange(start as int, o as int) + "{"@ + rest.0));
            }
            start = o + 1;
        }
    }
    proof {
        assert(v@.subrange(n as int, n as int) =~= Seq::<char>::empty());
        assert(f@ + Seq::<char>::empty() =~= f@);
        assert(name_seq(vars@) + Seq::<Seq<char>>::empty() =~= name_seq(vars@));
    }
    (f, vars)
}

// ── Expressions ───────────────────────────────────────────────────────────────

pub const GO_ASSERT: &'static str = "func() bool { __r := (\u{1}0); if !__r { fmt.Fprintf(os.Stderr, \"[assert] failed\\n\") }; return __r }()";
pub const GO_ASSERT_EQ: &'static str = "func() bool { __l, __r := (\u{1}0), (\u{1}1); __ok := __l == __r; if !__ok { fmt.Fprintf(os.Stderr, \"[assert_eq] expected %v, got %v\\n\", __r, __l) }; return __ok }()";
pub const GO_ASSERT_NE: &'static str = "func() bool { __l, __r := (\u{1}0), (\u{1}1); __ok := __l != __r; if !__ok { fmt.Fprintf(os.Stderr, \"[assert_ne] expected values to differ, both were %v\\n\", __l) }; return __ok }()";

/// Whether an atom can be written out in Go: no bare `builtin::name` where
/// an expression is needed, and the assertions with their operands.
pub open spec fn go_ok_atom(a: Atom) -> bool
    decreases a,
{
    match a {
        Atom::BuiltinNoArgs(_) => false,
        Atom::Unary { rhs, .. } => go_ok_atom(*rhs),
        Atom::BuiltinExpr { name, args } => if name@ == "assert"@ {
            args@.len() >= 1 && go_ok_expr(args@[0])
        } else if name@ == "assert_eq"@ || name@ == "assert_ne"@ {
            args@.len() >= 2 && go_ok_expr(args@[0]) && go_ok_expr(args@[1])
        } else {
            true
        },
        Atom::Index { idx, .. } => go_ok_expr(*idx),
        Atom::Slice { from, to, .. } => go_ok_expr(*from) && go_ok_expr(*to),
        Atom::Closure { body, .. } => go_ok_expr(*body),
        _ => true,
    }
}

pub open spec fn go_ok_expr(e: Expr) -> bool
    decreases e,
{
    match e {
        Expr::Atom(a) => go_ok_atom(a),
        Expr::BinOp(b) => go_ok_atom(b.lhs) && go_ok_atom(b.rhs),
        Expr::Tuple(es) => go_ok_exprs(es@),
    }
}

pub open spec fn go_ok_exprs(es: Seq<Expr>) -> bool
    decreases es,
{
    if es.len() == 0 {
        true
    } else {
        go_ok_exprs(es.drop_last()) && go_ok_expr(es.last())
    }
}

/// Whether an atom can be written out in Go.
pub fn atom_go_ok(a: &Atom) -> (r: bool)
    ensures
        r == go_ok_atom(*a),
    decreases a,
{
    proof {
        reveal_strlit("assert");
        reveal_strlit("assert_eq");
        reveal_strlit("assert_ne");
    }
    match a {
        Atom::BuiltinNoArgs(_) => false,
        Atom::Unary { rhs, .. } => atom_go_ok(rhs),
        Atom::BuiltinExpr { name, args } => {
            if str_is(name.as_str(), "assert") {
                args.len() >= 1 && expr_go_ok(&args[0])
            } else if str_is(name.as_str(), "assert_eq") || str_is(name.as_str(), "assert_ne") {
                args.len() >= 2 && expr_go_ok(&args[0]) && expr_go_ok(&args[1])
            } else {
                true
            }
        },
        Atom::Index { idx, .. } => expr_go_ok(idx),
        Atom::Slice { from, to, .. } => expr_go_ok(from) && expr_go_ok(to),
        Atom::Closure { body, .. } => expr_go_ok(body),
        _ => true,
    }
}

/// Whether an expression can be written out in Go.
pub fn expr_go_ok(e: &Expr) -> (r: bool)
    ensures
        r == go_ok_expr(*e),
    decreases e,
{
    match e {
        Expr::Atom(a) => atom_go_ok(a),
        Expr::BinOp(b) => atom_go_ok(&b.lhs) && atom_go_ok(&b.rhs),
        Expr::Tuple(es) => exprs_go_ok(es),
    }
}

/// Whether every expression of a list can be written out in Go.
pub fn exprs_go_ok(es: &Vec<Expr>) -> (r: bool)
    ensures
        r == go_ok_exprs(es@),
    decreases es,
{
    let mut ok = true;
    let mut i: usize = 0;
    proof {
        assert(es@.subrange(0, 0) =~= Seq::<Expr>::empty());
    }
    while i < es.len()
        invariant
            i <= es@.len(),
            ok == go_ok_exprs(es@.subrange(0, i as int)),
        decreases es@.len() - i,
    {
        proof {
            assert(es@.subrange(0, i + 1).drop_last() =~= es@.subrange(0, i as int));
            assert(es@.subrange(0, i + 1).last() == es@[i as int]);
        }
        let b = expr_go_ok(&es[i]);
        ok = ok && b;
        i = i + 1;
    }
    proof {
        assert(es@.subrange(0, es@.len() as int) =~= es@);
    }
    ok
}

pub proof fn lemma_go_ok_exprs(es: Seq<Expr>)
    requires
        go_ok_exprs(es),
    ensures
        forall|k: int| 0 <= k < es.len() ==> go_ok_expr(#[trigger] es[k]),
    decreases es.len(),
{
    if es.len() > 0 {
        lemma_go_ok_exprs(es.drop_last());
        assert forall|k: int| 0 <= k < es.len() implies go_ok_expr(#[trigger] es[k]) by {
            if k < es.len() - 1 {
                assert(es.drop_last()[k] == es[k]);
            }
        }
    }
}

/// The arguments of a call: variables by name, functions by their Go name.
pub open spec fn go_call_args(args: Seq<CallArg>) -> Seq<char>
    decreases args.len(),
{
    if args.len() == 0 {
        Seq::empty()
    } else {
        let last = match args.last() {
            CallArg::Value(s) => s@,
            CallArg::BulletRef(s) => pascal(s@),
        };
        if args.len() == 1 { last } else { go_call_args(args.drop_last()) + ", "@ + last }
    }
}

/// Parameters as `name Type`, joined by `, `.
pub open spec fn go_params_text(ps: Seq<Param>) -> Seq<char> {
    joined(ps.map_values(|p: Param| p.name@ + " "@ + go_type(p.ty@)), ", "@)
}

/// The fields of an anonymous tuple struct: `V0 interface{}; V1 interface{}`.
pub open spec fn go_tuple_fields(n: nat) -> Seq<char> {
    joined(Seq::new(n, |i: int| "V"@ + nat_decimal(i as nat) + " interface{}"@), "; "@)
}

/// The Go text of an atom.
pub open spec fn go_atom(a: Atom) -> Seq<char>
    decreases a,
{
    match a {
        Atom::Ident(s) => s@,
        Atom::Float(t) => t@,
        Atom::Integer(n) => int_decimal(n as int),
        Atom::StringLit(s) => "\""@ + s@ + "\""@,
        Atom::Interp(t) => {
            let p = sprintf_parts(t@);
            if p.1.len() == 0 {
                "\""@ + p.0 + "\""@
            } else {
                "fmt.Sprintf(\""@ + p.0 + "\", "@ + joined(p.1, ", "@) + ")"@
            }
        },
        Atom::Call { name, args } => pascal(name@) + "("@ + go_call_args(args@) + ")"@,
        Atom::BuiltinNoArgs(_) => Seq::empty(),
        Atom::BuiltinExpr { name, args } => if name@ == "assert"@ && args@.len() >= 1 {
            fill(GO_ASSERT@, seq![go_expr(args@[0])], Seq::empty())
        } else if name@ == "assert_eq"@ && args@.len() >= 2 {
            fill(GO_ASSERT_EQ@, seq![go_expr(args@[0]), go_expr(args@[1])], Seq::empty())
        } else if name@ == "assert_ne"@ && args@.len() >= 2 {
            fill(GO_ASSERT_NE@, seq![go_expr(args@[0]), go_expr(args@[1])], Seq::empty())
        } else {
            "false /* builtin::"@ + name@ + " not supported as expression */"@
        },
        Atom::Unary { op, rhs } => "("@ + op@ + go_atom(*rhs) + ")"@,
        Atom::FieldAccess { base, fields } => base@ + "."@ + joined(name_seq(fields@).map_values(|f: Seq<char>| pascal(f)), "."@),
        Atom::Index { base, idx } => "string([]rune("@ + base@ + ")["@ + go_expr(*idx) + "])"@,
        Atom::Slice { base, from, to } => "string([]rune("@ + base@ + ")["@ + go_expr(*from) + ":"@ + go_expr(*to) + "])"@,
        Atom::EnumVariant { variant, .. } => variant@,
        Atom::Closure { params, ret, body } => "func("@ + go_params_text(params@) + ") "@ + go_type(ret@) + " { return "@
            + go_expr(*body) + " }"@,
    }
}

/// The Go text of an expression.
pub open spec fn go_expr(e: Expr) -> Seq<char>
    decreases e,
{
    match e {
        Expr::Atom(a) => go_atom(a),
        Expr::BinOp(b) => go_atom(b.lhs) + " "@ + b.op@ + " "@ + go_atom(b.rhs),
        Expr::Tuple(es) => "struct{ "@ + go_tuple_fields(es@.len()) + " }{"@ + go_exprs(es@) + "}"@,
    }
}

/// Expressions joined by `, `.
pub open spec fn go_exprs(es: Seq<Expr>) -> Seq<char>
    decreases es,
{
    if es.len() == 0 {
        Seq::empty()
    } else if es.len() == 1 {
        go_expr(es[0])
    } else {
        go_exprs(es.drop_last()) + ", "@ + go_expr(es.last())
    }
}

fn go_args(args: &Vec<CallArg>) -> (r: String)
    ensures
        r@ == go_call_args(args@),
{
    let mut r = String::new();
    let mut i: usize = 0;
    proof {
        assert(args@.subrange(0, 0) =~= Seq::<CallArg>::empty());
    }
    while i < args.len()
        invariant
            i <= args@.len(),
            r@ == go_call_args(args@.subrange(0, i as int)),
        decreases args@.len() - i,
    {
        proof {
            assert(args@.subrange(0, i + 1).drop_last() =~= args@.subrange(0, i as int));
            assert(args@.subrange(0, i + 1).last() == args@[i as int]);
        }
        if i > 0 {
            r.append(", ");
        }
        match &args[i] {
            CallArg::Value(s) => r.append(s.as_str()),
            CallArg::BulletRef(s) => {
                let p = to_pascal_case(s.as_str());
                r.append(p.as_str());
            },
        }
        i = i + 1;
    }
    proof {
        assert(args@.subrange(0, args@.len() as int) =~= args@);
    }
    r
}

/// Parameters as `name Type`, joined by `, `.
pub fn go_param_list(ps: &Vec<Param>) -> (r: String)
    ensures
        r@ == go_params_text(ps@),
{
    let mut parts: Vec<String> = Vec::new();
    let mut i: usize = 0;
    while i < ps.len()
        invariant
            i <= ps@.len(),
            name_seq(parts@) == ps@.subrange(0, i as int).map_values(|p: Param| p.name@ + " "@ + go_type(p.ty@)),
        decreases ps@.len() - i,
    {
        let mut s = ps[i].name.clone();
        s.append(" ");
        let t = bu_type_to_go(&ps[i].ty);
        s.append(t.as_str());
        let ghost before = parts@;
        parts.push(s);
        proof {
            assert(name_seq(parts@) =~= name_seq(before).push(s@));
            assert(ps@.subrange(0, i + 1).map_values(|p: Param| p.name@ + " "@ + go_type(p.ty@))
                =~= ps@.subrange(0, i as int).map_values(|p: Param| p.name@ + " "@ + go_type(p.ty@)).push(s@));
        }
        i = i + 1;
    }
    proof {
        assert(ps@.subrange(0, ps@.len() as int) =~= ps@);
    }
    join_strings(&parts, ", ")
}

fn pascal_fields(fields: &Vec<String>) -> (r: String)
    ensures
        r@ == joined(name_seq(fields@).map_values(|f: Seq<char>| pascal(f)), "."@),
{
    let mut parts: Vec<String> = Vec::new();
    let mut i: usize = 0;
    while i < fields.len()
        invariant
            i <= fields@.len(),
            name_seq(parts@) == name_seq(fields@).subrange(0, i as int).map_values(|f: Seq<char>| pascal(f)),
        decreases fields@.len() - i,
    {
        let p = to_pascal_case(fields[i].as_str());
        let ghost before = parts@;
        parts.push(p);
        proof {
            assert(name_seq(parts@) =~= name_seq(before).push(p@));
            assert(name_seq(fields@).subrange(0, i + 1).map_values(|f: Seq<char>| pascal(f))
                =~= name_seq(fields@).subrange(0, i as int).map_values(|f: Seq<char>| pascal(f)).push(p@));
        }
        i = i + 1;
    }
    proof {
        assert(name_seq(fields@).subrange(0, fields@.len() as int) =~= name_seq(fields@));
    }
    join_strings(&parts, ".")
}

fn tuple_fields(n: usize) -> (r: String)
    ensures
        r@ == go_tuple_fields(n as nat),
{
    let mut parts: Vec<String> = Vec::new();
    let mut i: usize = 0;
    while i < n
        invariant
            i <= n,
            name_seq(parts@) == Seq::new(i as nat, |k: int| "V"@ + nat_decimal(k as nat) + " interface{}"@),
        decreases n - i,
    {
        let mut s = String::from_str("V");
        let d = usize_to_string(i);
        s.append(d.as_str());
        s.append(" interface{}");
        let ghost before = parts@;
        parts.push(s);
        proof {
            assert(name_seq(parts@) =~= name_seq(before).push(s@));
            assert(Seq::new((i + 1) as nat, |k: int| "V"@ + nat_decimal(k as nat) + " interface{}"@)
                =~= Seq::new(i as nat, |k: int| "V"@ + nat_decimal(k as nat) + " interface{}"@).push(s@));
        }
        i = i + 1;
    }
    join_strings(&parts, "; ")
}

/// The Go text of an atom.
pub fn emit_atom_go(a: &Atom) -> (r: String)
    requires
        go_ok_atom(*a),
    ensures
        r@ == go_atom(*a),
    decreases a, 1nat,
{
    match a {
        Atom::Ident(s) => s.clone(),
        Atom::Float(t) => t.clone(),
        Atom::Integer(n) => i64_to_string(*n),
        Atom::StringLit(s) => {
            let mut r = String::from_str("\"");
            r.append(s.as_str());
            r.append("\"");
            r
        },
        Atom::Interp(t) => {
            let (f, vars) = interp_split(t.as_str(), "%v");
            if vars.len() == 0 {
                let mut r = String::from_str("\"");
                r.append(f.as_str());
                r.append("\"");
                r
            } else {
                let mut r = String::from_str("fmt.Sprintf(\"");
                r.append(f.as_str());
                r.append("\", ");
                let vs = join_strings(&vars, ", ");
                r.append(vs.as_str());
                r.append(")");
                r
            }
        },
        Atom::Call { name, args } => {
            let mut r = to_pascal_case(name.as_str());
            r.append("(");
            let s = go_args(args);
            r.append(s.as_str());
            r.append(")");
            r
        },
        Atom::BuiltinNoArgs(_) => {
            proof {
                assert(false);
            }
            String::new()
        },
        Atom::BuiltinExpr { .. } => emit_builtin_expr_go(a),
        Atom::Unary { op, rhs } => {
            let mut r = String::from_str("(");
            r.append(op.as_str());
            let s = emit_atom_go(rhs);
            r.append(s.as_str());
            r.append(")");
            r
        },
        Atom::FieldAccess { base, fields } => {
            let mut r = base.clone();
            r.append(".");
            let s = pascal_fields(fields);
            r.append(s.as_str());
            r
        },
        Atom::Index { base, idx } => {
            let mut r = String::from_str("string([]rune(");
            r.append(base.as_str());
            r.append(")[");
            let s = emit_expr_go(idx);
            r.append(s.as_str());
            r.append("])");
            r
        },
        Atom::Slice { base, from, to } => {
            let f = emit_expr_go(from);
            let t = emit_expr_go(to);
            let mut r = String::from_str("string([]rune(");
            r.append(base.as_str());
            r.append(")[");
            r.append(f.as_str());
            r.append(":");
            r.append(t.as_str());
            r.append("])");
            r
        },
        Atom::EnumVariant { variant, .. } => variant.clone(),
        Atom::Closure { params, ret, body } => {
            let mut r = String::from_str("func(");
            let ps = go_param_list(params);
            r.append(ps.as_str());
            r.append(") ");
            let rt = bu_type_to_go(ret);
            r.append(rt.as_str());
            r.append(" { return ");
            let b = emit_expr_go(body);
            r.append(b.as_str());
            r.append(" }");
            r
        },
    }
}

fn emit_builtin_expr_go(a: &Atom) -> (r: String)
    requires
        go_ok_atom(*a),
        a is BuiltinExpr,
    ensures
        r@ == go_atom(*a),
    decreases a, 0nat,
{
    if let Atom::BuiltinExpr { name, args } = a {
        proof {
            reveal_strlit("assert");
            reveal_strlit("assert_eq");
            reveal_strlit("assert_ne");
            reveal_strlit("");
            assert(""@ =~= Seq::<char>::empty());
        }
        if str_is(name.as_str(), "assert") {
            let cond = emit_expr_go(&args[0]);
            let v: Vec<String> = vec![cond];
            proof {
                assert(name_seq(v@) =~= seq![cond@]);
            }
            return fill_template(GO_ASSERT, &v, "");
        }
        if (str_is(name.as_str(), "assert_eq") || str_is(name.as_str(), "assert_ne")) && args.len() >= 2 {
            let l = emit_expr_go(&args[0]);
            let rr = emit_expr_go(&args[1]);
            let v: Vec<String> = vec![l, rr];
            proof {
                assert(name_seq(v@) =~= seq![l@, rr@]);
            }
            if str_is(name.as_str(), "assert_eq") {
                return fill_template(GO_ASSERT_EQ, &v, "");
            } else {
                return fill_template(GO_ASSERT_NE, &v, "");
            }
        }
        let mut r = String::from_str("false /* builtin::");
        r.append(name.as_str());
        r.append(" not supported as expression */");
        r
    } else {
        String::new()
    }
}

/// The Go text of an expression.
pub fn emit_expr_go(e: &Expr) -> (r: String)
    requires
        go_ok_expr(*e),
    ensures
        r@ == go_expr(*e),
    decreases e, 1nat,
{
    match e {
        Expr::Atom(a) => emit_atom_go(a),
        Expr::BinOp(b) => {
            let mut r = emit_atom_go(&b.lhs);
            r.append(" ");
            r.append(b.op.as_str());
            r.append(" ");
            let s = emit_atom_go(&b.rhs);
            r.append(s.as_str());
            r
        },
        Expr::Tuple(es) => {
            let mut r = String::from_str("struct{ ");
            let f = tuple_fields(es.len());
            r.append(f.as_str());
            r.append(" }{");
            let s = emit_exprs_go(es);
            r.append(s.as_str());
            r.append("}");
            r
        },
    }
}

/// Expressions joined by `, `.
pub fn emit_exprs_go(es: &Vec<Expr>) -> (r: String)
    requires
        go_ok_exprs(es@),
    ensures
        r@ == go_exprs(es@),
    decreases es, 1nat,
{
    proof {
        lemma_go_ok_exprs(es@);
    }
    let mut r = String::new();
    let mut i: usize = 0;
    proof {
        assert(es@.subrange(0, 0) =~= Seq::<Expr>::empty());
    }
    while i < es.len()
        invariant
            i <= es@.len(),
            forall|k: int| 0 <= k < es@.len() ==> go_ok_expr(#[trigger] es@[k]),
            r@ == go_exprs(es@.subrange(0, i as int)),
        decreases es@.len() - i,
    {
        proof {
            assert(es@.subrange(0, i + 1).drop_last() =~= es@.subrange(0, i as int));
            assert(es@.subrange(0, i + 1).last() == es@[i as int]);
            if i == 0 {
                assert(es@.subrange(0, 1)[0] == es@[0]);
            }
        }
        if i > 0 {
            r.append(", ");
        }
        let s = emit_expr_go(&es[i]);
        r.append(s.as_str());
        i = i + 1;
    }
    proof {
        assert(es@.subrange(0, es@.len() as int) =~= es@);
    }
    r
}

// ── Local types ───────────────────────────────────────────────────────────────

/// The type that a function declares it returns; `()` where it declares
/// none.
pub open spec fn out_ty(b: Bullet) -> TyV {
    match b.output {
        Some(o) => o.ty@,
        None => TyV::Named("()"@),
    }
}

/// Each function's name with its declared output type.
pub open spec fn fn_out_entries(bs: Seq<Bullet>) -> Seq<(Seq<char>, TyV)> {
    bs.map_values(|b: Bullet| (b.name@, out_ty(b)))
}

/// The output types of a file's functions; a later function of the same
/// name shadows an earlier one.
pub fn collect_fn_output_types(file: &SourceFile) -> (r: NameTable<BuType>)
    ensures
        view_entries(r.entries()) == fn_out_entries(file.bullets@),
{
    let mut t: NameTable<BuType> = NameTable::new();
    let mut i: usize = 0;
    proof {
        assert(view_entries(t.entries()) =~= fn_out_entries(file.bullets@.subrange(0, 0)));
    }
    while i < file.bullets.len()
        invariant
            i <= file.bullets@.len(),
            view_entries(t.entries()) == fn_out_entries(file.bullets@.subrange(0, i as int)),
        decreases file.bullets@.len() - i,
    {
        let b = &file.bullets[i];
        let ty = match &b.output {
            Some(o) => o.ty.copy(),
            None => BuType::Named(String::from_str("()")),
        };
        let ghost before = view_entries(t.entries());
        t.insert(b.name.clone(), ty);
        proof {
            assert(view_entries(t.entries()) =~= before.push((b.name@, out_ty(*b))));
            assert(fn_out_entries(file.bullets@.subrange(0, i + 1))
                =~= fn_out_entries(file.bullets@.subrange(0, i as int)).push((b.name@, out_ty(*b))));
        }
        i = i + 1;
    }
    proof {
        assert(file.bullets@.subrange(0, file.bullets@.len() as int) =~= file.bullets@);
    }
    t
}

pub open spec fn known(tab: Seq<(Seq<char>, TyV)>, k: Seq<char>) -> TyV {
    match lookup_key(tab, k) {
        Some(t) => t,
        None => TyV::Unknown,
    }
}

/// What is known of an expression's type: a variable's recorded type, a
/// call's declared output type, a literal's type; else unknown.
pub open spec fn infer_go(vars: Seq<(Seq<char>, TyV)>, outs: Seq<(Seq<char>, TyV)>, e: Expr) -> TyV {
    match e {
        Expr::Atom(Atom::Ident(n)) => known(vars, n@),
        Expr::Atom(Atom::Call { name, .. }) => known(outs, name@),
        Expr::Atom(Atom::Integer(_)) => TyV::Named("i64"@),
        Expr::Atom(Atom::Float(_)) => TyV::Named("f64"@),
        Expr::Atom(Atom::StringLit(_)) => TyV::Named("String"@),
        Expr::Atom(Atom::Interp(_)) => TyV::Named("String"@),
        _ => TyV::Unknown,
    }
}

fn known_in(tab: &NameTable<BuType>, k: &str) -> (r: BuType)
    ensures
        r@ == known(view_entries(tab.entries()), k@),
{
    proof {
        lemma_view_entries(tab.entries(), k@);
    }
    match tab.find(k) {
        Some(i) => tab.at(i).copy(),
        None => BuType::Unknown,
    }
}

fn infer_expr(vars: &NameTable<BuType>, outs: &NameTable<BuType>, e: &Expr) -> (r: BuType)
    ensures
        r@ == infer_go(view_entries(vars.entries()), view_entries(outs.entries()), *e),
{
    match e {
        Expr::Atom(Atom::Ident(n)) => known_in(vars, n.as_str()),
        Expr::Atom(Atom::Call { name, .. }) => known_in(outs, name.as_str()),
        Expr::Atom(Atom::Integer(_)) => BuType::Named(String::from_str("i64")),
        Expr::Atom(Atom::Float(_)) => BuType::Named(String::from_str("f64")),
        Expr::Atom(Atom::StringLit(_)) => BuType::Named(String::from_str("String")),
        Expr::Atom(Atom::Interp(_)) => BuType::Named(String::from_str("String")),
        _ => BuType::Unknown,
    }
}

/// The known types of a function's parameters.
pub open spec fn param_entries(ps: Seq<Param>) -> Seq<(Seq<char>, TyV)> {
    ps.map_values(|p: Param| (p.name@, p.ty@))
}

fn seed_env(ps: &Vec<Param>) -> (r: NameTable<BuType>)
    ensures
        view_entries(r.entries()) == param_entries(ps@),
{
    let mut t: NameTable<BuType> = NameTable::new();
    let mut i: usize = 0;
    proof {
        assert(view_entries(t.entries()) =~= param_entries(ps@.subrange(0, 0)));
    }
    while i < ps.len()
        invariant
            i <= ps@.len(),
            view_entries(t.entries()) == param_entries(ps@.subrange(0, i as int)),
        decreases ps@.len() - i,
    {
        let ghost before = view_entries(t.entries());
        t.insert(ps[i].name.clone(), ps[i].ty.copy());
        proof {
            assert(view_entries(t.entries()) =~= before.push((ps@[i as int].name@, ps@[i as int].ty@)));
            assert(param_entries(ps@.subrange(0, i + 1)) =~= param_entries(ps@.subrange(0, i as int)).push((ps@[i as int].name@, ps@[i as int].ty@)));
        }
        i = i + 1;
    }
    proof {
        assert(ps@.subrange(0, ps@.len() as int) =~= ps@);
    }
    t
}

// ── Function bodies ───────────────────────────────────────────────────────────

pub open spec fn is_ident(e: Expr) -> bool {
    e matches Expr::Atom(Atom::Ident(_))
}

/// How many inputs are not plain variables.
pub open spec fn non_idents(ins: Seq<Expr>) -> nat
    decreases ins.len(),
{
    if ins.len() == 0 { 0 } else { non_idents(ins.drop_last()) + if is_ident(ins.last()) { 0nat } else { 1nat } }
}

pub open spec fn tmp_name(c: nat) -> Seq<char> {
    "__arg_"@ + nat_decimal(c)
}

/// The names a builtin is called with: a variable by its name, anything
/// else by a temporary numbered from `c` on.
pub open spec fn go_arg_names(ins: Seq<Expr>, c: nat) -> Seq<Seq<char>>
    decreases ins.len(),
{
    if ins.len() == 0 {
        Seq::empty()
    } else {
        go_arg_names(ins.drop_last(), c).push(match ins.last() {
            Expr::Atom(Atom::Ident(s)) => s@,
            _ => tmp_name(c + non_idents(ins.drop_last())),
        })
    }
}

/// The declarations of those temporaries.
pub open spec fn go_tmp_lines(ins: Seq<Expr>, c: nat) -> Seq<char>
    decreases ins.len(),
{
    if ins.len() == 0 {
        Seq::empty()
    } else {
        go_tmp_lines(ins.drop_last(), c) + if is_ident(ins.last()) {
            Seq::empty()
        } else {
            "\t"@ + tmp_name(c + non_idents(ins.drop_last())) + " := "@ + go_expr(ins.last()) + "\n"@
        }
    }
}

pub open spec fn is_builtin_pipe(p: Pipe) -> bool {
    p.expr matches Expr::Atom(Atom::BuiltinNoArgs(_))
}

/// The Go expression that a bullet computes, with the temporaries numbered
/// from `c` on.
#[verifier::opaque]
pub open spec fn go_pipe_expr(p: Pipe, vars: Seq<(Seq<char>, TyV)>, outs: Seq<(Seq<char>, TyV)>, c: nat) -> Seq<char> {
    match p.expr {
        Expr::Atom(Atom::BuiltinNoArgs(name)) => match code_for(
            name@,
            go_arg_names(p.inputs@, c),
            p.inputs@.map_values(|e: Expr| infer_go(vars, outs, e)),
            BackendV::Go,
        ) {
            Ok(code) => code,
            Err(e) => "/* ERROR: "@ + e + " */"@,
        },
        _ => {
            let base = go_expr(p.expr);
            let ins = go_exprs(p.inputs@);
            if ins.len() == 0 || p.expr matches Expr::Atom(Atom::Call { .. }) { base } else { base + "("@ + ins + ")"@ }
        },
    }
}

/// The statements of one bullet: the temporaries of a builtin call, then
/// the binding and what follows it.
pub open spec fn go_pipe_text(
    p: Pipe,
    vars: Seq<(Seq<char>, TyV)>,
    outs: Seq<(Seq<char>, TyV)>,
    c: nat,
    last: bool,
    ret: Seq<char>,
) -> Seq<char> {
    let pre = if is_builtin_pipe(p) { go_tmp_lines(p.inputs@, c) } else { Seq::empty() };
    pre + go_pipe_tail(p, go_pipe_expr(p, vars, outs, c), last, ret)
}

/// The statement that binds a bullet's value, its check, and the return
/// after the last bullet.
pub open spec fn go_pipe_tail(p: Pipe, e: Seq<char>, last: bool, ret: Seq<char>) -> Seq<char> {
    let b = binding_or_blank(p.binding);
    "\t"@ + b + " := "@ + e + "\n"@
        + (if p.propagate { "\tif "@ + b + " == nil { return nil }\n"@ } else { Seq::empty() })
        + (if last && ret.len() > 0 { "\treturn "@ + b + "\n"@ } else { Seq::empty() })
}

/// The known variables after a bullet: its binding gets the type of its
/// expression.
pub open spec fn next_vars(p: Pipe, vars: Seq<(Seq<char>, TyV)>, outs: Seq<(Seq<char>, TyV)>) -> Seq<(Seq<char>, TyV)> {
    match p.binding {
        Some(b) => vars.push((b@, infer_go(vars, outs, p.expr))),
        None => vars,
    }
}

pub open spec fn next_counter(p: Pipe, c: nat) -> nat {
    if is_builtin_pipe(p) { c + non_idents(p.inputs@) } else { c }
}

/// The text, known variables and temporaries used after the first `n`
/// bullets.
pub open spec fn go_pipes(
    ps: Seq<Pipe>,
    outs: Seq<(Seq<char>, TyV)>,
    vars0: Seq<(Seq<char>, TyV)>,
    ret: Seq<char>,
    n: nat,
) -> (Seq<char>, Seq<(Seq<char>, TyV)>, nat)
    decreases n,
{
    if n == 0 {
        (Seq::empty(), vars0, 0)
    } else {
        let prev = go_pipes(ps, outs, vars0, ret, (n - 1) as nat);
        let p = ps[n - 1];
        (
            prev.0 + go_pipe_text(p, prev.1, outs, prev.2, n == ps.len(), ret),
            next_vars(p, prev.1, outs),
            next_counter(p, prev.2),
        )
    }
}

/// The Go return type text of a declared output; empty where none.
pub open spec fn go_ret(output: Option<OutputDecl>) -> Seq<char> {
    match output {
        Some(o) => go_type(o.ty@),
        None => Seq::empty(),
    }
}

/// Whether a bullet can be written out in Go.
pub open spec fn go_pipe_ok(p: Pipe) -> bool {
    &&& go_ok_exprs(p.inputs@)
    &&& (is_builtin_pipe(p) || go_ok_expr(p.expr))
}

/// How many temporaries the bullets need in all.
pub open spec fn tmps_needed(ps: Seq<Pipe>) -> nat
    decreases ps.len(),
{
    if ps.len() == 0 { 0 } else { tmps_needed(ps.drop_last()) + non_idents(ps.last().inputs@) }
}

// ── Escape blocks ─────────────────────────────────────────────────────────────

pub open spec fn blank(l: Seq<char>) -> bool {
    trim_seq(l).len() == 0
}

/// The number of whitespace characters a line starts with.
pub open spec fn lead_ws(l: Seq<char>) -> nat {
    (l.len() - trim_start_seq(l).len()) as nat
}

/// The bytes of a line's leading whitespace.
pub open spec fn lead_bytes(l: Seq<char>) -> nat {
    byte_len(l.subrange(0, lead_ws(l) as int))
}

/// The least indentation, in bytes, of the non-blank lines.
pub open spec fn min_indent(ls: Seq<Seq<char>>) -> Option<nat>
    decreases ls.len(),
{
    if ls.len() == 0 {
        None
    } else {
        let r = min_indent(ls.drop_last());
        if blank(ls.last()) {
            r
        } else {
            match r {
                None => Some(lead_bytes(ls.last())),
                Some(m) => Some(if m <= lead_bytes(ls.last()) { m } else { lead_bytes(ls.last()) }),
            }
        }
    }
}

pub open spec fn indent_base(ls: Seq<Seq<char>>) -> nat {
    match min_indent(ls) {
        Some(m) => m,
        None => 0,
    }
}

/// A line with its first `base` bytes taken off (its leading whitespace
/// trimmed where it is shorter).
pub open spec fn dedent(l: Seq<char>, base: nat) -> Seq<char> {
    if byte_len(l) >= base {
        match char_boundary(l, base as int) {
            Some(k) => l.subrange(k, l.len() as int),
            None => l,
        }
    } else {
        trim_start_seq(l)
    }
}

/// An escape block's lines, dedented and indented by `ind`; blank lines
/// kept blank.
pub open spec fn native_lines(ls: Seq<Seq<char>>, base: nat, ind: Seq<char>) -> Seq<char>
    decreases ls.len(),
{
    if ls.len() == 0 {
        Seq::empty()
    } else {
        native_lines(ls.drop_last(), base, ind) + if blank(ls.last()) {
            "\n"@
        } else {
            ind + dedent(ls.last(), base) + "\n"@
        }
    }
}

/// Whether an escape block can be dedented: each non-blank line can be cut
/// at the common indentation (which falls between two characters), and its
/// length fits in memory's counts.
pub open spec fn natives_ok(code: Seq<char>) -> bool {
    let ls = lines_of(code);
    forall|i: int| 0 <= i < ls.len() ==> {
        &&& byte_len(#[trigger] ls[i]) <= usize::MAX
        &&& (!blank(ls[i]) && byte_len(ls[i]) >= indent_base(ls) ==> char_boundary(ls[i], indent_base(ls) as int) is Some)
    }
}

/// The Go statements of a function made of escape blocks: the first `@go`
/// block, dedented; without one, an error comment naming the first block's
/// backend.
pub open spec fn go_natives(bs: Seq<NativeBlock>) -> Seq<char> {
    match first_backend(bs, BackendV::Go) {
        Some(k) => {
            let ls = lines_of(bs[k].code@);
            native_lines(ls, indent_base(ls), "\t"@)
        },
        None => if bs.len() > 0 {
            "\t// ERROR: '@"@ + backend_keyword(bs[0].backend@) + "' cannot be used in a Go build \u{2014} use '@go'\n"@
        } else {
            Seq::empty()
        },
    }
}

/// The Go statements of a function body.
pub open spec fn go_body(body: BulletBody, params: Seq<Param>, output: Option<OutputDecl>, outs: Seq<(Seq<char>, TyV)>) -> Seq<char> {
    match body {
        BulletBody::Pipes(ps) => go_pipes(ps@, outs, param_entries(params), go_ret(output), ps@.len()).0,
        BulletBody::Natives(bs) => go_natives(bs@),
        BulletBody::Builtin(name) => match builtin_code(name@, params, BackendV::Go) {
            Ok(code) => if go_ret(output).len() == 0 {
                "\t"@ + code + "\n"@
            } else {
                "\treturn "@ + go_ret(output) + "("@ + code + ")\n"@
            },
            Err(e) => "\t// ERROR: "@ + e + "\n"@,
        },
    }
}

/// Whether a function body can be written out in Go.
pub open spec fn go_body_ok(body: BulletBody) -> bool {
    match body {
        BulletBody::Pipes(ps) => (forall|k: int| 0 <= k < ps@.len() ==> go_pipe_ok(#[trigger] ps@[k]))
            && tmps_needed(ps@) <= usize::MAX,
        BulletBody::Natives(bs) => match first_backend(bs@, BackendV::Go) {
            Some(k) => natives_ok(bs@[k].code@),
            None => true,
        },
        BulletBody::Builtin(_) => true,
    }
}

// ── Writing bodies ────────────────────────────────────────────────────────────

proof fn lemma_non_idents_prefix(s: Seq<Expr>, i: int)
    requires
        0 <= i <= s.len(),
    ensures
        non_idents(s.subrange(0, i)) <= non_idents(s),
    decreases s.len() - i,
{
    if i < s.len() {
        lemma_non_idents_prefix(s, i + 1);
        assert(s.subrange(0, i + 1).drop_last() =~= s.subrange(0, i));
    } else {
        assert(s.subrange(0, i) =~= s);
    }
}

proof fn lemma_tmps_prefix(ps: Seq<Pipe>, i: int)
    requires
        0 <= i <= ps.len(),
    ensures
        tmps_needed(ps.subrange(0, i)) <= tmps_needed(ps),
    decreases ps.len() - i,
{
    if i < ps.len() {
        lemma_tmps_prefix(ps, i + 1);
        assert(ps.subrange(0, i + 1).drop_last() =~= ps.subrange(0, i));
    } else {
        assert(ps.subrange(0, i) =~= ps);
    }
}

/// Writes the temporaries of a builtin call and gives back its code.
fn go_builtin_call(
    out: &mut String,
    ins: &Vec<Expr>,
    name: &str,
    vars: &NameTable<BuType>,
    outs: &NameTable<BuType>,
    counter: &mut usize,
) -> (code: String)
    requires
        go_ok_exprs(ins@),
        *old(counter) + non_idents(ins@) <= usize::MAX,
    ensures
        final(out)@ == old(out)@ + go_tmp_lines(ins@, *old(counter) as nat),
        *final(counter) == *old(counter) + non_idents(ins@),
        code@ == (match code_for(
            name@,
            go_arg_names(ins@, *old(counter) as nat),
            ins@.map_values(|e: Expr| infer_go(view_entries(vars.entries()), view_entries(outs.entries()), e)),
            BackendV::Go,
        ) {
            Ok(c) => c,
            Err(e) => "/* ERROR: "@ + e + " */"@,
        }),
{
    proof {
        lemma_go_ok_exprs(ins@);
    }
    let ghost c0 = *counter as nat;
    let ghost o0 = out@;
    let ghost vv = view_entries(vars.entries());
    let ghost ov = view_entries(outs.entries());
    let mut synth: Vec<Param> = Vec::new();
    let mut i: usize = 0;
    proof {
        assert(ins@.subrange(0, 0) =~= Seq::<Expr>::empty());
        assert(o0 + Seq::<char>::empty() =~= o0);
        assert(param_names(synth@) =~= Seq::<Seq<char>>::empty());
        assert(synth@.map_values(|p: Param| p.ty@) =~= Seq::<TyV>::empty());
    }
    while i < ins.len()
        invariant
            i <= ins@.len(),
            forall|k: int| 0 <= k < ins@.len() ==> go_ok_expr(#[trigger] ins@[k]),
            c0 + non_idents(ins@) <= usize::MAX,
            vv == view_entries(vars.entries()),
            ov == view_entries(outs.entries()),
            out@ == o0 + go_tmp_lines(ins@.subrange(0, i as int), c0),
            *counter == c0 + non_idents(ins@.subrange(0, i as int)),
            param_names(synth@) == go_arg_names(ins@.subrange(0, i as int), c0),
            synth@.map_values(|p: Param| p.ty@) == ins@.subrange(0, i as int).map_values(|e: Expr| infer_go(vv, ov, e)),
        decreases ins@.len() - i,
    {
        let ghost pre = ins@.subrange(0, i as int);
        let ghost nxt = ins@.subrange(0, i + 1);
        proof {
            assert(nxt.drop_last() =~= pre);
            assert(nxt.last() == ins@[i as int]);
            lemma_non_idents_prefix(ins@, i + 1);
        }
        let ty = infer_expr(vars, outs, &ins[i]);
        let pname = match &ins[i] {
            Expr::Atom(Atom::Ident(s)) => s.clone(),
            _ => {
                let mut t = String::from_str("__arg_");
                let k = usize_to_string(*counter);
                t.append(k.as_str());
                *counter = *counter + 1;
                let ghost before = out@;
                out.append("\t");
                out.append(t.as_str());
                out.append(" := ");
                let e = emit_expr_go(&ins[i]);
                out.append(e.as_str());
                out.append("\n");
                proof {
                    assert(out@ =~= before + ("\t"@ + t@ + " := "@ + go_expr(ins@[i as int]) + "\n"@));
                }
                t
            },
        };
        let ghost sb = synth@;
        synth.push(Param { name: pname, ty });
        proof {
            assert(param_names(synth@) =~= param_names(sb).push(pname@));
            assert(synth@.map_values(|p: Param| p.ty@) =~= sb.map_values(|p: Param| p.ty@).push(ty@));
            assert(nxt.map_values(|e: Expr| infer_go(vv, ov, e)) =~= pre.map_values(|e: Expr| infer_go(vv, ov, e)).push(infer_go(vv, ov, ins@[i as int])));
            assert(o0 + go_tmp_lines(pre, c0) + (if is_ident(ins@[i as int]) { Seq::<char>::empty() } else {
                "\t"@ + tmp_name(c0 + non_idents(pre)) + " := "@ + go_expr(ins@[i as int]) + "\n"@ })
                =~= o0 + go_tmp_lines(nxt, c0));
        }
        i = i + 1;
    }
    proof {
        assert(ins@.subrange(0, ins@.len() as int) =~= ins@);
    }
    let gb = Backend::Go;
    match emit_builtin(name, &synth, &gb) {
        Ok(code) => code,
        Err(e) => {
            let mut r = String::from_str("/* ERROR: ");
            r.append(e.as_str());
            r.append(" */");
            r
        },
    }
}

/// The expression of one bullet, its temporaries written first.
fn go_pipe_expr_exec(
    out: &mut String,
    p: &Pipe,
    vars: &NameTable<BuType>,
    outs: &NameTable<BuType>,
    counter: &mut usize,
) -> (e: String)
    requires
        go_pipe_ok(*p),
        *old(counter) + (if is_builtin_pipe(*p) { non_idents(p.inputs@) } else { 0 }) <= usize::MAX,
    ensures
        final(out)@ == old(out)@ + (if is_builtin_pipe(*p) { go_tmp_lines(p.inputs@, *old(counter) as nat) } else { Seq::empty() }),
        e@ == go_pipe_expr(*p, view_entries(vars.entries()), view_entries(outs.entries()), *old(counter) as nat),
        *final(counter) == next_counter(*p, *old(counter) as nat),
{
    proof {
        reveal(go_pipe_expr);
    }
    if let Expr::Atom(Atom::BuiltinNoArgs(name)) = &p.expr {
        go_builtin_call(out, &p.inputs, name.as_str(), vars, outs, counter)
    } else {
        proof {
            assert(out@ =~= out@ + Seq::<char>::empty());
        }
        let base = emit_expr_go(&p.expr);
        let ins = emit_exprs_go(&p.inputs);
        if ins.unicode_len() == 0 {
            base
        } else if let Expr::Atom(Atom::Call { .. }) = &p.expr {
            base
        } else {
            let mut r = base;
            r.append("(");
            r.append(ins.as_str());
            r.append(")");
            r
        }
    }
}

fn go_pipe_tail_exec(out: &mut String, p: &Pipe, e: &str, last: bool, ret: &String)
    ensures
        final(out)@ == old(out)@ + go_pipe_tail(*p, e@, last, ret@),
{
    let b: &str = match &p.binding {
        Some(s) => s.as_str(),
        None => "_",
    };
    proof {
        reveal_strlit("_");
    }
    let ghost o1 = out@;
    out.append("\t");
    out.append(b);
    out.append(" := ");
    out.append(e);
    out.append("\n");
    let ghost o2 = out@;
    if p.propagate {
        out.append("\tif ");
        out.append(b);
        out.append(" == nil { return nil }\n");
    }
    let ghost o3 = out@;
    if last && ret.unicode_len() > 0 {
        out.append("\treturn ");
        out.append(b);
        out.append("\n");
    }
    proof {
        let bb = binding_or_blank(p.binding);
        assert(b@ == bb);
        assert(o2 =~= o1 + ("\t"@ + bb + " := "@ + e@ + "\n"@));
        assert(o3 =~= o2 + (if p.propagate { "\tif "@ + bb + " == nil { return nil }\n"@ } else { Seq::<char>::empty() }));
        assert(out@ =~= o3 + (if last && ret@.len() > 0 { "\treturn "@ + bb + "\n"@ } else { Seq::<char>::empty() }));
        assert(out@ =~= o1 + go_pipe_tail(*p, e@, last, ret@));
    }
}

/// Writes the statements of one bullet.
fn go_pipe(
    out: &mut String,
    p: &Pipe,
    last: bool,
    ret: &String,
    vars: &mut NameTable<BuType>,
    outs: &NameTable<BuType>,
    counter: &mut usize,
)
    requires
        go_pipe_ok(*p),
        *old(counter) + (if is_builtin_pipe(*p) { non_idents(p.inputs@) } else { 0 }) <= usize::MAX,
    ensures
        final(out)@ == old(out)@ + go_pipe_text(*p, view_entries(old(vars).entries()), view_entries(outs.entries()),
            *old(counter) as nat, last, ret@),
        view_entries(final(vars).entries()) == next_vars(*p, view_entries(old(vars).entries()), view_entries(outs.entries())),
        *final(counter) == next_counter(*p, *old(counter) as nat),
{
    let ghost o0 = out@;
    let ghost c0 = *counter as nat;
    let ghost vv = view_entries(vars.entries());
    let ghost ov = view_entries(outs.entries());
    let e = go_pipe_expr_exec(out, p, vars, outs, counter);
    let ghost o1 = out@;
    match &p.binding {
        Some(b) => {
            let ty = infer_expr(vars, outs, &p.expr);
            let ghost before = view_entries(vars.entries());
            vars.insert(b.clone(), ty);
            proof {
                assert(view_entries(vars.entries()) =~= before.push((b@, ty@)));
            }
        },
        None => {},
    }
    go_pipe_tail_exec(out, p, e.as_str(), last, ret);
    proof {
        let pre = if is_builtin_pipe(*p) { go_tmp_lines(p.inputs@, c0) } else { Seq::<char>::empty() };
        assert(out@ =~= o0 + (pre + go_pipe_tail(*p, e@, last, ret@)));
    }
}

proof fn lemma_byte_len_push(s: Seq<char>, c: char)
    ensures
        byte_len(s.push(c)) == byte_len(s) + char_utf8_len(c),
    decreases s.len(),
{
    if s.len() > 0 {
        assert(s.push(c).drop_first() =~= s.drop_first().push(c));
        assert(s.push(c)[0] == s[0]);
        lemma_byte_len_push(s.drop_first(), c);
    } else {
        assert(s.push(c).drop_first() =~= Seq::<char>::empty());
        assert(s.push(c)[0] == c);
        assert(byte_len(Seq::<char>::empty()) == 0);
    }
}

proof fn lemma_byte_len_prefix(l: Seq<char>, k: int)
    requires
        0 <= k <= l.len(),
    ensures
        byte_len(l.subrange(0, k)) <= byte_len(l),
    decreases l.len() - k,
{
    if k < l.len() {
        lemma_byte_len_prefix(l, k + 1);
        assert(l.subrange(0, k + 1) =~= l.subrange(0, k).push(l[k]));
        lemma_byte_len_push(l.subrange(0, k), l[k]);
    } else {
        assert(l.subrange(0, k) =~= l);
    }
}

fn utf8_width(c: char) -> (r: usize)
    ensures
        r == char_utf8_len(c),
{
    if (c as u32) < 0x80 { 1 } else if (c as u32) < 0x800 { 2 } else if (c as u32) < 0x10000 { 3 } else { 4 }
}

/// The count of leading whitespace characters, and their bytes.
fn leading(l: &Vec<char>) -> (r: (usize, usize))
    requires
        byte_len(l@) <= usize::MAX,
    ensures
        r.0 == lead_ws(l@),
        r.1 == lead_bytes(l@),
        r.0 <= l@.len(),
        trim_start_seq(l@) == l@.subrange(r.0 as int, l@.len() as int),
{
    let n = l.len();
    let mut k: usize = 0;
    let mut bytes: usize = 0;
    proof {
        assert(l@.subrange(0, n as int) =~= l@);
        assert(l@.subrange(0, 0) =~= Seq::<char>::empty());
    }
    while k < n && is_whitespace(l[k])
        invariant
            k <= n == l@.len(),
            byte_len(l@) <= usize::MAX,
            trim_start_seq(l@) == trim_start_seq(l@.subrange(k as int, n as int)),
            bytes == byte_len(l@.subrange(0, k as int)),
        decreases n - k,
    {
        proof {
            assert(l@.subrange(k as int, n as int).drop_first() =~= l@.subrange(k + 1, n as int));
            assert(l@.subrange(0, k + 1) =~= l@.subrange(0, k as int).push(l@[k as int]));
            lemma_byte_len_push(l@.subrange(0, k as int), l@[k as int]);
            lemma_byte_len_prefix(l@, k + 1);
        }
        bytes = bytes + utf8_width(l[k]);
        k = k + 1;
    }
    proof {
        let t = l@.subrange(k as int, n as int);
        if k < n {
            assert(t[0] == l@[k as int]);
        }
        assert(trim_start_seq(t) == t);
    }
    (k, bytes)
}

fn is_blank(l: &Vec<char>) -> (r: bool)
    ensures
        r == blank(l@),
{
    proof {
        assert(l@.subrange(0, l@.len() as int) =~= l@);
    }
    let t = trim_chars(l.as_slice(), 0, l.len());
    t.unicode_len() == 0
}

fn count_non_idents(ins: &Vec<Expr>) -> (r: usize)
    ensures
        r == non_idents(ins@),
{
    let mut c: usize = 0;
    let mut i: usize = 0;
    proof {
        assert(ins@.subrange(0, 0) =~= Seq::<Expr>::empty());
    }
    while i < ins.len()
        invariant
            i <= ins@.len(),
            c <= i,
            c == non_idents(ins@.subrange(0, i as int)),
        decreases ins@.len() - i,
    {
        proof {
            assert(ins@.subrange(0, i + 1).drop_last() =~= ins@.subrange(0, i as int));
            assert(ins@.subrange(0, i + 1).last() == ins@[i as int]);
        }
        match &ins[i] {
            Expr::Atom(Atom::Ident(_)) => {},
            _ => {
                c = c + 1;
            },
        }
        i = i + 1;
    }
    proof {
        assert(ins@.subrange(0, ins@.len() as int) =~= ins@);
    }
    c
}

/// Whether the temporaries that a body's bullets need can be numbered.
fn tmps_fit(ps: &Vec<Pipe>) -> (r: bool)
    ensures
        r == (tmps_needed(ps@) <= usize::MAX),
{
    let mut total: usize = 0;
    let mut i: usize = 0;
    proof {
        assert(ps@.subrange(0, 0) =~= Seq::<Pipe>::empty());
    }
    while i < ps.len()
        invariant
            i <= ps@.len(),
            total == tmps_needed(ps@.subrange(0, i as int)),
        decreases ps@.len() - i,
    {
        proof {
            assert(ps@.subrange(0, i + 1).drop_last() =~= ps@.subrange(0, i as int));
            assert(ps@.subrange(0, i + 1).last() == ps@[i as int]);
        }
        let c = count_non_idents(&ps[i].inputs);
        match total.checked_add(c) {
            Some(t) => {
                total = t;
            },
            None => {
                proof {
                    lemma_tmps_prefix(ps@, i + 1);
                }
                return false;
            },
        }
        i = i + 1;
    }
    proof {
        assert(ps@.subrange(0, ps@.len() as int) =~= ps@);
    }
    true
}

fn go_pipes_can_emit(ps: &Vec<Pipe>) -> (r: bool)
    ensures
        r == forall|k: int| 0 <= k < ps@.len() ==> go_pipe_ok(#[trigger] ps@[k]),
{
    let mut j: usize = 0;
    while j < ps.len()
        invariant
            j <= ps@.len(),
            forall|k: int| 0 <= k < j ==> go_pipe_ok(#[trigger] ps@[k]),
        decreases ps@.len() - j,
    {
        let p = &ps[j];
        let bare = match &p.expr {
            Expr::Atom(Atom::BuiltinNoArgs(_)) => true,
            _ => false,
        };
        if !exprs_go_ok(&p.inputs) || !(bare || expr_go_ok(&p.expr)) {
            proof {
                assert(!go_pipe_ok(ps@[j as int]));
            }
            return false;
        }
        j = j + 1;
    }
    true
}

/// Whether a function body can be written out in Go.
pub fn go_body_can_emit(body: &BulletBody) -> (r: bool)
    ensures
        r == go_body_ok(*body),
{
    match body {
        BulletBody::Pipes(ps) => go_pipes_can_emit(ps) && tmps_fit(ps),
        BulletBody::Natives(bs) => match find_block(bs, &Backend::Go) {
            Some(k) => natives_can_emit(bs[k].code.as_str()),
            None => true,
        },
        BulletBody::Builtin(_) => true,
    }
}

/// Whether every function of a file can be written out in Go.
pub fn go_file_can_emit(bs: &Vec<Bullet>) -> (r: bool)
    ensures
        r == go_file_ok(bs@),
{
    let mut i: usize = 0;
    while i < bs.len()
        invariant
            i <= bs@.len(),
            forall|k: int| 0 <= k < i ==> go_body_ok(#[trigger] bs@[k].body),
        decreases bs@.len() - i,
    {
        if !go_body_can_emit(&bs[i].body) {
            return false;
        }
        i = i + 1;
    }
    true
}

fn bytes_fit(l: &Vec<char>) -> (r: bool)
    ensures
        r == (byte_len(l@) <= usize::MAX),
{
    let n = l.len();
    let mut i: usize = n;
    let mut total: u128 = 0;
    proof {
        assert(l@.subrange(n as int, n as int) =~= Seq::<char>::empty());
    }
    while i > 0
        invariant
            i <= n == l@.len(),
            total == byte_len(l@.subrange(i as int, n as int)),
            total <= 4 * (n - i),
        decreases i,
    {
        proof {
            assert(l@.subrange(i - 1, n as int).drop_first() =~= l@.subrange(i as int, n as int));
            assert(l@.subrange(i - 1, n as int)[0] == l@[i - 1]);
        }
        total = total + utf8_width(l[i - 1]) as u128;
        i = i - 1;
    }
    proof {
        assert(l@.subrange(0, n as int) =~= l@);
    }
    total <= usize::MAX as u128
}

/// Whether an escape block's lines can be dedented: each line's bytes can
/// be counted, and the common indentation ends between two characters of
/// every non-blank line that reaches it.
pub(crate) fn natives_can_emit(code: &str) -> (r: bool)
    ensures
        r == natives_ok(code@),
{
    let ls = split_lines(code);
    let ghost lv = ls@.map_values(|x: String| x@);
    proof {
        assert(lv =~= lines_of(code@));
    }
    let mut cs: Vec<Vec<char>> = Vec::new();
    let mut i: usize = 0;
    while i < ls.len()
        invariant
            i <= ls@.len(),
            lv == ls@.map_values(|x: String| x@),
            cs@.len() == i,
            forall|j: int| 0 <= j < i ==> (#[trigger] cs@[j])@ == lv[j],
        decreases ls@.len() - i,
    {
        cs.push(chars_of(ls[i].as_str()));
        i = i + 1;
    }
    let mut f: usize = 0;
    while f < cs.len()
        invariant
            f <= cs@.len() == lv.len(),
            lv == lines_of(code@),
            forall|m: int| 0 <= m < cs@.len() ==> (#[trigger] cs@[m])@ == lv[m],
            forall|m: int| 0 <= m < f ==> byte_len(#[trigger] lv[m]) <= usize::MAX,
        decreases cs@.len() - f,
    {
        if !bytes_fit(&cs[f]) {
            proof {
                assert(!(byte_len(lv[f as int]) <= usize::MAX));
            }
            return false;
        }
        f = f + 1;
    }
    let mut base: usize = 0;
    let mut seen = false;
    let mut j: usize = 0;
    proof {
        assert(lv.subrange(0, 0) =~= Seq::<Seq<char>>::empty());
    }
    while j < cs.len()
        invariant
            j <= cs@.len() == lv.len(),
            lv == lines_of(code@),
            forall|m: int| 0 <= m < cs@.len() ==> (#[trigger] cs@[m])@ == lv[m],
            forall|m: int| 0 <= m < lv.len() ==> byte_len(#[trigger] lv[m]) <= usize::MAX,
            match min_indent(lv.subrange(0, j as int)) {
                Some(m) => seen && base == m,
                None => !seen && base == 0,
            },
        decreases cs@.len() - j,
    {
        proof {
            assert(lv.subrange(0, j + 1).drop_last() =~= lv.subrange(0, j as int));
            assert(lv.subrange(0, j + 1).last() == lv[j as int]);
            assert(byte_len(lv[j as int]) <= usize::MAX);
        }
        if !is_blank(&cs[j]) {
            let (_k, b) = leading(&cs[j]);
            if !seen || b < base {
                base = b;
            }
            seen = true;
        }
        j = j + 1;
    }
    proof {
        assert(lv.subrange(0, lv.len() as int) =~= lv);
        assert(base == indent_base(lv));
    }
    let mut k: usize = 0;
    while k < cs.len()
        invariant
            k <= cs@.len() == lv.len(),
            lv == lines_of(code@),
            base == indent_base(lv),
            forall|m: int| 0 <= m < cs@.len() ==> (#[trigger] cs@[m])@ == lv[m],
            forall|m: int| 0 <= m < lv.len() ==> byte_len(#[trigger] lv[m]) <= usize::MAX,
            forall|m: int| 0 <= m < k ==> (!blank(#[trigger] lv[m]) && byte_len(lv[m]) >= indent_base(lv)
                ==> char_boundary(lv[m], indent_base(lv) as int) is Some),
        decreases cs@.len() - k,
    {
        let l = &cs[k];
        if !is_blank(l) && !byte_past(l, base as u64) {
            if locate(l, base as u64).is_none() {
                proof {
                    let line = lv[k as int];
                    assert(!blank(line) && byte_len(line) >= indent_base(lv));
                    assert(char_boundary(line, indent_base(lv) as int) is None);
                }
                return false;
            }
        }
        k = k + 1;
    }
    true
}

/// Writes an escape block's lines, dedented and indented by `ind`.
pub(crate) fn push_native(out: &mut String, code: &str, ind: &str)
    requires
        natives_ok(code@),
    ensures
        final(out)@ == old(out)@ + native_lines(lines_of(code@), indent_base(lines_of(code@)), ind@),
{
    let ls = split_lines(code);
    let ghost lv = ls@.map_values(|x: String| x@);
    proof {
        assert(lv =~= lines_of(code@));
    }
    let mut cs: Vec<Vec<char>> = Vec::new();
    let mut i: usize = 0;
    while i < ls.len()
        invariant
            i <= ls@.len(),
            lv == ls@.map_values(|x: String| x@),
            cs@.len() == i,
            forall|j: int| 0 <= j < i ==> (#[trigger] cs@[j])@ == lv[j],
        decreases ls@.len() - i,
    {
        cs.push(chars_of(ls[i].as_str()));
        i = i + 1;
    }
    // The least indentation of the non-blank lines.
    let mut base: usize = 0;
    let mut seen = false;
    let mut j: usize = 0;
    proof {
        assert(lv.subrange(0, 0) =~= Seq::<Seq<char>>::empty());
    }
    while j < cs.len()
        invariant
            j <= cs@.len() == lv.len(),
            lv == lines_of(code@),
            natives_ok(code@),
            forall|m: int| 0 <= m < cs@.len() ==> (#[trigger] cs@[m])@ == lv[m],
            match min_indent(lv.subrange(0, j as int)) {
                Some(m) => seen && base == m,
                None => !seen && base == 0,
            },
        decreases cs@.len() - j,
    {
        proof {
            assert(lv.subrange(0, j + 1).drop_last() =~= lv.subrange(0, j as int));
            assert(lv.subrange(0, j + 1).last() == lv[j as int]);
            assert(byte_len(lv[j as int]) <= usize::MAX);
        }
        if !is_blank(&cs[j]) {
            let (_k, b) = leading(&cs[j]);
            if !seen || b < base {
                base = b;
            }
            seen = true;
        }
        j = j + 1;
    }
    proof {
        assert(lv.subrange(0, lv.len() as int) =~= lv);
        assert(base == indent_base(lv));
    }
    let ghost o0 = out@;
    let mut i: usize = 0;
    proof {
        assert(o0 + Seq::<char>::empty() =~= o0);
    }
    while i < cs.len()
        invariant
            i <= cs@.len() == lv.len(),
            lv == lines_of(code@),
            natives_ok(code@),
            base == indent_base(lv),
            forall|m: int| 0 <= m < cs@.len() ==> (#[trigger] cs@[m])@ == lv[m],
            out@ == o0 + native_lines(lv.subrange(0, i as int), base as nat, ind@),
        decreases cs@.len() - i,
    {
        proof {
            assert(lv.subrange(0, i + 1).drop_last() =~= lv.subrange(0, i as int));
            assert(lv.subrange(0, i + 1).last() == lv[i as int]);
            assert(byte_len(lv[i as int]) <= usize::MAX);
        }
        let l = &cs[i];
        let ghost before = out@;
        if is_blank(l) {
            out.append("\n");
        } else {
            out.append(ind);
            match locate(l, base as u64) {
                Some(k) => {
                    let rest = string_of(l.as_slice(), k, l.len());
                    out.append(rest.as_str());
                },
                None => {
                    if byte_past(l, base as u64) {
                        let (k, _b) = leading(l);
                        let rest = string_of(l.as_slice(), k, l.len());
                        out.append(rest.as_str());
                    } else {
                        let rest = string_of(l.as_slice(), 0, l.len());
                        proof {
                            assert(l@.subrange(0, l@.len() as int) =~= l@);
                        }
                        out.append(rest.as_str());
                    }
                },
            }
            out.append("\n");
        }
        proof {
            let line = lv[i as int];
            assert(out@ =~= before + (if blank(line) { "\n"@ } else { ind@ + dedent(line, base as nat) + "\n"@ }));
        }
        i = i + 1;
    }
    proof {
        assert(lv.subrange(0, lv.len() as int) =~= lv);
    }
}

/// Writes the Go statements of a function body.
pub fn emit_body_go(
    out: &mut String,
    body: &BulletBody,
    params: &Vec<Param>,
    output: &Option<OutputDecl>,
    outs: &NameTable<BuType>,
)
    requires
        go_body_ok(*body),
    ensures
        final(out)@ == old(out)@ + go_body(*body, params@, *output, view_entries(outs.entries())),
{
    let ret: String = match output {
        Some(o) => bu_type_to_go(&o.ty),
        None => String::new(),
    };
    proof {
        assert(ret@ =~= go_ret(*output));
    }
    match body {
        BulletBody::Pipes(ps) => {
            let ghost o0 = out@;
            let ghost ov = view_entries(outs.entries());
            let ghost v0 = param_entries(params@);
            let n = ps.len();
            let mut vars = seed_env(params);
            let mut counter: usize = 0;
            let mut i: usize = 0;
            proof {
                assert(o0 + Seq::<char>::empty() =~= o0);
                assert(ps@.subrange(0, 0) =~= Seq::<Pipe>::empty());
            }
            while i < n
                invariant
                    n == ps@.len(),
                    i <= n,
                    ov == view_entries(outs.entries()),
                    ret@ == go_ret(*output),
                    forall|k: int| 0 <= k < ps@.len() ==> go_pipe_ok(#[trigger] ps@[k]),
                    tmps_needed(ps@) <= usize::MAX,
                    counter <= tmps_needed(ps@.subrange(0, i as int)),
                    out@ == o0 + go_pipes(ps@, ov, v0, ret@, i as nat).0,
                    view_entries(vars.entries()) == go_pipes(ps@, ov, v0, ret@, i as nat).1,
                    counter == go_pipes(ps@, ov, v0, ret@, i as nat).2,
                decreases n - i,
            {
                proof {
                    assert(go_pipe_ok(ps@[i as int]));
                    assert(ps@.subrange(0, i + 1).drop_last() =~= ps@.subrange(0, i as int));
                    assert(ps@.subrange(0, i + 1).last() == ps@[i as int]);
                    lemma_tmps_prefix(ps@, i + 1);
                }
                let ghost a = out@;
                go_pipe(out, &ps[i], i + 1 == n, &ret, &mut vars, outs, &mut counter);
                proof {
                    let prev = go_pipes(ps@, ov, v0, ret@, i as nat);
                    assert(out@ =~= o0 + (prev.0 + go_pipe_text(ps@[i as int], prev.1, ov, prev.2, i + 1 == n, ret@)));
                }
                i = i + 1;
            }
        },
        BulletBody::Natives(bs) => {
            let gb = Backend::Go;
            match find_block(bs, &gb) {
                Some(k) => push_native(out, bs[k].code.as_str(), "\t"),
                None => {
                    if bs.len() > 0 {
                        let ghost o0 = out@;
                        out.append("\t// ERROR: '@");
                        let kw = bs[0].backend.escape_keyword();
                        out.append(kw.as_str());
                        out.append("' cannot be used in a Go build \u{2014} use '@go'\n");
                        proof {
                            assert(out@ =~= o0 + ("\t// ERROR: '@"@ + backend_keyword(bs@[0].backend@)
                                + "' cannot be used in a Go build \u{2014} use '@go'\n"@));
                        }
                    } else {
                        proof {
                            assert(out@ =~= out@ + Seq::<char>::empty());
                        }
                    }
                },
            }
        },
        BulletBody::Builtin(name) => {
            let gb = Backend::Go;
            let ghost o0 = out@;
            match emit_builtin(name.as_str(), params, &gb) {
                Ok(code) => {
                    if ret.unicode_len() == 0 {
                        out.append("\t");
                        out.append(code.as_str());
                        out.append("\n");
                        proof {
                            assert(out@ =~= o0 + ("\t"@ + code@ + "\n"@));
                        }
                    } else {
                        out.append("\treturn ");
                        out.append(ret.as_str());
                        out.append("(");
                        out.append(code.as_str());
                        out.append(")\n");
                        proof {
                            assert(out@ =~= o0 + ("\treturn "@ + ret@ + "("@ + code@ + ")\n"@));
                        }
                    }
                },
                Err(e) => {
                    out.append("\t// ERROR: ");
                    out.append(e.as_str());
                    out.append("\n");
                    proof {
                        assert(out@ =~= o0 + ("\t// ERROR: "@ + e@ + "\n"@));
                    }
                },
            }
        },
    }
}

// ── Functions ─────────────────────────────────────────────────────────────────

pub open spec fn is_order_op(op: Seq<char>) -> bool {
    op == "<"@ || op == ">"@ || op == "<="@ || op == ">="@
}

pub open spec fn pipe_orders(p: Pipe) -> bool {
    p.expr matches Expr::BinOp(b) && is_order_op(b.op@)
}

pub open spec fn any_orders(ps: Seq<Pipe>) -> bool {
    exists|k: int| 0 <= k < ps.len() && pipe_orders(#[trigger] ps[k])
}

/// Whether a generic function's type parameters must be ordered: its body
/// compares with `<`, `>`, `<=` or `>=`.
pub open spec fn needs_ordered(b: Bullet) -> bool {
    match b.body {
        BulletBody::Pipes(ps) => any_orders(ps@),
        _ => false,
    }
}

pub open spec fn go_type_params(b: Bullet) -> Seq<char> {
    if b.type_params@.len() == 0 {
        Seq::empty()
    } else {
        let c = if needs_ordered(b) { "constraints.Ordered"@ } else { "any"@ };
        "["@ + joined(name_seq(b.type_params@).map_values(|t: Seq<char>| t + " "@ + c), ", "@) + "]"@
    }
}

/// A Go function: exported name, type parameters, parameters, return type
/// where there is one, and body.
pub open spec fn go_function(b: Bullet, outs: Seq<(Seq<char>, TyV)>) -> Seq<char> {
    let ret = go_type(out_ty(b));
    let head = "func "@ + pascal(b.name@) + go_type_params(b) + "("@ + go_params_text(b.params@) + ")"@;
    (if ret.len() == 0 { head + " {\n"@ } else { head + " "@ + ret + " {\n"@ })
        + go_body(b.body, b.params@, b.output, outs) + "}\n"@
}

pub open spec fn go_main_function(b: Bullet, outs: Seq<(Seq<char>, TyV)>) -> Seq<char> {
    "func main() {\n"@ + go_body(b.body, b.params@, b.output, outs) + "}\n"@
}

fn go_needs_ordered(b: &Bullet) -> (r: bool)
    ensures
        r == needs_ordered(*b),
{
    match &b.body {
        BulletBody::Pipes(ps) => orders_in(ps),
        _ => false,
    }
}

fn orders_in(ps: &Vec<Pipe>) -> (r: bool)
    ensures
        r == any_orders(ps@),
{
    let mut i: usize = 0;
    while i < ps.len()
        invariant
            i <= ps@.len(),
            forall|k: int| 0 <= k < i ==> !pipe_orders(#[trigger] ps@[k]),
        decreases ps@.len() - i,
    {
        if let Expr::BinOp(o) = &ps[i].expr {
            let op = o.op.as_str();
            if str_is(op, "<") || str_is(op, ">") || str_is(op, "<=") || str_is(op, ">=") {
                proof {
                    assert(pipe_orders(ps@[i as int]));
                }
                return true;
            }
        }
        i = i + 1;
    }
    false
}

fn type_params_go(b: &Bullet) -> (r: String)
    ensures
        r@ == go_type_params(*b),
{
    if b.type_params.len() == 0 {
        return String::new();
    }
    let c: &str = if go_needs_ordered(b) { "constraints.Ordered" } else { "any" };
    let mut tps: Vec<String> = Vec::new();
    let mut i: usize = 0;
    while i < b.type_params.len()
        invariant
            i <= b.type_params@.len(),
            c@ == (if needs_ordered(*b) { "constraints.Ordered"@ } else { "any"@ }),
            name_seq(tps@) == name_seq(b.type_params@).subrange(0, i as int).map_values(|t: Seq<char>| t + " "@ + c@),
        decreases b.type_params@.len() - i,
    {
        let mut t = b.type_params[i].clone();
        t.append(" ");
        t.append(c);
        let ghost before = tps@;
        tps.push(t);
        proof {
            assert(name_seq(tps@) =~= name_seq(before).push(t@));
            assert(name_seq(b.type_params@).subrange(0, i + 1).map_values(|t: Seq<char>| t + " "@ + c@)
                =~= name_seq(b.type_params@).subrange(0, i as int).map_values(|t: Seq<char>| t + " "@ + c@).push(t@));
        }
        i = i + 1;
    }
    proof {
        assert(name_seq(b.type_params@).subrange(0, b.type_params@.len() as int) =~= name_seq(b.type_params@));
    }
    let mut r = String::from_str("[");
    let j = join_strings(&tps, ", ");
    r.append(j.as_str());
    r.append("]");
    r
}

pub fn emit_function_go(func: &Bullet, outs: &NameTable<BuType>) -> (r: String)
    requires
        go_body_ok(func.body),
    ensures
        r@ == go_function(*func, view_entries(outs.entries())),
{
    let params = go_param_list(&func.params);
    let ret = match &func.output {
        Some(o) => bu_type_to_go(&o.ty),
        None => {
            let unit = BuType::Named(String::from_str("()"));
            bu_type_to_go(&unit)
        },
    };
    let mut out = String::from_str("func ");
    let name = to_pascal_case(func.name.as_str());
    out.append(name.as_str());
    let tps = type_params_go(func);
    out.append(tps.as_str());
    out.append("(");
    out.append(params.as_str());
    out.append(")");
    if ret.unicode_len() == 0 {
        out.append(" {\n");
    } else {
        out.append(" ");
        out.append(ret.as_str());
        out.append(" {\n");
    }
    emit_body_go(&mut out, &func.body, &func.params, &func.output, outs);
    out.append("}\n");
    proof {
        assert(out@ =~= go_function(*func, view_entries(outs.entries())));
    }
    out
}

pub fn emit_main_function_go(func: &Bullet, outs: &NameTable<BuType>) -> (r: String)
    requires
        go_body_ok(func.body),
    ensures
        r@ == go_main_function(*func, view_entries(outs.entries())),
{
    let mut out = String::from_str("func main() {\n");
    emit_body_go(&mut out, &func.body, &func.params, &func.output, outs);
    out.append("}\n");
    proof {
        assert(out@ =~= go_main_function(*func, view_entries(outs.entries())));
    }
    out
}

// ── Imports ───────────────────────────────────────────────────────────────────

/// The packages a builtin's Go code uses.
pub open spec fn builtin_imports(name: Seq<char>) -> Seq<Seq<char>> {
    if name == "sqrt"@ || name == "powf"@ || name == "pow"@ {
        seq!["math"@]
    } else if name == "max"@ || name == "min"@ {
        seq!["math"@, "slices"@]
    } else if name == "parse_i64"@ {
        seq!["strconv"@, "strings"@]
    } else if name == "join"@ || name == "split_str"@ || name == "trim"@ || name == "to_upper"@ || name == "to_lower"@
        || name == "starts_with"@ || name == "ends_with"@ || name == "replace_str"@ {
        seq!["strings"@]
    } else if name == "to_string"@ {
        seq!["fmt"@]
    } else if name == "sort"@ || name == "sort_by"@ {
        seq!["sort"@]
    } else if name == "open"@ || name == "env"@ || name == "exit"@ || name == "args"@ {
        seq!["os"@]
    } else if name == "close"@ || name == "out"@ {
        seq!["syscall"@]
    } else if name == "in"@ {
        seq!["os"@, "strings"@, "runtime"@]
    } else if name == "time"@ || name == "sleep"@ {
        seq!["time"@]
    } else if name == "run"@ {
        seq!["os/exec"@, "runtime"@]
    } else {
        Seq::empty()
    }
}

pub open spec fn add_unique(v: Seq<Seq<char>>, s: Seq<char>) -> Seq<Seq<char>> {
    if v.contains(s) { v } else { v.push(s) }
}

pub open spec fn add_all(v: Seq<Seq<char>>, xs: Seq<Seq<char>>) -> Seq<Seq<char>>
    decreases xs.len(),
{
    if xs.len() == 0 { v } else { add_unique(add_all(v, xs.drop_last()), xs.last()) }
}

/// The package prefixes an escape block is searched for, with the package
/// each one needs.
pub open spec fn native_probes() -> Seq<(Seq<char>, Seq<char>)> {
    seq![
        ("sort."@, "sort"@), ("strings."@, "strings"@), ("math."@, "math"@), ("fmt."@, "fmt"@),
        ("strconv."@, "strconv"@), ("os."@, "os"@), ("bufio."@, "bufio"@),
    ]
}

pub open spec fn native_imports(v: Seq<Seq<char>>, code: Seq<char>, n: nat) -> Seq<Seq<char>>
    decreases n,
{
    if n == 0 {
        v
    } else {
        let r = native_imports(v, code, (n - 1) as nat);
        let pr = native_probes()[n - 1];
        if has_infix(code, pr.0) { add_unique(r, pr.1) } else { r }
    }
}

/// Whether an expression holds an interpolated string, at its top or in a
/// tuple.
pub open spec fn expr_has_interp_flat(e: Expr) -> bool
    decreases e,
{
    match e {
        Expr::Atom(Atom::Interp(_)) => true,
        Expr::Atom(_) => false,
        Expr::BinOp(b) => b.lhs is Interp || b.rhs is Interp,
        Expr::Tuple(es) => exists|k: int| 0 <= k < es@.len() && expr_has_interp_flat(#[trigger] es@[k]),
    }
}

pub open spec fn pipes_imports(v: Seq<Seq<char>>, ps: Seq<Pipe>) -> Seq<Seq<char>>
    decreases ps.len(),
{
    if ps.len() == 0 {
        v
    } else {
        let r = pipes_imports(v, ps.drop_last());
        match ps.last().expr {
            Expr::Atom(Atom::BuiltinNoArgs(n)) => add_all(r, builtin_imports(n@)),
            _ => r,
        }
    }
}

/// The imports after one function's needs are added.
pub open spec fn bullet_imports(v: Seq<Seq<char>>, b: Bullet) -> Seq<Seq<char>> {
    let r = match b.body {
        BulletBody::Builtin(name) => add_all(v, builtin_imports(name@)),
        BulletBody::Natives(bs) => match first_backend(bs@, BackendV::Go) {
            Some(k) => native_imports(v, bs@[k].code@, 7),
            None => v,
        },
        BulletBody::Pipes(ps) => {
            let v1 = if exists|k: int| 0 <= k < ps@.len() && expr_has_interp_flat(#[trigger] ps@[k].expr) {
                add_unique(v, "fmt"@)
            } else {
                v
            };
            pipes_imports(v1, ps@)
        },
    };
    if b.type_params@.len() > 0 && needs_ordered(b) { add_unique(r, "golang.org/x/exp/constraints"@) } else { r }
}

/// The packages a file's Go code imports, each once, in the order first
/// needed.
pub open spec fn needed_imports(bs: Seq<Bullet>) -> Seq<Seq<char>>
    decreases bs.len(),
{
    if bs.len() == 0 { Seq::empty() } else { bullet_imports(needed_imports(bs.drop_last()), bs.last()) }
}

fn has_str(v: &Vec<String>, s: &str) -> (r: bool)
    ensures
        r == name_seq(v@).contains(s@),
{
    let mut i: usize = 0;
    while i < v.len()
        invariant
            i <= v@.len(),
            forall|j: int| 0 <= j < i ==> v@[j]@ != s@,
        decreases v@.len() - i,
    {
        if str_is(v[i].as_str(), s) {
            proof {
                assert(name_seq(v@)[i as int] == s@);
            }
            return true;
        }
        i = i + 1;
    }
    proof {
        if name_seq(v@).contains(s@) {
            let j = choose|j: int| 0 <= j < name_seq(v@).len() && name_seq(v@)[j] == s@;
            assert(v@[j]@ == s@);
        }
    }
    false
}

fn push_unique(v: &mut Vec<String>, s: &str)
    ensures
        name_seq(final(v)@) == add_unique(name_seq(old(v)@), s@),
{
    if !has_str(v, s) {
        let ghost before = name_seq(v@);
        v.push(String::from_str(s));
        proof {
            assert(name_seq(v@) =~= before.push(s@));
        }
    }
}

fn push_all(v: &mut Vec<String>, xs: &Vec<&str>)
    ensures
        name_seq(final(v)@) == add_all(name_seq(old(v)@), xs@.map_values(|s: &str| s@)),
{
    let ghost v0 = name_seq(v@);
    let ghost xv = xs@.map_values(|s: &str| s@);
    let mut i: usize = 0;
    proof {
        assert(xv.subrange(0, 0) =~= Seq::<Seq<char>>::empty());
    }
    while i < xs.len()
        invariant
            i <= xs@.len(),
            xv == xs@.map_values(|s: &str| s@),
            name_seq(v@) == add_all(v0, xv.subrange(0, i as int)),
        decreases xs@.len() - i,
    {
        proof {
            assert(xv.subrange(0, i + 1).drop_last() =~= xv.subrange(0, i as int));
            assert(xv.subrange(0, i + 1).last() == xs@[i as int]@);
        }
        push_unique(v, xs[i]);
        i = i + 1;
    }
    proof {
        assert(xv.subrange(0, xs@.len() as int) =~= xv);
    }
}

fn builtin_import_list(name: &str) -> (r: Vec<&'static str>)
    ensures
        r@.map_values(|s: &str| s@) == builtin_imports(name@),
{
    let r: Vec<&'static str> = if str_is(name, "sqrt") || str_is(name, "powf") || str_is(name, "pow") {
        vec!["math"]
    } else if str_is(name, "max") || str_is(name, "min") {
        vec!["math", "slices"]
    } else if str_is(name, "parse_i64") {
        vec!["strconv", "strings"]
    } else if str_is(name, "join") || str_is(name, "split_str") || str_is(name, "trim") || str_is(name, "to_upper")
        || str_is(name, "to_lower") || str_is(name, "starts_with") || str_is(name, "ends_with")
        || str_is(name, "replace_str") {
        vec!["strings"]
    } else if str_is(name, "to_string") {
        vec!["fmt"]
    } else if str_is(name, "sort") || str_is(name, "sort_by") {
        vec!["sort"]
    } else if str_is(name, "open") || str_is(name, "env") || str_is(name, "exit") || str_is(name, "args") {
        vec!["os"]
    } else if str_is(name, "close") || str_is(name, "out") {
        vec!["syscall"]
    } else if str_is(name, "in") {
        vec!["os", "strings", "runtime"]
    } else if str_is(name, "time") || str_is(name, "sleep") {
        vec!["time"]
    } else if str_is(name, "run") {
        vec!["os/exec", "runtime"]
    } else {
        Vec::new()
    };
    proof {
        assert(r@.map_values(|s: &str| s@) =~= builtin_imports(name@));
    }
    r
}

fn interp_in(e: &Expr) -> (r: bool)
    ensures
        r == expr_has_interp_flat(*e),
    decreases e, 1nat,
{
    match e {
        Expr::Atom(Atom::Interp(_)) => true,
        Expr::Atom(_) => false,
        Expr::BinOp(b) => {
            (if let Atom::Interp(_) = &b.lhs { true } else { false })
                || (if let Atom::Interp(_) = &b.rhs { true } else { false })
        },
        Expr::Tuple(es) => interp_any(es),
    }
}

fn interp_any(es: &Vec<Expr>) -> (r: bool)
    ensures
        r == exists|k: int| 0 <= k < es@.len() && expr_has_interp_flat(#[trigger] es@[k]),
    decreases es, 1nat,
{
    let mut i: usize = 0;
    while i < es.len()
        invariant
            i <= es@.len(),
            forall|k: int| 0 <= k < i ==> !expr_has_interp_flat(#[trigger] es@[k]),
        decreases es@.len() - i,
    {
        if interp_in(&es[i]) {
            return true;
        }
        i = i + 1;
    }
    false
}

fn add_bullet_imports(v: &mut Vec<String>, b: &Bullet)
    ensures
        name_seq(final(v)@) == bullet_imports(name_seq(old(v)@), *b),
{
    let ghost v0 = name_seq(v@);
    match &b.body {
        BulletBody::Builtin(name) => {
            let l = builtin_import_list(name.as_str());
            push_all(v, &l);
        },
        BulletBody::Natives(bs) => {
            let gb = Backend::Go;
            match find_block(bs, &gb) {
                Some(k) => {
                    let code = bs[k].code.as_str();
                    let probes: Vec<(&str, &str)> = vec![
                        ("sort.", "sort"), ("strings.", "strings"), ("math.", "math"), ("fmt.", "fmt"),
                        ("strconv.", "strconv"), ("os.", "os"), ("bufio.", "bufio"),
                    ];
                    proof {
                        assert(probes@.map_values(|p: (&str, &str)| (p.0@, p.1@)) =~= native_probes());
                    }
                    let mut i: usize = 0;
                    while i < 7
                        invariant
                            i <= 7,
                            probes@.len() == 7,
                            probes@.map_values(|p: (&str, &str)| (p.0@, p.1@)) == native_probes(),
                            name_seq(v@) == native_imports(v0, code@, i as nat),
                        decreases 7 - i,
                    {
                        proof {
                            assert(probes@.map_values(|p: (&str, &str)| (p.0@, p.1@))[i as int] == (probes@[i as int].0@, probes@[i as int].1@));
                        }
                        if contains_str(code, probes[i].0) {
                            push_unique(v, probes[i].1);
                        }
                        i = i + 1;
                    }
                },
                None => {},
            }
        },
        BulletBody::Pipes(ps) => {
            let mut any = false;
            let mut i: usize = 0;
            while i < ps.len()
                invariant
                    i <= ps@.len(),
                    any == exists|k: int| 0 <= k < i && expr_has_interp_flat(#[trigger] ps@[k].expr),
                decreases ps@.len() - i,
            {
                if interp_in(&ps[i].expr) {
                    any = true;
                }
                i = i + 1;
            }
            if any {
                push_unique(v, "fmt");
            }
            let ghost v1 = name_seq(v@);
            let mut j: usize = 0;
            proof {
                assert(ps@.subrange(0, 0) =~= Seq::<Pipe>::empty());
            }
            while j < ps.len()
                invariant
                    j <= ps@.len(),
                    name_seq(v@) == pipes_imports(v1, ps@.subrange(0, j as int)),
                decreases ps@.len() - j,
            {
                proof {
                    assert(ps@.subrange(0, j + 1).drop_last() =~= ps@.subrange(0, j as int));
                    assert(ps@.subrange(0, j + 1).last() == ps@[j as int]);
                }
                if let Expr::Atom(Atom::BuiltinNoArgs(n)) = &ps[j].expr {
                    let l = builtin_import_list(n.as_str());
                    push_all(v, &l);
                }
                j = j + 1;
            }
            proof {
                assert(ps@.subrange(0, ps@.len() as int) =~= ps@);
            }
        },
    }
    if b.type_params.len() > 0 && go_needs_ordered(b) {
        push_unique(v, "golang.org/x/exp/constraints");
    }
}

/// The packages a file's Go code imports.
pub fn go_imports(file: &SourceFile) -> (r: Vec<String>)
    ensures
        name_seq(r@) == needed_imports(file.bullets@),
{
    let mut v: Vec<String> = Vec::new();
    let mut i: usize = 0;
    proof {
        assert(name_seq(v@) =~= needed_imports(file.bullets@.subrange(0, 0)));
    }
    while i < file.bullets.len()
        invariant
            i <= file.bullets@.len(),
            name_seq(v@) == needed_imports(file.bullets@.subrange(0, i as int)),
        decreases file.bullets@.len() - i,
    {
        proof {
            assert(file.bullets@.subrange(0, i + 1).drop_last() =~= file.bullets@.subrange(0, i as int));
            assert(file.bullets@.subrange(0, i + 1).last() == file.bullets@[i as int]);
        }
        add_bullet_imports(&mut v, &file.bullets[i]);
        i = i + 1;
    }
    proof {
        assert(file.bullets@.subrange(0, file.bullets@.len() as int) =~= file.bullets@);
    }
    v
}

// ── Files ─────────────────────────────────────────────────────────────────────

/// A generic helper for `tern`, which Go has no operator for.
pub const TERN_HELPER_GO: &'static str = "func __tern[U comparable, T any](v1, v2 U, a, b T) T {\n\tif v1 == v2 {\n\t\treturn a\n\t}\n\treturn b\n}\n\n";

pub open spec fn pipe_is_tern(p: Pipe) -> bool {
    p.expr matches Expr::Atom(Atom::BuiltinNoArgs(n)) && n@ == "tern"@
}

pub open spec fn uses_tern(b: Bullet) -> bool {
    match b.body {
        BulletBody::Pipes(ps) => exists|k: int| 0 <= k < ps@.len() && pipe_is_tern(#[trigger] ps@[k]),
        BulletBody::Builtin(n) => n@ == "tern"@,
        BulletBody::Natives(_) => false,
    }
}

/// The helpers a file needs ahead of its functions.
pub open spec fn go_helpers(bs: Seq<Bullet>) -> Seq<char> {
    if exists|k: int| 0 <= k < bs.len() && uses_tern(#[trigger] bs[k]) { TERN_HELPER_GO@ } else { Seq::empty() }
}

pub open spec fn go_functions(bs: Seq<Bullet>, outs: Seq<(Seq<char>, TyV)>) -> Seq<char>
    decreases bs.len(),
{
    if bs.len() == 0 { Seq::empty() } else { go_functions(bs.drop_last(), outs) + go_function(bs.last(), outs) + "\n"@ }
}

pub open spec fn import_lines(imps: Seq<Seq<char>>) -> Seq<char>
    decreases imps.len(),
{
    if imps.len() == 0 { Seq::empty() } else { import_lines(imps.drop_last()) + "\t\""@ + imps.last() + "\"\n"@ }
}

pub open spec fn imports_block(imps: Seq<Seq<char>>) -> Seq<char> {
    if imps.len() == 0 { Seq::empty() } else { "import (\n"@ + import_lines(imps) + ")\n\n"@ }
}

/// Whether every function of a file can be written out in Go.
pub open spec fn go_file_ok(bs: Seq<Bullet>) -> bool {
    forall|k: int| 0 <= k < bs.len() ==> go_body_ok(#[trigger] bs[k].body)
}

/// A source file as a Go file of a package.
pub open spec fn go_source(bs: Seq<Bullet>, package: Seq<char>) -> Seq<char> {
    "package "@ + go_pkg(package) + "\n\n"@ + imports_block(needed_imports(bs)) + go_helpers(bs)
        + go_functions(bs, fn_out_entries(bs))
}

fn tern_in(b: &Bullet) -> (r: bool)
    ensures
        r == uses_tern(*b),
{
    match &b.body {
        BulletBody::Pipes(ps) => tern_in_pipes(ps),
        BulletBody::Builtin(n) => str_is(n.as_str(), "tern"),
        BulletBody::Natives(_) => false,
    }
}

fn tern_in_pipes(ps: &Vec<Pipe>) -> (r: bool)
    ensures
        r == exists|k: int| 0 <= k < ps@.len() && pipe_is_tern(#[trigger] ps@[k]),
{
    let mut i: usize = 0;
    while i < ps.len()
        invariant
            i <= ps@.len(),
            forall|k: int| 0 <= k < i ==> !pipe_is_tern(#[trigger] ps@[k]),
        decreases ps@.len() - i,
    {
        if let Expr::Atom(Atom::BuiltinNoArgs(n)) = &ps[i].expr {
            if str_is(n.as_str(), "tern") {
                proof {
                    assert(pipe_is_tern(ps@[i as int]));
                }
                return true;
            }
        }
        i = i + 1;
    }
    false
}

fn push_helpers(out: &mut String, file: &SourceFile)
    ensures
        final(out)@ == old(out)@ + go_helpers(file.bullets@),
{
    let mut i: usize = 0;
    let mut any = false;
    while i < file.bullets.len()
        invariant
            i <= file.bullets@.len(),
            any == exists|k: int| 0 <= k < i && uses_tern(#[trigger] file.bullets@[k]),
        decreases file.bullets@.len() - i,
    {
        if tern_in(&file.bullets[i]) {
            any = true;
        }
        i = i + 1;
    }
    if any {
        out.append(TERN_HELPER_GO);
    } else {
        proof {
            assert(out@ =~= out@ + Seq::<char>::empty());
        }
    }
}

fn push_imports(out: &mut String, imps: &Vec<String>)
    ensures
        final(out)@ == old(out)@ + imports_block(name_seq(imps@)),
{
    if imps.len() == 0 {
        proof {
            assert(out@ =~= out@ + Seq::<char>::empty());
        }
        return;
    }
    let ghost o0 = out@;
    out.append("import (\n");
    let ghost o1 = out@;
    let mut i: usize = 0;
    proof {
        assert(name_seq(imps@).subrange(0, 0) =~= Seq::<Seq<char>>::empty());
        assert(o1 + Seq::<char>::empty() =~= o1);
    }
    while i < imps.len()
        invariant
            i <= imps@.len(),
            out@ == o1 + import_lines(name_seq(imps@).subrange(0, i as int)),
        decreases imps@.len() - i,
    {
        proof {
            assert(name_seq(imps@).subrange(0, i + 1).drop_last() =~= name_seq(imps@).subrange(0, i as int));
            assert(name_seq(imps@).subrange(0, i + 1).last() == imps@[i as int]@);
        }
        out.append("\t\"");
        out.append(imps[i].as_str());
        out.append("\"\n");
        i = i + 1;
    }
    out.append(")\n\n");
    proof {
        assert(name_seq(imps@).subrange(0, imps@.len() as int) =~= name_seq(imps@));
        assert(out@ =~= o0 + imports_block(name_seq(imps@)));
    }
}

fn push_functions_go(out: &mut String, file: &SourceFile, outs: &NameTable<BuType>)
    requires
        go_file_ok(file.bullets@),
    ensures
        final(out)@ == old(out)@ + go_functions(file.bullets@, view_entries(outs.entries())),
{
    let ghost o0 = out@;
    let mut i: usize = 0;
    proof {
        assert(file.bullets@.subrange(0, 0) =~= Seq::<Bullet>::empty());
        assert(o0 + Seq::<char>::empty() =~= o0);
    }
    while i < file.bullets.len()
        invariant
            i <= file.bullets@.len(),
            go_file_ok(file.bullets@),
            out@ == o0 + go_functions(file.bullets@.subrange(0, i as int), view_entries(outs.entries())),
        decreases file.bullets@.len() - i,
    {
        proof {
            assert(file.bullets@.subrange(0, i + 1).drop_last() =~= file.bullets@.subrange(0, i as int));
            assert(file.bullets@.subrange(0, i + 1).last() == file.bullets@[i as int]);
            assert(go_body_ok(file.bullets@[i as int].body));
        }
        let f = emit_function_go(&file.bullets[i], outs);
        out.append(f.as_str());
        out.append("\n");
        i = i + 1;
    }
    proof {
        assert(file.bullets@.subrange(0, file.bullets@.len() as int) =~= file.bullets@);
    }
}

/// A source file as a Go file of a package.
pub fn emit_source_go(file: &SourceFile, package: &str) -> (r: String)
    requires
        go_file_ok(file.bullets@),
    ensures
        r@ == go_source(file.bullets@, package@),
{
    let pkg = sanitize_go_pkg(package);
    let mut out = String::from_str("package ");
    out.append(pkg.as_str());
    out.append("\n\n");
    let imps = go_imports(file);
    push_imports(&mut out, &imps);
    push_helpers(&mut out, file);
    let outs = collect_fn_output_types(file);
    push_functions_go(&mut out, file, &outs);
    proof {
        assert(out@ =~= go_source(file.bullets@, package@));
    }
    out
}

/// Only the helpers and the functions, for a single file built on its own.
pub fn emit_bare_go(file: &SourceFile) -> (r: String)
    requires
        go_file_ok(file.bullets@),
    ensures
        r@ == go_helpers(file.bullets@) + go_functions(file.bullets@, fn_out_entries(file.bullets@)),
{
    let mut out = String::new();
    push_helpers(&mut out, file);
    let outs = collect_fn_output_types(file);
    push_functions_go(&mut out, file, &outs);
    proof {
        assert(out@ =~= go_helpers(file.bullets@) + go_functions(file.bullets@, fn_out_entries(file.bullets@)));
    }
    out
}

pub open spec fn has_go_block(b: BulletBody) -> bool {
    match b {
        BulletBody::Natives(blocks) => first_backend(blocks@, BackendV::Go) is Some,
        _ => false,
    }
}

/// Whether a file has a function with an `@go` escape block.
pub open spec fn has_native_go(bs: Seq<Bullet>) -> bool {
    exists|k: int| 0 <= k < bs.len() && has_go_block(#[trigger] bs[k].body)
}

/// A list with repeats taken out, the first of each kept.
pub open spec fn dedupe(v: Seq<Seq<char>>) -> Seq<Seq<char>>
    decreases v.len(),
{
    if v.len() == 0 { Seq::empty() } else { add_unique(dedupe(v.drop_last()), v.last()) }
}

/// The imports of `main.go`: the file's own, and `fmt` where an `@go`
/// block may print.
pub open spec fn go_main_imports(bs: Seq<Bullet>) -> Seq<Seq<char>> {
    let imps = needed_imports(bs);
    dedupe(if !imps.contains("fmt"@) && has_native_go(bs) { imps.push("fmt"@) } else { imps })
}

pub open spec fn go_main_functions(bs: Seq<Bullet>, outs: Seq<(Seq<char>, TyV)>) -> Seq<char>
    decreases bs.len(),
{
    if bs.len() == 0 {
        Seq::empty()
    } else {
        go_main_functions(bs.drop_last(), outs) + (if bs.last().name@ == "main"@ {
            go_main_function(bs.last(), outs)
        } else {
            go_function(bs.last(), outs)
        }) + "\n"@
    }
}

/// `main.bu` as `main.go`.
pub open spec fn go_main_file(bs: Seq<Bullet>) -> Seq<char> {
    "package main\n\n"@ + imports_block(go_main_imports(bs)) + go_helpers(bs) + go_main_functions(bs, fn_out_entries(bs))
}

fn native_go_in(bs: &Vec<Bullet>) -> (r: bool)
    ensures
        r == has_native_go(bs@),
{
    let mut i: usize = 0;
    let gb = Backend::Go;
    while i < bs.len()
        invariant
            i <= bs@.len(),
            gb@ == BackendV::Go,
            forall|k: int| 0 <= k < i ==> !has_go_block(#[trigger] bs@[k].body),
        decreases bs@.len() - i,
    {
        if let BulletBody::Natives(blocks) = &bs[i].body {
            if find_block(blocks, &gb).is_some() {
                proof {
                    assert(has_go_block(bs@[i as int].body));
                }
                return true;
            }
        }
        i = i + 1;
    }
    false
}

fn dedupe_strings(v: &Vec<String>) -> (r: Vec<String>)
    ensures
        name_seq(r@) == dedupe(name_seq(v@)),
{
    let mut out: Vec<String> = Vec::new();
    let mut i: usize = 0;
    proof {
        assert(name_seq(v@).subrange(0, 0) =~= Seq::<Seq<char>>::empty());
        assert(name_seq(out@) =~= Seq::<Seq<char>>::empty());
    }
    while i < v.len()
        invariant
            i <= v@.len(),
            name_seq(out@) == dedupe(name_seq(v@).subrange(0, i as int)),
        decreases v@.len() - i,
    {
        proof {
            assert(name_seq(v@).subrange(0, i + 1).drop_last() =~= name_seq(v@).subrange(0, i as int));
            assert(name_seq(v@).subrange(0, i + 1).last() == v@[i as int]@);
        }
        push_unique(&mut out, v[i].as_str());
        i = i + 1;
    }
    proof {
        assert(name_seq(v@).subrange(0, v@.len() as int) =~= name_seq(v@));
    }
    out
}

/// `main.bu` as `main.go`.
pub fn emit_main_go(file: &SourceFile, _package: &str) -> (r: String)
    requires
        go_file_ok(file.bullets@),
    ensures
        r@ == go_main_file(file.bullets@),
{
    let mut out = String::from_str("package main\n\n");
    let mut imps = go_imports(file);
    if !has_str(&imps, "fmt") && native_go_in(&file.bullets) {
        let ghost before = name_seq(imps@);
        imps.push(String::from_str("fmt"));
        proof {
            assert(name_seq(imps@) =~= before.push("fmt"@));
        }
    }
    let unique = dedupe_strings(&imps);
    push_imports(&mut out, &unique);
    push_helpers(&mut out, file);
    let outs = collect_fn_output_types(file);
    let ghost o0 = out@;
    let ghost ov = view_entries(outs.entries());
    let mut i: usize = 0;
    proof {
        assert(file.bullets@.subrange(0, 0) =~= Seq::<Bullet>::empty());
        assert(o0 + Seq::<char>::empty() =~= o0);
    }
    while i < file.bullets.len()
        invariant
            i <= file.bullets@.len(),
            go_file_ok(file.bullets@),
            ov == view_entries(outs.entries()),
            out@ == o0 + go_main_functions(file.bullets@.subrange(0, i as int), ov),
        decreases file.bullets@.len() - i,
    {
        proof {
            assert(file.bullets@.subrange(0, i + 1).drop_last() =~= file.bullets@.subrange(0, i as int));
            assert(file.bullets@.subrange(0, i + 1).last() == file.bullets@[i as int]);
            assert(go_body_ok(file.bullets@[i as int].body));
        }
        let b = &file.bullets[i];
        let f = if str_is(b.name.as_str(), "main") { emit_main_function_go(b, &outs) } else { emit_function_go(b, &outs) };
        out.append(f.as_str());
        out.append("\n");
        i = i + 1;
    }
    proof {
        assert(file.bullets@.subrange(0, file.bullets@.len() as int) =~= file.bullets@);
        assert(out@ =~= go_main_file(file.bullets@));
    }
    out
}

/// `go.mod` for a module.
pub fn emit_go_mod(module_name: &str) -> (r: String)
    ensures
        r@ == "module "@ + module_name@ + "\n\ngo 1.21\n"@,
{
    let mut r = String::from_str("module ");
    r.append(module_name);
    r.append("\n\ngo 1.21\n");
    r
}

pub open spec fn go_fields(fs: Seq<Field>) -> Seq<char>
    decreases fs.len(),
{
    if fs.len() == 0 {
        Seq::empty()
    } else {
        go_fields(fs.drop_last()) + "\t"@ + pascal(fs.last().name@) + " "@ + go_type(fs.last().ty@) + "\n"@
    }
}

/// A struct of an inventory as a Go struct with exported fields.
pub open spec fn go_struct(s: StructDef) -> Seq<char> {
    "type "@ + pascal(s.name@) + " struct {\n"@ + go_fields(s.fields@) + "}\n"@
}

pub fn emit_struct_go(st: &StructDef) -> (r: String)
    ensures
        r@ == go_struct(*st),
{
    let mut out = String::from_str("type ");
    let n = to_pascal_case(st.name.as_str());
    out.append(n.as_str());
    out.append(" struct {\n");
    let ghost o0 = out@;
    let mut i: usize = 0;
    proof {
        assert(st.fields@.subrange(0, 0) =~= Seq::<Field>::empty());
        assert(o0 + Seq::<char>::empty() =~= o0);
    }
    while i < st.fields.len()
        invariant
            i <= st.fields@.len(),
            out@ == o0 + go_fields(st.fields@.subrange(0, i as int)),
        decreases st.fields@.len() - i,
    {
        proof {
            assert(st.fields@.subrange(0, i + 1).drop_last() =~= st.fields@.subrange(0, i as int));
            assert(st.fields@.subrange(0, i + 1).last() == st.fields@[i as int]);
        }
        out.append("\t");
        let f = to_pascal_case(st.fields[i].name.as_str());
        out.append(f.as_str());
        out.append(" ");
        let t = bu_type_to_go(&st.fields[i].ty);
        out.append(t.as_str());
        out.append("\n");
        i = i + 1;
    }
    out.append("}\n");
    proof {
        assert(st.fields@.subrange(0, st.fields@.len() as int) =~= st.fields@);
        assert(out@ =~= go_struct(*st));
    }
    out
}

pub open spec fn go_variants(vs: Seq<Variant>, ty: Seq<char>) -> Seq<char>
    decreases vs.len(),
{
    if vs.len() == 0 {
        Seq::empty()
    } else {
        go_variants(vs.drop_last(), ty) + if vs.len() == 1 {
            "\t"@ + vs.last().name@ + " "@ + ty + " = iota\n"@
        } else {
            "\t"@ + vs.last().name@ + "\n"@
        }
    }
}

/// An enum of an inventory as a Go integer type with `iota` constants.
pub open spec fn go_enum(e: EnumDef) -> Seq<char> {
    "type "@ + e.name@ + " int\n\nconst (\n"@ + go_variants(e.variants@, e.name@) + ")\n"@
}

pub fn emit_enum_go(e: &EnumDef) -> (r: String)
    ensures
        r@ == go_enum(*e),
{
    let mut out = String::from_str("type ");
    out.append(e.name.as_str());
    out.append(" int\n\nconst (\n");
    let ghost o0 = out@;
    let mut i: usize = 0;
    proof {
        assert(e.variants@.subrange(0, 0) =~= Seq::<Variant>::empty());
        assert(o0 + Seq::<char>::empty() =~= o0);
    }
    while i < e.variants.len()
        invariant
            i <= e.variants@.len(),
            out@ == o0 + go_variants(e.variants@.subrange(0, i as int), e.name@),
        decreases e.variants@.len() - i,
    {
        proof {
            assert(e.variants@.subrange(0, i + 1).drop_last() =~= e.variants@.subrange(0, i as int));
            assert(e.variants@.subrange(0, i + 1).last() == e.variants@[i as int]);
        }
        out.append("\t");
        out.append(e.variants[i].name.as_str());
        if i == 0 {
            out.append(" ");
            out.append(e.name.as_str());
            out.append(" = iota\n");
        } else {
            out.append("\n");
        }
        i = i + 1;
    }
    out.append(")\n");
    proof {
        assert(e.variants@.subrange(0, e.variants@.len() as int) =~= e.variants@);
        assert(out@ =~= go_enum(*e));
    }
    out
}

pub open spec fn tuple_field_lines(ts: Seq<TyV>) -> Seq<char>
    decreases ts.len(),
{
    if ts.len() == 0 {
        Seq::empty()
    } else {
        tuple_field_lines(ts.drop_last()) + "\tV"@ + nat_decimal((ts.len() - 1) as nat) + " "@ + go_type(ts.last()) + "\n"@
    }
}

/// The named struct that stands for a tuple type.
pub open spec fn go_tuple_struct(ts: Seq<TyV>) -> Seq<char> {
    "type "@ + "Tuple_"@ + tuple_parts(ts) + " struct {\n"@ + tuple_field_lines(ts) + "}\n\n"@
}

pub open spec fn go_enums(es: Seq<EnumDef>) -> Seq<char>
    decreases es.len(),
{
    if es.len() == 0 { Seq::empty() } else { go_enums(es.drop_last()) + go_enum(es.last()) + "\n"@ }
}

pub open spec fn go_structs(ss: Seq<StructDef>) -> Seq<char>
    decreases ss.len(),
{
    if ss.len() == 0 { Seq::empty() } else { go_structs(ss.drop_last()) + go_struct(ss.last()) + "\n"@ }
}

pub open spec fn go_tuple_structs(tss: Seq<Seq<TyV>>) -> Seq<char>
    decreases tss.len(),
{
    if tss.len() == 0 { Seq::empty() } else { go_tuple_structs(tss.drop_last()) + go_tuple_struct(tss.last()) }
}

pub open spec fn tuples_view(v: Seq<Vec<BuType>>) -> Seq<Seq<TyV>> {
    v.map_values(|ts: Vec<BuType>| tys_view(ts@))
}

/// `types.go`: the enums, the structs, and a named struct for each tuple
/// type.
pub open spec fn go_types_file(package: Seq<char>, ss: Seq<StructDef>, es: Seq<EnumDef>, tss: Seq<Seq<TyV>>) -> Seq<char> {
    "package "@ + go_pkg(package) + "\n\n"@ + go_enums(es) + go_structs(ss) + go_tuple_structs(tss)
}

#[verifier::spinoff_prover]
#[verifier::rlimit(40)]
fn tuple_struct_text(ts: &Vec<BuType>) -> (r: String)
    ensures
        r@ == go_tuple_struct(tys_view(ts@)),
{
    proof {
        lemma_tys_view(ts@);
    }
    let mut out = String::from_str("type ");
    let n = tuple_go_name(ts);
    out.append(n.as_str());
    out.append(" struct {\n");
    let ghost o0 = out@;
    let ghost tv = tys_view(ts@);
    let mut i: usize = 0;
    proof {
        assert(tv.subrange(0, 0) =~= Seq::<TyV>::empty());
        assert(o0 + Seq::<char>::empty() =~= o0);
    }
    while i < ts.len()
        invariant
            i <= ts@.len(),
            tv == tys_view(ts@),
            tv.len() == ts@.len(),
            forall|j: int| 0 <= j < ts@.len() ==> #[trigger] tv[j] == ty_view(ts@[j]),
            out@ == o0 + tuple_field_lines(tv.subrange(0, i as int)),
        decreases ts@.len() - i,
    {
        proof {
            assert(tv.subrange(0, i + 1).drop_last() =~= tv.subrange(0, i as int));
            assert(tv.subrange(0, i + 1).last() == ty_view(ts@[i as int]));
        }
        out.append("\tV");
        let d = usize_to_string(i);
        out.append(d.as_str());
        out.append(" ");
        let t = bu_type_to_go(&ts[i]);
        out.append(t.as_str());
        out.append("\n");
        i = i + 1;
    }
    out.append("}\n\n");
    proof {
        assert(tv.subrange(0, ts@.len() as int) =~= tv);
        assert(out@ =~= go_tuple_struct(tys_view(ts@)));
    }
    out
}

/// `types.go` for a package.
pub fn emit_types_go(package: &str, structs: &Vec<StructDef>, enums: &Vec<EnumDef>, tuple_types: &Vec<Vec<BuType>>) -> (r: String)
    ensures
        r@ == go_types_file(package@, structs@, enums@, tuples_view(tuple_types@)),
{
    let pkg = sanitize_go_pkg(package);
    let mut out = String::from_str("package ");
    out.append(pkg.as_str());
    out.append("\n\n");
    let ghost o0 = out@;
    let mut i: usize = 0;
    proof {
        assert(enums@.subrange(0, 0) =~= Seq::<EnumDef>::empty());
        assert(o0 + Seq::<char>::empty() =~= o0);
    }
    while i < enums.len()
        invariant
            i <= enums@.len(),
            out@ == o0 + go_enums(enums@.subrange(0, i as int)),
        decreases enums@.len() - i,
    {
        proof {
            assert(enums@.subrange(0, i + 1).drop_last() =~= enums@.subrange(0, i as int));
            assert(enums@.subrange(0, i + 1).last() == enums@[i as int]);
        }
        let e = emit_enum_go(&enums[i]);
        out.append(e.as_str());
        out.append("\n");
        i = i + 1;
    }
    proof {
        assert(enums@.subrange(0, enums@.len() as int) =~= enums@);
    }
    let ghost o1 = out@;
    let mut j: usize = 0;
    proof {
        assert(structs@.subrange(0, 0) =~= Seq::<StructDef>::empty());
        assert(o1 + Seq::<char>::empty() =~= o1);
    }
    while j < structs.len()
        invariant
            j <= structs@.len(),
            out@ == o1 + go_structs(structs@.subrange(0, j as int)),
        decreases structs@.len() - j,
    {
        proof {
            assert(structs@.subrange(0, j + 1).drop_last() =~= structs@.subrange(0, j as int));
            assert(structs@.subrange(0, j + 1).last() == structs@[j as int]);
        }
        let st = emit_struct_go(&structs[j]);
        out.append(st.as_str());
        out.append("\n");
        j = j + 1;
    }
    proof {
        assert(structs@.subrange(0, structs@.len() as int) =~= structs@);
    }
    let ghost o2 = out@;
    let ghost tv = tuples_view(tuple_types@);
    let mut k: usize = 0;
    proof {
        assert(tv.subrange(0, 0) =~= Seq::<Seq<TyV>>::empty());
        assert(o2 + Seq::<char>::empty() =~= o2);
    }
    while k < tuple_types.len()
        invariant
            k <= tuple_types@.len(),
            tv == tuples_view(tuple_types@),
            out@ == o2 + go_tuple_structs(tv.subrange(0, k as int)),
        decreases tuple_types@.len() - k,
    {
        proof {
            assert(tv.subrange(0, k + 1).drop_last() =~= tv.subrange(0, k as int));
            assert(tv.subrange(0, k + 1).last() == tys_view(tuple_types@[k as int]@));
        }
        let t = tuple_struct_text(&tuple_types[k]);
        out.append(t.as_str());
        k = k + 1;
    }
    proof {
        assert(tv.subrange(0, tuple_types@.len() as int) =~= tv);
        assert(out@ =~= go_types_file(package@, structs@, enums@, tuples_view(tuple_types@)));
    }
    out
}

// ── Tuple types of a project ──────────────────────────────────────────────────

pub open spec fn tuple_scan(seen: Seq<Seq<TyV>>, t: TyV) -> Seq<Seq<TyV>> {
    match t {
        TyV::Tuple(inner) => if seen.contains(inner) { seen } else { seen.push(inner) },
        _ => seen,
    }
}

pub open spec fn scan_types(seen: Seq<Seq<TyV>>, ts: Seq<TyV>) -> Seq<Seq<TyV>>
    decreases ts.len(),
{
    if ts.len() == 0 { seen } else { tuple_scan(scan_types(seen, ts.drop_last()), ts.last()) }
}

/// A function's parameter types, then its output type.
pub open spec fn bullet_types(b: Bullet) -> Seq<TyV> {
    b.params@.map_values(|p: Param| p.ty@).push(out_ty(b))
}

pub open spec fn scan_bullets(seen: Seq<Seq<TyV>>, bs: Seq<Bullet>) -> Seq<Seq<TyV>>
    decreases bs.len(),
{
    if bs.len() == 0 { seen } else { scan_types(scan_bullets(seen, bs.drop_last()), bullet_types(bs.last())) }
}

/// Every tuple type used by a parameter or an output, once each, in the
/// order first seen.
pub open spec fn project_tuples(files: Seq<(String, SourceFile)>) -> Seq<Seq<TyV>>
    decreases files.len(),
{
    if files.len() == 0 {
        Seq::empty()
    } else {
        scan_bullets(project_tuples(files.drop_last()), files.last().1.bullets@)
    }
}

fn note_tuple(seen: &mut Vec<Vec<BuType>>, t: &BuType)
    ensures
        tuples_view(final(seen)@) == tuple_scan(tuples_view(old(seen)@), t@),
{
    if let BuType::Tuple(inner) = t {
        let ghost sv = tuples_view(seen@);
        proof {
            assert(t@ == TyV::Tuple(tys_view(inner@)));
        }
        let mut i: usize = 0;
        while i < seen.len()
            invariant
                i <= seen@.len(),
                sv == tuples_view(seen@),
                t@ == TyV::Tuple(tys_view(inner@)),
                forall|j: int| 0 <= j < i ==> sv[j] != tys_view(inner@),
            decreases seen@.len() - i,
        {
            if same_types(&seen[i], inner) {
                proof {
                    assert(sv[i as int] == tys_view(inner@));
                    assert(sv.contains(tys_view(inner@)));
                    assert(tuple_scan(sv, t@) == sv);
                }
                return;
            }
            i = i + 1;
        }
        let c = copy_types(inner);
        seen.push(c);
        proof {
            assert(!sv.contains(tys_view(inner@)));
            assert(tuples_view(seen@) =~= sv.push(tys_view(inner@)));
        }
    }
}

/// Notes the tuple types of a file's functions, parameters before outputs.
pub(crate) fn scan_file_tuples(seen: &mut Vec<Vec<BuType>>, bs: &Vec<Bullet>)
    ensures
        tuples_view(final(seen)@) == scan_bullets(tuples_view(old(seen)@), bs@),
{
    let ghost s0 = tuples_view(seen@);
    let mut b: usize = 0;
    proof {
        assert(bs@.subrange(0, 0) =~= Seq::<Bullet>::empty());
    }
    while b < bs.len()
        invariant
            b <= bs@.len(),
            tuples_view(seen@) == scan_bullets(s0, bs@.subrange(0, b as int)),
        decreases bs@.len() - b,
    {
        proof {
            assert(bs@.subrange(0, b + 1).drop_last() =~= bs@.subrange(0, b as int));
            assert(bs@.subrange(0, b + 1).last() == bs@[b as int]);
        }
        let bl = &bs[b];
        let ghost tys = bullet_types(*bl);
        let ghost s1 = tuples_view(seen@);
        let mut p: usize = 0;
        proof {
            assert(tys.subrange(0, 0) =~= Seq::<TyV>::empty());
        }
        while p < bl.params.len()
            invariant
                p <= bl.params@.len(),
                tys == bullet_types(*bl),
                tys.len() == bl.params@.len() + 1,
                tuples_view(seen@) == scan_types(s1, tys.subrange(0, p as int)),
            decreases bl.params@.len() - p,
        {
            proof {
                assert(tys.subrange(0, p + 1).drop_last() =~= tys.subrange(0, p as int));
                assert(tys.subrange(0, p + 1).last() == bl.params@[p as int].ty@);
            }
            note_tuple(seen, &bl.params[p].ty);
            p = p + 1;
        }
        let unit = BuType::Named(String::from_str("()"));
        let ot: &BuType = match &bl.output {
            Some(o) => &o.ty,
            None => &unit,
        };
        proof {
            assert(tys.subrange(0, (p + 1) as int).drop_last() =~= tys.subrange(0, p as int));
            assert(tys.subrange(0, (p + 1) as int).last() == ot@);
            assert(tys.subrange(0, (p + 1) as int) =~= tys);
        }
        note_tuple(seen, ot);
        b = b + 1;
    }
    proof {
        assert(bs@.subrange(0, bs@.len() as int) =~= bs@);
    }
}

/// The tuple types of a project's source files.
pub fn collect_tuple_types(files: &Vec<(String, SourceFile)>) -> (r: Vec<Vec<BuType>>)
    ensures
        tuples_view(r@) == project_tuples(files@),
{
    let mut seen: Vec<Vec<BuType>> = Vec::new();
    let mut f: usize = 0;
    proof {
        assert(tuples_view(seen@) =~= Seq::<Seq<TyV>>::empty());
        assert(files@.subrange(0, 0) =~= Seq::<(String, SourceFile)>::empty());
    }
    while f < files.len()
        invariant
            f <= files@.len(),
            tuples_view(seen@) == project_tuples(files@.subrange(0, f as int)),
        decreases files@.len() - f,
    {
        proof {
            assert(files@.subrange(0, f + 1).drop_last() =~= files@.subrange(0, f as int));
            assert(files@.subrange(0, f + 1).last() == files@[f as int]);
        }
        scan_file_tuples(&mut seen, &files[f].1.bullets);
        f = f + 1;
    }
    proof {
        assert(files@.subrange(0, files@.len() as int) =~= files@);
    }
    seen
}

// ── Laws ──────────────────────────────────────────────────────────────────────

proof fn lemma_add_unique(v: Seq<Seq<char>>, x: Seq<char>)
    requires
        no_repeats(v),
    ensures
        no_repeats(add_unique(v, x)),
        add_unique(v, x).contains(x),
        forall|y: Seq<char>| v.contains(y) ==> add_unique(v, x).contains(y),
{
    if !v.contains(x) {
        let out = v.push(x);
        assert forall|i: int, j: int| 0 <= i < j < out.len() implies out[i] != out[j] by {
            if j == out.len() - 1 {
                assert(out[i] == v[i]);
            }
        }
        assert(out[v.len() as int] == x);
        assert forall|y: Seq<char>| v.contains(y) implies out.contains(y) by {
            let k = choose|k: int| 0 <= k < v.len() && v[k] == y;
            assert(out[k] == y);
        }
    }
}

proof fn lemma_add_all(v: Seq<Seq<char>>, xs: Seq<Seq<char>>)
    requires
        no_repeats(v),
    ensures
        no_repeats(add_all(v, xs)),
    decreases xs.len(),
{
    if xs.len() > 0 {
        lemma_add_all(v, xs.drop_last());
        lemma_add_unique(add_all(v, xs.drop_last()), xs.last());
    }
}

proof fn lemma_native_imports(v: Seq<Seq<char>>, code: Seq<char>, n: nat)
    requires
        no_repeats(v),
    ensures
        no_repeats(native_imports(v, code, n)),
    decreases n,
{
    if n > 0 {
        lemma_native_imports(v, code, (n - 1) as nat);
        lemma_add_unique(native_imports(v, code, (n - 1) as nat), native_probes()[n - 1].1);
    }
}

proof fn lemma_pipes_imports(v: Seq<Seq<char>>, ps: Seq<Pipe>)
    requires
        no_repeats(v),
    ensures
        no_repeats(pipes_imports(v, ps)),
    decreases ps.len(),
{
    if ps.len() > 0 {
        lemma_pipes_imports(v, ps.drop_last());
        if let Expr::Atom(Atom::BuiltinNoArgs(n)) = ps.last().expr {
            lemma_add_all(pipes_imports(v, ps.drop_last()), builtin_imports(n@));
        }
    }
}

proof fn lemma_bullet_imports(v: Seq<Seq<char>>, b: Bullet)
    requires
        no_repeats(v),
    ensures
        no_repeats(bullet_imports(v, b)),
{
    let r = match b.body {
        BulletBody::Builtin(name) => {
            lemma_add_all(v, builtin_imports(name@));
            add_all(v, builtin_imports(name@))
        },
        BulletBody::Natives(bs) => match first_backend(bs@, BackendV::Go) {
            Some(k) => {
                lemma_native_imports(v, bs@[k].code@, 7);
                native_imports(v, bs@[k].code@, 7)
            },
            None => v,
        },
        BulletBody::Pipes(ps) => {
            lemma_add_unique(v, "fmt"@);
            let v1 = if exists|k: int| 0 <= k < ps@.len() && expr_has_interp_flat(#[trigger] ps@[k].expr) {
                add_unique(v, "fmt"@)
            } else {
                v
            };
            lemma_pipes_imports(v1, ps@);
            pipes_imports(v1, ps@)
        },
    };
    lemma_add_unique(r, "golang.org/x/exp/constraints"@);
}

/// A generated Go file imports each package once.
pub proof fn law_imports_once(bs: Seq<Bullet>)
    ensures
        no_repeats(needed_imports(bs)),
    decreases bs.len(),
{
    if bs.len() > 0 {
        law_imports_once(bs.drop_last());
        lemma_bullet_imports(needed_imports(bs.drop_last()), bs.last());
    }
}

proof fn lemma_scan_types(seen: Seq<Seq<TyV>>, ts: Seq<TyV>)
    requires
        forall|i: int, j: int| 0 <= i < j < seen.len() ==> seen[i] != seen[j],
    ensures
        forall|i: int, j: int| 0 <= i < j < scan_types(seen, ts).len() ==> scan_types(seen, ts)[i] != scan_types(seen, ts)[j],
    decreases ts.len(),
{
    if ts.len() > 0 {
        lemma_scan_types(seen, ts.drop_last());
        let r = scan_types(seen, ts.drop_last());
        if let TyV::Tuple(inner) = ts.last() {
            if !r.contains(inner) {
                let out = r.push(inner);
                assert forall|i: int, j: int| 0 <= i < j < out.len() implies out[i] != out[j] by {
                    if j == out.len() - 1 {
                        assert(out[i] == r[i]);
                    }
                }
            }
        }
    }
}

proof fn lemma_scan_bullets(seen: Seq<Seq<TyV>>, bs: Seq<Bullet>)
    requires
        forall|i: int, j: int| 0 <= i < j < seen.len() ==> seen[i] != seen[j],
    ensures
        forall|i: int, j: int| 0 <= i < j < scan_bullets(seen, bs).len() ==> scan_bullets(seen, bs)[i] != scan_bullets(seen, bs)[j],
    decreases bs.len(),
{
    if bs.len() > 0 {
        lemma_scan_bullets(seen, bs.drop_last());
        lemma_scan_types(scan_bullets(seen, bs.drop_last()), bullet_types(bs.last()));
    }
}

/// Each tuple type of a project gets one named struct: none is listed twice.
pub proof fn law_tuples_once(files: Seq<(String, SourceFile)>)
    ensures
        forall|i: int, j: int| 0 <= i < j < project_tuples(files).len() ==> project_tuples(files)[i] != project_tuples(files)[j],
    decreases files.len(),
{
    if files.len() > 0 {
        law_tuples_once(files.drop_last());
        lemma_scan_bullets(project_tuples(files.drop_last()), files.last().1.bullets@);
    }
}

} // verus!
