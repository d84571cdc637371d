//! Code generation for Rust: expressions, function bodies, functions, and
//! the files of a generated crate.
use vstd::prelude::*;
use crate::ast::{
    Atom, Backend, BackendV, BinOp, BuType, Bullet, BulletBody, CallArg, EnumDef, Expr, NativeBlock, Param,
    Pipe, SourceFile, StructDef, TyV, int_decimal, nat_decimal,
};
use crate::rust_types::{bu_type_to_rust, rs_type};
use crate::stdlib::{fill, fill_template, emit_builtin, builtin_code, code_for, param_names};
use crate::text::{
    chars_of, first_at, lemma_first_at, find_char_in, var_ok, is_var_name, i64_to_string, lines_of,
    split_lines, trim_seq, trim_chars, usize_to_string,
};
use crate::validator::name_seq;
use crate::text::str_is;

verus! {

pub const RS_ASSERT: &'static str = "{ let __r = (\u{1}0); if !__r { eprintln!(\"[assert] failed: {}\", stringify!(\u{1}0)); } __r }";
pub const RS_ASSERT_EQ: &'static str = "{ let __l = \u{1}0; let __r = \u{1}1; let __ok = __l == __r; if !__ok { eprintln!(\"[assert_eq] expected {:?}, got {:?}\", __r, __l); } __ok }";
pub const RS_ASSERT_NE: &'static str = "{ let __l = \u{1}0; let __r = \u{1}1; let __ok = __l != __r; if !__ok { eprintln!(\"[assert_ne] expected values to differ, both were {:?}\", __l); } __ok }";

// ── What can be emitted ───────────────────────────────────────────────────────

/// Whether an atom can be written out: no bare `builtin::name` where an
/// expression is needed, and `assert_eq`/`assert_ne` with both sides.
pub open spec fn emit_ok_atom(a: Atom) -> bool
    decreases a,
{
    match a {
        Atom::BuiltinNoArgs(_) => false,
        Atom::Unary { rhs, .. } => emit_ok_atom(*rhs),
        Atom::BuiltinExpr { name, args } => if name@ == "assert"@ {
            args@.len() == 0 || emit_ok_expr(args@[0])
        } else if name@ == "assert_eq"@ || name@ == "assert_ne"@ {
            args@.len() >= 2 && emit_ok_expr(args@[0]) && emit_ok_expr(args@[1])
        } else {
            true
        },
        Atom::Index { idx, .. } => emit_ok_expr(*idx),
        Atom::Slice { from, to, .. } => emit_ok_expr(*from) && emit_ok_expr(*to),
        Atom::Closure { body, .. } => emit_ok_expr(*body),
        _ => true,
    }
}

pub open spec fn emit_ok_expr(e: Expr) -> bool
    decreases e,
{
    match e {
        Expr::Atom(a) => emit_ok_atom(a),
        Expr::BinOp(b) => emit_ok_atom(b.lhs) && emit_ok_atom(b.rhs),
        Expr::Tuple(es) => emit_ok_exprs(es@),
    }
}

pub open spec fn emit_ok_exprs(es: Seq<Expr>) -> bool
    decreases es,
{
    if es.len() == 0 {
        true
    } else {
        emit_ok_exprs(es.drop_last()) && emit_ok_expr(es.last())
    }
}

/// Whether an atom can be written out.
pub fn atom_emit_ok(a: &Atom) -> (r: bool)
    ensures
        r == emit_ok_atom(*a),
    decreases a,
{
    proof {
        reveal_strlit("assert");
        reveal_strlit("assert_eq");
        reveal_strlit("assert_ne");
    }
    match a {
        Atom::BuiltinNoArgs(_) => false,
        Atom::Unary { rhs, .. } => atom_emit_ok(rhs),
        Atom::BuiltinExpr { name, args } => {
            if str_is(name.as_str(), "assert") {
                args.len() == 0 || expr_emit_ok(&args[0])
            } else if str_is(name.as_str(), "assert_eq") || str_is(name.as_str(), "assert_ne") {
                args.len() >= 2 && expr_emit_ok(&args[0]) && expr_emit_ok(&args[1])
            } else {
                true
            }
        },
        Atom::Index { idx, .. } => expr_emit_ok(idx),
        Atom::Slice { from, to, .. } => expr_emit_ok(from) && expr_emit_ok(to),
        Atom::Closure { body, .. } => expr_emit_ok(body),
        _ => true,
    }
}

/// Whether an expression can be written out.
pub fn expr_emit_ok(e: &Expr) -> (r: bool)
    ensures
        r == emit_ok_expr(*e),
    decreases e,
{
    match e {
        Expr::Atom(a) => atom_emit_ok(a),
        Expr::BinOp(b) => atom_emit_ok(&b.lhs) && atom_emit_ok(&b.rhs),
        Expr::Tuple(es) => exprs_emit_ok(es),
    }
}

/// Whether every expression of a list can be written out.
pub fn exprs_emit_ok(es: &Vec<Expr>) -> (r: bool)
    ensures
        r == emit_ok_exprs(es@),
    decreases es,
{
    let mut ok = true;
    let mut i: usize = 0;
    proof {
        assert(es@.subrange(0, 0) =~= Seq::<Expr>::empty());
    }
    while i < es.len()
        invariant
            i <= es@.len(),
            ok == emit_ok_exprs(es@.subrange(0, i as int)),
        decreases es@.len() - i,
    {
        proof {
            assert(es@.subrange(0, i + 1).drop_last() =~= es@.subrange(0, i as int));
            assert(es@.subrange(0, i + 1).last() == es@[i as int]);
        }
        let b = expr_emit_ok(&es[i]);
        ok = ok && b;
        i = i + 1;
    }
    proof {
        assert(es@.subrange(0, es@.len() as int) =~= es@);
    }
    ok
}

fn pipes_can_emit(ps: &Vec<Pipe>) -> (r: bool)
    ensures
        r == pipes_emit_ok(ps@),
{
    let mut j: usize = 0;
    while j < ps.len()
        invariant
            j <= ps@.len(),
            forall|k: int| 0 <= k < j ==> pipe_emit_ok(#[trigger] ps@[k]),
        decreases ps@.len() - j,
    {
        let p = &ps[j];
        let bare = match &p.expr {
            Expr::Atom(Atom::BuiltinNoArgs(_)) => true,
            _ => false,
        };
        if !exprs_emit_ok(&p.inputs) || !(bare || expr_emit_ok(&p.expr)) {
            proof {
                assert(!pipe_emit_ok(ps@[j as int]));
            }
            return false;
        }
        j = j + 1;
    }
    true
}

/// Whether every function of a file can be written out.
pub fn file_can_emit(f: &SourceFile) -> (r: bool)
    ensures
        r == file_emit_ok(*f),
{
    let mut i: usize = 0;
    while i < f.bullets.len()
        invariant
            i <= f.bullets@.len(),
            forall|k: int| 0 <= k < i ==> body_emit_ok(#[trigger] f.bullets@[k].body),
        decreases f.bullets@.len() - i,
    {
        match &f.bullets[i].body {
            BulletBody::Pipes(ps) => {
                if !pipes_can_emit(ps) {
                    proof {
                        assert(!body_emit_ok(f.bullets@[i as int].body));
                    }
                    return false;
                }
            },
            _ => {},
        }
        i = i + 1;
    }
    true
}

pub proof fn lemma_emit_ok_exprs(es: Seq<Expr>)
    requires
        emit_ok_exprs(es),
    ensures
        forall|k: int| 0 <= k < es.len() ==> emit_ok_expr(#[trigger] es[k]),
    decreases es.len(),
{
    if es.len() > 0 {
        lemma_emit_ok_exprs(es.drop_last());
        assert forall|k: int| 0 <= k < es.len() implies emit_ok_expr(#[trigger] es[k]) by {
            if k < es.len() - 1 {
                assert(es.drop_last()[k] == es[k]);
            }
        }
    }
}

// ── Expressions ───────────────────────────────────────────────────────────────

/// Whether a string template names a variable in braces.
pub open spec fn interp_has_var(t: Seq<char>) -> bool
    decreases t.len(),
{
    match first_at(t, '{') {
        None => false,
        Some(o) => if 0 <= o < t.len() {
            let after = t.subrange(o + 1, t.len() as int);
            match first_at(after, '}') {
                None => false,
                Some(c) => if 0 <= c < after.len() {
                    var_ok(after.subrange(0, c)) || interp_has_var(after.subrange(c + 1, after.len() as int))
                } else {
                    false
                },
            }
        } else {
            false
        },
    }
}

pub fn has_interp_var(t: &str) -> (r: bool)
    ensures
        r == interp_has_var(t@),
{
    let v = chars_of(t);
    let n = v.len();
    let mut start: usize = 0;
    proof {
        assert(v@.subrange(0, n as int) =~= v@);
    }
    while start < n
        invariant
            start <= n,
            n == v@.len(),
            v@ == t@,
            interp_has_var(t@) == interp_has_var(v@.subrange(start as int, n as int)),
        decreases n - start,
    {
        let ghost cur = v@.subrange(start as int, n as int);
        proof {
            lemma_first_at(cur, '{');
        }
        let o = match find_char_in(v.as_slice(), '{', start, n) {
            Some(o) => o,
            None => { return false; },
        };
        let ghost after = cur.subrange((o - start) + 1, cur.len() as int);
        proof {
            assert(after =~= v@.subrange(o + 1, n as int));
            lemma_first_at(after, '}');
        }
        let c = match find_char_in(v.as_slice(), '}', o + 1, n) {
            Some(c) => c,
            None => { return false; },
        };
        proof {
            assert(after.subrange(0, (c - o - 1) as int) =~= v@.subrange(o + 1, c as int));
            assert(after.subrange((c - o - 1) + 1, after.len() as int) =~= v@.subrange(c + 1, n as int));
        }
        if is_var_name(&v, o + 1, c) {
            return true;
        }
        start = c + 1;
    }
    proof {
        assert(v@.subrange(n as int, n as int).len() == 0);
    }
    false
}

/// The arguments of a call, by name, joined by `, `.
pub open spec fn call_args_text(args: Seq<CallArg>) -> Seq<char>
    decreases args.len(),
{
    if args.len() == 0 {
        Seq::empty()
    } else {
        let last = match args.last() {
            CallArg::Value(s) => s@,
            CallArg::BulletRef(s) => s@,
        };
        if args.len() == 1 { last } else { call_args_text(args.drop_last()) + ", "@ + last }
    }
}

/// Names joined by a separator.
pub open spec fn joined(xs: Seq<Seq<char>>, sep: Seq<char>) -> Seq<char>
    decreases xs.len(),
{
    if xs.len() == 0 {
        Seq::empty()
    } else if xs.len() == 1 {
        xs[0]
    } else {
        joined(xs.drop_last(), sep) + sep + xs.last()
    }
}

/// Closure parameters as `name: Type`, joined by `, `.
pub open spec fn rs_param_list(ps: Seq<Param>) -> Seq<char> {
    joined(ps.map_values(|p: Param| p.name@ + ": "@ + rs_type(p.ty@)), ", "@)
}

/// The Rust text of an atom.
pub open spec fn rs_atom(a: Atom) -> Seq<char>
    decreases a,
{
    match a {
        Atom::Ident(s) => s@,
        Atom::Float(t) => t@,
        Atom::Integer(n) => int_decimal(n as int),
        Atom::StringLit(s) => "\""@ + s@ + "\""@,
        Atom::Interp(t) => if interp_has_var(t@) { "format!(\""@ + t@ + "\")"@ } else { "\""@ + t@ + "\""@ },
        Atom::Call { name, args } => name@ + "("@ + call_args_text(args@) + ")"@,
        Atom::BuiltinNoArgs(_) => Seq::empty(),
        Atom::BuiltinExpr { name, args } => if name@ == "assert"@ {
            let cond = if args@.len() > 0 { rs_expr(args@[0]) } else { Seq::empty() };
            fill(RS_ASSERT@, seq![cond], Seq::empty())
        } else if name@ == "assert_eq"@ && args@.len() >= 2 {
            fill(RS_ASSERT_EQ@, seq![rs_expr(args@[0]), rs_expr(args@[1])], Seq::empty())
        } else if name@ == "assert_ne"@ && args@.len() >= 2 {
            fill(RS_ASSERT_NE@, seq![rs_expr(args@[0]), rs_expr(args@[1])], Seq::empty())
        } else {
            "/* builtin::"@ + name@ + " not supported as expression */"@
        },
        Atom::Unary { op, rhs } => "("@ + op@ + rs_atom(*rhs) + ")"@,
        Atom::FieldAccess { base, fields } => base@ + "."@ + joined(name_seq(fields@), "."@),
        Atom::Index { base, idx } => base@ + ".chars().nth(("@ + rs_expr(*idx) + ") as usize).unwrap_or('\\0')"@,
        Atom::Slice { base, from, to } => base@ + ".chars().skip("@ + rs_expr(*from) + ").take(("@ + rs_expr(*to)
            + ") - ("@ + rs_expr(*from) + ")).collect::<String>()"@,
        Atom::EnumVariant { ty, variant } => ty@ + "::"@ + variant@,
        Atom::Closure { params, ret, body } => "|"@ + rs_param_list(params@) + "| -> "@ + rs_type(ret@) + " { "@
            + rs_expr(*body) + " }"@,
    }
}

/// The Rust text of an expression.
pub open spec fn rs_expr(e: Expr) -> Seq<char>
    decreases e,
{
    match e {
        Expr::Atom(a) => rs_atom(a),
        Expr::BinOp(b) => rs_atom(b.lhs) + " "@ + b.op@ + " "@ + rs_atom(b.rhs),
        Expr::Tuple(es) => "("@ + rs_exprs(es@) + ")"@,
    }
}

/// Expressions joined by `, `.
pub open spec fn rs_exprs(es: Seq<Expr>) -> Seq<char>
    decreases es,
{
    if es.len() == 0 {
        Seq::empty()
    } else if es.len() == 1 {
        rs_expr(es[0])
    } else {
        rs_exprs(es.drop_last()) + ", "@ + rs_expr(es.last())
    }
}

fn call_args(args: &Vec<CallArg>) -> (r: String)
    ensures
        r@ == call_args_text(args@),
{
    let mut r = String::new();
    let mut i: usize = 0;
    proof {
        assert(args@.subrange(0, 0) =~= Seq::<CallArg>::empty());
    }
    while i < args.len()
        invariant
            i <= args@.len(),
            r@ == call_args_text(args@.subrange(0, i as int)),
        decreases args@.len() - i,
    {
        proof {
            assert(args@.subrange(0, i + 1).drop_last() =~= args@.subrange(0, i as int));
            assert(args@.subrange(0, i + 1).last() == args@[i as int]);
        }
        if i > 0 {
            r.append(", ");
        }
        match &args[i] {
            CallArg::Value(s) => r.append(s.as_str()),
            CallArg::BulletRef(s) => r.append(s.as_str()),
        }
        i = i + 1;
    }
    proof {
        assert(args@.subrange(0, args@.len() as int) =~= args@);
    }
    r
}

/// Strings joined by a separator.
pub fn join_strings(xs: &Vec<String>, sep: &str) -> (r: String)
    ensures
        r@ == joined(name_seq(xs@), sep@),
{
    let mut r = String::new();
    let mut i: usize = 0;
    proof {
        assert(name_seq(xs@).subrange(0, 0) =~= Seq::<Seq<char>>::empty());
    }
    while i < xs.len()
        invariant
            i <= xs@.len(),
            r@ == joined(name_seq(xs@).subrange(0, i as int), sep@),
        decreases xs@.len() - i,
    {
        proof {
            assert(name_seq(xs@).subrange(0, i + 1).drop_last() =~= name_seq(xs@).subrange(0, i as int));
            assert(name_seq(xs@).subrange(0, i + 1).last() == xs@[i as int]@);
            if i == 0 {
                assert(name_seq(xs@).subrange(0, 1)[0] == xs@[0]@);
            }
        }
        if i > 0 {
            r.append(sep);
        }
        r.append(xs[i].as_str());
        i = i + 1;
    }
    proof {
        assert(name_seq(xs@).subrange(0, xs@.len() as int) =~= name_seq(xs@));
    }
    r
}

fn closure_params(ps: &Vec<Param>) -> (r: String)
    ensures
        r@ == rs_param_list(ps@),
{
    let mut parts: Vec<String> = Vec::new();
    let mut i: usize = 0;
    while i < ps.len()
        invariant
            i <= ps@.len(),
            name_seq(parts@) == ps@.subrange(0, i as int).map_values(|p: Param| p.name@ + ": "@ + rs_type(p.ty@)),
        decreases ps@.len() - i,
    {
        let mut s = ps[i].name.clone();
        s.append(": ");
        let t = bu_type_to_rust(&ps[i].ty);
        s.append(t.as_str());
        let ghost before = parts@;
        parts.push(s);
        proof {
            assert(name_seq(parts@) =~= name_seq(before).push(s@));
            assert(ps@.subrange(0, i + 1).map_values(|p: Param| p.name@ + ": "@ + rs_type(p.ty@))
                =~= ps@.subrange(0, i as int).map_values(|p: Param| p.name@ + ": "@ + rs_type(p.ty@)).push(s@));
        }
        i = i + 1;
    }
    proof {
        assert(ps@.subrange(0, ps@.len() as int) =~= ps@);
    }
    join_strings(&parts, ", ")
}

/// The Rust text of an atom.
pub fn emit_atom(a: &Atom) -> (r: String)
    requires
        emit_ok_atom(*a),
    ensures
        r@ == rs_atom(*a),
    decreases a, 1nat,
{
    match a {
        Atom::Ident(s) => s.clone(),
        Atom::Float(t) => t.clone(),
        Atom::Integer(n) => i64_to_string(*n),
        Atom::StringLit(s) => {
            let mut r = String::from_str("\"");
            r.append(s.as_str());
            r.append("\"");
            r
        },
        Atom::Interp(t) => {
            if has_interp_var(t.as_str()) {
                let mut r = String::from_str("format!(\"");
                r.append(t.as_str());
                r.append("\")");
                r
            } else {
                let mut r = String::from_str("\"");
                r.append(t.as_str());
                r.append("\"");
                r
            }
        },
        Atom::Call { name, args } => {
            let mut r = name.clone();
            r.append("(");
            let s = call_args(args);
            r.append(s.as_str());
            r.append(")");
            r
        },
        Atom::BuiltinNoArgs(_) => {
            proof {
                assert(false);
            }
            String::new()
        },
        Atom::BuiltinExpr { .. } => emit_builtin_expr(a),
        Atom::Unary { op, rhs } => {
            let mut r = String::from_str("(");
            r.append(op.as_str());
            let s = emit_atom(rhs);
            r.append(s.as_str());
            r.append(")");
            r
        },
        Atom::FieldAccess { base, fields } => {
            let mut r = base.clone();
            r.append(".");
            let s = join_strings(fields, ".");
            r.append(s.as_str());
            r
        },
        Atom::Index { base, idx } => {
            let mut r = base.clone();
            r.append(".chars().nth((");
            let s = emit_expr(idx);
            r.append(s.as_str());
            r.append(") as usize).unwrap_or('\\0')");
            r
        },
        Atom::Slice { base, from, to } => {
            let f = emit_expr(from);
            let t = emit_expr(to);
            let mut r = base.clone();
            r.append(".chars().skip(");
            r.append(f.as_str());
            r.append(").take((");
            r.append(t.as_str());
            r.append(") - (");
            r.append(f.as_str());
            r.append(")).collect::<String>()");
            r
        },
        Atom::EnumVariant { ty, variant } => {
            let mut r = ty.clone();
            r.append("::");
            r.append(variant.as_str());
            r
        },
        Atom::Closure { params, ret, body } => {
            let mut r = String::from_str("|");
            let ps = closure_params(params);
            r.append(ps.as_str());
            r.append("| -> ");
            let rt = bu_type_to_rust(ret);
            r.append(rt.as_str());
            r.append(" { ");
            let b = emit_expr(body);
            r.append(b.as_str());
            r.append(" }");
            r
        },
    }
}

fn emit_builtin_expr(a: &Atom) -> (r: String)
    requires
        emit_ok_atom(*a),
        a is BuiltinExpr,
    ensures
        r@ == rs_atom(*a),
    decreases a, 0nat,
{
    if let Atom::BuiltinExpr { name, args } = a {
        proof {
            reveal_strlit("assert");
            reveal_strlit("assert_eq");
            reveal_strlit("assert_ne");
            reveal_strlit("");
            assert(""@ =~= Seq::<char>::empty());
        }
        if str_is(name.as_str(), "assert") {
            let cond = if args.len() > 0 { emit_expr(&args[0]) } else { String::new() };
            let v: Vec<String> = vec![cond];
            proof {
                assert(name_seq(v@) =~= seq![cond@]);
            }
            return fill_template(RS_ASSERT, &v, "");
        }
        if (crate::text::str_is(name.as_str(), "assert_eq") || crate::text::str_is(name.as_str(), "assert_ne")) && args.len() >= 2 {
            let l = emit_expr(&args[0]);
            let rr = emit_expr(&args[1]);
            let v: Vec<String> = vec![l, rr];
            proof {
                assert(name_seq(v@) =~= seq![l@, rr@]);
            }
            if crate::text::str_is(name.as_str(), "assert_eq") {
                return fill_template(RS_ASSERT_EQ, &v, "");
            } else {
                return fill_template(RS_ASSERT_NE, &v, "");
            }
        }
        let mut r = String::from_str("/* builtin::");
        r.append(name.as_str());
        r.append(" not supported as expression */");
        r
    } else {
        String::new()
    }
}

/// The Rust text of an expression.
pub fn emit_expr(e: &Expr) -> (r: String)
    requires
        emit_ok_expr(*e),
    ensures
        r@ == rs_expr(*e),
    decreases e, 1nat,
{
    match e {
        Expr::Atom(a) => emit_atom(a),
        Expr::BinOp(b) => {
            let mut r = emit_atom(&b.lhs);
            r.append(" ");
            r.append(b.op.as_str());
            r.append(" ");
            let s = emit_atom(&b.rhs);
            r.append(s.as_str());
            r
        },
        Expr::Tuple(es) => {
            let mut r = String::from_str("(");
            let s = emit_exprs(es);
            r.append(s.as_str());
            r.append(")");
            r
        },
    }
}

/// Expressions joined by `, `.
pub fn emit_exprs(es: &Vec<Expr>) -> (r: String)
    requires
        emit_ok_exprs(es@),
    ensures
        r@ == rs_exprs(es@),
    decreases es, 1nat,
{
    proof {
        lemma_emit_ok_exprs(es@);
    }
    let mut r = String::new();
    let mut i: usize = 0;
    proof {
        assert(es@.subrange(0, 0) =~= Seq::<Expr>::empty());
    }
    while i < es.len()
        invariant
            i <= es@.len(),
            forall|k: int| 0 <= k < es@.len() ==> emit_ok_expr(#[trigger] es@[k]),
            r@ == rs_exprs(es@.subrange(0, i as int)),
        decreases es@.len() - i,
    {
        proof {
            assert(es@.subrange(0, i + 1).drop_last() =~= es@.subrange(0, i as int));
            assert(es@.subrange(0, i + 1).last() == es@[i as int]);
        }
        if i > 0 {
            r.append(", ");
        }
        let s = emit_expr(&es[i]);
        r.append(s.as_str());
        i = i + 1;
    }
    proof {
        assert(es@.subrange(0, es@.len() as int) =~= es@);
    }
    r
}

// ── Bodies ────────────────────────────────────────────────────────────────────

/// The names that a bare builtin is called with: each input that is a plain
/// name, else `__pipe_arg_<i>`.
pub open spec fn synth_names(ins: Seq<Expr>) -> Seq<Seq<char>> {
    Seq::new(ins.len(), |i: int| match ins[i] {
        Expr::Atom(Atom::Ident(s)) => s@,
        _ => "__pipe_arg_"@ + nat_decimal(i as nat),
    })
}

pub open spec fn unknown_tys(n: nat) -> Seq<TyV> {
    Seq::new(n, |i: int| TyV::Unknown)
}

/// Whether a bullet can be written out.
pub open spec fn pipe_emit_ok(p: Pipe) -> bool {
    &&& emit_ok_exprs(p.inputs@)
    &&& (p.expr matches Expr::Atom(Atom::BuiltinNoArgs(_)) || emit_ok_expr(p.expr))
}

pub open spec fn pipes_emit_ok(ps: Seq<Pipe>) -> bool {
    forall|k: int| 0 <= k < ps.len() ==> pipe_emit_ok(#[trigger] ps[k])
}

/// Whether a function body can be written out.
pub open spec fn body_emit_ok(body: BulletBody) -> bool {
    match body {
        BulletBody::Pipes(ps) => pipes_emit_ok(ps@),
        _ => true,
    }
}

/// The name of Rust's macro that stops a build with a message.
pub const ERR_MACRO: &'static str = "compile\u{5f}error!";

/// A call of that macro with a message.
pub open spec fn build_error(e: Seq<char>) -> Seq<char> {
    ERR_MACRO@ + "(\""@ + e + "\")"@
}

/// The Rust expression that a bullet computes.
pub open spec fn rs_pipe_expr(p: Pipe, b: BackendV) -> Seq<char> {
    match p.expr {
        Expr::Atom(Atom::BuiltinNoArgs(name)) => match code_for(name@, synth_names(p.inputs@), unknown_tys(p.inputs@.len()), b) {
            Ok(c) => c,
            Err(e) => build_error(e),
        },
        _ => {
            let base = rs_expr(p.expr);
            let ins = rs_exprs(p.inputs@);
            if ins.len() == 0 || p.expr matches Expr::Atom(Atom::Call { .. }) {
                base
            } else {
                base + "("@ + ins + ")"@
            }
        },
    }
}

pub open spec fn binding_or_blank(b: Option<String>) -> Seq<char> {
    match b {
        Some(s) => s@,
        None => "_"@,
    }
}

/// The statements of one bullet, given the expression it computes.
pub open spec fn rs_pipe_line(p: Pipe, last: bool, e: Seq<char>) -> Seq<char> {
    let b = binding_or_blank(p.binding);
    if last {
        if b == "_"@ || p.binding is None {
            "    "@ + e + ";\n"@
        } else {
            "    let "@ + b + " = "@ + e + ";\n"@ + "    "@ + b + "\n"@
        }
    } else if p.propagate {
        "    let "@ + b + " = "@ + e + "?;\n"@
    } else {
        "    let "@ + b + " = "@ + e + ";\n"@
    }
}

/// The statements of the first `n` bullets.
pub open spec fn rs_pipes(ps: Seq<Pipe>, b: BackendV, n: nat) -> Seq<char>
    decreases n,
{
    if n == 0 {
        Seq::empty()
    } else {
        rs_pipes(ps, b, (n - 1) as nat) + rs_pipe_line(ps[n - 1], n == ps.len(), rs_pipe_expr(ps[n - 1], b))
    }
}

/// An escape block's code, each line indented, blank lines kept blank.
pub open spec fn indented_lines(ls: Seq<Seq<char>>) -> Seq<char>
    decreases ls.len(),
{
    if ls.len() == 0 {
        Seq::empty()
    } else {
        indented_lines(ls.drop_last()) + if trim_seq(ls.last()).len() == 0 { "\n"@ } else { "    "@ + ls.last() + "\n"@ }
    }
}

/// Index of the first `@rust` block.
pub open spec fn first_backend(bs: Seq<NativeBlock>, b: BackendV) -> Option<int>
    decreases bs.len(),
{
    if bs.len() == 0 {
        None
    } else if bs[0].backend@ == b {
        Some(0)
    } else {
        match first_backend(bs.drop_first(), b) {
            Some(i) => Some(i + 1),
            None => None,
        }
    }
}

/// The escape block that a Rust build uses: the first `@rust` block, else
/// the first block.
pub open spec fn rs_natives(bs: Seq<NativeBlock>) -> Seq<char> {
    let k = match first_backend(bs, BackendV::Rust) {
        Some(i) => i,
        None => 0,
    };
    if bs.len() == 0 {
        Seq::empty()
    } else {
        match bs[k].backend@ {
            BackendV::Rust => indented_lines(lines_of(bs[k].code@)),
            BackendV::Unknown(kw) => "    "@ + build_error("'@"@ + kw + "' is not a supported backend"@) + "\n"@,
            _ => "    "@ + build_error("no @rust block provided for this function"@) + "\n"@,
        }
    }
}

/// The Rust statements of a function body.
pub open spec fn rs_body(body: BulletBody, params: Seq<Param>, b: BackendV) -> Seq<char> {
    match body {
        BulletBody::Pipes(ps) => rs_pipes(ps@, b, ps@.len()),
        BulletBody::Natives(bs) => rs_natives(bs@),
        BulletBody::Builtin(name) => match builtin_code(name@, params, b) {
            Ok(c) => "    "@ + c + "\n"@,
            Err(e) => "    "@ + build_error(e) + "\n"@,
        },
    }
}

pub(crate) fn synth_params(ins: &Vec<Expr>) -> (r: Vec<Param>)
    ensures
        param_names(r@) == synth_names(ins@),
        r@.map_values(|p: Param| p.ty@) == unknown_tys(ins@.len()),
{
    let mut r: Vec<Param> = Vec::new();
    let mut i: usize = 0;
    while i < ins.len()
        invariant
            i <= ins@.len(),
            param_names(r@) == synth_names(ins@).subrange(0, i as int),
            r@.map_values(|p: Param| p.ty@) == unknown_tys(i as nat),
        decreases ins@.len() - i,
    {
        let name = match &ins[i] {
            Expr::Atom(Atom::Ident(s)) => s.clone(),
            _ => {
                let mut n = String::from_str("__pipe_arg_");
                let k = usize_to_string(i);
                n.append(k.as_str());
                n
            },
        };
        let ghost before = r@;
        r.push(Param { name, ty: BuType::Unknown });
        proof {
            assert(r@.map_values(|p: Param| p.ty@) =~= before.map_values(|p: Param| p.ty@).push(TyV::Unknown));
            assert(param_names(r@) =~= param_names(before).push(name@));
            assert(synth_names(ins@).subrange(0, i + 1) =~= synth_names(ins@).subrange(0, i as int).push(name@));
            assert(r@.map_values(|p: Param| p.ty@) =~= unknown_tys((i + 1) as nat));
        }
        i = i + 1;
    }
    proof {
        assert(synth_names(ins@).subrange(0, ins@.len() as int) =~= synth_names(ins@));
    }
    r
}

fn pipe_expr(p: &Pipe, backend: &Backend) -> (r: String)
    requires
        pipe_emit_ok(*p),
    ensures
        r@ == rs_pipe_expr(*p, backend@),
{
    if let Expr::Atom(Atom::BuiltinNoArgs(name)) = &p.expr {
        let synth = synth_params(&p.inputs);
        match emit_builtin(name.as_str(), &synth, backend) {
            Ok(code) => code,
            Err(e) => {
                let mut r = String::from_str(ERR_MACRO);
                r.append("(\"");
                r.append(e.as_str());
                r.append("\")");
                r
            },
        }
    } else {
        let base = emit_expr(&p.expr);
        let ins = emit_exprs(&p.inputs);
        if ins.unicode_len() == 0 {
            return base;
        }
        if let Expr::Atom(Atom::Call { .. }) = &p.expr {
            return base;
        }
        let mut r = base;
        r.append("(");
        r.append(ins.as_str());
        r.append(")");
        r
    }
}

fn pipe_line(out: &mut String, p: &Pipe, last: bool, e: &str)
    ensures
        final(out)@ == old(out)@ + rs_pipe_line(*p, last, e@),
{
    let b: &str = match &p.binding {
        Some(s) => s.as_str(),
        None => "_",
    };
    proof {
        reveal_strlit("_");
    }
    if last {
        if crate::text::str_is(b, "_") || p.binding.is_none() {
            out.append("    ");
            out.append(e);
            out.append(";\n");
        } else {
            out.append("    let ");
            out.append(b);
            out.append(" = ");
            out.append(e);
            out.append(";\n");
            out.append("    ");
            out.append(b);
            out.append("\n");
        }
    } else if p.propagate {
        out.append("    let ");
        out.append(b);
        out.append(" = ");
        out.append(e);
        out.append("?;\n");
    } else {
        out.append("    let ");
        out.append(b);
        out.append(" = ");
        out.append(e);
        out.append(";\n");
    }
    proof {
        assert(final(out)@ =~= old(out)@ + rs_pipe_line(*p, last, e@));
    }
}

fn push_indented(out: &mut String, code: &str)
    ensures
        final(out)@ == old(out)@ + indented_lines(lines_of(code@)),
{
    let ls = split_lines(code);
    let ghost lv = ls@.map_values(|x: String| x@);
    let ghost o0 = out@;
    let mut i: usize = 0;
    proof {
        assert(lv.subrange(0, 0) =~= Seq::<Seq<char>>::empty());
        assert(o0 + Seq::<char>::empty() =~= o0);
    }
    while i < ls.len()
        invariant
            i <= ls@.len(),
            lv == ls@.map_values(|x: String| x@),
            out@ == o0 + indented_lines(lv.subrange(0, i as int)),
        decreases ls@.len() - i,
    {
        proof {
            assert(lv.subrange(0, i + 1).drop_last() =~= lv.subrange(0, i as int));
            assert(lv.subrange(0, i + 1).last() == ls@[i as int]@);
        }
        let v = chars_of(ls[i].as_str());
        proof {
            assert(v@.subrange(0, v@.len() as int) =~= v@);
        }
        let t = trim_chars(v.as_slice(), 0, v.len());
        let ghost before = out@;
        if t.unicode_len() == 0 {
            out.append("\n");
        } else {
            out.append("    ");
            out.append(ls[i].as_str());
            out.append("\n");
        }
        proof {
            let a = indented_lines(lv.subrange(0, i as int));
            assert(o0 + a + (if trim_seq(ls@[i as int]@).len() == 0 { "\n"@ } else { "    "@ + ls@[i as int]@ + "\n"@ })
                =~= out@);
        }
        i = i + 1;
    }
    proof {
        assert(lv.subrange(0, lv.len() as int) =~= lv);
    }
}

pub(crate) fn find_block(bs: &Vec<NativeBlock>, b: &Backend) -> (r: Option<usize>)
    ensures
        r matches Some(k) ==> first_backend(bs@, b@) == Some(k as int) && k < bs@.len(),
        r is None ==> first_backend(bs@, b@) is None,
{
    let mut i: usize = 0;
    proof {
        assert(bs@.subrange(0, bs@.len() as int) =~= bs@);
    }
    while i < bs.len()
        invariant
            i <= bs@.len(),
            first_backend(bs@, b@) == match first_backend(bs@.subrange(i as int, bs@.len() as int), b@) {
                Some(j) => Some(j + i),
                None => None,
            },
        decreases bs@.len() - i,
    {
        proof {
            let rest = bs@.subrange(i as int, bs@.len() as int);
            assert(rest[0] == bs@[i as int]);
            assert(rest.drop_first() =~= bs@.subrange(i + 1, bs@.len() as int));
        }
        if bs[i].backend.same(b) {
            return Some(i);
        }
        i = i + 1;
    }
    None
}

/// Writes the Rust statements of a function body.
pub fn emit_body(out: &mut String, body: &BulletBody, params: &Vec<Param>, backend: &Backend)
    requires
        body_emit_ok(*body),
    ensures
        final(out)@ == old(out)@ + rs_body(*body, params@, backend@),
{
    match body {
        BulletBody::Pipes(ps) => {
            let ghost o0 = out@;
            let n = ps.len();
            let mut i: usize = 0;
            proof {
                assert(o0 + Seq::<char>::empty() =~= o0);
            }
            while i < n
                invariant
                    n == ps@.len(),
                    i <= n,
                    pipes_emit_ok(ps@),
                    out@ == o0 + rs_pipes(ps@, backend@, i as nat),
                decreases n - i,
            {
                proof {
                    assert(pipe_emit_ok(ps@[i as int]));
                }
                let e = pipe_expr(&ps[i], backend);
                pipe_line(out, &ps[i], i + 1 == n, e.as_str());
                proof {
                    let a = rs_pipes(ps@, backend@, i as nat);
                    let l = rs_pipe_line(ps@[i as int], i + 1 == n, e@);
                    assert(o0 + a + l =~= o0 + (a + l));
                }
                i = i + 1;
            }
        },
        BulletBody::Natives(bs) => {
            if bs.len() == 0 {
                proof {
                    assert(out@ =~= out@ + Seq::<char>::empty());
                }
                return;
            }
            let rb = Backend::Rust;
            let k = match find_block(bs, &rb) {
                Some(k) => k,
                None => 0,
            };
            let ghost o0 = out@;
            match &bs[k].backend {
                Backend::Rust => push_indented(out, bs[k].code.as_str()),
                Backend::Unknown(kw) => {
                    out.append("    ");
                    out.append(ERR_MACRO);
                    out.append("(\"");
                    out.append("'@");
                    out.append(kw.as_str());
                    out.append("' is not a supported backend");
                    out.append("\")");
                    out.append("\n");
                    proof {
                        assert(out@ =~= o0 + ("    "@ + build_error("'@"@ + kw@ + "' is not a supported backend"@) + "\n"@));
                    }
                },
                _ => {
                    out.append("    ");
                    out.append(ERR_MACRO);
                    out.append("(\"");
                    out.append("no @rust block provided for this function");
                    out.append("\")");
                    out.append("\n");
                    proof {
                        assert(out@ =~= o0 + ("    "@ + build_error("no @rust block provided for this function"@) + "\n"@));
                    }
                },
            }
        },
        BulletBody::Builtin(name) => {
            match emit_builtin(name.as_str(), params, backend) {
                Ok(code) => {
                    let ghost o0 = out@;
                    out.append("    ");
                    out.append(code.as_str());
                    out.append("\n");
                    proof {
                        assert(out@ =~= o0 + ("    "@ + code@ + "\n"@));
                    }
                },
                Err(e) => {
                    let ghost o0 = out@;
                    out.append("    ");
                    out.append(ERR_MACRO);
                    out.append("(\"");
                    out.append(e.as_str());
                    out.append("\")");
                    out.append("\n");
                    proof {
                        assert(out@ =~= o0 + ("    "@ + build_error(e@) + "\n"@));
                    }
                },
            }
        },
    }
}

// ── Functions ─────────────────────────────────────────────────────────────────

pub open spec fn is_comparison_op(op: Seq<char>) -> bool {
    op == "<"@ || op == ">"@ || op == "<="@ || op == ">="@ || op == "=="@ || op == "!="@
}

/// Whether a bullet computes a comparison.
pub open spec fn pipe_compares(p: Pipe) -> bool {
    match p.expr {
        Expr::BinOp(b) => is_comparison_op(b.op@),
        _ => false,
    }
}

/// Whether some bullet computes a comparison.
pub open spec fn any_compares(ps: Seq<Pipe>) -> bool {
    exists|k: int| 0 <= k < ps.len() && pipe_compares(#[trigger] ps[k])
}

/// The trait bound of a generic function's type parameters.
pub open spec fn rs_bounds(func: Bullet) -> Seq<char> {
    match func.body {
        BulletBody::Pipes(ps) => if any_compares(ps@) { "PartialOrd + Clone"@ } else { "Clone"@ },
        _ => "Clone"@,
    }
}

pub open spec fn rs_ret(func: Bullet) -> Seq<char> {
    match func.output {
        Some(o) => rs_type(o.ty@),
        None => "()"@,
    }
}

/// The Rust text of a function, its `fn` preceded by `vis`.
pub open spec fn rs_fn_text(func: Bullet, b: BackendV, vis: Seq<char>) -> Seq<char> {
    let head = if func.type_params@.len() == 0 {
        vis + "fn "@ + func.name@ + "("@ + rs_param_list(func.params@) + ") -> "@ + rs_ret(func) + " {\n"@
    } else {
        let bounds = rs_bounds(func);
        vis + "fn "@ + func.name@ + "<"@ + joined(name_seq(func.type_params@).map_values(|t: Seq<char>| t + ": "@ + bounds), ", "@)
            + ">("@ + rs_param_list(func.params@) + ") -> "@ + rs_ret(func) + " {\n"@
    };
    head + rs_body(func.body, func.params@, b) + "}\n"@
}

/// The Rust text of a function of the library: every one is `pub`.
pub open spec fn rs_function(func: Bullet, b: BackendV) -> Seq<char> {
    rs_fn_text(func, b, "pub "@)
}

/// The Rust text of a helper in `main.bu`: `fn`, not `pub`.
pub open spec fn rs_helper_function(func: Bullet) -> Seq<char> {
    rs_fn_text(func, BackendV::Rust, Seq::empty())
}

/// The Rust `main`: no parameters, no return type.
pub open spec fn rs_main_function(func: Bullet) -> Seq<char> {
    "fn main() {\n"@ + rs_body(func.body, func.params@, BackendV::Rust) + "}\n"@
}

fn has_comparison(ps: &Vec<Pipe>) -> (r: bool)
    ensures
        r == any_compares(ps@),
{
    let mut i: usize = 0;
    while i < ps.len()
        invariant
            i <= ps@.len(),
            forall|k: int| 0 <= k < i ==> !pipe_compares(#[trigger] ps@[k]),
        decreases ps@.len() - i,
    {
        if let Expr::BinOp(b) = &ps[i].expr {
            let op = b.op.as_str();
            if crate::text::str_is(op, "<") || crate::text::str_is(op, ">") || crate::text::str_is(op, "<=")
                || crate::text::str_is(op, ">=") || crate::text::str_is(op, "==") || crate::text::str_is(op, "!=") {
                proof {
                    assert(pipe_compares(ps@[i as int]));
                }
                return true;
            }
        }
        i = i + 1;
    }
    false
}

/// The bound for a generic function: `PartialOrd + Clone` when its bullets
/// compare, `Clone` otherwise.
pub fn rust_generic_bounds(func: &Bullet) -> (r: &'static str)
    ensures
        r@ == rs_bounds(*func),
{
    match &func.body {
        BulletBody::Pipes(ps) => if has_comparison(ps) { "PartialOrd + Clone" } else { "Clone" },
        _ => "Clone",
    }
}

/// Whether every function of a file can be written out.
pub open spec fn file_emit_ok(f: SourceFile) -> bool {
    forall|k: int| 0 <= k < f.bullets@.len() ==> body_emit_ok(#[trigger] f.bullets@[k].body)
}

fn param_list(ps: &Vec<Param>) -> (r: String)
    ensures
        r@ == rs_param_list(ps@),
{
    closure_params(ps)
}

/// Writes a function; every function is `pub`.
pub fn emit_function(func: &Bullet, backend: &Backend) -> (r: String)
    requires
        body_emit_ok(func.body),
    ensures
        r@ == rs_function(*func, backend@),
{
    emit_fn_text(func, backend, "pub ")
}

/// Writes a helper of `main.bu`: `fn`, not `pub`.
pub fn emit_helper_function(func: &Bullet) -> (r: String)
    requires
        body_emit_ok(func.body),
    ensures
        r@ == rs_helper_function(*func),
{
    let rb = Backend::Rust;
    proof {
        reveal_strlit("");
        assert(""@ =~= Seq::<char>::empty());
    }
    emit_fn_text(func, &rb, "")
}

fn emit_fn_text(func: &Bullet, backend: &Backend, vis: &str) -> (r: String)
    requires
        body_emit_ok(func.body),
    ensures
        r@ == rs_fn_text(*func, backend@, vis@),
{
    let params = param_list(&func.params);
    let ret = match &func.output {
        Some(o) => bu_type_to_rust(&o.ty),
        None => String::from_str("()"),
    };
    let mut out = String::from_str(vis);
    out.append("fn ");
    out.append(func.name.as_str());
    if func.type_params.len() == 0 {
        out.append("(");
    } else {
        let bounds = rust_generic_bounds(func);
        let mut tps: Vec<String> = Vec::new();
        let mut i: usize = 0;
        while i < func.type_params.len()
            invariant
                i <= func.type_params@.len(),
                bounds@ == rs_bounds(*func),
                name_seq(tps@) == name_seq(func.type_params@).subrange(0, i as int).map_values(|t: Seq<char>| t + ": "@ + bounds@),
            decreases func.type_params@.len() - i,
        {
            let mut t = func.type_params[i].clone();
            t.append(": ");
            t.append(bounds);
            let ghost before = tps@;
            tps.push(t);
            proof {
                assert(name_seq(tps@) =~= name_seq(before).push(t@));
                assert(name_seq(func.type_params@).subrange(0, i + 1).map_values(|t: Seq<char>| t + ": "@ + bounds@)
                    =~= name_seq(func.type_params@).subrange(0, i as int).map_values(|t: Seq<char>| t + ": "@ + bounds@).push(t@));
            }
            i = i + 1;
        }
        proof {
            assert(name_seq(func.type_params@).subrange(0, func.type_params@.len() as int) =~= name_seq(func.type_params@));
        }
        out.append("<");
        let j = join_strings(&tps, ", ");
        out.append(j.as_str());
        out.append(">(");
    }
    out.append(params.as_str());
    out.append(") -> ");
    out.append(ret.as_str());
    out.append(" {\n");
    emit_body(&mut out, &func.body, &func.params, backend);
    out.append("}\n");
    proof {
        assert(out@ =~= rs_fn_text(*func, backend@, vis@));
    }
    out
}

/// Writes the Rust `main` of a program.
pub fn emit_main_function(func: &Bullet) -> (r: String)
    requires
        body_emit_ok(func.body),
    ensures
        r@ == rs_main_function(*func),
{
    let mut out = String::from_str("fn main() {\n");
    let rb = Backend::Rust;
    emit_body(&mut out, &func.body, &func.params, &rb);
    out.append("}\n");
    out
}

/// Each function of a file, each followed by a blank line.
pub open spec fn rs_functions(bs: Seq<Bullet>) -> Seq<char>
    decreases bs.len(),
{
    if bs.len() == 0 { Seq::empty() } else { rs_functions(bs.drop_last()) + rs_function(bs.last(), BackendV::Rust) + "\n"@ }
}

fn push_functions(out: &mut String, file: &SourceFile)
    requires
        file_emit_ok(*file),
    ensures
        final(out)@ == old(out)@ + rs_functions(file.bullets@),
{
    let ghost o0 = out@;
    let mut i: usize = 0;
    proof {
        assert(file.bullets@.subrange(0, 0) =~= Seq::<Bullet>::empty());
        assert(o0 + Seq::<char>::empty() =~= o0);
    }
    while i < file.bullets.len()
        invariant
            i <= file.bullets@.len(),
            file_emit_ok(*file),
            out@ == o0 + rs_functions(file.bullets@.subrange(0, i as int)),
        decreases file.bullets@.len() - i,
    {
        proof {
            assert(file.bullets@.subrange(0, i + 1).drop_last() =~= file.bullets@.subrange(0, i as int));
            assert(file.bullets@.subrange(0, i + 1).last() == file.bullets@[i as int]);
            assert(body_emit_ok(file.bullets@[i as int].body));
        }
        let rb = Backend::Rust;
        let f = emit_function(&file.bullets[i], &rb);
        out.append(f.as_str());
        out.append("\n");
        proof {
            let a = rs_functions(file.bullets@.subrange(0, i as int));
            assert(o0 + a + f@ + "\n"@ =~= o0 + (a + f@ + "\n"@));
        }
        i = i + 1;
    }
    proof {
        assert(file.bullets@.subrange(0, file.bullets@.len() as int) =~= file.bullets@);
    }
}

/// A module file of the generated crate.
pub fn emit_source(file: &SourceFile) -> (r: String)
    requires
        file_emit_ok(*file),
    ensures
        r@ == "#[allow(unused_imports)]\nuse crate::*;\n\n"@ + rs_functions(file.bullets@),
{
    let mut out = String::from_str("#[allow(unused_imports)]\nuse crate::*;\n\n");
    push_functions(&mut out, file);
    out
}

/// Only the functions, for a single file built on its own.
pub fn emit_bare_rs(file: &SourceFile) -> (r: String)
    requires
        file_emit_ok(*file),
    ensures
        r@ == rs_functions(file.bullets@),
{
    let mut out = String::new();
    push_functions(&mut out, file);
    proof {
        assert(out@ =~= rs_functions(file.bullets@));
    }
    out
}

pub open spec fn rs_fields(fs: Seq<crate::ast::Field>) -> Seq<char>
    decreases fs.len(),
{
    if fs.len() == 0 { Seq::empty() } else { rs_fields(fs.drop_last()) + "    pub "@ + fs.last().name@ + ": "@ + rs_type(fs.last().ty@) + ",\n"@ }
}

/// A struct of an inventory, in Rust.
pub fn emit_struct_rs(st: &StructDef) -> (r: String)
    ensures
        r@ == "#[derive(Debug, Clone)]\npub struct "@ + st.name@ + " {\n"@ + rs_fields(st.fields@) + "}\n"@,
{
    let mut out = String::from_str("#[derive(Debug, Clone)]\npub struct ");
    out.append(st.name.as_str());
    out.append(" {\n");
    let ghost o0 = out@;
    let mut i: usize = 0;
    proof {
        assert(st.fields@.subrange(0, 0) =~= Seq::<crate::ast::Field>::empty());
        assert(o0 + Seq::<char>::empty() =~= o0);
    }
    while i < st.fields.len()
        invariant
            i <= st.fields@.len(),
            out@ == o0 + rs_fields(st.fields@.subrange(0, i as int)),
        decreases st.fields@.len() - i,
    {
        proof {
            assert(st.fields@.subrange(0, i + 1).drop_last() =~= st.fields@.subrange(0, i as int));
            assert(st.fields@.subrange(0, i + 1).last() == st.fields@[i as int]);
        }
        let ghost before = out@;
        out.append("    pub ");
        out.append(st.fields[i].name.as_str());
        out.append(": ");
        let t = bu_type_to_rust(&st.fields[i].ty);
        out.append(t.as_str());
        out.append(",\n");
        proof {
            assert(out@ =~= o0 + rs_fields(st.fields@.subrange(0, i + 1)));
        }
        i = i + 1;
    }
    proof {
        assert(st.fields@.subrange(0, st.fields@.len() as int) =~= st.fields@);
    }
    out.append("}\n");
    out
}

pub open spec fn rs_variants(vs: Seq<crate::ast::Variant>) -> Seq<char>
    decreases vs.len(),
{
    if vs.len() == 0 { Seq::empty() } else { rs_variants(vs.drop_last()) + "    "@ + vs.last().name@ + ",\n"@ }
}

/// An enum of an inventory, in Rust.
pub fn emit_enum_rs(e: &EnumDef) -> (r: String)
    ensures
        r@ == "#[derive(Debug, Clone, PartialEq, Eq)]\npub enum "@ + e.name@ + " {\n"@ + rs_variants(e.variants@) + "}\n"@,
{
    let mut out = String::from_str("#[derive(Debug, Clone, PartialEq, Eq)]\npub enum ");
    out.append(e.name.as_str());
    out.append(" {\n");
    let ghost o0 = out@;
    let mut i: usize = 0;
    proof {
        assert(e.variants@.subrange(0, 0) =~= Seq::<crate::ast::Variant>::empty());
        assert(o0 + Seq::<char>::empty() =~= o0);
    }
    while i < e.variants.len()
        invariant
            i <= e.variants@.len(),
            out@ == o0 + rs_variants(e.variants@.subrange(0, i as int)),
        decreases e.variants@.len() - i,
    {
        proof {
            assert(e.variants@.subrange(0, i + 1).drop_last() =~= e.variants@.subrange(0, i as int));
            assert(e.variants@.subrange(0, i + 1).last() == e.variants@[i as int]);
        }
        out.append("    ");
        out.append(e.variants[i].name.as_str());
        out.append(",\n");
        proof {
            assert(out@ =~= o0 + rs_variants(e.variants@.subrange(0, i + 1)));
        }
        i = i + 1;
    }
    proof {
        assert(e.variants@.subrange(0, e.variants@.len() as int) =~= e.variants@);
    }
    out.append("}\n");
    out
}

/// The functions of `main.bu`: `main` as the program's entry, the others
/// as ordinary functions.
pub open spec fn rs_main_functions(bs: Seq<Bullet>) -> Seq<char>
    decreases bs.len(),
{
    if bs.len() == 0 {
        Seq::empty()
    } else {
        rs_main_functions(bs.drop_last()) + (if bs.last().name@ == "main"@ {
            rs_main_function(bs.last())
        } else {
            rs_helper_function(bs.last())
        }) + "\n"@
    }
}

/// `src/main.rs` from `main.bu`.
pub fn emit_main(file: &SourceFile, crate_name: &str) -> (r: String)
    requires
        file_emit_ok(*file),
    ensures
        r@ == "use "@ + crate_name@ + "::*;\n\n"@ + rs_main_functions(file.bullets@),
{
    let mut out = String::from_str("use ");
    out.append(crate_name);
    out.append("::*;\n\n");
    let ghost o0 = out@;
    let mut i: usize = 0;
    proof {
        assert(file.bullets@.subrange(0, 0) =~= Seq::<Bullet>::empty());
        assert(o0 + Seq::<char>::empty() =~= o0);
    }
    while i < file.bullets.len()
        invariant
            i <= file.bullets@.len(),
            file_emit_ok(*file),
            out@ == o0 + rs_main_functions(file.bullets@.subrange(0, i as int)),
        decreases file.bullets@.len() - i,
    {
        proof {
            assert(file.bullets@.subrange(0, i + 1).drop_last() =~= file.bullets@.subrange(0, i as int));
            assert(file.bullets@.subrange(0, i + 1).last() == file.bullets@[i as int]);
            assert(body_emit_ok(file.bullets@[i as int].body));
        }
        let func = &file.bullets[i];
        let f = if crate::text::str_is(func.name.as_str(), "main") {
            emit_main_function(func)
        } else {
            emit_helper_function(func)
        };
        out.append(f.as_str());
        out.append("\n");
        proof {
            let a = rs_main_functions(file.bullets@.subrange(0, i as int));
            assert(o0 + a + f@ + "\n"@ =~= o0 + (a + f@ + "\n"@));
        }
        i = i + 1;
    }
    proof {
        assert(file.bullets@.subrange(0, file.bullets@.len() as int) =~= file.bullets@);
    }
    out
}

/// `Cargo.toml` of a crate with both a program and a library.
pub fn emit_cargo_toml_with_main(crate_name: &str) -> (r: String)
    ensures
        r@ == "[package]\nname    = \""@ + crate_name@ + "\"\nversion = \"0.1.0\"\nedition = \"2021\"\n\n[[bin]]\nname = \""@
            + crate_name@ + "\"\npath = \"src/main.rs\"\n\n[lib]\nname = \""@ + crate_name@
            + "\"\npath = \"src/lib.rs\"\n\n[dependencies]\n"@,
{
    let mut r = String::from_str("[package]\nname    = \"");
    r.append(crate_name);
    r.append("\"\nversion = \"0.1.0\"\nedition = \"2021\"\n\n[[bin]]\nname = \"");
    r.append(crate_name);
    r.append("\"\npath = \"src/main.rs\"\n\n[lib]\nname = \"");
    r.append(crate_name);
    r.append("\"\npath = \"src/lib.rs\"\n\n[dependencies]\n");
    r
}

/// `Cargo.toml` of a library crate.
pub fn emit_cargo_toml(crate_name: &str) -> (r: String)
    ensures
        r@ == "[package]\nname    = \""@ + crate_name@ + "\"\nversion = \"0.1.0\"\nedition = \"2021\"\n\n[dependencies]\n"@,
{
    let mut r = String::from_str("[package]\nname    = \"");
    r.append(crate_name);
    r.append("\"\nversion = \"0.1.0\"\nedition = \"2021\"\n\n[dependencies]\n");
    r
}

pub open spec fn mod_lines(ms: Seq<Seq<char>>, pre: Seq<char>, post: Seq<char>) -> Seq<char>
    decreases ms.len(),
{
    if ms.len() == 0 { Seq::empty() } else { mod_lines(ms.drop_last(), pre, post) + pre + ms.last() + post }
}

/// `pub mod m;` for each child module, then, if any, a blank line and
/// `pub use m::*;` for each.
pub open spec fn rs_mods(ms: Seq<Seq<char>>) -> Seq<char> {
    mod_lines(ms, "pub mod "@, ";\n"@) + if ms.len() > 0 { "\n"@ + mod_lines(ms, "pub use "@, "::*;\n"@) } else { Seq::empty() }
}

fn push_mod_lines(out: &mut String, ms: &Vec<String>, pre: &str, post: &str)
    ensures
        final(out)@ == old(out)@ + mod_lines(name_seq(ms@), pre@, post@),
{
    let ghost o0 = out@;
    let mut i: usize = 0;
    proof {
        assert(name_seq(ms@).subrange(0, 0) =~= Seq::<Seq<char>>::empty());
        assert(o0 + Seq::<char>::empty() =~= o0);
    }
    while i < ms.len()
        invariant
            i <= ms@.len(),
            out@ == o0 + mod_lines(name_seq(ms@).subrange(0, i as int), pre@, post@),
        decreases ms@.len() - i,
    {
        proof {
            assert(name_seq(ms@).subrange(0, i + 1).drop_last() =~= name_seq(ms@).subrange(0, i as int));
            assert(name_seq(ms@).subrange(0, i + 1).last() == ms@[i as int]@);
        }
        out.append(pre);
        out.append(ms[i].as_str());
        out.append(post);
        proof {
            assert(out@ =~= o0 + mod_lines(name_seq(ms@).subrange(0, i + 1), pre@, post@));
        }
        i = i + 1;
    }
    proof {
        assert(name_seq(ms@).subrange(0, ms@.len() as int) =~= name_seq(ms@));
    }
}

fn push_mods(out: &mut String, ms: &Vec<String>)
    ensures
        final(out)@ == old(out)@ + rs_mods(name_seq(ms@)),
{
    let ghost o0 = out@;
    push_mod_lines(out, ms, "pub mod ", ";\n");
    if ms.len() > 0 {
        out.append("\n");
        push_mod_lines(out, ms, "pub use ", "::*;\n");
    }
    proof {
        assert(out@ =~= o0 + rs_mods(name_seq(ms@)));
    }
}

/// `mod.rs` of a folder: its child modules, declared and re-exported.
pub fn emit_mod_rs(child_modules: &Vec<String>) -> (r: String)
    ensures
        r@ == rs_mods(name_seq(child_modules@)),
{
    let mut out = String::new();
    push_mods(&mut out, child_modules);
    proof {
        assert(out@ =~= rs_mods(name_seq(child_modules@)));
    }
    out
}

pub open spec fn rs_structs(ss: Seq<StructDef>) -> Seq<char>
    decreases ss.len(),
{
    if ss.len() == 0 {
        Seq::empty()
    } else {
        rs_structs(ss.drop_last()) + "#[derive(Debug, Clone)]\npub struct "@ + ss.last().name@ + " {\n"@
            + rs_fields(ss.last().fields@) + "}\n"@ + "\n"@
    }
}

pub open spec fn rs_enums(es: Seq<EnumDef>) -> Seq<char>
    decreases es.len(),
{
    if es.len() == 0 {
        Seq::empty()
    } else {
        rs_enums(es.drop_last()) + "#[derive(Debug, Clone, PartialEq, Eq)]\npub enum "@ + es.last().name@ + " {\n"@
            + rs_variants(es.last().variants@) + "}\n"@ + "\n"@
    }
}

/// `lib.rs` of the generated crate: the root's structs and enums, then its
/// child modules.
pub fn emit_lib_rs(child_modules: &Vec<String>, structs: &Vec<StructDef>, enums: &Vec<EnumDef>) -> (r: String)
    ensures
        r@ == "#![allow(unused_imports)]\n\n"@ + rs_structs(structs@) + rs_enums(enums@) + rs_mods(name_seq(child_modules@)),
{
    let mut out = String::from_str("#![allow(unused_imports)]\n\n");
    let ghost o0 = out@;
    let mut i: usize = 0;
    proof {
        assert(structs@.subrange(0, 0) =~= Seq::<StructDef>::empty());
        assert(o0 + Seq::<char>::empty() =~= o0);
    }
    while i < structs.len()
        invariant
            i <= structs@.len(),
            out@ == o0 + rs_structs(structs@.subrange(0, i as int)),
        decreases structs@.len() - i,
    {
        proof {
            assert(structs@.subrange(0, i + 1).drop_last() =~= structs@.subrange(0, i as int));
            assert(structs@.subrange(0, i + 1).last() == structs@[i as int]);
        }
        let t = emit_struct_rs(&structs[i]);
        out.append(t.as_str());
        out.append("\n");
        proof {
            assert(out@ =~= o0 + rs_structs(structs@.subrange(0, i + 1)));
        }
        i = i + 1;
    }
    proof {
        assert(structs@.subrange(0, structs@.len() as int) =~= structs@);
    }
    let ghost o1 = out@;
    let mut j: usize = 0;
    proof {
        assert(enums@.subrange(0, 0) =~= Seq::<EnumDef>::empty());
        assert(o1 + Seq::<char>::empty() =~= o1);
    }
    while j < enums.len()
        invariant
            j <= enums@.len(),
            out@ == o1 + rs_enums(enums@.subrange(0, j as int)),
        decreases enums@.len() - j,
    {
        proof {
            assert(enums@.subrange(0, j + 1).drop_last() =~= enums@.subrange(0, j as int));
            assert(enums@.subrange(0, j + 1).last() == enums@[j as int]);
        }
        let t = emit_enum_rs(&enums[j]);
        out.append(t.as_str());
        out.append("\n");
        proof {
            assert(out@ =~= o1 + rs_enums(enums@.subrange(0, j + 1)));
        }
        j = j + 1;
    }
    proof {
        assert(enums@.subrange(0, enums@.len() as int) =~= enums@);
    }
    push_mods(&mut out, child_modules);
    proof {
        assert(out@ =~= "#![allow(unused_imports)]\n\n"@ + rs_structs(structs@) + rs_enums(enums@) + rs_mods(name_seq(child_modules@)));
    }
    out
}


/// A slice `base[from:to]` is written as a character iterator over `base`
/// that skips `from` characters and then takes `(to) - (from)` of them, so
/// that the slice holds `to - from` characters.
pub proof fn law_slice_takes_difference(a: Atom)
    requires
        a is Slice,
    ensures
        ({
            let base = a->Slice_base;
            let from = rs_expr(*a->Slice_from);
            let to = rs_expr(*a->Slice_to);
            let count = "("@ + to + ") - ("@ + from + ")"@;
            rs_atom(a) == base@ + ".chars()"@ + ".skip("@ + from + ")"@ + ".take("@ + count + ")"@
                + ".collect::<String>()"@
        }),
{
    reveal_strlit(".chars()");
    reveal_strlit(".skip(");
    reveal_strlit(")");
    reveal_strlit(".take(");
    reveal_strlit("(");
    reveal_strlit(") - (");
    reveal_strlit(".collect::<String>()");
    reveal_strlit(".chars().skip(");
    reveal_strlit(").take((");
    reveal_strlit(")).collect::<String>()");
    let base = a->Slice_base;
    let from = rs_expr(*a->Slice_from);
    let to = rs_expr(*a->Slice_to);
    let count = "("@ + to + ") - ("@ + from + ")"@;
    assert(rs_atom(a) =~= base@ + ".chars()"@ + ".skip("@ + from + ")"@ + ".take("@ + count + ")"@
        + ".collect::<String>()"@);
}

} // verus!
