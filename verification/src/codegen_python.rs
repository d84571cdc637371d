//! Code generation for Python: expressions, function bodies, functions, and
//! the module files of a generated package. Every function becomes a
//! module-level `def`.
use vstd::prelude::*;
use crate::ast::{
    Atom, Backend, BackendV, Bullet, BulletBody, CallArg, EnumDef, Expr, NativeBlock, Param, Pipe, SourceFile,
    StructDef, Field, Variant, int_decimal, nat_decimal, backend_keyword,
};
use crate::python_types::{py_type, py_ok, bu_type_to_python, type_py_ok};
use crate::codegen_go::{
    go_ok_atom, go_ok_expr, go_ok_exprs, lemma_go_ok_exprs, natives_ok, native_lines, indent_base, push_native,
    expr_go_ok, natives_can_emit,
};
use crate::codegen_rs::{joined, join_strings, first_backend, find_block, call_args_text, binding_or_blank};
use crate::stdlib::{fill, fill_template, emit_builtin, builtin_code, py_esc, py_esc_spec};
use crate::text::{i64_to_string, str_is, lines_of, usize_to_string};
use crate::validator::name_seq;

verus! {

pub const PY_ASSERT: &'static str = "(lambda __r: __r if __r else [__import__('sys').stderr.write('[assert] failed\\n'), __r][-1])(\u{1}0)";
pub const PY_ASSERT_EQ: &'static str = "(lambda __l, __r: __l == __r if __l == __r else [__import__('sys').stderr.write(f'[assert_eq] expected {__r!r}, got {__l!r}\\n'), False][-1])(\u{1}0, \u{1}1)";
pub const PY_ASSERT_NE: &'static str = "(lambda __l, __r: __l != __r if __l != __r else [__import__('sys').stderr.write(f'[assert_ne] expected values to differ, both were {__l!r}\\n'), False][-1])(\u{1}0, \u{1}1)";

pub const PY_HEADER: &'static str = "from __future__ import annotations\nfrom typing import Any, Callable, Optional, List, Tuple, Dict\n";

// ── Expressions ───────────────────────────────────────────────────────────────

/// Python spells the boolean operators as words.
pub open spec fn py_op(op: Seq<char>) -> Seq<char> {
    if op == "&&"@ {
        "and"@
    } else if op == "||"@ {
        "or"@
    } else {
        op
    }
}

/// Closure parameters by name, Python keywords escaped, joined by `, `.
pub open spec fn py_closure_params(ps: Seq<Param>) -> Seq<char> {
    joined(ps.map_values(|p: Param| py_esc_spec(p.name@)), ", "@)
}

/// The Python text of an atom.
pub open spec fn py_atom(a: Atom) -> Seq<char>
    decreases a,
{
    match a {
        Atom::Ident(s) => s@,
        Atom::Integer(n) => int_decimal(n as int),
        Atom::Float(t) => t@,
        Atom::StringLit(s) => "\""@ + s@ + "\""@,
        Atom::Interp(t) => "f\""@ + t@ + "\""@,
        Atom::Call { name, args } => name@ + "("@ + call_args_text(args@) + ")"@,
        Atom::BuiltinNoArgs(_) => Seq::empty(),
        Atom::BuiltinExpr { name, args } => if name@ == "assert"@ && args@.len() >= 1 {
            fill(PY_ASSERT@, seq![py_expr(args@[0])], Seq::empty())
        } else if name@ == "assert_eq"@ && args@.len() >= 2 {
            fill(PY_ASSERT_EQ@, seq![py_expr(args@[0]), py_expr(args@[1])], Seq::empty())
        } else if name@ == "assert_ne"@ && args@.len() >= 2 {
            fill(PY_ASSERT_NE@, seq![py_expr(args@[0]), py_expr(args@[1])], Seq::empty())
        } else {
            "None  # builtin::"@ + name@ + " not supported as expression"@
        },
        Atom::Unary { op, rhs } => "("@ + (if op@ == "!"@ { "not "@ } else { op@ }) + py_atom(*rhs) + ")"@,
        Atom::FieldAccess { base, fields } => base@ + "."@ + joined(name_seq(fields@), "."@),
        Atom::Index { base, idx } => base@ + "["@ + py_expr(*idx) + "]"@,
        Atom::Slice { base, from, to } => base@ + "["@ + py_expr(*from) + ":"@ + py_expr(*to) + "]"@,
        Atom::EnumVariant { ty, variant } => ty@ + "."@ + variant@,
        Atom::Closure { params, body, .. } => "lambda "@ + py_closure_params(params@) + ": "@ + py_expr(*body),
    }
}

/// The Python text of an expression.
pub open spec fn py_expr(e: Expr) -> Seq<char>
    decreases e,
{
    match e {
        Expr::Atom(a) => py_atom(a),
        Expr::BinOp(b) => py_atom(b.lhs) + " "@ + py_op(b.op@) + " "@ + py_atom(b.rhs),
        Expr::Tuple(es) => "("@ + py_exprs(es@) + ")"@,
    }
}

/// Expressions joined by `, `.
pub open spec fn py_exprs(es: Seq<Expr>) -> Seq<char>
    decreases es,
{
    if es.len() == 0 {
        Seq::empty()
    } else if es.len() == 1 {
        py_expr(es[0])
    } else {
        py_exprs(es.drop_last()) + ", "@ + py_expr(es.last())
    }
}

fn py_call_args(args: &Vec<CallArg>) -> (r: String)
    ensures
        r@ == call_args_text(args@),
{
    let mut r = String::new();
    let mut i: usize = 0;
    proof {
        assert(args@.subrange(0, 0) =~= Seq::<CallArg>::empty());
    }
    while i < args.len()
        invariant
            i <= args@.len(),
            r@ == call_args_text(args@.subrange(0, i as int)),
        decreases args@.len() - i,
    {
        proof {
            assert(args@.subrange(0, i + 1).drop_last() =~= args@.subrange(0, i as int));
            assert(args@.subrange(0, i + 1).last() == args@[i as int]);
        }
        if i > 0 {
            r.append(", ");
        }
        match &args[i] {
            CallArg::Value(s) => r.append(s.as_str()),
            CallArg::BulletRef(s) => r.append(s.as_str()),
        }
        i = i + 1;
    }
    proof {
        assert(args@.subrange(0, args@.len() as int) =~= args@);
    }
    r
}

fn closure_params_py(ps: &Vec<Param>) -> (r: String)
    ensures
        r@ == py_closure_params(ps@),
{
    let mut parts: Vec<String> = Vec::new();
    let mut i: usize = 0;
    while i < ps.len()
        invariant
            i <= ps@.len(),
            name_seq(parts@) == ps@.subrange(0, i as int).map_values(|p: Param| py_esc_spec(p.name@)),
        decreases ps@.len() - i,
    {
        let s = py_esc(ps[i].name.as_str());
        let ghost before = parts@;
        parts.push(s);
        proof {
            assert(name_seq(parts@) =~= name_seq(before).push(s@));
            assert(ps@.subrange(0, i + 1).map_values(|p: Param| py_esc_spec(p.name@))
                =~= ps@.subrange(0, i as int).map_values(|p: Param| py_esc_spec(p.name@)).push(s@));
        }
        i = i + 1;
    }
    proof {
        assert(ps@.subrange(0, ps@.len() as int) =~= ps@);
    }
    join_strings(&parts, ", ")
}

/// The Python text of an atom.
pub fn emit_atom_py(a: &Atom) -> (r: String)
    requires
        go_ok_atom(*a),
    ensures
        r@ == py_atom(*a),
    decreases a, 1nat,
{
    match a {
        Atom::Ident(s) => s.clone(),
        Atom::Integer(n) => i64_to_string(*n),
        Atom::Float(t) => t.clone(),
        Atom::StringLit(s) => {
            let mut r = String::from_str("\"");
            r.append(s.as_str());
            r.append("\"");
            r
        },
        Atom::Interp(t) => {
            let mut r = String::from_str("f\"");
            r.append(t.as_str());
            r.append("\"");
            r
        },
        Atom::Call { name, args } => {
            let mut r = name.clone();
            r.append("(");
            let s = py_call_args(args);
            r.append(s.as_str());
            r.append(")");
            r
        },
        Atom::BuiltinNoArgs(_) => {
            proof {
                assert(false);
            }
            String::new()
        },
        Atom::BuiltinExpr { .. } => emit_builtin_expr_py(a),
        Atom::Unary { op, rhs } => {
            proof {
                reveal_strlit("!");
            }
            let mut r = String::from_str("(");
            if str_is(op.as_str(), "!") {
                r.append("not ");
            } else {
                r.append(op.as_str());
            }
            let s = emit_atom_py(rhs);
            r.append(s.as_str());
            r.append(")");
            r
        },
        Atom::FieldAccess { base, fields } => {
            let mut r = base.clone();
            r.append(".");
            let s = join_strings(fields, ".");
            r.append(s.as_str());
            r
        },
        Atom::Index { base, idx } => {
            let mut r = base.clone();
            r.append("[");
            let s = emit_expr_py(idx);
            r.append(s.as_str());
            r.append("]");
            r
        },
        Atom::Slice { base, from, to } => {
            let f = emit_expr_py(from);
            let t = emit_expr_py(to);
            let mut r = base.clone();
            r.append("[");
            r.append(f.as_str());
            r.append(":");
            r.append(t.as_str());
            r.append("]");
            r
        },
        Atom::EnumVariant { ty, variant } => {
            let mut r = ty.clone();
            r.append(".");
            r.append(variant.as_str());
            r
        },
        Atom::Closure { params, body, .. } => {
            let mut r = String::from_str("lambda ");
            let ps = closure_params_py(params);
            r.append(ps.as_str());
            r.append(": ");
            let b = emit_expr_py(body);
            r.append(b.as_str());
            r
        },
    }
}

fn emit_builtin_expr_py(a: &Atom) -> (r: String)
    requires
        go_ok_atom(*a),
        a is BuiltinExpr,
    ensures
        r@ == py_atom(*a),
    decreases a, 0nat,
{
    if let Atom::BuiltinExpr { name, args } = a {
        proof {
            reveal_strlit("assert");
            reveal_strlit("assert_eq");
            reveal_strlit("assert_ne");
            reveal_strlit("");
            assert(""@ =~= Seq::<char>::empty());
        }
        if str_is(name.as_str(), "assert") {
            let cond = emit_expr_py(&args[0]);
            let v: Vec<String> = vec![cond];
            proof {
                assert(name_seq(v@) =~= seq![cond@]);
            }
            return fill_template(PY_ASSERT, &v, "");
        }
        if (str_is(name.as_str(), "assert_eq") || str_is(name.as_str(), "assert_ne")) && args.len() >= 2 {
            let l = emit_expr_py(&args[0]);
            let rr = emit_expr_py(&args[1]);
            let v: Vec<String> = vec![l, rr];
            proof {
                assert(name_seq(v@) =~= seq![l@, rr@]);
            }
            if str_is(name.as_str(), "assert_eq") {
                return fill_template(PY_ASSERT_EQ, &v, "");
            } else {
                return fill_template(PY_ASSERT_NE, &v, "");
            }
        }
        let mut r = String::from_str("None  # builtin::");
        r.append(name.as_str());
        r.append(" not supported as expression");
        r
    } else {
        String::new()
    }
}

/// The Python text of an expression.
pub fn emit_expr_py(e: &Expr) -> (r: String)
    requires
        go_ok_expr(*e),
    ensures
        r@ == py_expr(*e),
    decreases e, 1nat,
{
    match e {
        Expr::Atom(a) => emit_atom_py(a),
        Expr::BinOp(b) => {
            proof {
                reveal_strlit("&&");
                reveal_strlit("||");
            }
            let mut r = emit_atom_py(&b.lhs);
            r.append(" ");
            if str_is(b.op.as_str(), "&&") {
                r.append("and");
            } else if str_is(b.op.as_str(), "||") {
                r.append("or");
            } else {
                r.append(b.op.as_str());
            }
            r.append(" ");
            let s = emit_atom_py(&b.rhs);
            r.append(s.as_str());
            r
        },
        Expr::Tuple(es) => {
            let mut r = String::from_str("(");
            let s = emit_exprs_py(es);
            r.append(s.as_str());
            r.append(")");
            r
        },
    }
}

/// Expressions joined by `, `.
pub fn emit_exprs_py(es: &Vec<Expr>) -> (r: String)
    requires
        go_ok_exprs(es@),
    ensures
        r@ == py_exprs(es@),
    decreases es, 1nat,
{
    proof {
        lemma_go_ok_exprs(es@);
    }
    let mut r = String::new();
    let mut i: usize = 0;
    proof {
        assert(es@.subrange(0, 0) =~= Seq::<Expr>::empty());
    }
    while i < es.len()
        invariant
            i <= es@.len(),
            forall|k: int| 0 <= k < es@.len() ==> go_ok_expr(#[trigger] es@[k]),
            r@ == py_exprs(es@.subrange(0, i as int)),
        decreases es@.len() - i,
    {
        proof {
            assert(es@.subrange(0, i + 1).drop_last() =~= es@.subrange(0, i as int));
            assert(es@.subrange(0, i + 1).last() == es@[i as int]);
            if i == 0 {
                assert(es@.subrange(0, 1)[0] == es@[0]);
            }
        }
        if i > 0 {
            r.append(", ");
        }
        let s = emit_expr_py(&es[i]);
        r.append(s.as_str());
        i = i + 1;
    }
    proof {
        assert(es@.subrange(0, es@.len() as int) =~= es@);
    }
    r
}

// ── Function bodies ───────────────────────────────────────────────────────────

/// The statements of one bullet: the binding, a `None` check where it
/// propagates, and after the last one the return of its value.
pub open spec fn py_pipe_line(p: Pipe, last: bool) -> Seq<char> {
    let b = binding_or_blank(p.binding);
    "    "@ + b + " = "@ + py_expr(p.expr) + "\n"@
        + (if p.propagate { "    if "@ + b + " is None: return None\n"@ } else { Seq::empty() })
        + (if last { "    return "@ + b + "\n"@ } else { Seq::empty() })
}

pub open spec fn py_pipes(ps: Seq<Pipe>, n: nat) -> Seq<char>
    decreases n,
{
    if n == 0 {
        Seq::empty()
    } else {
        py_pipes(ps, (n - 1) as nat) + py_pipe_line(ps[n - 1], n == ps.len())
    }
}

/// The statements of a function made of escape blocks: the first `@python`
/// block, dedented; without one, a `raise` naming the first block's backend.
pub open spec fn py_natives(bs: Seq<NativeBlock>) -> Seq<char> {
    match first_backend(bs, BackendV::Python) {
        Some(k) => {
            let ls = lines_of(bs[k].code@);
            native_lines(ls, indent_base(ls), "    "@)
        },
        None => if bs.len() > 0 {
            "    raise NotImplementedError(\"'@"@ + backend_keyword(bs[0].backend@)
                + "' block cannot run in Python \u{2014} use '@python' instead\")\n"@
        } else {
            Seq::empty()
        },
    }
}

/// The Python statements of a function body.
pub open spec fn py_body(body: BulletBody, params: Seq<Param>) -> Seq<char> {
    match body {
        BulletBody::Pipes(ps) => if ps@.len() == 0 { "    pass\n"@ } else { py_pipes(ps@, ps@.len()) },
        BulletBody::Natives(bs) => py_natives(bs@),
        BulletBody::Builtin(name) => match builtin_code(name@, params, BackendV::Python) {
            Ok(c) => "    return "@ + c + "\n"@,
            Err(e) => "    raise NotImplementedError(\""@ + e + "\")\n"@,
        },
    }
}

/// Whether a function body can be written out in Python: every bullet's
/// expression is one that can, and a `@python` block can be dedented.
pub open spec fn py_body_ok(body: BulletBody) -> bool {
    match body {
        BulletBody::Pipes(ps) => forall|k: int| 0 <= k < ps@.len() ==> go_ok_expr(#[trigger] ps@[k].expr),
        BulletBody::Natives(bs) => match first_backend(bs@, BackendV::Python) {
            Some(k) => natives_ok(bs@[k].code@),
            None => true,
        },
        BulletBody::Builtin(_) => true,
    }
}

#[verifier::rlimit(40)]
fn py_pipe_line_exec(out: &mut String, p: &Pipe, last: bool)
    requires
        go_ok_expr(p.expr),
    ensures
        final(out)@ == old(out)@ + py_pipe_line(*p, last),
{
    let e = emit_expr_py(&p.expr);
    let b: &str = match &p.binding {
        Some(s) => s.as_str(),
        None => "_",
    };
    proof {
        reveal_strlit("_");
    }
    let ghost o0 = out@;
    let ghost bb = binding_or_blank(p.binding);
    let ghost pa: Seq<char> = "    "@ + bb + " = "@ + py_expr(p.expr) + "\n"@;
    let ghost pb: Seq<char> = if p.propagate { "    if "@ + bb + " is None: return None\n"@ } else { Seq::empty() };
    let ghost pc: Seq<char> = if last { "    return "@ + bb + "\n"@ } else { Seq::empty() };
    proof {
        assert(b@ == bb);
    }
    out.append("    ");
    out.append(b);
    out.append(" = ");
    out.append(e.as_str());
    out.append("\n");
    let ghost o1 = out@;
    proof {
        assert(o1 =~= o0 + pa);
    }
    if p.propagate {
        out.append("    if ");
        out.append(b);
        out.append(" is None: return None\n");
    }
    let ghost o2 = out@;
    proof {
        assert(o2 =~= o1 + pb);
    }
    if last {
        out.append("    return ");
        out.append(b);
        out.append("\n");
    }
    proof {
        assert(out@ =~= o2 + pc);
        assert(py_pipe_line(*p, last) == pa + pb + pc);
        assert(o0 + pa + pb + pc =~= o0 + (pa + pb + pc));
    }
}

/// Writes the Python statements of a function body.
pub fn emit_body_py(out: &mut String, body: &BulletBody, params: &Vec<Param>)
    requires
        py_body_ok(*body),
    ensures
        final(out)@ == old(out)@ + py_body(*body, params@),
{
    let ghost o0 = out@;
    match body {
        BulletBody::Pipes(ps) => {
            if ps.len() == 0 {
                out.append("    pass\n");
                return;
            }
            let n = ps.len();
            let mut i: usize = 0;
            proof {
                assert(o0 + Seq::<char>::empty() =~= o0);
            }
            while i < n
                invariant
                    n == ps@.len(),
                    i <= n,
                    forall|k: int| 0 <= k < ps@.len() ==> go_ok_expr(#[trigger] ps@[k].expr),
                    out@ == o0 + py_pipes(ps@, i as nat),
                decreases n - i,
            {
                proof {
                    assert(go_ok_expr(ps@[i as int].expr));
                }
                py_pipe_line_exec(out, &ps[i], i + 1 == n);
                proof {
                    let a = py_pipes(ps@, i as nat);
                    let l = py_pipe_line(ps@[i as int], i + 1 == n);
                    assert(o0 + a + l =~= o0 + (a + l));
                }
                i = i + 1;
            }
        },
        BulletBody::Natives(bs) => {
            let pb = Backend::Python;
            match find_block(bs, &pb) {
                Some(k) => push_native(out, bs[k].code.as_str(), "    "),
                None => {
                    if bs.len() > 0 {
                        out.append("    raise NotImplementedError(\"'@");
                        let kw = bs[0].backend.escape_keyword();
                        out.append(kw.as_str());
                        out.append("' block cannot run in Python \u{2014} use '@python' instead\")\n");
                        proof {
                            assert(out@ =~= o0 + ("    raise NotImplementedError(\"'@"@ + backend_keyword(bs@[0].backend@)
                                + "' block cannot run in Python \u{2014} use '@python' instead\")\n"@));
                        }
                    } else {
                        proof {
                            assert(out@ =~= out@ + Seq::<char>::empty());
                        }
                    }
                },
            }
        },
        BulletBody::Builtin(name) => {
            let pb = Backend::Python;
            match emit_builtin(name.as_str(), params, &pb) {
                Ok(code) => {
                    out.append("    return ");
                    out.append(code.as_str());
                    out.append("\n");
                    proof {
                        assert(out@ =~= o0 + ("    return "@ + code@ + "\n"@));
                    }
                },
                Err(e) => {
                    out.append("    raise NotImplementedError(\"");
                    out.append(e.as_str());
                    out.append("\")\n");
                    proof {
                        assert(out@ =~= o0 + ("    raise NotImplementedError(\""@ + e@ + "\")\n"@));
                    }
                },
            }
        },
    }
}

// ── Functions ─────────────────────────────────────────────────────────────────

/// A `TypeVar` declaration for each type parameter.
pub open spec fn py_type_vars(tps: Seq<Seq<char>>) -> Seq<char>
    decreases tps.len(),
{
    if tps.len() == 0 {
        Seq::empty()
    } else {
        py_type_vars(tps.drop_last()) + tps.last() + " = TypeVar('"@ + tps.last() + "')\n"@
    }
}

/// Parameters as `name: hint`, Python keywords escaped, joined by `, `.
pub open spec fn py_params_text(ps: Seq<Param>) -> Seq<char> {
    joined(ps.map_values(|p: Param| py_esc_spec(p.name@) + ": "@ + py_type(p.ty@)), ", "@)
}

/// A `def` for a function that declares its output.
pub open spec fn py_function(b: Bullet) -> Seq<char> {
    let ret = match b.output {
        Some(o) => py_type(o.ty@),
        None => Seq::empty(),
    };
    py_type_vars(name_seq(b.type_params@)) + "def "@ + b.name@ + "("@ + py_params_text(b.params@) + ") -> "@ + ret
        + ":\n"@ + py_body(b.body, b.params@)
}

pub open spec fn py_main_function(b: Bullet) -> Seq<char> {
    "def main() -> None:\n"@ + py_body(b.body, b.params@)
}

/// Whether a function can be a `def`: its body can be written out, it
/// declares its output, and its types can be translated.
pub open spec fn py_bullet_ok(b: Bullet) -> bool {
    &&& py_body_ok(b.body)
    &&& b.output matches Some(o) && py_ok(o.ty@)
    &&& forall|k: int| 0 <= k < b.params@.len() ==> py_ok(#[trigger] b.params@[k].ty@)
}

fn py_param_list(ps: &Vec<Param>) -> (r: String)
    requires
        forall|k: int| 0 <= k < ps@.len() ==> py_ok(#[trigger] ps@[k].ty@),
    ensures
        r@ == py_params_text(ps@),
{
    let mut parts: Vec<String> = Vec::new();
    let mut i: usize = 0;
    while i < ps.len()
        invariant
            i <= ps@.len(),
            forall|k: int| 0 <= k < ps@.len() ==> py_ok(#[trigger] ps@[k].ty@),
            name_seq(parts@) == ps@.subrange(0, i as int).map_values(|p: Param| py_esc_spec(p.name@) + ": "@ + py_type(p.ty@)),
        decreases ps@.len() - i,
    {
        proof {
            assert(py_ok(ps@[i as int].ty@));
        }
        let mut s = py_esc(ps[i].name.as_str());
        s.append(": ");
        let t = bu_type_to_python(&ps[i].ty);
        s.append(t.as_str());
        let ghost before = parts@;
        parts.push(s);
        proof {
            assert(name_seq(parts@) =~= name_seq(before).push(s@));
            assert(ps@.subrange(0, i + 1).map_values(|p: Param| py_esc_spec(p.name@) + ": "@ + py_type(p.ty@))
                =~= ps@.subrange(0, i as int).map_values(|p: Param| py_esc_spec(p.name@) + ": "@ + py_type(p.ty@)).push(s@));
        }
        i = i + 1;
    }
    proof {
        assert(ps@.subrange(0, ps@.len() as int) =~= ps@);
    }
    join_strings(&parts, ", ")
}

fn push_type_vars(out: &mut String, tps: &Vec<String>)
    ensures
        final(out)@ == old(out)@ + py_type_vars(name_seq(tps@)),
{
    let ghost o0 = out@;
    let mut i: usize = 0;
    proof {
        assert(name_seq(tps@).subrange(0, 0) =~= Seq::<Seq<char>>::empty());
        assert(o0 + Seq::<char>::empty() =~= o0);
    }
    while i < tps.len()
        invariant
            i <= tps@.len(),
            out@ == o0 + py_type_vars(name_seq(tps@).subrange(0, i as int)),
        decreases tps@.len() - i,
    {
        proof {
            assert(name_seq(tps@).subrange(0, i + 1).drop_last() =~= name_seq(tps@).subrange(0, i as int));
            assert(name_seq(tps@).subrange(0, i + 1).last() == tps@[i as int]@);
        }
        out.append(tps[i].as_str());
        out.append(" = TypeVar('");
        out.append(tps[i].as_str());
        out.append("')\n");
        i = i + 1;
    }
    proof {
        assert(name_seq(tps@).subrange(0, tps@.len() as int) =~= name_seq(tps@));
    }
}

/// A function as a module-level `def`.
pub fn emit_function_py(func: &Bullet) -> (r: String)
    requires
        py_bullet_ok(*func),
    ensures
        r@ == py_function(*func),
{
    let mut out = String::new();
    push_type_vars(&mut out, &func.type_params);
    let params = py_param_list(&func.params);
    let ret = match &func.output {
        Some(o) => bu_type_to_python(&o.ty),
        None => String::new(),
    };
    out.append("def ");
    out.append(func.name.as_str());
    out.append("(");
    out.append(params.as_str());
    out.append(") -> ");
    out.append(ret.as_str());
    out.append(":\n");
    emit_body_py(&mut out, &func.body, &func.params);
    proof {
        assert(out@ =~= py_function(*func));
    }
    out
}

/// `main` as a `def` of no parameters that returns nothing.
pub fn emit_main_function_py(func: &Bullet) -> (r: String)
    requires
        py_body_ok(func.body),
    ensures
        r@ == py_main_function(*func),
{
    let mut out = String::from_str("def main() -> None:\n");
    emit_body_py(&mut out, &func.body, &func.params);
    out
}

// ── Files ─────────────────────────────────────────────────────────────────────

pub open spec fn py_functions(bs: Seq<Bullet>) -> Seq<char>
    decreases bs.len(),
{
    if bs.len() == 0 { Seq::empty() } else { py_functions(bs.drop_last()) + py_function(bs.last()) + "\n"@ }
}

pub open spec fn py_file_ok(bs: Seq<Bullet>) -> bool {
    forall|k: int| 0 <= k < bs.len() ==> py_bullet_ok(#[trigger] bs[k])
}

fn push_functions_py(out: &mut String, file: &SourceFile)
    requires
        py_file_ok(file.bullets@),
    ensures
        final(out)@ == old(out)@ + py_functions(file.bullets@),
{
    let ghost o0 = out@;
    let mut i: usize = 0;
    proof {
        assert(file.bullets@.subrange(0, 0) =~= Seq::<Bullet>::empty());
        assert(o0 + Seq::<char>::empty() =~= o0);
    }
    while i < file.bullets.len()
        invariant
            i <= file.bullets@.len(),
            py_file_ok(file.bullets@),
            out@ == o0 + py_functions(file.bullets@.subrange(0, i as int)),
        decreases file.bullets@.len() - i,
    {
        proof {
            assert(file.bullets@.subrange(0, i + 1).drop_last() =~= file.bullets@.subrange(0, i as int));
            assert(file.bullets@.subrange(0, i + 1).last() == file.bullets@[i as int]);
            assert(py_bullet_ok(file.bullets@[i as int]));
        }
        let f = emit_function_py(&file.bullets[i]);
        out.append(f.as_str());
        out.append("\n");
        i = i + 1;
    }
    proof {
        assert(file.bullets@.subrange(0, file.bullets@.len() as int) =~= file.bullets@);
    }
}

/// A source file as a Python module: the typing imports, then a `def` for
/// each function.
pub fn emit_source_py(file: &SourceFile) -> (r: String)
    requires
        py_file_ok(file.bullets@),
    ensures
        r@ == PY_HEADER@ + "\n"@ + py_functions(file.bullets@),
{
    let mut out = String::from_str(PY_HEADER);
    out.append("\n");
    push_functions_py(&mut out, file);
    out
}

/// Only the functions, for a single file converted on its own.
pub fn emit_bare_py(file: &SourceFile) -> (r: String)
    requires
        py_file_ok(file.bullets@),
    ensures
        r@ == py_functions(file.bullets@),
{
    let mut out = String::new();
    push_functions_py(&mut out, file);
    proof {
        assert(out@ =~= py_functions(file.bullets@));
    }
    out
}

pub open spec fn py_main_functions(bs: Seq<Bullet>) -> Seq<char>
    decreases bs.len(),
{
    if bs.len() == 0 {
        Seq::empty()
    } else {
        py_main_functions(bs.drop_last()) + (if bs.last().name@ == "main"@ {
            py_main_function(bs.last())
        } else {
            py_function(bs.last())
        }) + "\n"@
    }
}

pub open spec fn py_main_ok(bs: Seq<Bullet>) -> bool {
    forall|k: int| 0 <= k < bs.len() ==> if bs[k].name@ == "main"@ {
        py_body_ok(#[trigger] bs[k].body)
    } else {
        py_bullet_ok(bs[k])
    }
}

/// `main.bu` as the package's `__main__.py`, which runs `main()`.
pub fn emit_main_py(file: &SourceFile, _module_name: &str) -> (r: String)
    requires
        py_main_ok(file.bullets@),
    ensures
        r@ == "from __future__ import annotations\nfrom . import *\n\n"@ + py_main_functions(file.bullets@)
            + "if __name__ == \"__main__\":\n    main()\n"@,
{
    let mut out = String::from_str("from __future__ import annotations\nfrom . import *\n\n");
    let ghost o0 = out@;
    let mut i: usize = 0;
    proof {
        assert(file.bullets@.subrange(0, 0) =~= Seq::<Bullet>::empty());
        assert(o0 + Seq::<char>::empty() =~= o0);
        reveal_strlit("main");
    }
    while i < file.bullets.len()
        invariant
            i <= file.bullets@.len(),
            py_main_ok(file.bullets@),
            out@ == o0 + py_main_functions(file.bullets@.subrange(0, i as int)),
        decreases file.bullets@.len() - i,
    {
        proof {
            assert(file.bullets@.subrange(0, i + 1).drop_last() =~= file.bullets@.subrange(0, i as int));
            assert(file.bullets@.subrange(0, i + 1).last() == file.bullets@[i as int]);
            assert(py_body_ok(file.bullets@[i as int].body));
        }
        let b = &file.bullets[i];
        let f = if str_is(b.name.as_str(), "main") { emit_main_function_py(b) } else { emit_function_py(b) };
        out.append(f.as_str());
        out.append("\n");
        i = i + 1;
    }
    out.append("if __name__ == \"__main__\":\n    main()\n");
    proof {
        assert(file.bullets@.subrange(0, file.bullets@.len() as int) =~= file.bullets@);
    }
    out
}

// ── Inventory types and the package file ──────────────────────────────────────

pub open spec fn py_field_lines(fs: Seq<Field>) -> Seq<char>
    decreases fs.len(),
{
    if fs.len() == 0 {
        Seq::empty()
    } else {
        py_field_lines(fs.drop_last()) + "    "@ + fs.last().name@ + ": "@ + py_type(fs.last().ty@) + "\n"@
    }
}

/// A struct of an inventory as a `@dataclass`; one with no fields gets a
/// `pass`.
pub open spec fn py_struct(s: StructDef) -> Seq<char> {
    "@dataclass\nclass "@ + s.name@ + ":\n"@
        + if s.fields@.len() == 0 { "    pass\n"@ } else { py_field_lines(s.fields@) }
}

pub open spec fn py_struct_ok(s: StructDef) -> bool {
    forall|k: int| 0 <= k < s.fields@.len() ==> py_ok(#[trigger] s.fields@[k].ty@)
}

pub fn emit_struct_py(st: &StructDef) -> (r: String)
    requires
        py_struct_ok(*st),
    ensures
        r@ == py_struct(*st),
{
    let mut out = String::from_str("@dataclass\nclass ");
    out.append(st.name.as_str());
    out.append(":\n");
    if st.fields.len() == 0 {
        out.append("    pass\n");
        return out;
    }
    let ghost o0 = out@;
    let mut i: usize = 0;
    proof {
        assert(st.fields@.subrange(0, 0) =~= Seq::<Field>::empty());
        assert(o0 + Seq::<char>::empty() =~= o0);
    }
    while i < st.fields.len()
        invariant
            i <= st.fields@.len(),
            py_struct_ok(*st),
            out@ == o0 + py_field_lines(st.fields@.subrange(0, i as int)),
        decreases st.fields@.len() - i,
    {
        proof {
            assert(st.fields@.subrange(0, i + 1).drop_last() =~= st.fields@.subrange(0, i as int));
            assert(st.fields@.subrange(0, i + 1).last() == st.fields@[i as int]);
            assert(py_ok(st.fields@[i as int].ty@));
        }
        out.append("    ");
        out.append(st.fields[i].name.as_str());
        out.append(": ");
        let t = bu_type_to_python(&st.fields[i].ty);
        out.append(t.as_str());
        out.append("\n");
        i = i + 1;
    }
    proof {
        assert(st.fields@.subrange(0, st.fields@.len() as int) =~= st.fields@);
    }
    out
}

/// The first `n` variants as `NAME = i` lines, numbered from 0.
pub open spec fn py_variant_lines(vs: Seq<Variant>, n: nat) -> Seq<char>
    decreases n,
{
    if n == 0 {
        Seq::empty()
    } else {
        py_variant_lines(vs, (n - 1) as nat) + "    "@ + vs[n - 1].name@ + " = "@ + nat_decimal((n - 1) as nat) + "\n"@
    }
}

/// An enum of an inventory as an `Enum` whose variants are numbered in
/// order from 0; one with no variants gets a `pass`.
pub open spec fn py_enum(e: EnumDef) -> Seq<char> {
    "class "@ + e.name@ + "(Enum):\n"@
        + if e.variants@.len() == 0 { "    pass\n"@ } else { py_variant_lines(e.variants@, e.variants@.len()) }
}

pub fn emit_enum_py(e: &EnumDef) -> (r: String)
    ensures
        r@ == py_enum(*e),
{
    let mut out = String::from_str("class ");
    out.append(e.name.as_str());
    out.append("(Enum):\n");
    if e.variants.len() == 0 {
        out.append("    pass\n");
        return out;
    }
    let ghost o0 = out@;
    let mut i: usize = 0;
    proof {
        assert(o0 + Seq::<char>::empty() =~= o0);
    }
    while i < e.variants.len()
        invariant
            i <= e.variants@.len(),
            out@ == o0 + py_variant_lines(e.variants@, i as nat),
        decreases e.variants@.len() - i,
    {
        out.append("    ");
        out.append(e.variants[i].name.as_str());
        out.append(" = ");
        let k = usize_to_string(i);
        out.append(k.as_str());
        out.append("\n");
        i = i + 1;
    }
    out
}

pub open spec fn py_structs(ss: Seq<StructDef>) -> Seq<char>
    decreases ss.len(),
{
    if ss.len() == 0 { Seq::empty() } else { py_structs(ss.drop_last()) + py_struct(ss.last()) + "\n"@ }
}

pub open spec fn py_enums(es: Seq<EnumDef>) -> Seq<char>
    decreases es.len(),
{
    if es.len() == 0 { Seq::empty() } else { py_enums(es.drop_last()) + py_enum(es.last()) + "\n"@ }
}

pub open spec fn py_imports(ms: Seq<Seq<char>>) -> Seq<char>
    decreases ms.len(),
{
    if ms.len() == 0 { Seq::empty() } else { py_imports(ms.drop_last()) + "from ."@ + ms.last() + " import *\n"@ }
}

/// The package's `__init__.py`: the typing imports (and those of
/// `dataclass` and `Enum` where there are structs or enums), the structs,
/// the enums, and a star import of each child module.
pub open spec fn py_init(ms: Seq<Seq<char>>, ss: Seq<StructDef>, es: Seq<EnumDef>) -> Seq<char> {
    PY_HEADER@ + (if ss.len() > 0 { "from dataclasses import dataclass\n"@ } else { Seq::empty() })
        + (if es.len() > 0 { "from enum import Enum\n"@ } else { Seq::empty() }) + "\n"@
        + py_structs(ss) + py_enums(es) + py_imports(ms)
}

pub fn emit_init_py(child_modules: &Vec<String>, structs: &Vec<StructDef>, enums: &Vec<EnumDef>) -> (r: String)
    requires
        forall|k: int| 0 <= k < structs@.len() ==> py_struct_ok(#[trigger] structs@[k]),
    ensures
        r@ == py_init(name_seq(child_modules@), structs@, enums@),
{
    let mut out = String::from_str(PY_HEADER);
    let ghost h0 = out@;
    if structs.len() > 0 {
        out.append("from dataclasses import dataclass\n");
    }
    if enums.len() > 0 {
        out.append("from enum import Enum\n");
    }
    out.append("\n");
    proof {
        assert(out@ =~= PY_HEADER@ + (if structs@.len() > 0 { "from dataclasses import dataclass\n"@ } else { Seq::empty() })
            + (if enums@.len() > 0 { "from enum import Enum\n"@ } else { Seq::empty() }) + "\n"@);
    }
    let ghost o0 = out@;
    let mut i: usize = 0;
    proof {
        assert(structs@.subrange(0, 0) =~= Seq::<StructDef>::empty());
        assert(o0 + Seq::<char>::empty() =~= o0);
    }
    while i < structs.len()
        invariant
            i <= structs@.len(),
            forall|k: int| 0 <= k < structs@.len() ==> py_struct_ok(#[trigger] structs@[k]),
            out@ == o0 + py_structs(structs@.subrange(0, i as int)),
        decreases structs@.len() - i,
    {
        proof {
            assert(structs@.subrange(0, i + 1).drop_last() =~= structs@.subrange(0, i as int));
            assert(structs@.subrange(0, i + 1).last() == structs@[i as int]);
            assert(py_struct_ok(structs@[i as int]));
        }
        let t = emit_struct_py(&structs[i]);
        out.append(t.as_str());
        out.append("\n");
        i = i + 1;
    }
    let ghost o1 = out@;
    let mut j: usize = 0;
    proof {
        assert(structs@.subrange(0, structs@.len() as int) =~= structs@);
        assert(enums@.subrange(0, 0) =~= Seq::<EnumDef>::empty());
        assert(o1 + Seq::<char>::empty() =~= o1);
    }
    while j < enums.len()
        invariant
            j <= enums@.len(),
            out@ == o1 + py_enums(enums@.subrange(0, j as int)),
        decreases enums@.len() - j,
    {
        proof {
            assert(enums@.subrange(0, j + 1).drop_last() =~= enums@.subrange(0, j as int));
            assert(enums@.subrange(0, j + 1).last() == enums@[j as int]);
        }
        let t = emit_enum_py(&enums[j]);
        out.append(t.as_str());
        out.append("\n");
        j = j + 1;
    }
    let ghost o2 = out@;
    let mut m: usize = 0;
    proof {
        assert(enums@.subrange(0, enums@.len() as int) =~= enums@);
        assert(name_seq(child_modules@).subrange(0, 0) =~= Seq::<Seq<char>>::empty());
        assert(o2 + Seq::<char>::empty() =~= o2);
    }
    while m < child_modules.len()
        invariant
            m <= child_modules@.len(),
            out@ == o2 + py_imports(name_seq(child_modules@).subrange(0, m as int)),
        decreases child_modules@.len() - m,
    {
        proof {
            assert(name_seq(child_modules@).subrange(0, m + 1).drop_last() =~= name_seq(child_modules@).subrange(0, m as int));
            assert(name_seq(child_modules@).subrange(0, m + 1).last() == child_modules@[m as int]@);
        }
        out.append("from .");
        out.append(child_modules[m].as_str());
        out.append(" import *\n");
        m = m + 1;
    }
    proof {
        assert(name_seq(child_modules@).subrange(0, child_modules@.len() as int) =~= name_seq(child_modules@));
        assert(out@ =~= py_init(name_seq(child_modules@), structs@, enums@));
    }
    out
}

/// Whether a function body can be written out in Python.
pub fn py_body_can_emit(body: &BulletBody) -> (r: bool)
    ensures
        r == py_body_ok(*body),
{
    match body {
        BulletBody::Pipes(ps) => {
            let mut j: usize = 0;
            while j < ps.len()
                invariant
                    j <= ps@.len(),
                    *body == BulletBody::Pipes(*ps),
                    forall|k: int| 0 <= k < j ==> go_ok_expr(#[trigger] ps@[k].expr),
                decreases ps@.len() - j,
            {
                if !expr_go_ok(&ps[j].expr) {
                    proof {
                        assert(!go_ok_expr(ps@[j as int].expr));
                    }
                    return false;
                }
                j = j + 1;
            }
            true
        },
        BulletBody::Natives(bs) => match find_block(bs, &Backend::Python) {
            Some(k) => natives_can_emit(bs[k].code.as_str()),
            None => true,
        },
        BulletBody::Builtin(_) => true,
    }
}

fn params_py_ok(ps: &Vec<Param>) -> (r: bool)
    ensures
        r == forall|k: int| 0 <= k < ps@.len() ==> py_ok(#[trigger] ps@[k].ty@),
{
    let mut i: usize = 0;
    while i < ps.len()
        invariant
            i <= ps@.len(),
            forall|k: int| 0 <= k < i ==> py_ok(#[trigger] ps@[k].ty@),
        decreases ps@.len() - i,
    {
        if !type_py_ok(&ps[i].ty) {
            return false;
        }
        i = i + 1;
    }
    true
}

/// Whether a function can be written out in Python.
pub fn py_bullet_can_emit(b: &Bullet) -> (r: bool)
    ensures
        r == py_bullet_ok(*b),
{
    let out_ok = match &b.output {
        Some(o) => type_py_ok(&o.ty),
        None => false,
    };
    py_body_can_emit(&b.body) && out_ok && params_py_ok(&b.params)
}

/// Whether every function of a file can be written out in Python.
pub fn py_file_can_emit(bs: &Vec<Bullet>) -> (r: bool)
    ensures
        r == py_file_ok(bs@),
{
    let mut i: usize = 0;
    while i < bs.len()
        invariant
            i <= bs@.len(),
            forall|k: int| 0 <= k < i ==> py_bullet_ok(#[trigger] bs@[k]),
        decreases bs@.len() - i,
    {
        if !py_bullet_can_emit(&bs[i]) {
            return false;
        }
        i = i + 1;
    }
    true
}

/// Whether every function of `main.bu` can be written out in Python.
pub fn py_main_can_emit(bs: &Vec<Bullet>) -> (r: bool)
    ensures
        r == py_main_ok(bs@),
{
    proof {
        reveal_strlit("main");
    }
    let mut i: usize = 0;
    while i < bs.len()
        invariant
            i <= bs@.len(),
            forall|k: int| 0 <= k < i ==> if bs@[k].name@ == "main"@ {
                py_body_ok(#[trigger] bs@[k].body)
            } else {
                py_bullet_ok(bs@[k])
            },
        decreases bs@.len() - i,
    {
        let ok = if str_is(bs[i].name.as_str(), "main") {
            py_body_can_emit(&bs[i].body)
        } else {
            py_bullet_can_emit(&bs[i])
        };
        if !ok {
            return false;
        }
        i = i + 1;
    }
    true
}

/// Whether a struct's fields all have Python type hints.
pub fn py_struct_can_emit(st: &StructDef) -> (r: bool)
    ensures
        r == py_struct_ok(*st),
{
    let mut i: usize = 0;
    while i < st.fields.len()
        invariant
            i <= st.fields@.len(),
            forall|k: int| 0 <= k < i ==> py_ok(#[trigger] st.fields@[k].ty@),
        decreases st.fields@.len() - i,
    {
        if !type_py_ok(&st.fields[i].ty) {
            return false;
        }
        i = i + 1;
    }
    true
}

} // verus!
