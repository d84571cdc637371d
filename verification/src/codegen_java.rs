//! Code generation for Java: expressions, method bodies, methods, and the
//! class files of a generated project. Every function becomes a `public
//! static` method.
use vstd::prelude::*;
use crate::ast::{
    Atom, Backend, BackendV, Bullet, BulletBody, CallArg, EnumDef, Expr, NativeBlock, OutputDecl, Param, Pipe,
    SourceFile, StructDef, Field, Variant, int_decimal, backend_keyword,
};
use crate::java_types::{java_type, bu_type_to_java};
use crate::codegen_go::{
    go_ok_atom, go_ok_expr, go_ok_exprs, lemma_go_ok_exprs, interp_parts, interp_split, natives_ok,
    native_lines, indent_base, push_native, expr_go_ok, exprs_go_ok, natives_can_emit,
};
use crate::codegen_rs::{
    joined, join_strings, first_backend, find_block, call_args_text, synth_names, unknown_tys, synth_params,
};
use crate::codegen_go::{pascal, to_pascal_case};
use crate::stdlib::{fill, fill_template, emit_builtin, code_for, builtin_code};
use crate::text::{chars_of, i64_to_string, str_is, lines_of};
use crate::validator::name_seq;

verus! {

pub const JAVA_ASSERT: &'static str = "((java.util.function.BooleanSupplier)(() -> { boolean __r = (\u{1}0); if (!__r) System.err.println(\"[assert] failed\"); return __r; })).getAsBoolean()";
pub const JAVA_ASSERT_EQ: &'static str = "((java.util.function.BooleanSupplier)(() -> { var __l = (\u{1}0); var __r = (\u{1}1); boolean __ok = java.util.Objects.equals(__l, __r); if (!__ok) System.err.printf(\"[assert_eq] expected %s, got %s%n\", __r, __l); return __ok; })).getAsBoolean()";
pub const JAVA_ASSERT_NE: &'static str = "((java.util.function.BooleanSupplier)(() -> { var __l = (\u{1}0); var __r = (\u{1}1); boolean __ok = !java.util.Objects.equals(__l, __r); if (!__ok) System.err.printf(\"[assert_ne] both were %s%n\", __l); return __ok; })).getAsBoolean()";

// ── Expressions ───────────────────────────────────────────────────────────────

/// Closure parameters as `(Type) name`, joined by `, `.
pub open spec fn java_closure_params(ps: Seq<Param>) -> Seq<char> {
    joined(ps.map_values(|p: Param| "("@ + java_type(p.ty@) + ") "@ + p.name@), ", "@)
}

/// A float literal as Java reads a double: with a `d` where it has no `.`.
pub open spec fn java_float(t: Seq<char>) -> Seq<char> {
    if t.contains('.') { t } else { t + "d"@ }
}

/// The Java text of an atom.
pub open spec fn java_atom(a: Atom) -> Seq<char>
    decreases a,
{
    match a {
        Atom::Ident(s) => s@,
        Atom::Integer(n) => int_decimal(n as int),
        Atom::Float(t) => java_float(t@),
        Atom::StringLit(s) => "\""@ + s@ + "\""@,
        Atom::Interp(t) => {
            let p = interp_parts(t@, "%s"@);
            if p.1.len() == 0 {
                "\""@ + p.0 + "\""@
            } else {
                "String.format(\""@ + p.0 + "\", "@ + joined(p.1, ", "@) + ")"@
            }
        },
        Atom::Call { name, args } => name@ + "("@ + call_args_text(args@) + ")"@,
        Atom::BuiltinNoArgs(_) => Seq::empty(),
        Atom::BuiltinExpr { name, args } => if name@ == "assert"@ && args@.len() >= 1 {
            fill(JAVA_ASSERT@, seq![java_expr(args@[0])], Seq::empty())
        } else if name@ == "assert_eq"@ && args@.len() >= 2 {
            fill(JAVA_ASSERT_EQ@, seq![java_expr(args@[0]), java_expr(args@[1])], Seq::empty())
        } else if name@ == "assert_ne"@ && args@.len() >= 2 {
            fill(JAVA_ASSERT_NE@, seq![java_expr(args@[0]), java_expr(args@[1])], Seq::empty())
        } else {
            "/* builtin::"@ + name@ + " not supported as expression */"@
        },
        Atom::Unary { op, rhs } => "("@ + op@ + java_atom(*rhs) + ")"@,
        Atom::FieldAccess { base, fields } => base@ + "."@ + joined(name_seq(fields@), "."@),
        Atom::Index { base, idx } => "Character.toString("@ + base@ + ".charAt((int)("@ + java_expr(*idx) + ")))"@,
        Atom::Slice { base, from, to } => base@ + ".substring((int)("@ + java_expr(*from) + "), (int)("@ + java_expr(*to) + "))"@,
        Atom::EnumVariant { ty, variant } => ty@ + "."@ + variant@,
        Atom::Closure { params, body, .. } => "("@ + java_closure_params(params@) + ") -> "@ + java_expr(*body),
    }
}

/// The Java text of an expression.
pub open spec fn java_expr(e: Expr) -> Seq<char>
    decreases e,
{
    match e {
        Expr::Atom(a) => java_atom(a),
        Expr::BinOp(b) => java_atom(b.lhs) + " "@ + b.op@ + " "@ + java_atom(b.rhs),
        Expr::Tuple(es) => "new Object[]{"@ + java_exprs(es@) + "}"@,
    }
}

/// Expressions joined by `, `.
pub open spec fn java_exprs(es: Seq<Expr>) -> Seq<char>
    decreases es,
{
    if es.len() == 0 {
        Seq::empty()
    } else if es.len() == 1 {
        java_expr(es[0])
    } else {
        java_exprs(es.drop_last()) + ", "@ + java_expr(es.last())
    }
}

fn java_call_args(args: &Vec<CallArg>) -> (r: String)
    ensures
        r@ == call_args_text(args@),
{
    let mut r = String::new();
    let mut i: usize = 0;
    proof {
        assert(args@.subrange(0, 0) =~= Seq::<CallArg>::empty());
    }
    while i < args.len()
        invariant
            i <= args@.len(),
            r@ == call_args_text(args@.subrange(0, i as int)),
        decreases args@.len() - i,
    {
        proof {
            assert(args@.subrange(0, i + 1).drop_last() =~= args@.subrange(0, i as int));
            assert(args@.subrange(0, i + 1).last() == args@[i as int]);
        }
        if i > 0 {
            r.append(", ");
        }
        match &args[i] {
            CallArg::Value(s) => r.append(s.as_str()),
            CallArg::BulletRef(s) => r.append(s.as_str()),
        }
        i = i + 1;
    }
    proof {
        assert(args@.subrange(0, args@.len() as int) =~= args@);
    }
    r
}

fn closure_params_java(ps: &Vec<Param>) -> (r: String)
    ensures
        r@ == java_closure_params(ps@),
{
    let mut parts: Vec<String> = Vec::new();
    let mut i: usize = 0;
    while i < ps.len()
        invariant
            i <= ps@.len(),
            name_seq(parts@) == ps@.subrange(0, i as int).map_values(|p: Param| "("@ + java_type(p.ty@) + ") "@ + p.name@),
        decreases ps@.len() - i,
    {
        let mut s = String::from_str("(");
        let t = bu_type_to_java(&ps[i].ty);
        s.append(t.as_str());
        s.append(") ");
        s.append(ps[i].name.as_str());
        let ghost before = parts@;
        parts.push(s);
        proof {
            assert(name_seq(parts@) =~= name_seq(before).push(s@));
            assert(ps@.subrange(0, i + 1).map_values(|p: Param| "("@ + java_type(p.ty@) + ") "@ + p.name@)
                =~= ps@.subrange(0, i as int).map_values(|p: Param| "("@ + java_type(p.ty@) + ") "@ + p.name@).push(s@));
        }
        i = i + 1;
    }
    proof {
        assert(ps@.subrange(0, ps@.len() as int) =~= ps@);
    }
    join_strings(&parts, ", ")
}

/// The Java text of an atom.
pub fn emit_atom_java(a: &Atom) -> (r: String)
    requires
        go_ok_atom(*a),
    ensures
        r@ == java_atom(*a),
    decreases a, 1nat,
{
    match a {
        Atom::Ident(s) => s.clone(),
        Atom::Integer(n) => i64_to_string(*n),
        Atom::Float(t) => {
            proof {
                reveal_strlit(".");
            }
            let v = chars_of(t.as_str());
            let mut dot = false;
            let mut i: usize = 0;
            while i < v.len()
                invariant
                    i <= v@.len(),
                    v@ == t@,
                    dot == (exists|k: int| 0 <= k < i && v@[k] == '.'),
                decreases v@.len() - i,
            {
                if v[i] == '.' {
                    dot = true;
                }
                i = i + 1;
            }
            if dot {
                t.clone()
            } else {
                let mut r = t.clone();
                r.append("d");
                r
            }
        },
        Atom::StringLit(s) => {
            let mut r = String::from_str("\"");
            r.append(s.as_str());
            r.append("\"");
            r
        },
        Atom::Interp(t) => {
            let (f, vars) = interp_split(t.as_str(), "%s");
            if vars.len() == 0 {
                let mut r = String::from_str("\"");
                r.append(f.as_str());
                r.append("\"");
                r
            } else {
                let mut r = String::from_str("String.format(\"");
                r.append(f.as_str());
                r.append("\", ");
                let vs = join_strings(&vars, ", ");
                r.append(vs.as_str());
                r.append(")");
                r
            }
        },
        Atom::Call { name, args } => {
            let mut r = name.clone();
            r.append("(");
            let s = java_call_args(args);
            r.append(s.as_str());
            r.append(")");
            r
        },
        Atom::BuiltinNoArgs(_) => {
            proof {
                assert(false);
            }
            String::new()
        },
        Atom::BuiltinExpr { .. } => emit_builtin_expr_java(a),
        Atom::Unary { op, rhs } => {
            let mut r = String::from_str("(");
            r.append(op.as_str());
            let s = emit_atom_java(rhs);
            r.append(s.as_str());
            r.append(")");
            r
        },
        Atom::FieldAccess { base, fields } => {
            let mut r = base.clone();
            r.append(".");
            let s = join_strings(fields, ".");
            r.append(s.as_str());
            r
        },
        Atom::Index { base, idx } => {
            let mut r = String::from_str("Character.toString(");
            r.append(base.as_str());
            r.append(".charAt((int)(");
            let s = emit_expr_java(idx);
            r.append(s.as_str());
            r.append(")))");
            r
        },
        Atom::Slice { base, from, to } => {
            let f = emit_expr_java(from);
            let t = emit_expr_java(to);
            let mut r = base.clone();
            r.append(".substring((int)(");
            r.append(f.as_str());
            r.append("), (int)(");
            r.append(t.as_str());
            r.append("))");
            r
        },
        Atom::EnumVariant { ty, variant } => {
            let mut r = ty.clone();
            r.append(".");
            r.append(variant.as_str());
            r
        },
        Atom::Closure { params, body, .. } => {
            let mut r = String::from_str("(");
            let ps = closure_params_java(params);
            r.append(ps.as_str());
            r.append(") -> ");
            let b = emit_expr_java(body);
            r.append(b.as_str());
            r
        },
    }
}

fn emit_builtin_expr_java(a: &Atom) -> (r: String)
    requires
        go_ok_atom(*a),
        a is BuiltinExpr,
    ensures
        r@ == java_atom(*a),
    decreases a, 0nat,
{
    if let Atom::BuiltinExpr { name, args } = a {
        proof {
            reveal_strlit("assert");
            reveal_strlit("assert_eq");
            reveal_strlit("assert_ne");
            reveal_strlit("");
            assert(""@ =~= Seq::<char>::empty());
        }
        if str_is(name.as_str(), "assert") {
            let cond = emit_expr_java(&args[0]);
            let v: Vec<String> = vec![cond];
            proof {
                assert(name_seq(v@) =~= seq![cond@]);
            }
            return fill_template(JAVA_ASSERT, &v, "");
        }
        if (str_is(name.as_str(), "assert_eq") || str_is(name.as_str(), "assert_ne")) && args.len() >= 2 {
            let l = emit_expr_java(&args[0]);
            let rr = emit_expr_java(&args[1]);
            let v: Vec<String> = vec![l, rr];
            proof {
                assert(name_seq(v@) =~= seq![l@, rr@]);
            }
            if str_is(name.as_str(), "assert_eq") {
                return fill_template(JAVA_ASSERT_EQ, &v, "");
            } else {
                return fill_template(JAVA_ASSERT_NE, &v, "");
            }
        }
        let mut r = String::from_str("/* builtin::");
        r.append(name.as_str());
        r.append(" not supported as expression */");
        r
    } else {
        String::new()
    }
}

/// The Java text of an expression.
pub fn emit_expr_java(e: &Expr) -> (r: String)
    requires
        go_ok_expr(*e),
    ensures
        r@ == java_expr(*e),
    decreases e, 1nat,
{
    match e {
        Expr::Atom(a) => emit_atom_java(a),
        Expr::BinOp(b) => {
            let mut r = emit_atom_java(&b.lhs);
            r.append(" ");
            r.append(b.op.as_str());
            r.append(" ");
            let s = emit_atom_java(&b.rhs);
            r.append(s.as_str());
            r
        },
        Expr::Tuple(es) => {
            let mut r = String::from_str("new Object[]{");
            let s = emit_exprs_java(es);
            r.append(s.as_str());
            r.append("}");
            r
        },
    }
}

/// Expressions joined by `, `.
pub fn emit_exprs_java(es: &Vec<Expr>) -> (r: String)
    requires
        go_ok_exprs(es@),
    ensures
        r@ == java_exprs(es@),
    decreases es, 1nat,
{
    proof {
        lemma_go_ok_exprs(es@);
    }
    let mut r = String::new();
    let mut i: usize = 0;
    proof {
        assert(es@.subrange(0, 0) =~= Seq::<Expr>::empty());
    }
    while i < es.len()
        invariant
            i <= es@.len(),
            forall|k: int| 0 <= k < es@.len() ==> go_ok_expr(#[trigger] es@[k]),
            r@ == java_exprs(es@.subrange(0, i as int)),
        decreases es@.len() - i,
    {
        proof {
            assert(es@.subrange(0, i + 1).drop_last() =~= es@.subrange(0, i as int));
            assert(es@.subrange(0, i + 1).last() == es@[i as int]);
            if i == 0 {
                assert(es@.subrange(0, 1)[0] == es@[0]);
            }
        }
        if i > 0 {
            r.append(", ");
        }
        let s = emit_expr_java(&es[i]);
        r.append(s.as_str());
        i = i + 1;
    }
    proof {
        assert(es@.subrange(0, es@.len() as int) =~= es@);
    }
    r
}

// ── Method bodies ─────────────────────────────────────────────────────────────

/// The Java expression that a bullet computes.
pub open spec fn java_pipe_expr(p: Pipe) -> Seq<char> {
    match p.expr {
        Expr::Atom(Atom::BuiltinNoArgs(name)) => match code_for(name@, synth_names(p.inputs@), unknown_tys(p.inputs@.len()), BackendV::Java) {
            Ok(c) => c,
            Err(e) => "/* ERROR: "@ + e + " */"@,
        },
        _ => {
            let base = java_expr(p.expr);
            let ins = java_exprs(p.inputs@);
            if ins.len() == 0 || p.expr matches Expr::Atom(Atom::Call { .. }) { base } else { base + "("@ + ins + ")"@ }
        },
    }
}

pub open spec fn java_binding(b: Option<String>) -> Seq<char> {
    match b {
        Some(s) => s@,
        None => "__v"@,
    }
}

/// The Java return type of a declared output; `void` where none.
pub open spec fn java_ret(output: Option<OutputDecl>) -> Seq<char> {
    match output {
        Some(o) => java_type(o.ty@),
        None => "void"@,
    }
}

/// The statements of one bullet: a `var` binding, and after the last one
/// the return of its value (or the bare expression in a `void` method).
pub open spec fn java_pipe_line(p: Pipe, last: bool, ret: Seq<char>) -> Seq<char> {
    let b = java_binding(p.binding);
    let e = java_pipe_expr(p);
    if last {
        if ret == "void"@ {
            "        "@ + e + ";\n"@
        } else {
            "        var "@ + b + " = "@ + e + ";\n"@ + "        return "@ + b + ";\n"@
        }
    } else {
        "        var "@ + b + " = "@ + e + ";\n"@
    }
}

pub open spec fn java_pipes(ps: Seq<Pipe>, ret: Seq<char>, n: nat) -> Seq<char>
    decreases n,
{
    if n == 0 {
        Seq::empty()
    } else {
        java_pipes(ps, ret, (n - 1) as nat) + java_pipe_line(ps[n - 1], n == ps.len(), ret)
    }
}

/// The Java statements of a function made of escape blocks: the first
/// `@java` block, dedented; without one, an error comment.
pub open spec fn java_natives(bs: Seq<NativeBlock>) -> Seq<char> {
    match first_backend(bs, BackendV::Java) {
        Some(k) => {
            let ls = lines_of(bs[k].code@);
            native_lines(ls, indent_base(ls), "        "@)
        },
        None => if bs.len() > 0 {
            "        // ERROR: '@"@ + backend_keyword(bs[0].backend@) + "' cannot be used in a Java build \u{2014} use '@java'\n"@
        } else {
            Seq::empty()
        },
    }
}

/// The Java statements of a function body.
pub open spec fn java_body(body: BulletBody, params: Seq<Param>, output: Option<OutputDecl>) -> Seq<char> {
    match body {
        BulletBody::Pipes(ps) => java_pipes(ps@, java_ret(output), ps@.len()),
        BulletBody::Natives(bs) => java_natives(bs@),
        BulletBody::Builtin(name) => match builtin_code(name@, params, BackendV::Java) {
            Ok(c) => if java_ret(output) == "void"@ { "        "@ + c + ";\n"@ } else { "        return "@ + c + ";\n"@ },
            Err(e) => "        // ERROR: "@ + e + "\n"@,
        },
    }
}

/// Whether a bullet can be written out in Java.
pub open spec fn java_pipe_ok(p: Pipe) -> bool {
    p.expr matches Expr::Atom(Atom::BuiltinNoArgs(_)) || (go_ok_exprs(p.inputs@) && go_ok_expr(p.expr))
}

/// Whether a function body can be written out in Java.
pub open spec fn java_body_ok(body: BulletBody) -> bool {
    match body {
        BulletBody::Pipes(ps) => forall|k: int| 0 <= k < ps@.len() ==> java_pipe_ok(#[trigger] ps@[k]),
        BulletBody::Natives(bs) => match first_backend(bs@, BackendV::Java) {
            Some(k) => natives_ok(bs@[k].code@),
            None => true,
        },
        BulletBody::Builtin(_) => true,
    }
}

fn java_pipe_expr_exec(p: &Pipe) -> (r: String)
    requires
        java_pipe_ok(*p),
    ensures
        r@ == java_pipe_expr(*p),
{
    if let Expr::Atom(Atom::BuiltinNoArgs(name)) = &p.expr {
        let synth = synth_params(&p.inputs);
        let jb = Backend::Java;
        match emit_builtin(name.as_str(), &synth, &jb) {
            Ok(code) => code,
            Err(e) => {
                let mut r = String::from_str("/* ERROR: ");
                r.append(e.as_str());
                r.append(" */");
                r
            },
        }
    } else {
        let base = emit_expr_java(&p.expr);
        let ins = emit_exprs_java(&p.inputs);
        if ins.unicode_len() == 0 {
            return base;
        }
        if let Expr::Atom(Atom::Call { .. }) = &p.expr {
            return base;
        }
        let mut r = base;
        r.append("(");
        r.append(ins.as_str());
        r.append(")");
        r
    }
}

fn java_pipe_line_exec(out: &mut String, p: &Pipe, last: bool, ret: &String)
    requires
        java_pipe_ok(*p),
    ensures
        final(out)@ == old(out)@ + java_pipe_line(*p, last, ret@),
{
    let e = java_pipe_expr_exec(p);
    let b: &str = match &p.binding {
        Some(s) => s.as_str(),
        None => "__v",
    };
    proof {
        reveal_strlit("__v");
        reveal_strlit("void");
    }
    let ghost o0 = out@;
    if last {
        if str_is(ret.as_str(), "void") {
            out.append("        ");
            out.append(e.as_str());
            out.append(";\n");
        } else {
            out.append("        var ");
            out.append(b);
            out.append(" = ");
            out.append(e.as_str());
            out.append(";\n");
            out.append("        return ");
            out.append(b);
            out.append(";\n");
        }
    } else {
        out.append("        var ");
        out.append(b);
        out.append(" = ");
        out.append(e.as_str());
        out.append(";\n");
    }
    proof {
        assert(b@ == java_binding(p.binding));
        assert(out@ =~= o0 + java_pipe_line(*p, last, ret@));
    }
}

/// Writes the Java statements of a function body.
pub fn emit_body_java(out: &mut String, body: &BulletBody, params: &Vec<Param>, output: &Option<OutputDecl>)
    requires
        java_body_ok(*body),
    ensures
        final(out)@ == old(out)@ + java_body(*body, params@, *output),
{
    let ret: String = match output {
        Some(o) => bu_type_to_java(&o.ty),
        None => String::from_str("void"),
    };
    proof {
        assert(ret@ == java_ret(*output));
    }
    match body {
        BulletBody::Pipes(ps) => {
            let ghost o0 = out@;
            let n = ps.len();
            let mut i: usize = 0;
            proof {
                assert(o0 + Seq::<char>::empty() =~= o0);
            }
            while i < n
                invariant
                    n == ps@.len(),
                    i <= n,
                    ret@ == java_ret(*output),
                    forall|k: int| 0 <= k < ps@.len() ==> java_pipe_ok(#[trigger] ps@[k]),
                    out@ == o0 + java_pipes(ps@, ret@, i as nat),
                decreases n - i,
            {
                proof {
                    assert(java_pipe_ok(ps@[i as int]));
                }
                java_pipe_line_exec(out, &ps[i], i + 1 == n, &ret);
                proof {
                    let a = java_pipes(ps@, ret@, i as nat);
                    let l = java_pipe_line(ps@[i as int], i + 1 == n, ret@);
                    assert(o0 + a + l =~= o0 + (a + l));
                }
                i = i + 1;
            }
        },
        BulletBody::Natives(bs) => {
            let jb = Backend::Java;
            match find_block(bs, &jb) {
                Some(k) => push_native(out, bs[k].code.as_str(), "        "),
                None => {
                    if bs.len() > 0 {
                        let ghost o0 = out@;
                        out.append("        // ERROR: '@");
                        let kw = bs[0].backend.escape_keyword();
                        out.append(kw.as_str());
                        out.append("' cannot be used in a Java build \u{2014} use '@java'\n");
                        proof {
                            assert(out@ =~= o0 + ("        // ERROR: '@"@ + backend_keyword(bs@[0].backend@)
                                + "' cannot be used in a Java build \u{2014} use '@java'\n"@));
                        }
                    } else {
                        proof {
                            assert(out@ =~= out@ + Seq::<char>::empty());
                        }
                    }
                },
            }
        },
        BulletBody::Builtin(name) => {
            let jb = Backend::Java;
            let ghost o0 = out@;
            proof {
                reveal_strlit("void");
            }
            match emit_builtin(name.as_str(), params, &jb) {
                Ok(code) => {
                    if str_is(ret.as_str(), "void") {
                        out.append("        ");
                        out.append(code.as_str());
                        out.append(";\n");
                        proof {
                            assert(out@ =~= o0 + ("        "@ + code@ + ";\n"@));
                        }
                    } else {
                        out.append("        return ");
                        out.append(code.as_str());
                        out.append(";\n");
                        proof {
                            assert(out@ =~= o0 + ("        return "@ + code@ + ";\n"@));
                        }
                    }
                },
                Err(e) => {
                    out.append("        // ERROR: ");
                    out.append(e.as_str());
                    out.append("\n");
                    proof {
                        assert(out@ =~= o0 + ("        // ERROR: "@ + e@ + "\n"@));
                    }
                },
            }
        },
    }
}

// ── Methods ───────────────────────────────────────────────────────────────────

pub open spec fn java_params_text(ps: Seq<Param>) -> Seq<char> {
    joined(ps.map_values(|p: Param| java_type(p.ty@) + " "@ + p.name@), ", "@)
}

pub open spec fn java_type_params(b: Bullet) -> Seq<char> {
    if b.type_params@.len() == 0 {
        Seq::empty()
    } else {
        "<"@ + joined(name_seq(b.type_params@).map_values(|t: Seq<char>| t + " extends Comparable<"@ + t + ">"@), ", "@) + "> "@
    }
}

/// A `public static` method for a function that declares its output.
pub open spec fn java_function(b: Bullet) -> Seq<char> {
    let ret = match b.output {
        Some(o) => java_type(o.ty@),
        None => Seq::empty(),
    };
    "    public static "@ + java_type_params(b) + ret + " "@ + b.name@ + "("@ + java_params_text(b.params@) + ") {\n"@
        + java_body(b.body, b.params@, b.output) + "    }\n"@
}

pub open spec fn java_main_function(b: Bullet) -> Seq<char> {
    "    public static void main(String[] args) {\n"@ + java_body(b.body, b.params@, b.output) + "    }\n"@
}

fn java_param_list(ps: &Vec<Param>) -> (r: String)
    ensures
        r@ == java_params_text(ps@),
{
    let mut parts: Vec<String> = Vec::new();
    let mut i: usize = 0;
    while i < ps.len()
        invariant
            i <= ps@.len(),
            name_seq(parts@) == ps@.subrange(0, i as int).map_values(|p: Param| java_type(p.ty@) + " "@ + p.name@),
        decreases ps@.len() - i,
    {
        let mut s = bu_type_to_java(&ps[i].ty);
        s.append(" ");
        s.append(ps[i].name.as_str());
        let ghost before = parts@;
        parts.push(s);
        proof {
            assert(name_seq(parts@) =~= name_seq(before).push(s@));
            assert(ps@.subrange(0, i + 1).map_values(|p: Param| java_type(p.ty@) + " "@ + p.name@)
                =~= ps@.subrange(0, i as int).map_values(|p: Param| java_type(p.ty@) + " "@ + p.name@).push(s@));
        }
        i = i + 1;
    }
    proof {
        assert(ps@.subrange(0, ps@.len() as int) =~= ps@);
    }
    join_strings(&parts, ", ")
}

fn java_tps(b: &Bullet) -> (r: String)
    ensures
        r@ == java_type_params(*b),
{
    if b.type_params.len() == 0 {
        return String::new();
    }
    let mut tps: Vec<String> = Vec::new();
    let mut i: usize = 0;
    while i < b.type_params.len()
        invariant
            i <= b.type_params@.len(),
            name_seq(tps@) == name_seq(b.type_params@).subrange(0, i as int).map_values(
                |t: Seq<char>| t + " extends Comparable<"@ + t + ">"@),
        decreases b.type_params@.len() - i,
    {
        let mut t = b.type_params[i].clone();
        t.append(" extends Comparable<");
        t.append(b.type_params[i].as_str());
        t.append(">");
        let ghost before = tps@;
        tps.push(t);
        proof {
            assert(name_seq(tps@) =~= name_seq(before).push(t@));
            assert(name_seq(b.type_params@).subrange(0, i + 1).map_values(|t: Seq<char>| t + " extends Comparable<"@ + t + ">"@)
                =~= name_seq(b.type_params@).subrange(0, i as int).map_values(|t: Seq<char>| t + " extends Comparable<"@ + t + ">"@).push(t@));
        }
        i = i + 1;
    }
    proof {
        assert(name_seq(b.type_params@).subrange(0, b.type_params@.len() as int) =~= name_seq(b.type_params@));
    }
    let mut r = String::from_str("<");
    let j = join_strings(&tps, ", ");
    r.append(j.as_str());
    r.append("> ");
    r
}

/// A function as a `public static` method; the function must declare its
/// output.
pub fn emit_function_java(func: &Bullet) -> (r: String)
    requires
        java_body_ok(func.body),
        func.output is Some,
    ensures
        r@ == java_function(*func),
{
    let ret = match &func.output {
        Some(o) => bu_type_to_java(&o.ty),
        None => String::new(),
    };
    let params = java_param_list(&func.params);
    let mut out = String::from_str("    public static ");
    let tps = java_tps(func);
    out.append(tps.as_str());
    out.append(ret.as_str());
    out.append(" ");
    out.append(func.name.as_str());
    out.append("(");
    out.append(params.as_str());
    out.append(") {\n");
    emit_body_java(&mut out, &func.body, &func.params, &func.output);
    out.append("    }\n");
    proof {
        assert(out@ =~= java_function(*func));
    }
    out
}

pub fn emit_main_function_java(func: &Bullet) -> (r: String)
    requires
        java_body_ok(func.body),
    ensures
        r@ == java_main_function(*func),
{
    let mut out = String::from_str("    public static void main(String[] args) {\n");
    emit_body_java(&mut out, &func.body, &func.params, &func.output);
    out.append("    }\n");
    proof {
        assert(out@ =~= java_main_function(*func));
    }
    out
}

// ── Files ─────────────────────────────────────────────────────────────────────

pub open spec fn java_functions(bs: Seq<Bullet>) -> Seq<char>
    decreases bs.len(),
{
    if bs.len() == 0 { Seq::empty() } else { java_functions(bs.drop_last()) + java_function(bs.last()) + "\n"@ }
}

/// Whether every function of a file can be a method: its body can be
/// written out and it declares its output.
pub open spec fn java_file_ok(bs: Seq<Bullet>) -> bool {
    forall|k: int| 0 <= k < bs.len() ==> java_body_ok(#[trigger] bs[k].body) && bs[k].output is Some
}

fn push_functions_java(out: &mut String, file: &SourceFile)
    requires
        java_file_ok(file.bullets@),
    ensures
        final(out)@ == old(out)@ + java_functions(file.bullets@),
{
    let ghost o0 = out@;
    let mut i: usize = 0;
    proof {
        assert(file.bullets@.subrange(0, 0) =~= Seq::<Bullet>::empty());
        assert(o0 + Seq::<char>::empty() =~= o0);
    }
    while i < file.bullets.len()
        invariant
            i <= file.bullets@.len(),
            java_file_ok(file.bullets@),
            out@ == o0 + java_functions(file.bullets@.subrange(0, i as int)),
        decreases file.bullets@.len() - i,
    {
        proof {
            assert(file.bullets@.subrange(0, i + 1).drop_last() =~= file.bullets@.subrange(0, i as int));
            assert(file.bullets@.subrange(0, i + 1).last() == file.bullets@[i as int]);
            assert(java_body_ok(file.bullets@[i as int].body));
        }
        let f = emit_function_java(&file.bullets[i]);
        out.append(f.as_str());
        out.append("\n");
        i = i + 1;
    }
    proof {
        assert(file.bullets@.subrange(0, file.bullets@.len() as int) =~= file.bullets@);
    }
}

/// A source file as a class of static methods.
pub fn emit_source_java(file: &SourceFile, class_name: &str) -> (r: String)
    requires
        java_file_ok(file.bullets@),
    ensures
        r@ == "public class "@ + class_name@ + " {\n\n"@ + java_functions(file.bullets@) + "}\n"@,
{
    let mut out = String::from_str("public class ");
    out.append(class_name);
    out.append(" {\n\n");
    push_functions_java(&mut out, file);
    out.append("}\n");
    out
}

/// Only the methods, for a single file converted on its own.
pub fn emit_bare_java(file: &SourceFile) -> (r: String)
    requires
        java_file_ok(file.bullets@),
    ensures
        r@ == java_functions(file.bullets@),
{
    let mut out = String::new();
    push_functions_java(&mut out, file);
    proof {
        assert(out@ =~= java_functions(file.bullets@));
    }
    out
}

pub open spec fn java_main_functions(bs: Seq<Bullet>) -> Seq<char>
    decreases bs.len(),
{
    if bs.len() == 0 {
        Seq::empty()
    } else {
        java_main_functions(bs.drop_last()) + (if bs.last().name@ == "main"@ {
            java_main_function(bs.last())
        } else {
            java_function(bs.last())
        }) + "\n"@
    }
}

pub open spec fn java_main_ok(bs: Seq<Bullet>) -> bool {
    forall|k: int| 0 <= k < bs.len() ==> java_body_ok(#[trigger] bs[k].body) && (bs[k].name@ == "main"@ || bs[k].output is Some)
}

/// `main.bu` as `Main.java`.
pub fn emit_main_java(file: &SourceFile, _crate_name: &str) -> (r: String)
    requires
        java_main_ok(file.bullets@),
    ensures
        r@ == "import java.util.*;\nimport java.util.function.*;\n\npublic class Main {\n\n"@
            + java_main_functions(file.bullets@) + "}\n"@,
{
    let mut out = String::from_str("import java.util.*;\nimport java.util.function.*;\n\npublic class Main {\n\n");
    let ghost o0 = out@;
    let mut i: usize = 0;
    proof {
        assert(file.bullets@.subrange(0, 0) =~= Seq::<Bullet>::empty());
        assert(o0 + Seq::<char>::empty() =~= o0);
        reveal_strlit("main");
    }
    while i < file.bullets.len()
        invariant
            i <= file.bullets@.len(),
            java_main_ok(file.bullets@),
            out@ == o0 + java_main_functions(file.bullets@.subrange(0, i as int)),
        decreases file.bullets@.len() - i,
    {
        proof {
            assert(file.bullets@.subrange(0, i + 1).drop_last() =~= file.bullets@.subrange(0, i as int));
            assert(file.bullets@.subrange(0, i + 1).last() == file.bullets@[i as int]);
            assert(java_body_ok(file.bullets@[i as int].body));
        }
        let b = &file.bullets[i];
        let f = if str_is(b.name.as_str(), "main") { emit_main_function_java(b) } else { emit_function_java(b) };
        out.append(f.as_str());
        out.append("\n");
        i = i + 1;
    }
    out.append("}\n");
    proof {
        assert(file.bullets@.subrange(0, file.bullets@.len() as int) =~= file.bullets@);
    }
    out
}

pub open spec fn java_field_lines(fs: Seq<Field>) -> Seq<char>
    decreases fs.len(),
{
    if fs.len() == 0 {
        Seq::empty()
    } else {
        java_field_lines(fs.drop_last()) + "        public "@ + java_type(fs.last().ty@) + " "@ + fs.last().name@ + ";\n"@
    }
}

pub open spec fn java_assigns(fs: Seq<Field>) -> Seq<char>
    decreases fs.len(),
{
    if fs.len() == 0 {
        Seq::empty()
    } else {
        java_assigns(fs.drop_last()) + "            this."@ + fs.last().name@ + " = "@ + fs.last().name@ + ";\n"@
    }
}

/// A struct of an inventory as a static inner class with public fields
/// and a constructor that sets them all.
pub open spec fn java_struct(s: StructDef) -> Seq<char> {
    let name = pascal(s.name@);
    "    public static class "@ + name + " {\n"@ + java_field_lines(s.fields@) + "        public "@ + name + "("@
        + joined(s.fields@.map_values(|f: Field| java_type(f.ty@) + " "@ + f.name@), ", "@) + ") {\n"@
        + java_assigns(s.fields@) + "        }\n"@ + "    }\n"@
}

pub fn emit_struct_java(st: &StructDef) -> (r: String)
    ensures
        r@ == java_struct(*st),
{
    let name = to_pascal_case(st.name.as_str());
    let mut out = String::from_str("    public static class ");
    out.append(name.as_str());
    out.append(" {\n");
    let ghost o0 = out@;
    let mut ps: Vec<String> = Vec::new();
    let mut i: usize = 0;
    proof {
        assert(st.fields@.subrange(0, 0) =~= Seq::<Field>::empty());
        assert(o0 + Seq::<char>::empty() =~= o0);
    }
    while i < st.fields.len()
        invariant
            i <= st.fields@.len(),
            out@ == o0 + java_field_lines(st.fields@.subrange(0, i as int)),
            name_seq(ps@) == st.fields@.subrange(0, i as int).map_values(|f: Field| java_type(f.ty@) + " "@ + f.name@),
        decreases st.fields@.len() - i,
    {
        proof {
            assert(st.fields@.subrange(0, i + 1).drop_last() =~= st.fields@.subrange(0, i as int));
            assert(st.fields@.subrange(0, i + 1).last() == st.fields@[i as int]);
        }
        let t = bu_type_to_java(&st.fields[i].ty);
        out.append("        public ");
        out.append(t.as_str());
        out.append(" ");
        out.append(st.fields[i].name.as_str());
        out.append(";\n");
        let mut p = t;
        p.append(" ");
        p.append(st.fields[i].name.as_str());
        let ghost before = ps@;
        ps.push(p);
        proof {
            assert(name_seq(ps@) =~= name_seq(before).push(p@));
            assert(st.fields@.subrange(0, i + 1).map_values(|f: Field| java_type(f.ty@) + " "@ + f.name@)
                =~= st.fields@.subrange(0, i as int).map_values(|f: Field| java_type(f.ty@) + " "@ + f.name@).push(p@));
        }
        i = i + 1;
    }
    proof {
        assert(st.fields@.subrange(0, st.fields@.len() as int) =~= st.fields@);
    }
    out.append("        public ");
    out.append(name.as_str());
    out.append("(");
    let pl = join_strings(&ps, ", ");
    out.append(pl.as_str());
    out.append(") {\n");
    let ghost o1 = out@;
    let mut j: usize = 0;
    proof {
        assert(o1 + Seq::<char>::empty() =~= o1);
    }
    while j < st.fields.len()
        invariant
            j <= st.fields@.len(),
            out@ == o1 + java_assigns(st.fields@.subrange(0, j as int)),
        decreases st.fields@.len() - j,
    {
        proof {
            assert(st.fields@.subrange(0, j + 1).drop_last() =~= st.fields@.subrange(0, j as int));
            assert(st.fields@.subrange(0, j + 1).last() == st.fields@[j as int]);
        }
        out.append("            this.");
        out.append(st.fields[j].name.as_str());
        out.append(" = ");
        out.append(st.fields[j].name.as_str());
        out.append(";\n");
        j = j + 1;
    }
    out.append("        }\n");
    out.append("    }\n");
    proof {
        assert(st.fields@.subrange(0, st.fields@.len() as int) =~= st.fields@);
        assert(out@ =~= java_struct(*st));
    }
    out
}

/// An enum of an inventory as a nested Java enum.
pub open spec fn java_enum(e: EnumDef) -> Seq<char> {
    "    public enum "@ + e.name@ + " {\n        "@ + joined(e.variants@.map_values(|v: Variant| v.name@), ", "@) + "\n    }\n"@
}

pub fn emit_enum_java(e: &EnumDef) -> (r: String)
    ensures
        r@ == java_enum(*e),
{
    let mut names: Vec<String> = Vec::new();
    let mut i: usize = 0;
    while i < e.variants.len()
        invariant
            i <= e.variants@.len(),
            name_seq(names@) == e.variants@.subrange(0, i as int).map_values(|v: Variant| v.name@),
        decreases e.variants@.len() - i,
    {
        let ghost before = names@;
        names.push(e.variants[i].name.clone());
        proof {
            assert(name_seq(names@) =~= name_seq(before).push(e.variants@[i as int].name@));
            assert(e.variants@.subrange(0, i + 1).map_values(|v: Variant| v.name@)
                =~= e.variants@.subrange(0, i as int).map_values(|v: Variant| v.name@).push(e.variants@[i as int].name@));
        }
        i = i + 1;
    }
    proof {
        assert(e.variants@.subrange(0, e.variants@.len() as int) =~= e.variants@);
    }
    let mut out = String::from_str("    public enum ");
    out.append(e.name.as_str());
    out.append(" {\n        ");
    let j = join_strings(&names, ", ");
    out.append(j.as_str());
    out.append("\n    }\n");
    out
}

pub open spec fn java_enums(es: Seq<EnumDef>) -> Seq<char>
    decreases es.len(),
{
    if es.len() == 0 { Seq::empty() } else { java_enums(es.drop_last()) + java_enum(es.last()) + "\n"@ }
}

pub open spec fn java_structs(ss: Seq<StructDef>) -> Seq<char>
    decreases ss.len(),
{
    if ss.len() == 0 { Seq::empty() } else { java_structs(ss.drop_last()) + java_struct(ss.last()) + "\n"@ }
}

/// The class that holds a project's enums and structs.
pub fn emit_types_java(class_name: &str, structs: &Vec<StructDef>, enums: &Vec<EnumDef>) -> (r: String)
    ensures
        r@ == "public class "@ + class_name@ + " {\n\n"@ + java_enums(enums@) + java_structs(structs@) + "}\n"@,
{
    let mut out = String::from_str("public class ");
    out.append(class_name);
    out.append(" {\n\n");
    let ghost o0 = out@;
    let mut i: usize = 0;
    proof {
        assert(enums@.subrange(0, 0) =~= Seq::<EnumDef>::empty());
        assert(o0 + Seq::<char>::empty() =~= o0);
    }
    while i < enums.len()
        invariant
            i <= enums@.len(),
            out@ == o0 + java_enums(enums@.subrange(0, i as int)),
        decreases enums@.len() - i,
    {
        proof {
            assert(enums@.subrange(0, i + 1).drop_last() =~= enums@.subrange(0, i as int));
            assert(enums@.subrange(0, i + 1).last() == enums@[i as int]);
        }
        let e = emit_enum_java(&enums[i]);
        out.append(e.as_str());
        out.append("\n");
        i = i + 1;
    }
    let ghost o1 = out@;
    let mut j: usize = 0;
    proof {
        assert(enums@.subrange(0, enums@.len() as int) =~= enums@);
        assert(structs@.subrange(0, 0) =~= Seq::<StructDef>::empty());
        assert(o1 + Seq::<char>::empty() =~= o1);
    }
    while j < structs.len()
        invariant
            j <= structs@.len(),
            out@ == o1 + java_structs(structs@.subrange(0, j as int)),
        decreases structs@.len() - j,
    {
        proof {
            assert(structs@.subrange(0, j + 1).drop_last() =~= structs@.subrange(0, j as int));
            assert(structs@.subrange(0, j + 1).last() == structs@[j as int]);
        }
        let s = emit_struct_java(&structs[j]);
        out.append(s.as_str());
        out.append("\n");
        j = j + 1;
    }
    out.append("}\n");
    proof {
        assert(structs@.subrange(0, structs@.len() as int) =~= structs@);
    }
    out
}

fn java_pipes_can_emit(ps: &Vec<Pipe>) -> (r: bool)
    ensures
        r == forall|k: int| 0 <= k < ps@.len() ==> java_pipe_ok(#[trigger] ps@[k]),
{
    let mut j: usize = 0;
    while j < ps.len()
        invariant
            j <= ps@.len(),
            forall|k: int| 0 <= k < j ==> java_pipe_ok(#[trigger] ps@[k]),
        decreases ps@.len() - j,
    {
        let p = &ps[j];
        let bare = match &p.expr {
            Expr::Atom(Atom::BuiltinNoArgs(_)) => true,
            _ => false,
        };
        if !(bare || (exprs_go_ok(&p.inputs) && expr_go_ok(&p.expr))) {
            proof {
                assert(!java_pipe_ok(ps@[j as int]));
            }
            return false;
        }
        j = j + 1;
    }
    true
}

/// Whether a function body can be written out in Java.
pub fn java_body_can_emit(body: &BulletBody) -> (r: bool)
    ensures
        r == java_body_ok(*body),
{
    match body {
        BulletBody::Pipes(ps) => java_pipes_can_emit(ps),
        BulletBody::Natives(bs) => match find_block(bs, &Backend::Java) {
            Some(k) => natives_can_emit(bs[k].code.as_str()),
            None => true,
        },
        BulletBody::Builtin(_) => true,
    }
}

/// Whether every function of a file can be written out in Java.
pub fn java_file_can_emit(bs: &Vec<Bullet>) -> (r: bool)
    ensures
        r == java_file_ok(bs@),
{
    let mut i: usize = 0;
    while i < bs.len()
        invariant
            i <= bs@.len(),
            forall|k: int| 0 <= k < i ==> java_body_ok(#[trigger] bs@[k].body) && bs@[k].output is Some,
        decreases bs@.len() - i,
    {
        if !java_body_can_emit(&bs[i].body) || bs[i].output.is_none() {
            return false;
        }
        i = i + 1;
    }
    true
}

} // verus!
