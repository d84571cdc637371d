//! Whether a Java build needs the native companion library: Java reaches
//! only the descriptors 0, 1 and 2 by itself, so `open` always needs it, and
//! `close`, `in` and `out` need it unless their descriptor is one of those
//! literals.
use vstd::prelude::*;
use crate::ast::{Atom, BulletBody, Expr, Pipe, SourceFile};
use crate::text::str_is;

verus! {

/// The builtins that work on a file descriptor.
pub open spec fn fd_builtin(n: Seq<char>) -> bool {
    n == "open"@ || n == "close"@ || n == "in"@ || n == "out"@
}

/// Whether a call of a builtin with these arguments needs the native
/// library.
pub open spec fn call_needs_jni(name: Seq<char>, args: Seq<Expr>) -> bool {
    if name == "open"@ {
        true
    } else if name == "close"@ || name == "in"@ || name == "out"@ {
        args.len() > 0 && !(args[0] matches Expr::Atom(Atom::Integer(k)) && 0 <= k <= 2)
    } else {
        false
    }
}

/// Whether an atom uses a descriptor builtin that needs the native library,
/// anywhere inside it, closure bodies included (a call's arguments are
/// names, which use nothing).
pub open spec fn atom_needs_jni(a: Atom) -> bool
    decreases a,
{
    match a {
        Atom::BuiltinExpr { name, args } => call_needs_jni(name@, args@) || exprs_need_jni(args@),
        Atom::BuiltinNoArgs(name) => fd_builtin(name@),
        Atom::Unary { rhs, .. } => atom_needs_jni(*rhs),
        Atom::Index { idx, .. } => expr_needs_jni(*idx),
        Atom::Slice { from, to, .. } => expr_needs_jni(*from) || expr_needs_jni(*to),
        Atom::Closure { body, .. } => expr_needs_jni(*body),
        _ => false,
    }
}

pub open spec fn expr_needs_jni(e: Expr) -> bool
    decreases e,
{
    match e {
        Expr::Atom(a) => atom_needs_jni(a),
        Expr::BinOp(b) => atom_needs_jni(b.lhs) || atom_needs_jni(b.rhs),
        Expr::Tuple(es) => exprs_need_jni(es@),
    }
}

pub open spec fn exprs_need_jni(es: Seq<Expr>) -> bool
    decreases es,
{
    if es.len() == 0 {
        false
    } else {
        exprs_need_jni(es.drop_last()) || expr_needs_jni(es.last())
    }
}

/// Whether a bullet needs the native library: through its inputs, or
/// through what it computes, a builtin applied to those inputs included.
pub open spec fn pipe_needs_jni(p: Pipe) -> bool {
    exprs_need_jni(p.inputs@) || match p.expr {
        Expr::Atom(Atom::BuiltinNoArgs(name)) => call_needs_jni(name@, p.inputs@),
        _ => expr_needs_jni(p.expr),
    }
}

/// Whether a function body needs the native library. A body that is a
/// whole builtin has its descriptor among its own parameters, which nothing
/// here can see, so every descriptor builtin counts.
pub open spec fn body_needs_jni(body: BulletBody) -> bool {
    match body {
        BulletBody::Pipes(ps) => exists|k: int| 0 <= k < ps@.len() && pipe_needs_jni(#[trigger] ps@[k]),
        BulletBody::Builtin(name) => fd_builtin(name@),
        BulletBody::Natives(_) => false,
    }
}

fn fd_builtin_exec(n: &str) -> (r: bool)
    ensures
        r == fd_builtin(n@),
{
    str_is(n, "open") || str_is(n, "close") || str_is(n, "in") || str_is(n, "out")
}

fn call_needs_jni_exec(name: &str, args: &Vec<Expr>) -> (r: bool)
    ensures
        r == call_needs_jni(name@, args@),
{
    if str_is(name, "open") {
        return true;
    }
    if str_is(name, "close") || str_is(name, "in") || str_is(name, "out") {
        if args.len() == 0 {
            return false;
        }
        return match &args[0] {
            Expr::Atom(Atom::Integer(k)) => !(0 <= *k && *k <= 2),
            _ => true,
        };
    }
    false
}

fn atom_needs_jni_exec(a: &Atom) -> (r: bool)
    ensures
        r == atom_needs_jni(*a),
    decreases a,
{
    match a {
        Atom::BuiltinExpr { name, args } => call_needs_jni_exec(name.as_str(), args) || exprs_need_jni_exec(args),
        Atom::BuiltinNoArgs(name) => fd_builtin_exec(name.as_str()),
        Atom::Unary { rhs, .. } => atom_needs_jni_exec(rhs),
        Atom::Index { idx, .. } => expr_needs_jni_exec(idx),
        Atom::Slice { from, to, .. } => expr_needs_jni_exec(from) || expr_needs_jni_exec(to),
        Atom::Closure { body, .. } => expr_needs_jni_exec(body),
        _ => false,
    }
}

fn expr_needs_jni_exec(e: &Expr) -> (r: bool)
    ensures
        r == expr_needs_jni(*e),
    decreases e,
{
    match e {
        Expr::Atom(a) => atom_needs_jni_exec(a),
        Expr::BinOp(b) => atom_needs_jni_exec(&b.lhs) || atom_needs_jni_exec(&b.rhs),
        Expr::Tuple(es) => exprs_need_jni_exec(es),
    }
}

fn exprs_need_jni_exec(es: &Vec<Expr>) -> (r: bool)
    ensures
        r == exprs_need_jni(es@),
    decreases es,
{
    let mut i: usize = 0;
    proof {
        assert(es@.subrange(0, 0) =~= Seq::<Expr>::empty());
    }
    while i < es.len()
        invariant
            i <= es@.len(),
            !exprs_need_jni(es@.subrange(0, i as int)),
        decreases es@.len() - i,
    {
        proof {
            assert(es@.subrange(0, i + 1).drop_last() =~= es@.subrange(0, i as int));
            assert(es@.subrange(0, i + 1).last() == es@[i as int]);
        }
        if expr_needs_jni_exec(&es[i]) {
            proof {
                lemma_exprs_need_jni_prefix(es@, i as int + 1);
            }
            return true;
        }
        i = i + 1;
    }
    proof {
        assert(es@.subrange(0, es@.len() as int) =~= es@);
    }
    false
}

/// A prefix that needs the library makes the whole list need it.
pub proof fn lemma_exprs_need_jni_prefix(es: Seq<Expr>, n: int)
    requires
        0 <= n <= es.len(),
        exprs_need_jni(es.subrange(0, n)),
    ensures
        exprs_need_jni(es),
    decreases es.len() - n,
{
    if n < es.len() {
        assert(es.subrange(0, n + 1).drop_last() =~= es.subrange(0, n));
        lemma_exprs_need_jni_prefix(es, n + 1);
    } else {
        assert(es.subrange(0, n) =~= es);
    }
}

fn pipe_needs_jni_exec(p: &Pipe) -> (r: bool)
    ensures
        r == pipe_needs_jni(*p),
{
    if exprs_need_jni_exec(&p.inputs) {
        return true;
    }
    match &p.expr {
        Expr::Atom(Atom::BuiltinNoArgs(name)) => call_needs_jni_exec(name.as_str(), &p.inputs),
        other => expr_needs_jni_exec(other),
    }
}

fn pipes_need_jni_exec(ps: &Vec<Pipe>) -> (r: bool)
    ensures
        r == exists|k: int| 0 <= k < ps@.len() && pipe_needs_jni(#[trigger] ps@[k]),
{
    let mut i: usize = 0;
    while i < ps.len()
        invariant
            i <= ps@.len(),
            forall|k: int| 0 <= k < i ==> !pipe_needs_jni(#[trigger] ps@[k]),
        decreases ps@.len() - i,
    {
        if pipe_needs_jni_exec(&ps[i]) {
            return true;
        }
        i = i + 1;
    }
    false
}

fn body_needs_jni_exec(body: &BulletBody) -> (r: bool)
    ensures
        r == body_needs_jni(*body),
{
    match body {
        BulletBody::Pipes(ps) => pipes_need_jni_exec(ps),
        BulletBody::Builtin(name) => fd_builtin_exec(name.as_str()),
        BulletBody::Natives(_) => false,
    }
}

/// Whether a file's Java build needs the native library: some function uses
/// `open`, or `close`, `in` or `out` on a descriptor that is not the
/// literal 0, 1 or 2.
pub fn needs_jni_java(file: &SourceFile) -> (r: bool)
    ensures
        r == exists|k: int| 0 <= k < file.bullets@.len() && body_needs_jni(#[trigger] file.bullets@[k].body),
{
    let mut i: usize = 0;
    while i < file.bullets.len()
        invariant
            i <= file.bullets@.len(),
            forall|k: int| 0 <= k < i ==> !body_needs_jni(#[trigger] file.bullets@[k].body),
        decreases file.bullets@.len() - i,
    {
        if body_needs_jni_exec(&file.bullets[i].body) {
            return true;
        }
        i = i + 1;
    }
    false
}

} // verus!
