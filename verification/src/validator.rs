//! Structural validation: limits on how much a folder, a file and a function
//! may hold, which names a bullet may read, bind and call, and escape blocks.
use vstd::prelude::*;
use crate::ast::{
    Atom, Backend, BackendV, BuFile, Bullet, BulletBody, CallArg, Expr, NativeBlock, Param, ParseError, Pipe,
    Rank, SourceFile, Span, nat_decimal, backend_ext, backend_keyword, rank_name, rank_child, InventoryFile,
    InvEntry, StructDef, Field, BuType, TyV,
};
use crate::stdlib::{builtin_names, is_known_builtin};
use crate::typecheck::{DiagV, at_span, lemma_at_span_add, fq, start_msg, add_num};
use crate::text::{str_is, capitalize, capitalized};

verus! {

// ── Errors ────────────────────────────────────────────────────────────────────

/// A structural error; line 0 when it concerns a whole file or folder.
pub struct ValidationError {
    pub file: String,
    pub line: usize,
    pub col: usize,
    pub message: String,
}

impl View for ValidationError {
    type V = DiagV;

    open spec fn view(&self) -> DiagV {
        DiagV { file: self.file@, line: self.line as nat, col: self.col as nat, message: self.message@ }
    }
}

pub open spec fn val_diags(v: Seq<ValidationError>) -> Seq<DiagV> {
    v.map_values(|e: ValidationError| e@)
}

/// The position that whole-file messages are reported at.
pub open spec fn no_span() -> Span {
    Span { line: 0, col: 0 }
}

pub proof fn lemma_val_diags_add(a: Seq<ValidationError>, b: Seq<ValidationError>)
    ensures
        val_diags(a + b) == val_diags(a) + val_diags(b),
{
    assert(val_diags(a + b) =~= val_diags(a) + val_diags(b));
}

pub fn push_err(errors: &mut Vec<ValidationError>, path: &str, span: Span, message: String)
    ensures
        val_diags(final(errors)@) == val_diags(old(errors)@) + at_span(path@, span, seq![message@]),
{
    errors.push(ValidationError { file: String::from_str(path), line: span.line, col: span.col, message });
    proof {
        assert(val_diags(final(errors)@) =~= val_diags(old(errors)@) + at_span(path@, span, seq![message@]));
    }
}

/// Appends all of `more` to `errors`.
pub fn append_errs(errors: &mut Vec<ValidationError>, more: Vec<ValidationError>)
    ensures
        val_diags(final(errors)@) == val_diags(old(errors)@) + val_diags(more@),
{
    let mut m = more;
    proof {
        lemma_val_diags_add(errors@, m@);
    }
    errors.append(&mut m);
}

// ── Names ─────────────────────────────────────────────────────────────────────

/// Whether some name of the list is `n`.
pub open spec fn listed(names: Seq<String>, n: Seq<char>) -> bool {
    exists|k: int| 0 <= k < names.len() && (#[trigger] names[k])@ == n
}

pub fn has_name(names: &Vec<String>, n: &str) -> (r: bool)
    ensures
        r == listed(names@, n@),
{
    let key = String::from_str(n);
    let mut i: usize = 0;
    while i < names.len()
        invariant
            i <= names@.len(),
            key@ == n@,
            forall|k: int| 0 <= k < i ==> (#[trigger] names@[k])@ != n@,
        decreases names@.len() - i,
    {
        if names[i] == key {
            return true;
        }
        i = i + 1;
    }
    false
}

/// Whether some parameter is named `n`.
pub open spec fn param_named(ps: Seq<Param>, n: Seq<char>) -> bool {
    exists|k: int| 0 <= k < ps.len() && (#[trigger] ps[k]).name@ == n
}

pub fn has_param(ps: &Vec<Param>, n: &str) -> (r: bool)
    ensures
        r == param_named(ps@, n@),
{
    let key = String::from_str(n);
    let mut i: usize = 0;
    while i < ps.len()
        invariant
            i <= ps@.len(),
            key@ == n@,
            forall|k: int| 0 <= k < i ==> (#[trigger] ps@[k]).name@ != n@,
        decreases ps@.len() - i,
    {
        if ps[i].name == key {
            return true;
        }
        i = i + 1;
    }
    false
}

// ── Messages ──────────────────────────────────────────────────────────────────

pub open spec fn msg_skirmish_call(f: Seq<char>, name: Seq<char>) -> Seq<char> {
    fq(f) + "skirmish files cannot call other functions (found call to '"@ + name + "')."@
}

pub open spec fn msg_unlisted_call(f: Seq<char>, name: Seq<char>) -> Seq<char> {
    fq(f) + "calls '"@ + name + "' which is not listed in any child inventory."@
}

pub open spec fn msg_unlisted_ref(f: Seq<char>, name: Seq<char>) -> Seq<char> {
    fq(f) + "references '&"@ + name + "' which is not listed in any child inventory."@
}

pub open spec fn msg_too_many_bullets(f: Seq<char>, n: nat) -> Seq<char> {
    fq(f) + "cannot contain more than 5 bullets (found "@ + nat_decimal(n) + ")."@
}

pub open spec fn msg_unknown_param(f: Seq<char>, i: nat, name: Seq<char>) -> Seq<char> {
    "Function '"@ + f + "' bullet "@ + nat_decimal(i) + ": '"@ + name + "' is an unknown parameter."@
}

pub open spec fn msg_assigned_twice(f: Seq<char>, b: Seq<char>) -> Seq<char> {
    fq(f) + "'{"@ + b + "}' is assigned more than once."@
}

pub open spec fn msg_last_binding(f: Seq<char>, b: Seq<char>, out: Seq<char>) -> Seq<char> {
    fq(f) + "last bullet output '{"@ + b + "}' must match function output '{"@ + out + "}'."@
}

pub open spec fn msg_unused(f: Seq<char>, b: Seq<char>) -> Seq<char> {
    fq(f) + "'{"@ + b + "}' is produced but never used."@
}

// ── Calls ─────────────────────────────────────────────────────────────────────

/// Messages for `&name` arguments that no child inventory lists.
pub open spec fn ref_msgs(f: Seq<char>, args: Seq<CallArg>, callable: Seq<Seq<char>>) -> Seq<Seq<char>>
    decreases args.len(),
{
    if args.len() == 0 {
        Seq::empty()
    } else {
        ref_msgs(f, args.drop_last(), callable) + match args.last() {
            CallArg::BulletRef(r) => if callable.len() > 0 && !callable.contains(r@) {
                seq![msg_unlisted_ref(f, r@)]
            } else {
                Seq::empty()
            },
            _ => Seq::empty(),
        }
    }
}

/// Messages for a call at the top of an atom. An empty `callable` list
/// allows every call.
pub open spec fn atom_call_msgs(a: Atom, f: Seq<char>, callable: Seq<Seq<char>>, skirmish: bool) -> Seq<Seq<char>> {
    match a {
        Atom::Call { name, args } => if skirmish {
            seq![msg_skirmish_call(f, name@)]
        } else {
            (if callable.len() > 0 && !callable.contains(name@) {
                seq![msg_unlisted_call(f, name@)]
            } else {
                Seq::empty()
            }) + ref_msgs(f, args@, callable)
        },
        _ => Seq::empty(),
    }
}

pub open spec fn expr_call_msgs(e: Expr, f: Seq<char>, callable: Seq<Seq<char>>, skirmish: bool) -> Seq<Seq<char>>
    decreases e,
{
    match e {
        Expr::Atom(a) => atom_call_msgs(a, f, callable, skirmish),
        Expr::BinOp(b) => atom_call_msgs(b.lhs, f, callable, skirmish) + atom_call_msgs(b.rhs, f, callable, skirmish),
        Expr::Tuple(es) => exprs_call_msgs(es@, f, callable, skirmish),
    }
}

pub open spec fn exprs_call_msgs(es: Seq<Expr>, f: Seq<char>, callable: Seq<Seq<char>>, skirmish: bool) -> Seq<Seq<char>>
    decreases es,
{
    if es.len() == 0 {
        Seq::empty()
    } else {
        exprs_call_msgs(es.drop_last(), f, callable, skirmish) + expr_call_msgs(es.last(), f, callable, skirmish)
    }
}

/// Reports a call that the folder's rank or its children do not allow.
pub fn check_atom(
    atom: &Atom,
    f: &str,
    path: &str,
    span: Span,
    callable: &Vec<String>,
    skirmish: bool,
    errors: &mut Vec<ValidationError>,
)
    ensures
        val_diags(final(errors)@) == val_diags(old(errors)@) + at_span(path@, span, atom_call_msgs(*atom, f@, name_seq(callable@), skirmish)),
{
    proof {
        assert(at_span(path@, span, Seq::<Seq<char>>::empty()) =~= Seq::<DiagV>::empty());
        assert(val_diags(old(errors)@) + Seq::<DiagV>::empty() =~= val_diags(old(errors)@));
    }
    if let Atom::Call { name, args } = atom {
        if skirmish {
            let mut m = start_msg(f);
            m.append("skirmish files cannot call other functions (found call to '");
            m.append(name.as_str());
            m.append("').");
            push_err(errors, path, span, m);
            return;
        }
        let e0 = Ghost(val_diags(errors@));
        proof {
            lemma_name_seq_contains(callable@, name@);
        }
        let ghost m1: Seq<Seq<char>> = if name_seq(callable@).len() > 0 && !name_seq(callable@).contains(name@) {
            seq![msg_unlisted_call(f@, name@)]
        } else {
            Seq::empty()
        };
        if callable.len() > 0 && !has_name(callable, name.as_str()) {
            let mut m = start_msg(f);
            m.append("calls '");
            m.append(name.as_str());
            m.append("' which is not listed in any child inventory.");
            push_err(errors, path, span, m);
        }
        proof {
            assert(val_diags(errors@) == e0@ + at_span(path@, span, m1));
            assert(args@.subrange(0, 0) =~= Seq::<CallArg>::empty());
        }
        let mut i: usize = 0;
        while i < args.len()
            invariant
                i <= args@.len(),
                val_diags(errors@) == e0@ + at_span(path@, span, m1 + ref_msgs(f@, args@.subrange(0, i as int), name_seq(callable@))),
            decreases args@.len() - i,
        {
            let ghost pre = args@.subrange(0, i as int);
            let ghost before = val_diags(errors@);
            proof {
                assert(args@.subrange(0, i + 1).drop_last() =~= pre);
                assert(args@.subrange(0, i + 1).last() == args@[i as int]);
            }
            if let CallArg::BulletRef(r) = &args[i] {
                proof {
                    lemma_name_seq_contains(callable@, r@);
                }
                if callable.len() > 0 && !has_name(callable, r.as_str()) {
                    let mut m = start_msg(f);
                    m.append("references '&");
                    m.append(r.as_str());
                    m.append("' which is not listed in any child inventory.");
                    push_err(errors, path, span, m);
                    proof {
                        lemma_at_span_add(path@, span, m1 + ref_msgs(f@, pre, name_seq(callable@)), seq![m@]);
                        assert(m1 + ref_msgs(f@, args@.subrange(0, i + 1), name_seq(callable@)) =~= m1 + ref_msgs(f@, pre, name_seq(callable@)) + seq![m@]);
                    }
                } else {
                    proof {
                        assert(m1 + ref_msgs(f@, args@.subrange(0, i + 1), name_seq(callable@)) =~= m1 + ref_msgs(f@, pre, name_seq(callable@)));
                    }
                }
            } else {
                proof {
                    assert(m1 + ref_msgs(f@, args@.subrange(0, i + 1), name_seq(callable@)) =~= m1 + ref_msgs(f@, pre, name_seq(callable@)));
                }
            }
            i = i + 1;
        }
        proof {
            assert(args@.subrange(0, args@.len() as int) =~= args@);
        }
    }
}

/// Reports the disallowed calls at the top of an expression's atoms.
pub fn collect_call_errors(
    expr: &Expr,
    f: &str,
    path: &str,
    span: Span,
    callable: &Vec<String>,
    skirmish: bool,
    errors: &mut Vec<ValidationError>,
)
    ensures
        val_diags(final(errors)@) == val_diags(old(errors)@) + at_span(path@, span, expr_call_msgs(*expr, f@, name_seq(callable@), skirmish)),
    decreases expr, 1nat,
{
    match expr {
        Expr::Atom(a) => check_atom(a, f, path, span, callable, skirmish, errors),
        Expr::BinOp(b) => {
            let ghost e0 = val_diags(errors@);
            check_atom(&b.lhs, f, path, span, callable, skirmish, errors);
            check_atom(&b.rhs, f, path, span, callable, skirmish, errors);
            proof {
                let l = atom_call_msgs(b.lhs, f@, name_seq(callable@), skirmish);
                let r = atom_call_msgs(b.rhs, f@, name_seq(callable@), skirmish);
                lemma_at_span_add(path@, span, l, r);
                assert(e0 + at_span(path@, span, l) + at_span(path@, span, r) =~= e0 + (at_span(path@, span, l) + at_span(path@, span, r)));
            }
        },
        Expr::Tuple(es) => collect_calls_in(es, f, path, span, callable, skirmish, errors),
    }
}

fn collect_calls_in(
    es: &Vec<Expr>,
    f: &str,
    path: &str,
    span: Span,
    callable: &Vec<String>,
    skirmish: bool,
    errors: &mut Vec<ValidationError>,
)
    ensures
        val_diags(final(errors)@) == val_diags(old(errors)@) + at_span(path@, span, exprs_call_msgs(es@, f@, name_seq(callable@), skirmish)),
    decreases es, 1nat,
{
    let ghost e0 = val_diags(errors@);
    let mut i: usize = 0;
    proof {
        assert(es@.subrange(0, 0) =~= Seq::<Expr>::empty());
        assert(at_span(path@, span, Seq::<Seq<char>>::empty()) =~= Seq::<DiagV>::empty());
        assert(e0 + Seq::<DiagV>::empty() =~= e0);
    }
    while i < es.len()
        invariant
            i <= es@.len(),
            val_diags(errors@) == e0 + at_span(path@, span, exprs_call_msgs(es@.subrange(0, i as int), f@, name_seq(callable@), skirmish)),
        decreases es@.len() - i,
    {
        let ghost pre = es@.subrange(0, i as int);
        proof {
            assert(es@.subrange(0, i + 1).drop_last() =~= pre);
            assert(es@.subrange(0, i + 1).last() == es@[i as int]);
        }
        collect_call_errors(&es[i], f, path, span, callable, skirmish, errors);
        proof {
            let a = exprs_call_msgs(pre, f@, name_seq(callable@), skirmish);
            let b = expr_call_msgs(es@[i as int], f@, name_seq(callable@), skirmish);
            lemma_at_span_add(path@, span, a, b);
            assert(e0 + at_span(path@, span, a) + at_span(path@, span, b) =~= e0 + (at_span(path@, span, a) + at_span(path@, span, b)));
        }
        i = i + 1;
    }
    proof {
        assert(es@.subrange(0, es@.len() as int) =~= es@);
    }
}

// ── Bullets ───────────────────────────────────────────────────────────────────

/// The names of a list, taken as a set.
pub open spec fn name_set(v: Seq<String>) -> Set<Seq<char>> {
    Set::new(|n: Seq<char>| listed(v, n))
}

/// The names of a list, in order.
pub open spec fn name_seq(v: Seq<String>) -> Seq<Seq<char>> {
    v.map_values(|s: String| s@)
}

pub proof fn lemma_name_set_push(v: Seq<String>, s: String)
    ensures
        name_set(v.push(s)) == name_set(v).insert(s@),
{
    assert forall|n: Seq<char>| name_set(v.push(s)).contains(n) == name_set(v).insert(s@).contains(n) by {
        if listed(v, n) {
            let k = choose|k: int| 0 <= k < v.len() && (#[trigger] v[k])@ == n;
            assert(v.push(s)[k] == v[k]);
        }
        if n == s@ {
            assert(v.push(s)[v.len() as int] == s);
        }
        if listed(v.push(s), n) {
            let k = choose|k: int| 0 <= k < v.push(s).len() && (#[trigger] v.push(s)[k])@ == n;
            if k < v.len() {
                assert(v[k] == v.push(s)[k]);
            }
        }
    }
    assert(name_set(v.push(s)) =~= name_set(v).insert(s@));
}

pub proof fn lemma_name_seq_contains(v: Seq<String>, n: Seq<char>)
    ensures
        name_seq(v).contains(n) == listed(v, n),
{
    if listed(v, n) {
        let k = choose|k: int| 0 <= k < v.len() && (#[trigger] v[k])@ == n;
        assert(name_seq(v)[k] == n);
    }
    if name_seq(v).contains(n) {
        let k = choose|k: int| 0 <= k < name_seq(v).len() && name_seq(v)[k] == n;
        assert(v[k]@ == n);
    }
}

/// What a bullet's inputs add to the consumed names, and the messages for
/// inputs that name neither a parameter nor an earlier binding.
pub open spec fn inputs_step(
    ps: Seq<Param>,
    bound: Seq<Seq<char>>,
    consumed: Set<Seq<char>>,
    f: Seq<char>,
    idx: nat,
    ins: Seq<Expr>,
) -> (Set<Seq<char>>, Seq<Seq<char>>)
    decreases ins.len(),
{
    if ins.len() == 0 {
        (consumed, Seq::empty())
    } else {
        let (c, m) = inputs_step(ps, bound, consumed, f, idx, ins.drop_last());
        match ins.last() {
            Expr::Atom(Atom::Ident(n)) => if param_named(ps, n@) || bound.contains(n@) {
                (c.insert(n@), m)
            } else {
                (c, m.push(msg_unknown_param(f, idx, n@)))
            },
            _ => (c, m),
        }
    }
}

/// The names bound so far, in the order first bound, and those read.
pub struct BindState {
    pub bound: Seq<Seq<char>>,
    pub consumed: Set<Seq<char>>,
}

pub open spec fn binding_text(b: Option<String>) -> Seq<char> {
    match b {
        Some(s) => s@,
        None => "_"@,
    }
}

/// The message for binding a name a second time.
pub open spec fn twice_msgs(f: Seq<char>, bound: Seq<Seq<char>>, binding: Option<String>) -> Seq<Seq<char>> {
    match binding {
        Some(b) => if bound.contains(b@) { seq![msg_assigned_twice(f, b@)] } else { Seq::empty() },
        None => Seq::empty(),
    }
}

/// The message for a last bullet that does not bind the output.
pub open spec fn last_msgs(f: Seq<char>, out: Seq<char>, binding: Option<String>, last: bool) -> Seq<Seq<char>> {
    let hits = match binding {
        Some(b) => b@ == out,
        None => false,
    };
    if last && !hits { seq![msg_last_binding(f, binding_text(binding), out)] } else { Seq::empty() }
}

/// What one bullet reports, and the names bound and read after it.
pub open spec fn bullet_step(
    ps: Seq<Param>,
    f: Seq<char>,
    out: Seq<char>,
    callable: Seq<Seq<char>>,
    skirmish: bool,
    st: BindState,
    p: Pipe,
    i: nat,
    last: bool,
) -> (BindState, Seq<Seq<char>>) {
    let (c1, m1) = inputs_step(ps, st.bound, st.consumed, f, i + 1, p.inputs@);
    let m2 = expr_call_msgs(p.expr, f, callable, skirmish);
    let m3 = twice_msgs(f, st.bound, p.binding);
    let m4 = last_msgs(f, out, p.binding, last);
    let bound2 = match p.binding {
        Some(b) => if st.bound.contains(b@) { st.bound } else { st.bound.push(b@) },
        None => st.bound,
    };
    let c2 = match p.binding {
        Some(b) => if p.propagate { c1.insert(b@) } else { c1 },
        None => c1,
    };
    (BindState { bound: bound2, consumed: c2 }, m1 + m2 + m3 + m4)
}

/// The state and the messages after the first `n` bullets.
pub open spec fn bullets_run(
    ps: Seq<Param>,
    f: Seq<char>,
    out: Seq<char>,
    callable: Seq<Seq<char>>,
    skirmish: bool,
    path: Seq<char>,
    pipes: Seq<Pipe>,
    n: nat,
) -> (BindState, Seq<DiagV>)
    decreases n,
{
    if n == 0 {
        (BindState { bound: Seq::empty(), consumed: Set::empty() }, Seq::empty())
    } else {
        let (st, d) = bullets_run(ps, f, out, callable, skirmish, path, pipes, (n - 1) as nat);
        let (st2, m) = bullet_step(ps, f, out, callable, skirmish, st, pipes[n - 1], (n - 1) as nat, n == pipes.len());
        (st2, d + at_span(path, pipes[n - 1].span, m))
    }
}

/// Bound names, other than the output, that nothing reads.
pub open spec fn unused_msgs(f: Seq<char>, out: Seq<char>, bound: Seq<Seq<char>>, consumed: Set<Seq<char>>) -> Seq<Seq<char>>
    decreases bound.len(),
{
    if bound.len() == 0 {
        Seq::empty()
    } else {
        unused_msgs(f, out, bound.drop_last(), consumed) + if bound.last() != out && !consumed.contains(bound.last()) {
            seq![msg_unused(f, bound.last())]
        } else {
            Seq::empty()
        }
    }
}

/// Everything that checking a body's bullets reports.
pub open spec fn bullets_diags(
    pipes: Seq<Pipe>,
    f: Seq<char>,
    out: Seq<char>,
    ps: Seq<Param>,
    path: Seq<char>,
    callable: Seq<Seq<char>>,
    skirmish: bool,
) -> Seq<DiagV> {
    let (st, d) = bullets_run(ps, f, out, callable, skirmish, path, pipes, pipes.len());
    (if pipes.len() > 5 {
        at_span(path, no_span(), seq![msg_too_many_bullets(f, pipes.len())])
    } else {
        Seq::empty()
    }) + d + at_span(path, no_span(), unused_msgs(f, out, st.bound, st.consumed))
}

fn check_inputs(
    ins: &Vec<Expr>,
    ps: &Vec<Param>,
    bound: &Vec<String>,
    consumed: &mut Vec<String>,
    f: &str,
    idx: usize,
    path: &str,
    span: Span,
    errors: &mut Vec<ValidationError>,
)
    ensures
        name_set(final(consumed)@) == inputs_step(ps@, name_seq(bound@), name_set(old(consumed)@), f@, idx as nat, ins@).0,
        val_diags(final(errors)@) == val_diags(old(errors)@) + at_span(
            path@,
            span,
            inputs_step(ps@, name_seq(bound@), name_set(old(consumed)@), f@, idx as nat, ins@).1,
        ),
{
    let ghost c0 = name_set(consumed@);
    let ghost e0 = val_diags(errors@);
    let mut i: usize = 0;
    proof {
        assert(ins@.subrange(0, 0) =~= Seq::<Expr>::empty());
        assert(at_span(path@, span, Seq::<Seq<char>>::empty()) =~= Seq::<DiagV>::empty());
        assert(e0 + Seq::<DiagV>::empty() =~= e0);
    }
    while i < ins.len()
        invariant
            i <= ins@.len(),
            name_set(consumed@) == inputs_step(ps@, name_seq(bound@), c0, f@, idx as nat, ins@.subrange(0, i as int)).0,
            val_diags(errors@) == e0 + at_span(
                path@,
                span,
                inputs_step(ps@, name_seq(bound@), c0, f@, idx as nat, ins@.subrange(0, i as int)).1,
            ),
        decreases ins@.len() - i,
    {
        let ghost pre = ins@.subrange(0, i as int);
        let ghost st = inputs_step(ps@, name_seq(bound@), c0, f@, idx as nat, pre);
        proof {
            assert(ins@.subrange(0, i + 1).drop_last() =~= pre);
            assert(ins@.subrange(0, i + 1).last() == ins@[i as int]);
        }
        if let Expr::Atom(Atom::Ident(name)) = &ins[i] {
            proof {
                lemma_name_seq_contains(bound@, name@);
            }
            if has_param(ps, name.as_str()) || has_name(bound, name.as_str()) {
                let ghost before = consumed@;
                consumed.push(name.clone());
                proof {
                    lemma_name_set_push(before, *name);
                }
            } else {
                let mut m = String::from_str("Function '");
                m.append(f);
                m.append("' bullet ");
                add_num(&mut m, idx);
                m.append(": '");
                m.append(name.as_str());
                m.append("' is an unknown parameter.");
                push_err(errors, path, span, m);
                proof {
                    lemma_at_span_add(path@, span, st.1, seq![m@]);
                    assert(st.1 + seq![m@] =~= st.1.push(m@));
                }
            }
        }
        i = i + 1;
    }
    proof {
        assert(ins@.subrange(0, ins@.len() as int) =~= ins@);
    }
}

fn check_bullet(
    p: &Pipe,
    ps: &Vec<Param>,
    f: &str,
    out: &str,
    callable: &Vec<String>,
    skirmish: bool,
    path: &str,
    i: usize,
    last: bool,
    bound: &mut Vec<String>,
    consumed: &mut Vec<String>,
    errors: &mut Vec<ValidationError>,
)
    requires
        i < usize::MAX,
    ensures
        ({
            let (st, m) = bullet_step(
                ps@,
                f@,
                out@,
                name_seq(callable@),
                skirmish,
                BindState { bound: name_seq(old(bound)@), consumed: name_set(old(consumed)@) },
                *p,
                i as nat,
                last,
            );
            &&& name_seq(final(bound)@) == st.bound
            &&& name_set(final(consumed)@) == st.consumed
            &&& val_diags(final(errors)@) == val_diags(old(errors)@) + at_span(path@, p.span, m)
        }),
{
    let ghost st0 = BindState { bound: name_seq(bound@), consumed: name_set(consumed@) };
    let ghost e0 = val_diags(errors@);
    let ghost step = bullet_step(ps@, f@, out@, name_seq(callable@), skirmish, st0, *p, i as nat, last);
    let ghost ins = inputs_step(ps@, st0.bound, st0.consumed, f@, (i + 1) as nat, p.inputs@);
    check_inputs(&p.inputs, ps, bound, consumed, f, i + 1, path, p.span, errors);
    let ghost e1 = val_diags(errors@);
    collect_call_errors(&p.expr, f, path, p.span, callable, skirmish, errors);
    let ghost e2 = val_diags(errors@);
    let ghost m2 = expr_call_msgs(p.expr, f@, name_seq(callable@), skirmish);
    let ghost m3 = twice_msgs(f@, st0.bound, p.binding);
    let ghost m4 = last_msgs(f@, out@, p.binding, last);
    proof {
        assert(step.1 == ins.1 + m2 + m3 + m4);
        assert(at_span(path@, p.span, Seq::<Seq<char>>::empty()) =~= Seq::<DiagV>::empty());
    }
    let mut twice = false;
    if let Some(b) = &p.binding {
        proof {
            lemma_name_seq_contains(bound@, b@);
        }
        twice = has_name(bound, b.as_str());
        if twice {
            let mut m = start_msg(f);
            m.append("'{");
            m.append(b.as_str());
            m.append("}' is assigned more than once.");
            push_err(errors, path, p.span, m);
        }
    }
    proof {
        assert(val_diags(errors@) =~= e2 + at_span(path@, p.span, m3));
    }
    let ghost e3 = val_diags(errors@);
    let hit = match &p.binding {
        Some(b) => str_is(b.as_str(), out),
        None => false,
    };
    if last && !hit {
        let mut m = start_msg(f);
        m.append("last bullet output '{");
        match &p.binding {
            Some(b) => m.append(b.as_str()),
            None => m.append("_"),
        }
        m.append("}' must match function output '{");
        m.append(out);
        m.append("}'.");
        push_err(errors, path, p.span, m);
    }
    proof {
        assert(val_diags(errors@) =~= e3 + at_span(path@, p.span, m4));
        lemma_at_span_add(path@, p.span, ins.1, m2);
        lemma_at_span_add(path@, p.span, ins.1 + m2, m3);
        lemma_at_span_add(path@, p.span, ins.1 + m2 + m3, m4);
        assert(val_diags(errors@) =~= e0 + at_span(path@, p.span, step.1));
    }
    if let Some(b) = &p.binding {
        if !twice {
            let ghost before = bound@;
            bound.push(b.clone());
            proof {
                assert(name_seq(bound@) =~= name_seq(before).push(b@));
            }
        }
        if p.propagate {
            let ghost before = consumed@;
            consumed.push(b.clone());
            proof {
                lemma_name_set_push(before, *b);
            }
        }
    }
}

/// Checks the bullets of a body: how many there are, which names they read,
/// what they bind, what they call, and that the last binds the output.
pub fn validate_bullets(
    pipes: &Vec<Pipe>,
    f: &str,
    out: &str,
    ps: &Vec<Param>,
    path: &str,
    callable: &Vec<String>,
    skirmish: bool,
) -> (r: Vec<ValidationError>)
    ensures
        val_diags(r@) == bullets_diags(pipes@, f@, out@, ps@, path@, name_seq(callable@), skirmish),
{
    let mut errors: Vec<ValidationError> = Vec::new();
    let ghost pre_msgs: Seq<DiagV> = if pipes@.len() > 5 {
        at_span(path@, no_span(), seq![msg_too_many_bullets(f@, pipes@.len())])
    } else {
        Seq::empty()
    };
    if pipes.len() > 5 {
        let mut m = start_msg(f);
        m.append("cannot contain more than 5 bullets (found ");
        add_num(&mut m, pipes.len());
        m.append(").");
        push_err(&mut errors, path, Span { line: 0, col: 0 }, m);
    }
    proof {
        assert(val_diags(errors@) =~= pre_msgs);
    }
    let mut bound: Vec<String> = Vec::new();
    let mut consumed: Vec<String> = Vec::new();
    proof {
        assert(name_seq(bound@) =~= Seq::<Seq<char>>::empty());
        assert(name_set(consumed@) =~= Set::<Seq<char>>::empty());
        assert(pre_msgs + Seq::<DiagV>::empty() =~= pre_msgs);
    }
    let n = pipes.len();
    let mut i: usize = 0;
    while i < n
        invariant
            n == pipes@.len(),
            i <= n,
            ({
                let (st, d) = bullets_run(ps@, f@, out@, name_seq(callable@), skirmish, path@, pipes@, i as nat);
                &&& name_seq(bound@) == st.bound
                &&& name_set(consumed@) == st.consumed
                &&& val_diags(errors@) == pre_msgs + d
            }),
        decreases n - i,
    {
        let ghost e0 = val_diags(errors@);
        check_bullet(&pipes[i], ps, f, out, callable, skirmish, path, i, i + 1 == n, &mut bound, &mut consumed, &mut errors);
        proof {
            let (st, d) = bullets_run(ps@, f@, out@, name_seq(callable@), skirmish, path@, pipes@, i as nat);
            let (st2, m) = bullet_step(ps@, f@, out@, name_seq(callable@), skirmish, st, pipes@[i as int], i as nat, i + 1 == n);
            assert(bullets_run(ps@, f@, out@, name_seq(callable@), skirmish, path@, pipes@, (i + 1) as nat) == (st2, d + at_span(path@, pipes@[i as int].span, m)));
            assert(pre_msgs + d + at_span(path@, pipes@[i as int].span, m) =~= pre_msgs + (d + at_span(path@, pipes@[i as int].span, m)));
        }
        i = i + 1;
    }
    let ghost st = bullets_run(ps@, f@, out@, name_seq(callable@), skirmish, path@, pipes@, n as nat).0;
    let ghost e0 = val_diags(errors@);
    let mut j: usize = 0;
    proof {
        assert(bound@.subrange(0, 0) =~= Seq::<String>::empty());
        assert(name_seq(bound@.subrange(0, 0)) =~= Seq::<Seq<char>>::empty());
        assert(at_span(path@, no_span(), Seq::<Seq<char>>::empty()) =~= Seq::<DiagV>::empty());
        assert(e0 + Seq::<DiagV>::empty() =~= e0);
    }
    while j < bound.len()
        invariant
            j <= bound@.len(),
            name_set(consumed@) == st.consumed,
            val_diags(errors@) == e0 + at_span(path@, no_span(), unused_msgs(f@, out@, name_seq(bound@.subrange(0, j as int)), st.consumed)),
        decreases bound@.len() - j,
    {
        let ghost pre = name_seq(bound@.subrange(0, j as int));
        proof {
            assert(name_seq(bound@.subrange(0, j + 1)) =~= pre.push(bound@[j as int]@));
            assert(pre.push(bound@[j as int]@).drop_last() =~= pre);
        }
        let b = &bound[j];
        if !str_is(b.as_str(), out) && !has_name(&consumed, b.as_str()) {
            let mut m = start_msg(f);
            m.append("'{");
            m.append(b.as_str());
            m.append("}' is produced but never used.");
            push_err(&mut errors, path, Span { line: 0, col: 0 }, m);
            proof {
                lemma_at_span_add(path@, no_span(), unused_msgs(f@, out@, pre, st.consumed), seq![m@]);
            }
        } else {
            proof {
                assert(unused_msgs(f@, out@, pre.push(bound@[j as int]@), st.consumed) =~= unused_msgs(f@, out@, pre, st.consumed));
            }
        }
        j = j + 1;
    }
    proof {
        assert(bound@.subrange(0, bound@.len() as int) =~= bound@);
        assert(pre_msgs + bullets_run(ps@, f@, out@, name_seq(callable@), skirmish, path@, pipes@, n as nat).1 + at_span(path@, no_span(), unused_msgs(f@, out@, st.bound, st.consumed))
            == val_diags(errors@));
    }
    errors
}

// ── Functions ─────────────────────────────────────────────────────────────────

pub open spec fn msg_unknown_backend(f: Seq<char>, kw: Seq<char>) -> Seq<char> {
    fq(f) + "'@"@ + kw + "' is not a supported backend. Supported escape blocks: @rust, @python, @c, @cpp, @go."@
}

pub open spec fn msg_unknown_builtin(f: Seq<char>, name: Seq<char>) -> Seq<char> {
    fq(f) + "'builtin::"@ + name + "' is not a known builtin. Run `bullang stdlib --list` to see available builtins."@
}

pub open spec fn msg_one_block(f: Seq<char>, n: nat) -> Seq<char> {
    fq(f) + "only one escape block is allowed per function, found "@ + nat_decimal(n)
        + ". Write one @backend block with the target language code."@
}

pub open spec fn msg_block_lang(f: Seq<char>, b: BackendV, lang: BackendV) -> Seq<char> {
    fq(f) + "'@"@ + backend_keyword(b) + "' block is not allowed in a '#lang: "@ + backend_ext(lang)
        + "' folder. Use '@"@ + backend_keyword(lang) + "' instead, or move this function to a folder with '#lang: "@
        + backend_ext(b) + "'."@
}

pub open spec fn msg_needs_lang(f: Seq<char>, kw: Seq<char>) -> Seq<char> {
    fq(f) + "native block '@"@ + kw + "' requires #lang: to be declared in this folder's inventory."@
}

/// The keyword of the first escape block whose backend is unknown.
pub open spec fn first_unknown(bs: Seq<NativeBlock>) -> Option<Seq<char>>
    decreases bs.len(),
{
    if bs.len() == 0 {
        None
    } else {
        match bs[0].backend@ {
            BackendV::Unknown(k) => Some(k),
            _ => first_unknown(bs.drop_first()),
        }
    }
}

/// The name that a function's output is bound to (empty when it has none).
pub open spec fn out_name(func: Bullet) -> Seq<char> {
    match func.output {
        Some(o) => o.name@,
        None => ""@,
    }
}

/// Everything that checking one function reports.
pub open spec fn function_msgs(func: Bullet, path: Seq<char>, callable: Seq<Seq<char>>, skirmish: bool) -> Seq<DiagV> {
    match func.body {
        BulletBody::Natives(bs) => match first_unknown(bs@) {
            Some(k) => at_span(path, no_span(), seq![msg_unknown_backend(func.name@, k)]),
            None => Seq::empty(),
        },
        BulletBody::Builtin(n) => if !builtin_names().contains(n@) {
            at_span(path, no_span(), seq![msg_unknown_builtin(func.name@, n@)])
        } else {
            Seq::empty()
        },
        BulletBody::Pipes(ps) => bullets_diags(ps@, func.name@, out_name(func), func.params@, path, callable, skirmish),
    }
}

fn find_unknown(bs: &Vec<NativeBlock>) -> (r: Option<String>)
    ensures
        r matches Some(k) ==> first_unknown(bs@) == Some(k@),
        r is None ==> first_unknown(bs@) is None,
{
    let mut i: usize = 0;
    proof {
        assert(bs@.subrange(0, bs@.len() as int) =~= bs@);
    }
    while i < bs.len()
        invariant
            i <= bs@.len(),
            first_unknown(bs@) == first_unknown(bs@.subrange(i as int, bs@.len() as int)),
        decreases bs@.len() - i,
    {
        proof {
            assert(bs@.subrange(i as int, bs@.len() as int).drop_first() =~= bs@.subrange(i + 1, bs@.len() as int));
            assert(bs@.subrange(i as int, bs@.len() as int)[0] == bs@[i as int]);
        }
        if let Backend::Unknown(k) = &bs[i].backend {
            return Some(k.clone());
        }
        i = i + 1;
    }
    None
}

/// Checks a function: its escape blocks' backends, its builtin's name, or
/// its bullets.
pub fn validate_function(func: &Bullet, path: &str, callable: &Vec<String>, skirmish: bool) -> (r: Vec<ValidationError>)
    ensures
        val_diags(r@) == function_msgs(*func, path@, name_seq(callable@), skirmish),
{
    let mut errors: Vec<ValidationError> = Vec::new();
    match &func.body {
        BulletBody::Natives(bs) => {
            if let Some(k) = find_unknown(bs) {
                let mut m = start_msg(func.name.as_str());
                m.append("'@");
                m.append(k.as_str());
                m.append("' is not a supported backend. Supported escape blocks: @rust, @python, @c, @cpp, @go.");
                push_err(&mut errors, path, Span { line: 0, col: 0 }, m);
            } else {
                proof { assert(val_diags(errors@) =~= Seq::<DiagV>::empty()); }
            }
            errors
        },
        BulletBody::Builtin(n) => {
            if !is_known_builtin(n.as_str()) {
                let mut m = start_msg(func.name.as_str());
                m.append("'builtin::");
                m.append(n.as_str());
                m.append("' is not a known builtin. Run `bullang stdlib --list` to see available builtins.");
                push_err(&mut errors, path, Span { line: 0, col: 0 }, m);
            } else {
                proof { assert(val_diags(errors@) =~= Seq::<DiagV>::empty()); }
            }
            errors
        },
        BulletBody::Pipes(ps) => {
            let out: &str = match &func.output {
                Some(o) => o.name.as_str(),
                None => "",
            };
            validate_bullets(ps, func.name.as_str(), out, &func.params, path, callable, skirmish)
        },
    }
}

/// Whether an escape block may stand in a folder of language `lang`; C
/// blocks are allowed in C++ folders.
pub open spec fn lang_ok(b: BackendV, lang: BackendV) -> bool {
    (b == BackendV::C && lang == BackendV::Cpp) || b == lang
}

/// Messages for escape blocks that the folder's language does not allow.
pub open spec fn native_lang_msgs(func: Bullet, lang: BackendV) -> Seq<Seq<char>> {
    match func.body {
        BulletBody::Natives(bs) => if bs@.len() > 1 {
            seq![msg_one_block(func.name@, bs@.len())]
        } else if bs@.len() == 1 && !lang_ok(bs@[0].backend@, lang) {
            seq![msg_block_lang(func.name@, bs@[0].backend@, lang)]
        } else {
            Seq::empty()
        },
        _ => Seq::empty(),
    }
}

/// Checks that a function has at most one escape block, in the folder's language.
pub fn validate_native_blocks_lang(func: &Bullet, path: &str, lang: &Backend) -> (r: Vec<ValidationError>)
    ensures
        val_diags(r@) == at_span(path@, no_span(), native_lang_msgs(*func, lang@)),
{
    let mut errors: Vec<ValidationError> = Vec::new();
    proof {
        assert(at_span(path@, no_span(), Seq::<Seq<char>>::empty()) =~= Seq::<DiagV>::empty());
    }
    if let BulletBody::Natives(bs) = &func.body {
        if bs.len() > 1 {
            let mut m = start_msg(func.name.as_str());
            m.append("only one escape block is allowed per function, found ");
            add_num(&mut m, bs.len());
            m.append(". Write one @backend block with the target language code.");
            push_err(&mut errors, path, Span { line: 0, col: 0 }, m);
            return errors;
        }
        if bs.len() == 1 {
            let b = &bs[0].backend;
            let ok = (matches!(b, Backend::C) && matches!(lang, Backend::Cpp)) || b.same(lang);
            if !ok {
                let mut m = start_msg(func.name.as_str());
                m.append("'@");
                let bk = b.escape_keyword();
                m.append(bk.as_str());
                m.append("' block is not allowed in a '#lang: ");
                let le = lang.ext();
                m.append(le.as_str());
                m.append("' folder. Use '@");
                let lk = lang.escape_keyword();
                m.append(lk.as_str());
                m.append("' instead, or move this function to a folder with '#lang: ");
                let be = b.ext();
                m.append(be.as_str());
                m.append("'.");
                push_err(&mut errors, path, Span { line: 0, col: 0 }, m);
            }
        }
    }
    proof {
        assert(val_diags(errors@) =~= at_span(path@, no_span(), native_lang_msgs(*func, lang@)));
    }
    errors
}

// ── Collected errors ──────────────────────────────────────────────────────────

impl View for ParseError {
    type V = DiagV;

    open spec fn view(&self) -> DiagV {
        DiagV { file: self.file@, line: self.line as nat, col: self.col as nat, message: self.message@ }
    }
}

pub open spec fn parse_diags(v: Seq<ParseError>) -> Seq<DiagV> {
    v.map_values(|e: ParseError| e@)
}

/// Parse errors and structural errors of one run, kept apart.
pub struct AllErrors {
    pub parse: Vec<ParseError>,
    pub structural: Vec<ValidationError>,
}

pub struct AllV {
    pub parse: Seq<DiagV>,
    pub structural: Seq<DiagV>,
}

impl View for AllErrors {
    type V = AllV;

    open spec fn view(&self) -> AllV {
        AllV { parse: parse_diags(self.parse@), structural: val_diags(self.structural@) }
    }
}

pub open spec fn no_errs() -> AllV {
    AllV { parse: Seq::empty(), structural: Seq::empty() }
}

/// The errors of `a` followed by those of `b`.
pub open spec fn all_cat(a: AllV, b: AllV) -> AllV {
    AllV { parse: a.parse + b.parse, structural: a.structural + b.structural }
}

pub open spec fn structural_only(d: Seq<DiagV>) -> AllV {
    AllV { parse: Seq::empty(), structural: d }
}

impl AllErrors {
    pub fn new() -> (r: AllErrors)
        ensures
            r@ == no_errs(),
    {
        let r = AllErrors { parse: Vec::new(), structural: Vec::new() };
        proof {
            assert(r@.parse =~= Seq::<DiagV>::empty());
            assert(r@.structural =~= Seq::<DiagV>::empty());
        }
        r
    }

    pub fn is_empty(&self) -> (r: bool)
        ensures
            r == (self@.parse.len() == 0 && self@.structural.len() == 0),
    {
        self.parse.len() == 0 && self.structural.len() == 0
    }

    pub fn push_structural(&mut self, e: ValidationError)
        ensures
            final(self)@ == all_cat(old(self)@, structural_only(seq![e@])),
    {
        self.structural.push(e);
        proof {
            assert(final(self)@.structural =~= old(self)@.structural + seq![e@]);
            assert(final(self)@.parse =~= old(self)@.parse + Seq::<DiagV>::empty());
        }
    }

    pub fn extend_structural(&mut self, es: Vec<ValidationError>)
        ensures
            final(self)@ == all_cat(old(self)@, structural_only(val_diags(es@))),
    {
        append_errs(&mut self.structural, es);
        proof {
            assert(final(self)@.parse =~= old(self)@.parse + Seq::<DiagV>::empty());
        }
    }

    pub fn extend_parse(&mut self, es: Vec<ParseError>)
        ensures
            final(self)@ == all_cat(old(self)@, AllV { parse: parse_diags(es@), structural: Seq::empty() }),
    {
        let mut m = es;
        let ghost ms = m@;
        self.parse.append(&mut m);
        proof {
            assert(final(self)@.parse =~= old(self)@.parse + parse_diags(ms));
            assert(final(self)@.structural =~= old(self)@.structural + Seq::<DiagV>::empty());
        }
    }

    pub fn extend_all(&mut self, other: AllErrors)
        ensures
            final(self)@ == all_cat(old(self)@, other@),
    {
        let AllErrors { parse, structural } = other;
        self.extend_parse(parse);
        self.extend_structural(structural);
        proof {
            assert(final(self)@.parse =~= old(self)@.parse + other@.parse);
            assert(final(self)@.structural =~= old(self)@.structural + other@.structural);
        }
    }
}

// ── Source files ──────────────────────────────────────────────────────────────

/// What a tolerant parse of a file gives: the file as far as it could be
/// read, and the errors met on the way.
pub struct ParsedFile {
    pub file: BuFile,
    pub errors: Vec<ParseError>,
}

fn copy_parse_errors(v: &Vec<ParseError>) -> (r: Vec<ParseError>)
    ensures
        parse_diags(r@) == parse_diags(v@),
{
    let mut pe: Vec<ParseError> = Vec::new();
    let mut j: usize = 0;
    while j < v.len()
        invariant
            j <= v@.len(),
            parse_diags(pe@) == parse_diags(v@.subrange(0, j as int)),
        decreases v@.len() - j,
    {
        let e = &v[j];
        let ghost before = pe@;
        let c = ParseError { file: e.file.clone(), line: e.line, col: e.col, message: e.message.clone() };
        assert(c@ == e@);
        pe.push(c);
        proof {
            assert(parse_diags(pe@) =~= parse_diags(before).push(e@));
            assert(parse_diags(v@.subrange(0, j + 1)) =~= parse_diags(v@.subrange(0, j as int)).push(e@));
        }
        j = j + 1;
    }
    proof {
        assert(v@.subrange(0, v@.len() as int) =~= v@);
    }
    pe
}

pub open spec fn msg_read(e: Seq<char>) -> Seq<char> {
    "Could not read file: "@ + e
}

pub open spec fn msg_too_many_functions(n: nat) -> Seq<char> {
    "A source file cannot contain more than 5 functions (found "@ + nat_decimal(n) + ")."@
}

/// What the folder's language makes of one function's escape blocks.
pub open spec fn lang_part(func: Bullet, path: Seq<char>, lang: Option<BackendV>) -> Seq<DiagV> {
    match lang {
        Some(l) => at_span(path, no_span(), native_lang_msgs(func, l)),
        None => match func.body {
            BulletBody::Natives(bs) => if bs@.len() > 0 {
                at_span(path, no_span(), seq![msg_needs_lang(func.name@, backend_keyword(bs@[0].backend@))])
            } else {
                Seq::empty()
            },
            _ => Seq::empty(),
        },
    }
}

/// What checking each function of a file reports, in order.
pub open spec fn funcs_msgs(
    bs: Seq<Bullet>,
    path: Seq<char>,
    callable: Seq<Seq<char>>,
    skirmish: bool,
    lang: Option<BackendV>,
) -> Seq<DiagV>
    decreases bs.len(),
{
    if bs.len() == 0 {
        Seq::empty()
    } else {
        funcs_msgs(bs.drop_last(), path, callable, skirmish, lang) + function_msgs(bs.last(), path, callable, skirmish)
            + lang_part(bs.last(), path, lang)
    }
}

pub open spec fn source_msgs(
    sf: SourceFile,
    path: Seq<char>,
    skirmish: bool,
    callable: Seq<Seq<char>>,
    lang: Option<BackendV>,
) -> Seq<DiagV> {
    (if sf.bullets@.len() > 5 {
        at_span(path, no_span(), seq![msg_too_many_functions(sf.bullets@.len())])
    } else {
        Seq::empty()
    }) + funcs_msgs(sf.bullets@, path, callable, skirmish, lang)
}

pub open spec fn opt_backend(l: Option<&Backend>) -> Option<BackendV> {
    match l {
        Some(b) => Some(b@),
        None => None,
    }
}

/// Everything that validating a source file reports, given what reading it gave.
pub open spec fn source_file_errs(
    path: Seq<char>,
    read: Result<ParsedFile, String>,
    rank: Rank,
    callable: Seq<Seq<char>>,
    lang: Option<BackendV>,
) -> AllV {
    match read {
        Err(e) => structural_only(at_span(path, no_span(), seq![msg_read(e@)])),
        Ok(pf) => AllV {
            parse: parse_diags(pf.errors@),
            structural: match pf.file {
                BuFile::Source(sf) => source_msgs(sf, path, rank == Rank::Skirmish, callable, lang),
                _ => Seq::empty(),
            },
        },
    }
}

fn check_functions(
    sf: &SourceFile,
    path: &str,
    skirmish: bool,
    callable: &Vec<String>,
    lang: Option<&Backend>,
    errors: &mut Vec<ValidationError>,
)
    ensures
        val_diags(final(errors)@) == val_diags(old(errors)@) + funcs_msgs(sf.bullets@, path@, name_seq(callable@), skirmish, opt_backend(lang)),
{
    let ghost e0 = val_diags(errors@);
    let mut i: usize = 0;
    proof {
        assert(sf.bullets@.subrange(0, 0) =~= Seq::<Bullet>::empty());
        assert(e0 + Seq::<DiagV>::empty() =~= e0);
    }
    while i < sf.bullets.len()
        invariant
            i <= sf.bullets@.len(),
            val_diags(errors@) == e0 + funcs_msgs(sf.bullets@.subrange(0, i as int), path@, name_seq(callable@), skirmish, opt_backend(lang)),
        decreases sf.bullets@.len() - i,
    {
        let func = &sf.bullets[i];
        let ghost pre = sf.bullets@.subrange(0, i as int);
        let ghost e1 = val_diags(errors@);
        proof {
            assert(sf.bullets@.subrange(0, i + 1).drop_last() =~= pre);
            assert(sf.bullets@.subrange(0, i + 1).last() == *func);
        }
        let fe = validate_function(func, path, callable, skirmish);
        append_errs(errors, fe);
        let ghost e2 = val_diags(errors@);
        match lang {
            Some(l) => {
                let le = validate_native_blocks_lang(func, path, l);
                append_errs(errors, le);
            },
            None => {
                let mut done = false;
                if let BulletBody::Natives(bs) = &func.body {
                    if bs.len() > 0 {
                        let mut m = start_msg(func.name.as_str());
                        m.append("native block '@");
                        let kw = bs[0].backend.escape_keyword();
                        m.append(kw.as_str());
                        m.append("' requires #lang: to be declared in this folder's inventory.");
                        push_err(errors, path, Span { line: 0, col: 0 }, m);
                        done = true;
                    }
                }
                if !done {
                    proof {
                        assert(lang_part(*func, path@, opt_backend(lang)) =~= Seq::<DiagV>::empty());
                        assert(val_diags(errors@) =~= e2 + Seq::<DiagV>::empty());
                    }
                }
            },
        }
        proof {
            let fm = function_msgs(*func, path@, name_seq(callable@), skirmish);
            let lp = lang_part(*func, path@, opt_backend(lang));
            assert(val_diags(errors@) == e2 + lp);
            assert(e0 + funcs_msgs(pre, path@, name_seq(callable@), skirmish, opt_backend(lang)) + fm + lp
                =~= e0 + (funcs_msgs(pre, path@, name_seq(callable@), skirmish, opt_backend(lang)) + fm + lp));
        }
        i = i + 1;
    }
    proof {
        assert(sf.bullets@.subrange(0, sf.bullets@.len() as int) =~= sf.bullets@);
    }
}

/// Validates a source file of a folder of rank `rank`, given what reading
/// and a tolerant parse of it gave.
pub fn validate_source_file(
    path: &str,
    read: &Result<ParsedFile, String>,
    rank: Rank,
    callable: &Vec<String>,
    lang: Option<&Backend>,
) -> (r: AllErrors)
    ensures
        r@ == source_file_errs(path@, *read, rank, name_seq(callable@), opt_backend(lang)),
{
    let mut all = AllErrors::new();
    match read {
        Err(e) => {
            let mut m = String::from_str("Could not read file: ");
            m.append(e.as_str());
            let mut v: Vec<ValidationError> = Vec::new();
            push_err(&mut v, path, Span { line: 0, col: 0 }, m);
            all.extend_structural(v);
            proof {
                assert(val_diags(Seq::<ValidationError>::empty()) =~= Seq::<DiagV>::empty());
                assert(all@ =~= source_file_errs(path@, *read, rank, name_seq(callable@), opt_backend(lang)));
            }
            all
        },
        Ok(pf) => {
            let mut structural: Vec<ValidationError> = Vec::new();
            proof {
                assert(val_diags(structural@) =~= Seq::<DiagV>::empty());
            }
            if let BuFile::Source(sf) = &pf.file {
                let skirmish = matches!(rank, Rank::Skirmish);
                if sf.bullets.len() > 5 {
                    let mut m = String::from_str("A source file cannot contain more than 5 functions (found ");
                    add_num(&mut m, sf.bullets.len());
                    m.append(").");
                    push_err(&mut structural, path, Span { line: 0, col: 0 }, m);
                }
                check_functions(sf, path, skirmish, callable, lang, &mut structural);
                proof {
                    assert(val_diags(structural@) =~= source_msgs(*sf, path@, skirmish, name_seq(callable@), opt_backend(lang)));
                }
            }
            let pe = copy_parse_errors(&pf.errors);
            all.extend_parse(pe);
            all.extend_structural(structural);
            proof {
                assert(all@ =~= source_file_errs(path@, *read, rank, name_seq(callable@), opt_backend(lang)));
            }
            all
        },
    }
}

pub open spec fn msg_read_main(e: Seq<char>) -> Seq<char> {
    "Could not read main.bu: "@ + e
}

pub open spec fn msg_main_too_many(n: nat) -> Seq<char> {
    "main.bu cannot contain more than 5 functions (found "@ + nat_decimal(n) + ")."@
}

/// What checking each function of `main.bu` reports, in order.
pub open spec fn main_funcs_msgs(bs: Seq<Bullet>, path: Seq<char>, callable: Seq<Seq<char>>) -> Seq<DiagV>
    decreases bs.len(),
{
    if bs.len() == 0 {
        Seq::empty()
    } else {
        main_funcs_msgs(bs.drop_last(), path, callable) + function_msgs(bs.last(), path, callable, false)
    }
}

pub open spec fn main_file_errs(path: Seq<char>, read: Result<ParsedFile, String>, callable: Seq<Seq<char>>) -> AllV {
    match read {
        Err(e) => structural_only(at_span(path, no_span(), seq![msg_read_main(e@)])),
        Ok(pf) => AllV {
            parse: parse_diags(pf.errors@),
            structural: match pf.file {
                BuFile::Source(sf) => (if sf.bullets@.len() > 5 {
                    at_span(path, no_span(), seq![msg_main_too_many(sf.bullets@.len())])
                } else {
                    Seq::empty()
                }) + main_funcs_msgs(sf.bullets@, path, callable),
                _ => Seq::empty(),
            },
        },
    }
}

/// Validates a folder's `main.bu`, given what reading and parsing it gave.
pub fn validate_main_file(path: &str, read: &Result<ParsedFile, String>, callable: &Vec<String>) -> (r: AllErrors)
    ensures
        r@ == main_file_errs(path@, *read, name_seq(callable@)),
{
    let mut all = AllErrors::new();
    match read {
        Err(e) => {
            let mut m = String::from_str("Could not read main.bu: ");
            m.append(e.as_str());
            let mut v: Vec<ValidationError> = Vec::new();
            push_err(&mut v, path, Span { line: 0, col: 0 }, m);
            all.extend_structural(v);
            proof {
                assert(val_diags(Seq::<ValidationError>::empty()) =~= Seq::<DiagV>::empty());
                assert(all@ =~= main_file_errs(path@, *read, name_seq(callable@)));
            }
            all
        },
        Ok(pf) => {
            let mut structural: Vec<ValidationError> = Vec::new();
            proof {
                assert(val_diags(structural@) =~= Seq::<DiagV>::empty());
            }
            if let BuFile::Source(sf) = &pf.file {
                if sf.bullets.len() > 5 {
                    let mut m = String::from_str("main.bu cannot contain more than 5 functions (found ");
                    add_num(&mut m, sf.bullets.len());
                    m.append(").");
                    push_err(&mut structural, path, Span { line: 0, col: 0 }, m);
                }
                let ghost e0 = val_diags(structural@);
                let mut i: usize = 0;
                proof {
                    assert(sf.bullets@.subrange(0, 0) =~= Seq::<Bullet>::empty());
                    assert(e0 + Seq::<DiagV>::empty() =~= e0);
                }
                while i < sf.bullets.len()
                    invariant
                        i <= sf.bullets@.len(),
                        val_diags(structural@) == e0 + main_funcs_msgs(sf.bullets@.subrange(0, i as int), path@, name_seq(callable@)),
                    decreases sf.bullets@.len() - i,
                {
                    proof {
                        assert(sf.bullets@.subrange(0, i + 1).drop_last() =~= sf.bullets@.subrange(0, i as int));
                        assert(sf.bullets@.subrange(0, i + 1).last() == sf.bullets@[i as int]);
                    }
                    let fe = validate_function(&sf.bullets[i], path, callable, false);
                    append_errs(&mut structural, fe);
                    proof {
                        let a = main_funcs_msgs(sf.bullets@.subrange(0, i as int), path@, name_seq(callable@));
                        let b = function_msgs(sf.bullets@[i as int], path@, name_seq(callable@), false);
                        assert(e0 + a + b =~= e0 + (a + b));
                    }
                    i = i + 1;
                }
                proof {
                    assert(sf.bullets@.subrange(0, sf.bullets@.len() as int) =~= sf.bullets@);
                }
            }
            let pe = copy_parse_errors(&pf.errors);
            all.extend_parse(pe);
            all.extend_structural(structural);
            proof {
                assert(all@ =~= main_file_errs(path@, *read, name_seq(callable@)));
            }
            all
        },
    }
}

// ── Inventories ───────────────────────────────────────────────────────────────

/// What reading a folder's `inventory.bu` gave.
pub enum InvRead {
    /// There is no `inventory.bu` (or it could not be read).
    Missing,
    /// It parsed as a source file.
    NotInventory,
    /// It did not parse; the parser's message.
    Malformed(String),
    Found(InventoryFile),
}

/// A `.bu` file of a folder, as read from disk.
pub struct SourceSnap {
    pub path: String,
    /// The file name without `.bu`.
    pub stem: String,
    /// A tolerant parse of its text, or why it could not be read.
    pub read: Result<ParsedFile, String>,
    /// A strict parse of its text, when that gave a source file.
    pub strict: Option<SourceFile>,
    /// The parser's message, when the strict parse failed.
    pub strict_error: Option<String>,
}

/// A folder of a project as read from disk: its inventory, its source files
/// (`inventory.bu`, `main.bu` and `blueprint.bu` aside) and its sub-folders,
/// both in sorted order.
pub struct FolderSnap {
    pub path: String,
    /// The folder's own name.
    pub name: String,
    pub inventory: InvRead,
    pub files: Vec<SourceSnap>,
    pub main: Option<SourceSnap>,
    pub subdirs: Vec<FolderSnap>,
}

/// `a` joined with the relative path `b`, as `Path::join` joins them: a
/// path that starts with `/` replaces `a`.
pub open spec fn join(a: Seq<char>, b: Seq<char>) -> Seq<char> {
    if b.len() > 0 && b[0] == '/' {
        b
    } else if a.len() == 0 || a.last() == '/' {
        a + b
    } else {
        a + "/"@ + b
    }
}

pub fn join_path(a: &str, b: &str) -> (r: String)
    ensures
        r@ == join(a@, b@),
{
    let av = crate::text::chars_of(a);
    let bv = crate::text::chars_of(b);
    if bv.len() > 0 && bv[0] == '/' {
        return String::from_str(b);
    }
    let mut r = String::from_str(a);
    if av.len() == 0 || av[av.len() - 1] == '/' {
        r.append(b);
    } else {
        r.append("/");
        r.append(b);
    }
    r
}

/// The part of a type name before its first `[`.
pub open spec fn base_name(s: Seq<char>) -> Seq<char>
    decreases s.len(),
{
    if s.len() == 0 {
        s
    } else if s[0] == '[' {
        Seq::empty()
    } else {
        seq![s[0]] + base_name(s.drop_first())
    }
}

pub fn base_type_name(s: &str) -> (r: String)
    ensures
        r@ == base_name(s@),
{
    let v = crate::text::chars_of(s);
    let mut i: usize = 0;
    proof {
        assert(v@.subrange(0, v@.len() as int) =~= v@);
        assert(v@.subrange(0, 0) + base_name(v@) =~= base_name(v@));
    }
    while i < v.len() && v[i] != '['
        invariant
            i <= v@.len(),
            v@ == s@,
            base_name(s@) == v@.subrange(0, i as int) + base_name(v@.subrange(i as int, v@.len() as int)),
        decreases v@.len() - i,
    {
        proof {
            let rest = v@.subrange(i as int, v@.len() as int);
            assert(rest[0] == v@[i as int]);
            assert(rest.drop_first() =~= v@.subrange(i + 1, v@.len() as int));
            assert(v@.subrange(0, i + 1) =~= v@.subrange(0, i as int) + seq![v@[i as int]]);
        }
        i = i + 1;
    }
    proof {
        let rest = v@.subrange(i as int, v@.len() as int);
        if i < v@.len() {
            assert(rest[0] == '[');
        }
        assert(base_name(rest) =~= Seq::<char>::empty());
        assert(v@.subrange(0, i as int) + Seq::<char>::empty() =~= v@.subrange(0, i as int));
    }
    crate::text::string_of(v.as_slice(), 0, i)
}

/// The type names that a struct field may use without declaring them.
pub open spec fn primitive_names() -> Seq<Seq<char>> {
    seq![
        "i8"@, "i16"@, "i32"@, "i64"@, "i128"@, "isize"@, "u8"@, "u16"@, "u32"@, "u64"@, "u128"@,
        "usize"@, "f32"@, "f64"@, "bool"@, "char"@, "String"@, "str"@, "Vec"@, "Option"@, "Tuple"@,
        "Fn"@, "Box"@, "HashMap"@,
    ]
}

pub fn is_known_primitive(s: &str) -> (r: bool)
    ensures
        r == primitive_names().contains(s@),
{
    let names: [&str; 24] = [
        "i8", "i16", "i32", "i64", "i128", "isize", "u8", "u16", "u32", "u64", "u128", "usize", "f32",
        "f64", "bool", "char", "String", "str", "Vec", "Option", "Tuple", "Fn", "Box", "HashMap",
    ];
    let mut i: usize = 0;
    while i < 24
        invariant
            i <= 24,
            forall|k: int| 0 <= k < 24 ==> (#[trigger] names@[k])@ == primitive_names()[k],
            forall|k: int| 0 <= k < i ==> primitive_names()[k] != s@,
        decreases 24 - i,
    {
        if str_is(s, names[i]) {
            assert(primitive_names()[i as int] == s@);
            return true;
        }
        i = i + 1;
    }
    proof {
        assert(primitive_names().len() == 24);
        if primitive_names().contains(s@) {
            let k = choose|k: int| 0 <= k < primitive_names().len() && primitive_names()[k] == s@;
            assert(false);
        }
    }
    false
}

/// Names of the structs that the sub-folders' inventories declare.
pub open spec fn child_structs(subs: Seq<FolderSnap>) -> Seq<Seq<char>>
    decreases subs.len(),
{
    if subs.len() == 0 {
        Seq::empty()
    } else {
        child_structs(subs.drop_last()) + match subs.last().inventory {
            InvRead::Found(inv) => inv.structs@.map_values(|d: StructDef| d.name@),
            _ => Seq::empty(),
        }
    }
}

pub open spec fn msg_no_fields(st: Seq<char>) -> Seq<char> {
    "Struct '"@ + st + "' has no fields. Add at least one field."@
}

pub open spec fn msg_field_type(st: Seq<char>, field: Seq<char>, ty: Seq<char>) -> Seq<char> {
    "Struct '"@ + st + "': field '"@ + field + "' has unknown type '"@ + ty
        + "'. To use a struct type, define it in a child folder's inventory."@
}

/// Messages for fields whose type is neither primitive nor a known struct.
pub open spec fn fields_msgs(st: Seq<char>, fs: Seq<Field>, child: Seq<Seq<char>>) -> Seq<Seq<char>>
    decreases fs.len(),
{
    if fs.len() == 0 {
        Seq::empty()
    } else {
        fields_msgs(st, fs.drop_last(), child) + match fs.last().ty@ {
            TyV::Named(tn) => {
                let b = base_name(tn);
                if !primitive_names().contains(b) && !child.contains(b) {
                    seq![msg_field_type(st, fs.last().name@, tn)]
                } else {
                    Seq::empty()
                }
            },
            _ => Seq::empty(),
        }
    }
}

pub open spec fn structs_msgs(ss: Seq<StructDef>, child: Seq<Seq<char>>) -> Seq<Seq<char>>
    decreases ss.len(),
{
    if ss.len() == 0 {
        Seq::empty()
    } else {
        structs_msgs(ss.drop_last(), child) + if ss.last().fields@.len() == 0 {
            seq![msg_no_fields(ss.last().name@)]
        } else {
            fields_msgs(ss.last().name@, ss.last().fields@, child)
        }
    }
}

fn collect_child_structs(subs: &Vec<FolderSnap>) -> (r: Vec<String>)
    ensures
        name_seq(r@) == child_structs(subs@),
{
    let mut r: Vec<String> = Vec::new();
    let mut i: usize = 0;
    proof {
        assert(subs@.subrange(0, 0) =~= Seq::<FolderSnap>::empty());
        assert(name_seq(r@) =~= Seq::<Seq<char>>::empty());
    }
    while i < subs.len()
        invariant
            i <= subs@.len(),
            name_seq(r@) == child_structs(subs@.subrange(0, i as int)),
        decreases subs@.len() - i,
    {
        proof {
            assert(subs@.subrange(0, i + 1).drop_last() =~= subs@.subrange(0, i as int));
            assert(subs@.subrange(0, i + 1).last() == subs@[i as int]);
        }
        let ghost r0 = name_seq(r@);
        if let InvRead::Found(inv) = &subs[i].inventory {
            let mut j: usize = 0;
            while j < inv.structs.len()
                invariant
                    j <= inv.structs@.len(),
                    name_seq(r@) == r0 + inv.structs@.subrange(0, j as int).map_values(|d: StructDef| d.name@),
                decreases inv.structs@.len() - j,
            {
                let ghost before = r@;
                r.push(inv.structs[j].name.clone());
                proof {
                    assert(name_seq(r@) =~= name_seq(before).push(inv.structs@[j as int].name@));
                    assert(inv.structs@.subrange(0, j + 1).map_values(|d: StructDef| d.name@)
                        =~= inv.structs@.subrange(0, j as int).map_values(|d: StructDef| d.name@).push(inv.structs@[j as int].name@));
                }
                j = j + 1;
            }
            proof {
                assert(inv.structs@.subrange(0, inv.structs@.len() as int) =~= inv.structs@);
            }
        } else {
            proof {
                assert(r0 + Seq::<Seq<char>>::empty() =~= r0);
            }
        }
        i = i + 1;
    }
    proof {
        assert(subs@.subrange(0, subs@.len() as int) =~= subs@);
    }
    r
}

/// Checks the structs that an inventory declares: each has a field, and each
/// field's type is primitive or generic, or a struct declared in a child
/// folder's inventory (the rank rule: not one declared in this inventory).
pub fn validate_inventory_structs(dir: &str, inv: &InventoryFile, subdirs: &Vec<FolderSnap>) -> (r: Vec<ValidationError>)
    ensures
        val_diags(r@) == at_span(join(dir@, "inventory.bu"@), no_span(), structs_msgs(inv.structs@, child_structs(subdirs@))),
{
    let inv_path = join_path(dir, "inventory.bu");
    let child = collect_child_structs(subdirs);
    let ghost cs = child_structs(subdirs@);
    let mut errors: Vec<ValidationError> = Vec::new();
    let mut i: usize = 0;
    proof {
        assert(inv.structs@.subrange(0, 0) =~= Seq::<StructDef>::empty());
        assert(at_span(inv_path@, no_span(), Seq::<Seq<char>>::empty()) =~= Seq::<DiagV>::empty());
        assert(val_diags(errors@) =~= Seq::<DiagV>::empty());
    }
    while i < inv.structs.len()
        invariant
            i <= inv.structs@.len(),
            inv_path@ == join(dir@, "inventory.bu"@),
            name_seq(child@) == cs,
            val_diags(errors@) == at_span(inv_path@, no_span(), structs_msgs(inv.structs@.subrange(0, i as int), cs)),
        decreases inv.structs@.len() - i,
    {
        let st = &inv.structs[i];
        let ghost pre = inv.structs@.subrange(0, i as int);
        let ghost e0 = structs_msgs(pre, cs);
        proof {
            assert(inv.structs@.subrange(0, i + 1).drop_last() =~= pre);
            assert(inv.structs@.subrange(0, i + 1).last() == *st);
        }
        if st.fields.len() == 0 {
            let mut m = String::from_str("Struct '");
            m.append(st.name.as_str());
            m.append("' has no fields. Add at least one field.");
            push_err(&mut errors, inv_path.as_str(), Span { line: 0, col: 0 }, m);
            proof {
                lemma_at_span_add(inv_path@, no_span(), e0, seq![m@]);
            }
        } else {
            let mut j: usize = 0;
            proof {
                assert(st.fields@.subrange(0, 0) =~= Seq::<Field>::empty());
                assert(e0 + Seq::<Seq<char>>::empty() =~= e0);
            }
            while j < st.fields.len()
                invariant
                    j <= st.fields@.len(),
                    name_seq(child@) == cs,
                    val_diags(errors@) == at_span(
                        inv_path@,
                        no_span(),
                        e0 + fields_msgs(st.name@, st.fields@.subrange(0, j as int), cs),
                    ),
                decreases st.fields@.len() - j,
            {
                let fd = &st.fields[j];
                let ghost fpre = st.fields@.subrange(0, j as int);
                let ghost m0 = e0 + fields_msgs(st.name@, fpre, cs);
                proof {
                    assert(st.fields@.subrange(0, j + 1).drop_last() =~= fpre);
                    assert(st.fields@.subrange(0, j + 1).last() == *fd);
                }
                let mut pushed = false;
                if let BuType::Named(tn) = &fd.ty {
                    let b = base_type_name(tn.as_str());
                    proof {
                        lemma_name_seq_contains(child@, b@);
                    }
                    if !is_known_primitive(b.as_str()) && !has_name(&child, b.as_str()) {
                        let mut m = String::from_str("Struct '");
                        m.append(st.name.as_str());
                        m.append("': field '");
                        m.append(fd.name.as_str());
                        m.append("' has unknown type '");
                        m.append(tn.as_str());
                        m.append("'. To use a struct type, define it in a child folder's inventory.");
                        push_err(&mut errors, inv_path.as_str(), Span { line: 0, col: 0 }, m);
                        proof {
                            lemma_at_span_add(inv_path@, no_span(), m0, seq![m@]);
                            assert(e0 + fields_msgs(st.name@, st.fields@.subrange(0, j + 1), cs) =~= m0 + seq![m@]);
                        }
                        pushed = true;
                    }
                }
                if !pushed {
                    proof {
                        assert(e0 + fields_msgs(st.name@, st.fields@.subrange(0, j + 1), cs) =~= m0);
                    }
                }
                j = j + 1;
            }
            proof {
                assert(st.fields@.subrange(0, st.fields@.len() as int) =~= st.fields@);
            }
        }
        i = i + 1;
    }
    proof {
        assert(inv.structs@.subrange(0, inv.structs@.len() as int) =~= inv.structs@);
    }
    errors
}

/// Which kind of gap between a folder and its inventory a message is about.
pub enum Missing {
    UnlistedFile,
    MissingFile,
    UnlistedFn,
    MissingFn,
}

pub open spec fn missing_msg(kind: Missing, file: Seq<char>, x: Seq<char>) -> Seq<char> {
    match kind {
        Missing::UnlistedFile => "Source file '"@ + x + ".bu' exists but is not listed in inventory. Add a line:  "@ + x
            + ": fn1, fn2, ...;"@,
        Missing::MissingFile => "Inventory lists '"@ + x + "' but '"@ + x + ".bu' does not exist in this folder."@,
        Missing::UnlistedFn => "Function '"@ + x + "' exists in '"@ + file + ".bu' but is not listed in inventory."@,
        Missing::MissingFn => "The function '"@ + x + "' is listed in inventory, but not found in '"@ + file + ".bu'."@,
    }
}

/// Whether the `k`-th name is the first of its value.
pub open spec fn fresh_at(xs: Seq<Seq<char>>, k: int) -> bool {
    !xs.subrange(0, k).contains(xs[k])
}

/// One message for each distinct name among the first `n` of `xs` that `ys`
/// lacks, in order of first occurrence.
pub open spec fn missing_msgs(kind: Missing, file: Seq<char>, xs: Seq<Seq<char>>, ys: Seq<Seq<char>>, n: nat) -> Seq<Seq<char>>
    decreases n,
{
    if n == 0 {
        Seq::empty()
    } else {
        missing_msgs(kind, file, xs, ys, (n - 1) as nat) + if fresh_at(xs, n - 1) && !ys.contains(xs[n - 1]) {
            seq![missing_msg(kind, file, xs[n - 1])]
        } else {
            Seq::empty()
        }
    }
}

fn has_name_before(names: &Vec<String>, upto: usize, n: &str) -> (r: bool)
    requires
        upto <= names@.len(),
    ensures
        r == name_seq(names@).subrange(0, upto as int).contains(n@),
{
    let key = String::from_str(n);
    let mut i: usize = 0;
    while i < upto
        invariant
            i <= upto <= names@.len(),
            key@ == n@,
            forall|k: int| 0 <= k < i ==> (#[trigger] names@[k])@ != n@,
        decreases upto - i,
    {
        if names[i] == key {
            proof {
                assert(name_seq(names@).subrange(0, upto as int)[i as int] == n@);
            }
            return true;
        }
        i = i + 1;
    }
    proof {
        if name_seq(names@).subrange(0, upto as int).contains(n@) {
            let k = choose|k: int| 0 <= k < upto && name_seq(names@).subrange(0, upto as int)[k] == n@;
            assert(names@[k]@ == n@);
        }
    }
    false
}

fn report_missing(
    xs: &Vec<String>,
    ys: &Vec<String>,
    kind: Missing,
    file: &str,
    path: &str,
    errors: &mut Vec<ValidationError>,
)
    ensures
        val_diags(final(errors)@) == val_diags(old(errors)@) + at_span(
            path@,
            no_span(),
            missing_msgs(kind, file@, name_seq(xs@), name_seq(ys@), xs@.len()),
        ),
{
    let ghost e0 = val_diags(errors@);
    let mut i: usize = 0;
    proof {
        assert(at_span(path@, no_span(), Seq::<Seq<char>>::empty()) =~= Seq::<DiagV>::empty());
        assert(e0 + Seq::<DiagV>::empty() =~= e0);
    }
    while i < xs.len()
        invariant
            i <= xs@.len(),
            val_diags(errors@) == e0 + at_span(path@, no_span(), missing_msgs(kind, file@, name_seq(xs@), name_seq(ys@), i as nat)),
        decreases xs@.len() - i,
    {
        let x = &xs[i];
        let ghost m0 = missing_msgs(kind, file@, name_seq(xs@), name_seq(ys@), i as nat);
        proof {
            lemma_name_seq_contains(ys@, x@);
            assert(name_seq(xs@)[i as int] == x@);
        }
        if !has_name_before(xs, i, x.as_str()) && !has_name(ys, x.as_str()) {
            let mut m = String::new();
            match kind {
                Missing::UnlistedFile => {
                    m.append("Source file '");
                    m.append(x.as_str());
                    m.append(".bu' exists but is not listed in inventory. Add a line:  ");
                    m.append(x.as_str());
                    m.append(": fn1, fn2, ...;");
                },
                Missing::MissingFile => {
                    m.append("Inventory lists '");
                    m.append(x.as_str());
                    m.append("' but '");
                    m.append(x.as_str());
                    m.append(".bu' does not exist in this folder.");
                },
                Missing::UnlistedFn => {
                    m.append("Function '");
                    m.append(x.as_str());
                    m.append("' exists in '");
                    m.append(file);
                    m.append(".bu' but is not listed in inventory.");
                },
                Missing::MissingFn => {
                    m.append("The function '");
                    m.append(x.as_str());
                    m.append("' is listed in inventory, but not found in '");
                    m.append(file);
                    m.append(".bu'.");
                },
            }
            proof {
                assert(m@ == missing_msg(kind, file@, x@));
            }
            push_err(errors, path, Span { line: 0, col: 0 }, m);
            proof {
                lemma_at_span_add(path@, no_span(), m0, seq![m@]);
            }
        } else {
            proof {
                assert(missing_msgs(kind, file@, name_seq(xs@), name_seq(ys@), (i + 1) as nat) =~= m0);
            }
        }
        i = i + 1;
    }
}

pub open spec fn stems(files: Seq<SourceSnap>) -> Seq<Seq<char>> {
    files.map_values(|f: SourceSnap| f.stem@)
}

pub open spec fn listed_stems(inv: InventoryFile) -> Seq<Seq<char>> {
    inv.entries@.map_values(|e: InvEntry| e.file@)
}

/// Index of the first file with this stem.
pub open spec fn first_with_stem(files: Seq<SourceSnap>, stem: Seq<char>) -> Option<int>
    decreases files.len(),
{
    if files.len() == 0 {
        None
    } else if files[0].stem@ == stem {
        Some(0)
    } else {
        match first_with_stem(files.drop_first(), stem) {
            Some(i) => Some(i + 1),
            None => None,
        }
    }
}

pub open spec fn fn_names(sf: SourceFile) -> Seq<Seq<char>> {
    sf.bullets@.map_values(|b: Bullet| b.name@)
}

/// Gaps between the functions that an inventory line lists and those that
/// its file declares.
pub open spec fn entry_msgs(entry: InvEntry, files: Seq<SourceSnap>) -> Seq<Seq<char>> {
    if !stems(files).contains(entry.file@) {
        Seq::empty()
    } else {
        match first_with_stem(files, entry.file@) {
            Some(k) => match files[k].strict {
                Some(sf) => {
                    let actual = fn_names(sf);
                    let listed = name_seq(entry.functions@);
                    missing_msgs(Missing::UnlistedFn, entry.file@, actual, listed, actual.len())
                        + missing_msgs(Missing::MissingFn, entry.file@, listed, actual, listed.len())
                },
                None => Seq::empty(),
            },
            None => Seq::empty(),
        }
    }
}

pub open spec fn entries_msgs(es: Seq<InvEntry>, files: Seq<SourceSnap>) -> Seq<Seq<char>>
    decreases es.len(),
{
    if es.len() == 0 {
        Seq::empty()
    } else {
        entries_msgs(es.drop_last(), files) + entry_msgs(es.last(), files)
    }
}

/// Everything that comparing a folder's files with its inventory reports.
pub open spec fn completeness_msgs(inv: InventoryFile, files: Seq<SourceSnap>) -> Seq<Seq<char>> {
    missing_msgs(Missing::UnlistedFile, ""@, stems(files), listed_stems(inv), files.len())
        + missing_msgs(Missing::MissingFile, ""@, listed_stems(inv), stems(files), inv.entries@.len())
        + entries_msgs(inv.entries@, files)
}

fn stem_list(files: &Vec<SourceSnap>) -> (r: Vec<String>)
    ensures
        name_seq(r@) == stems(files@),
        r@.len() == files@.len(),
{
    let mut r: Vec<String> = Vec::new();
    let mut i: usize = 0;
    while i < files.len()
        invariant
            i <= files@.len(),
            r@.len() == i,
            name_seq(r@) == stems(files@.subrange(0, i as int)),
        decreases files@.len() - i,
    {
        let ghost before = r@;
        r.push(files[i].stem.clone());
        proof {
            assert(name_seq(r@) =~= name_seq(before).push(files@[i as int].stem@));
            assert(stems(files@.subrange(0, i + 1)) =~= stems(files@.subrange(0, i as int)).push(files@[i as int].stem@));
        }
        i = i + 1;
    }
    proof {
        assert(files@.subrange(0, files@.len() as int) =~= files@);
    }
    r
}

fn entry_stems(inv: &InventoryFile) -> (r: Vec<String>)
    ensures
        name_seq(r@) == listed_stems(*inv),
        r@.len() == inv.entries@.len(),
{
    let mut r: Vec<String> = Vec::new();
    let mut i: usize = 0;
    while i < inv.entries.len()
        invariant
            i <= inv.entries@.len(),
            r@.len() == i,
            name_seq(r@) == inv.entries@.subrange(0, i as int).map_values(|e: InvEntry| e.file@),
        decreases inv.entries@.len() - i,
    {
        let ghost before = r@;
        r.push(inv.entries[i].file.clone());
        proof {
            assert(name_seq(r@) =~= name_seq(before).push(inv.entries@[i as int].file@));
            assert(inv.entries@.subrange(0, i + 1).map_values(|e: InvEntry| e.file@) =~= inv.entries@.subrange(0, i as int).map_values(|e: InvEntry| e.file@).push(inv.entries@[i as int].file@));
        }
        i = i + 1;
    }
    proof {
        assert(inv.entries@.subrange(0, inv.entries@.len() as int) =~= inv.entries@);
    }
    r
}

fn bullet_names(sf: &SourceFile) -> (r: Vec<String>)
    ensures
        name_seq(r@) == fn_names(*sf),
        r@.len() == sf.bullets@.len(),
{
    let mut r: Vec<String> = Vec::new();
    let mut i: usize = 0;
    while i < sf.bullets.len()
        invariant
            i <= sf.bullets@.len(),
            r@.len() == i,
            name_seq(r@) == sf.bullets@.subrange(0, i as int).map_values(|b: Bullet| b.name@),
        decreases sf.bullets@.len() - i,
    {
        let ghost before = r@;
        r.push(sf.bullets[i].name.clone());
        proof {
            assert(name_seq(r@) =~= name_seq(before).push(sf.bullets@[i as int].name@));
            assert(sf.bullets@.subrange(0, i + 1).map_values(|b: Bullet| b.name@) =~= sf.bullets@.subrange(0, i as int).map_values(|b: Bullet| b.name@).push(sf.bullets@[i as int].name@));
        }
        i = i + 1;
    }
    proof {
        assert(sf.bullets@.subrange(0, sf.bullets@.len() as int) =~= sf.bullets@);
    }
    r
}

fn find_stem(files: &Vec<SourceSnap>, stem: &str) -> (r: Option<usize>)
    ensures
        r matches Some(k) ==> first_with_stem(files@, stem@) == Some(k as int) && k < files@.len(),
        r is None ==> first_with_stem(files@, stem@) is None,
{
    let key = String::from_str(stem);
    let mut i: usize = 0;
    proof {
        assert(files@.subrange(0, files@.len() as int) =~= files@);
    }
    while i < files.len()
        invariant
            i <= files@.len(),
            key@ == stem@,
            first_with_stem(files@, stem@) == match first_with_stem(files@.subrange(i as int, files@.len() as int), stem@) {
                Some(j) => Some(j + i),
                None => None,
            },
        decreases files@.len() - i,
    {
        proof {
            let rest = files@.subrange(i as int, files@.len() as int);
            assert(rest[0] == files@[i as int]);
            assert(rest.drop_first() =~= files@.subrange(i + 1, files@.len() as int));
        }
        if files[i].stem == key {
            return Some(i);
        }
        i = i + 1;
    }
    None
}

/// Compares a folder's source files with its inventory: every file listed,
/// every listed file present, and each file's functions as listed.
pub fn validate_inventory_completeness(dir: &str, inv: &InventoryFile, files: &Vec<SourceSnap>) -> (r: Vec<ValidationError>)
    ensures
        val_diags(r@) == at_span(join(dir@, "inventory.bu"@), no_span(), completeness_msgs(*inv, files@)),
{
    let inv_path = join_path(dir, "inventory.bu");
    let file_stems = stem_list(files);
    let inv_stems = entry_stems(inv);
    let mut errors: Vec<ValidationError> = Vec::new();
    proof {
        assert(val_diags(errors@) =~= Seq::<DiagV>::empty());
    }
    report_missing(&file_stems, &inv_stems, Missing::UnlistedFile, "", inv_path.as_str(), &mut errors);
    report_missing(&inv_stems, &file_stems, Missing::MissingFile, "", inv_path.as_str(), &mut errors);
    let ghost m12 = missing_msgs(Missing::UnlistedFile, ""@, stems(files@), listed_stems(*inv), files@.len())
        + missing_msgs(Missing::MissingFile, ""@, listed_stems(*inv), stems(files@), inv.entries@.len());
    proof {
        lemma_at_span_add(
            inv_path@,
            no_span(),
            missing_msgs(Missing::UnlistedFile, ""@, stems(files@), listed_stems(*inv), files@.len()),
            missing_msgs(Missing::MissingFile, ""@, listed_stems(*inv), stems(files@), inv.entries@.len()),
        );
        assert(Seq::<DiagV>::empty() + at_span(inv_path@, no_span(), missing_msgs(Missing::UnlistedFile, ""@, stems(files@), listed_stems(*inv), files@.len()))
            + at_span(inv_path@, no_span(), missing_msgs(Missing::MissingFile, ""@, listed_stems(*inv), stems(files@), inv.entries@.len()))
            =~= at_span(inv_path@, no_span(), m12));
        assert(inv.entries@.subrange(0, 0) =~= Seq::<InvEntry>::empty());
        assert(m12 + Seq::<Seq<char>>::empty() =~= m12);
    }
    let mut i: usize = 0;
    while i < inv.entries.len()
        invariant
            i <= inv.entries@.len(),
            name_seq(file_stems@) == stems(files@),
            val_diags(errors@) == at_span(inv_path@, no_span(), m12 + entries_msgs(inv.entries@.subrange(0, i as int), files@)),
        decreases inv.entries@.len() - i,
    {
        let entry = &inv.entries[i];
        let ghost pre = inv.entries@.subrange(0, i as int);
        let ghost before = m12 + entries_msgs(pre, files@);
        let ghost e0 = val_diags(errors@);
        proof {
            assert(inv.entries@.subrange(0, i + 1).drop_last() =~= pre);
            assert(inv.entries@.subrange(0, i + 1).last() == *entry);
            lemma_name_seq_contains(file_stems@, entry.file@);
            lemma_at_span_add(inv_path@, no_span(), before, entry_msgs(*entry, files@));
            assert(before + entry_msgs(*entry, files@) =~= m12 + entries_msgs(inv.entries@.subrange(0, i + 1), files@));
        }
        let mut done = false;
        if has_name(&file_stems, entry.file.as_str()) {
            if let Some(k) = find_stem(files, entry.file.as_str()) {
                if let Some(sf) = &files[k].strict {
                    let actual = bullet_names(sf);
                    report_missing(&actual, &entry.functions, Missing::UnlistedFn, entry.file.as_str(), inv_path.as_str(), &mut errors);
                    report_missing(&entry.functions, &actual, Missing::MissingFn, entry.file.as_str(), inv_path.as_str(), &mut errors);
                    proof {
                        let a = missing_msgs(Missing::UnlistedFn, entry.file@, fn_names(*sf), name_seq(entry.functions@), fn_names(*sf).len());
                        let b = missing_msgs(Missing::MissingFn, entry.file@, name_seq(entry.functions@), fn_names(*sf), name_seq(entry.functions@).len());
                        assert(entry_msgs(*entry, files@) == a + b);
                        lemma_at_span_add(inv_path@, no_span(), a, b);
                        assert(e0 + at_span(inv_path@, no_span(), a) + at_span(inv_path@, no_span(), b)
                            =~= e0 + (at_span(inv_path@, no_span(), a) + at_span(inv_path@, no_span(), b)));
                    }
                    done = true;
                }
            }
        }
        if !done {
            proof {
                assert(entry_msgs(*entry, files@) =~= Seq::<Seq<char>>::empty());
                assert(at_span(inv_path@, no_span(), Seq::<Seq<char>>::empty()) =~= Seq::<DiagV>::empty());
                assert(e0 + Seq::<DiagV>::empty() =~= e0);
            }
        }
        i = i + 1;
    }
    proof {
        assert(inv.entries@.subrange(0, inv.entries@.len() as int) =~= inv.entries@);
    }
    errors
}

// ── Folders ───────────────────────────────────────────────────────────────────

/// The functions that an inventory's lines list, in order.
pub open spec fn entry_fns(es: Seq<InvEntry>) -> Seq<Seq<char>>
    decreases es.len(),
{
    if es.len() == 0 {
        Seq::empty()
    } else {
        entry_fns(es.drop_last()) + name_seq(es.last().functions@)
    }
}

/// The functions that the readable inventories below these folders list.
pub open spec fn callable_in(subs: Seq<FolderSnap>) -> Seq<Seq<char>>
    decreases subs,
{
    if subs.len() == 0 {
        Seq::empty()
    } else {
        callable_in(subs.drop_last()) + callable_of(subs.last())
    }
}

pub open spec fn callable_of(d: FolderSnap) -> Seq<Seq<char>>
    decreases d,
{
    match d.inventory {
        InvRead::Found(inv) => entry_fns(inv.entries@) + callable_in(d.subdirs@),
        _ => Seq::empty(),
    }
}

fn push_names(r: &mut Vec<String>, names: &Vec<String>)
    ensures
        name_seq(final(r)@) == name_seq(old(r)@) + name_seq(names@),
{
    let mut j: usize = 0;
    let ghost r0 = name_seq(r@);
    proof {
        assert(r0 + name_seq(names@.subrange(0, 0)) =~= r0);
    }
    while j < names.len()
        invariant
            j <= names@.len(),
            name_seq(r@) == r0 + name_seq(names@.subrange(0, j as int)),
        decreases names@.len() - j,
    {
        let ghost before = r@;
        r.push(names[j].clone());
        proof {
            assert(name_seq(r@) =~= name_seq(before).push(names@[j as int]@));
            assert(name_seq(names@.subrange(0, j + 1)) =~= name_seq(names@.subrange(0, j as int)).push(names@[j as int]@));
        }
        j = j + 1;
    }
    proof {
        assert(names@.subrange(0, names@.len() as int) =~= names@);
    }
}

fn folder_callable(d: &FolderSnap, r: &mut Vec<String>)
    ensures
        name_seq(final(r)@) == name_seq(old(r)@) + callable_of(*d),
    decreases d,
{
    if let InvRead::Found(inv) = &d.inventory {
        let ghost r0 = name_seq(r@);
        let mut i: usize = 0;
        proof {
            assert(inv.entries@.subrange(0, 0) =~= Seq::<InvEntry>::empty());
            assert(r0 + Seq::<Seq<char>>::empty() =~= r0);
        }
        while i < inv.entries.len()
            invariant
                i <= inv.entries@.len(),
                name_seq(r@) == r0 + entry_fns(inv.entries@.subrange(0, i as int)),
            decreases inv.entries@.len() - i,
        {
            proof {
                assert(inv.entries@.subrange(0, i + 1).drop_last() =~= inv.entries@.subrange(0, i as int));
                assert(inv.entries@.subrange(0, i + 1).last() == inv.entries@[i as int]);
            }
            push_names(r, &inv.entries[i].functions);
            proof {
                let a = entry_fns(inv.entries@.subrange(0, i as int));
                let b = name_seq(inv.entries@[i as int].functions@);
                assert(r0 + a + b =~= r0 + (a + b));
            }
            i = i + 1;
        }
        proof {
            assert(inv.entries@.subrange(0, inv.entries@.len() as int) =~= inv.entries@);
        }
        let ghost r1 = name_seq(r@);
        collect_callable_into(&d.subdirs, r);
        proof {
            assert(r1 + callable_in(d.subdirs@) == r0 + entry_fns(inv.entries@) + callable_in(d.subdirs@));
            assert(r0 + entry_fns(inv.entries@) + callable_in(d.subdirs@) =~= r0 + (entry_fns(inv.entries@) + callable_in(d.subdirs@)));
        }
    } else {
        proof {
            assert(name_seq(r@) + Seq::<Seq<char>>::empty() =~= name_seq(r@));
        }
    }
}

fn collect_callable_into(subs: &Vec<FolderSnap>, r: &mut Vec<String>)
    ensures
        name_seq(final(r)@) == name_seq(old(r)@) + callable_in(subs@),
    decreases subs,
{
    let ghost r0 = name_seq(r@);
    let mut i: usize = 0;
    proof {
        assert(subs@.subrange(0, 0) =~= Seq::<FolderSnap>::empty());
        assert(r0 + Seq::<Seq<char>>::empty() =~= r0);
    }
    while i < subs.len()
        invariant
            i <= subs@.len(),
            name_seq(r@) == r0 + callable_in(subs@.subrange(0, i as int)),
        decreases subs@.len() - i,
    {
        proof {
            assert(subs@.subrange(0, i + 1).drop_last() =~= subs@.subrange(0, i as int));
            assert(subs@.subrange(0, i + 1).last() == subs@[i as int]);
        }
        folder_callable(&subs[i], r);
        proof {
            let a = callable_in(subs@.subrange(0, i as int));
            let b = callable_of(subs@[i as int]);
            assert(r0 + a + b =~= r0 + (a + b));
        }
        i = i + 1;
    }
    proof {
        assert(subs@.subrange(0, subs@.len() as int) =~= subs@);
    }
}

/// The functions that the children of a folder make callable: all that the
/// readable inventories below it list.
pub fn collect_child_callable(subs: &Vec<FolderSnap>) -> (r: Vec<String>)
    ensures
        name_seq(r@) == callable_in(subs@),
{
    let mut r: Vec<String> = Vec::new();
    proof {
        assert(name_seq(r@) =~= Seq::<Seq<char>>::empty());
        assert(Seq::<Seq<char>>::empty() + callable_in(subs@) =~= callable_in(subs@));
    }
    collect_callable_into(subs, &mut r);
    r
}

pub open spec fn msg_unexpected_rank(actual: Rank, expected: Rank) -> Seq<char> {
    "Found unexpected '"@ + rank_name(actual) + "' in inventory. Consider replacing it with '"@ + rank_name(expected) + "'."@
}

pub open spec fn msg_missing_inventory(name: Seq<char>, expected: Rank) -> Seq<char> {
    "Sub-folder '"@ + name + "' is missing inventory.bu (expected a "@ + rank_name(expected) + " folder)."@
}

/// What checking that a sub-folder has the rank below its parent's reports.
pub open spec fn child_rank_msgs(sub: FolderSnap, expected: Rank) -> Seq<DiagV> {
    match sub.inventory {
        InvRead::Found(inv) => if inv.rank == expected {
            Seq::empty()
        } else {
            at_span(sub.path@, no_span(), seq![msg_unexpected_rank(inv.rank, expected)])
        },
        _ => at_span(sub.path@, no_span(), seq![msg_missing_inventory(sub.name@, expected)]),
    }
}

pub open spec fn children_rank_msgs(subs: Seq<FolderSnap>, expected: Rank) -> Seq<DiagV>
    decreases subs.len(),
{
    if subs.len() == 0 {
        Seq::empty()
    } else {
        children_rank_msgs(subs.drop_last(), expected) + child_rank_msgs(subs.last(), expected)
    }
}

/// Checks that a sub-folder's inventory declares the rank `expected`.
pub fn validate_child_rank(sub: &FolderSnap, expected: Rank, errors: &mut Vec<ValidationError>)
    ensures
        val_diags(final(errors)@) == val_diags(old(errors)@) + child_rank_msgs(*sub, expected),
{
    match &sub.inventory {
        InvRead::Found(inv) => {
            if inv.rank != expected {
                let mut m = String::from_str("Found unexpected '");
                let a = inv.rank.name();
                m.append(a.as_str());
                m.append("' in inventory. Consider replacing it with '");
                let e = expected.name();
                m.append(e.as_str());
                m.append("'.");
                push_err(errors, sub.path.as_str(), Span { line: 0, col: 0 }, m);
            } else {
                proof {
                    assert(val_diags(errors@) + Seq::<DiagV>::empty() =~= val_diags(errors@));
                }
            }
        },
        _ => {
            let mut m = String::from_str("Sub-folder '");
            m.append(sub.name.as_str());
            m.append("' is missing inventory.bu (expected a ");
            let e = expected.name();
            m.append(e.as_str());
            m.append(" folder).");
            push_err(errors, sub.path.as_str(), Span { line: 0, col: 0 }, m);
        },
    }
}

fn check_children_rank(subs: &Vec<FolderSnap>, expected: Rank, errors: &mut Vec<ValidationError>)
    ensures
        val_diags(final(errors)@) == val_diags(old(errors)@) + children_rank_msgs(subs@, expected),
{
    let ghost e0 = val_diags(errors@);
    let mut i: usize = 0;
    proof {
        assert(subs@.subrange(0, 0) =~= Seq::<FolderSnap>::empty());
        assert(e0 + Seq::<DiagV>::empty() =~= e0);
    }
    while i < subs.len()
        invariant
            i <= subs@.len(),
            val_diags(errors@) == e0 + children_rank_msgs(subs@.subrange(0, i as int), expected),
        decreases subs@.len() - i,
    {
        proof {
            assert(subs@.subrange(0, i + 1).drop_last() =~= subs@.subrange(0, i as int));
            assert(subs@.subrange(0, i + 1).last() == subs@[i as int]);
        }
        validate_child_rank(&subs[i], expected, errors);
        proof {
            let a = children_rank_msgs(subs@.subrange(0, i as int), expected);
            let b = child_rank_msgs(subs@[i as int], expected);
            assert(e0 + a + b =~= e0 + (a + b));
        }
        i = i + 1;
    }
    proof {
        assert(subs@.subrange(0, subs@.len() as int) =~= subs@);
    }
}

pub open spec fn inv_read_msg(dir: Seq<char>, r: InvRead) -> Seq<char> {
    match r {
        InvRead::Missing => "Missing inventory.bu in '"@ + dir + "' \u{2014} every Bullang folder must have one."@,
        InvRead::NotInventory => "inventory.bu in '"@ + dir + "' parsed as a source file."@,
        InvRead::Malformed(e) => "Parse error in inventory.bu: "@ + e@,
        InvRead::Found(_) => Seq::empty(),
    }
}

pub open spec fn msg_lang_mismatch(p: BackendV, c: BackendV) -> Seq<char> {
    "Language mismatch: parent folder declares '"@ + backend_ext(p) + "' but this folder declares '"@ + backend_ext(c)
        + "'. Language is inherited from the highest ancestor \u{2014} remove #lang: from this inventory or align it with the parent."@
}

pub open spec fn msg_war_files(n: nat) -> Seq<char> {
    "War folder cannot contain source files (found "@ + nat_decimal(n) + "). Consider using a theater rank instead."@
}

pub open spec fn msg_war_theaters(n: nat) -> Seq<char> {
    "War folder cannot exceed 5 theaters (found "@ + nat_decimal(n) + ")."@
}

pub open spec fn msg_war_lists() -> Seq<char> {
    "War inventory cannot list any files."@
}

pub open spec fn msg_skirmish_subs(n: nat) -> Seq<char> {
    "Skirmish folder cannot contain sub-folders (found "@ + nat_decimal(n) + ")."@
}

pub open spec fn msg_skirmish_files(n: nat) -> Seq<char> {
    "Skirmish folder cannot contain more than 5 source files (found "@ + nat_decimal(n) + ")."@
}

pub open spec fn msg_skirmish_main() -> Seq<char> {
    "Skirmish folders cannot contain main.bu. Move your entry point to a tactic or higher rank folder."@
}

pub open spec fn msg_rank_subs(r: Rank, child: Rank, n: nat) -> Seq<char> {
    capitalized(rank_name(r)) + " folder cannot contain more than 5 "@ + rank_name(child) + " sub-folders (found "@
        + nat_decimal(n) + ")."@
}

pub open spec fn msg_rank_files(r: Rank, n: nat) -> Seq<char> {
    capitalized(rank_name(r)) + " folder cannot contain more than 5 source files (found "@ + nat_decimal(n) + ")."@
}

/// One message for a whole file or folder.
pub open spec fn one(path: Seq<char>, m: Seq<char>) -> Seq<DiagV> {
    at_span(path, no_span(), seq![m])
}

pub open spec fn when(c: bool, d: Seq<DiagV>) -> Seq<DiagV> {
    if c { d } else { Seq::empty() }
}

/// What validating each of these source files reports, in order.
pub open spec fn files_errs(files: Seq<SourceSnap>, rank: Rank, callable: Seq<Seq<char>>, lang: Option<BackendV>) -> AllV
    decreases files.len(),
{
    if files.len() == 0 {
        no_errs()
    } else {
        all_cat(
            files_errs(files.drop_last(), rank, callable, lang),
            source_file_errs(files.last().path@, files.last().read, rank, callable, lang),
        )
    }
}

pub open spec fn main_errs(d: FolderSnap, callable: Seq<Seq<char>>) -> AllV {
    match d.main {
        Some(m) => main_file_errs(m.path@, m.read, callable),
        None => no_errs(),
    }
}

/// What the rules of a folder's rank report, its sub-folders aside.
pub open spec fn rank_errs(d: FolderSnap, inv: InventoryFile, lang: Option<BackendV>) -> AllV {
    let dir = d.path@;
    let inv_path = join(dir, "inventory.bu"@);
    let nf = d.files@.len();
    let ns = d.subdirs@.len();
    let callable = callable_in(d.subdirs@);
    match inv.rank {
        Rank::War => all_cat(
            structural_only(
                when(nf > 0, one(dir, msg_war_files(nf))) + when(ns > 5, one(dir, msg_war_theaters(ns)))
                    + when(inv.entries@.len() > 0, one(inv_path, msg_war_lists()))
                    + children_rank_msgs(d.subdirs@, Rank::Theater),
            ),
            main_errs(d, callable),
        ),
        Rank::Skirmish => all_cat(
            structural_only(
                when(ns > 0, one(dir, msg_skirmish_subs(ns))) + when(nf > 5, one(dir, msg_skirmish_files(nf)))
                    + when(d.main is Some, one(join(dir, "main.bu"@), msg_skirmish_main()))
                    + at_span(inv_path, no_span(), structs_msgs(inv.structs@, Seq::empty()))
                    + at_span(inv_path, no_span(), completeness_msgs(inv, d.files@)),
            ),
            files_errs(d.files@, inv.rank, Seq::empty(), lang),
        ),
        _ => {
            let child = rank_child(inv.rank).unwrap();
            all_cat(
                all_cat(
                    structural_only(
                        when(ns > 5, one(dir, msg_rank_subs(inv.rank, child, ns)))
                            + when(nf > 5, one(dir, msg_rank_files(inv.rank, nf)))
                            + children_rank_msgs(d.subdirs@, child)
                            + at_span(inv_path, no_span(), structs_msgs(inv.structs@, child_structs(d.subdirs@)))
                            + at_span(inv_path, no_span(), completeness_msgs(inv, d.files@)),
                    ),
                    files_errs(d.files@, inv.rank, callable, lang),
                ),
                main_errs(d, callable),
            )
        },
    }
}

/// The message for a folder whose language differs from its ancestors'.
pub open spec fn mismatch_msgs(inv_path: Seq<char>, parent: Option<BackendV>, lang: Option<Backend>) -> Seq<DiagV> {
    match (parent, lang) {
        (Some(p), Some(c)) => when(c@ != p, one(inv_path, msg_lang_mismatch(p, c@))),
        _ => Seq::empty(),
    }
}

/// Everything that validating a folder and all below it reports; `parent`
/// is the language that its ancestors declare.
pub open spec fn folder_errs(d: FolderSnap, parent: Option<BackendV>) -> AllV
    decreases d,
{
    match d.inventory {
        InvRead::Found(inv) => {
            let inv_path = join(d.path@, "inventory.bu"@);
            let lm = mismatch_msgs(inv_path, parent, inv.lang);
            let eff = match inv.lang {
                Some(l) => Some(l@),
                None => parent,
            };
            all_cat(all_cat(structural_only(lm), subfolders_errs(d.subdirs@, eff)), rank_errs(d, inv, eff))
        },
        _ => structural_only(one(d.path@, inv_read_msg(d.path@, d.inventory))),
    }
}

pub open spec fn subfolders_errs(subs: Seq<FolderSnap>, lang: Option<BackendV>) -> AllV
    decreases subs,
{
    if subs.len() == 0 {
        no_errs()
    } else {
        all_cat(subfolders_errs(subs.drop_last(), lang), folder_errs(subs.last(), lang))
    }
}

proof fn lemma_all_cat_assoc(a: AllV, b: AllV, c: AllV)
    ensures
        all_cat(all_cat(a, b), c) == all_cat(a, all_cat(b, c)),
{
    assert(all_cat(all_cat(a, b), c).parse =~= all_cat(a, all_cat(b, c)).parse);
    assert(all_cat(all_cat(a, b), c).structural =~= all_cat(a, all_cat(b, c)).structural);
}

proof fn lemma_all_cat_none(a: AllV)
    ensures
        all_cat(a, no_errs()) == a,
        all_cat(no_errs(), a) == a,
{
    assert(all_cat(a, no_errs()).parse =~= a.parse);
    assert(all_cat(a, no_errs()).structural =~= a.structural);
    assert(all_cat(no_errs(), a).parse =~= a.parse);
    assert(all_cat(no_errs(), a).structural =~= a.structural);
}

fn push_one(all: &mut AllErrors, path: &str, m: String)
    ensures
        final(all)@ == all_cat(old(all)@, structural_only(one(path@, m@))),
{
    all.push_structural(ValidationError { file: String::from_str(path), line: 0, col: 0, message: m });
    proof {
        assert(one(path@, m@) =~= seq![DiagV { file: path@, line: 0, col: 0, message: m@ }]);
    }
}

fn validate_files(
    files: &Vec<SourceSnap>,
    rank: Rank,
    callable: &Vec<String>,
    lang: Option<&Backend>,
    all: &mut AllErrors,
)
    ensures
        final(all)@ == all_cat(old(all)@, files_errs(files@, rank, name_seq(callable@), opt_backend(lang))),
{
    let ghost a0 = all@;
    let mut i: usize = 0;
    proof {
        assert(files@.subrange(0, 0) =~= Seq::<SourceSnap>::empty());
        lemma_all_cat_none(a0);
    }
    while i < files.len()
        invariant
            i <= files@.len(),
            all@ == all_cat(a0, files_errs(files@.subrange(0, i as int), rank, name_seq(callable@), opt_backend(lang))),
        decreases files@.len() - i,
    {
        proof {
            assert(files@.subrange(0, i + 1).drop_last() =~= files@.subrange(0, i as int));
            assert(files@.subrange(0, i + 1).last() == files@[i as int]);
        }
        let e = validate_source_file(files[i].path.as_str(), &files[i].read, rank, callable, lang);
        all.extend_all(e);
        proof {
            lemma_all_cat_assoc(
                a0,
                files_errs(files@.subrange(0, i as int), rank, name_seq(callable@), opt_backend(lang)),
                source_file_errs(files@[i as int].path@, files@[i as int].read, rank, name_seq(callable@), opt_backend(lang)),
            );
        }
        i = i + 1;
    }
    proof {
        assert(files@.subrange(0, files@.len() as int) =~= files@);
    }
}

fn validate_main(d: &FolderSnap, callable: &Vec<String>, all: &mut AllErrors)
    ensures
        final(all)@ == all_cat(old(all)@, main_errs(*d, name_seq(callable@))),
{
    match &d.main {
        Some(m) => {
            let e = validate_main_file(m.path.as_str(), &m.read, callable);
            all.extend_all(e);
        },
        None => {
            proof {
                lemma_all_cat_none(all@);
            }
        },
    }
}

fn rank_rules(d: &FolderSnap, inv: &InventoryFile, lang: Option<&Backend>) -> (r: AllErrors)
    ensures
        r@ == rank_errs(*d, *inv, opt_backend(lang)),
{
    let dir = d.path.as_str();
    let inv_path = join_path(dir, "inventory.bu");
    let nf = d.files.len();
    let ns = d.subdirs.len();
    let mut s: Vec<ValidationError> = Vec::new();
    let mut all = AllErrors::new();
    proof {
        assert(val_diags(s@) =~= Seq::<DiagV>::empty());
    }
    match inv.rank {
        Rank::War => {
            if nf > 0 {
                let mut m = String::from_str("War folder cannot contain source files (found ");
                add_num(&mut m, nf);
                m.append("). Consider using a theater rank instead.");
                push_err(&mut s, dir, Span { line: 0, col: 0 }, m);
            }
            let ghost s1 = val_diags(s@);
            if ns > 5 {
                let mut m = String::from_str("War folder cannot exceed 5 theaters (found ");
                add_num(&mut m, ns);
                m.append(").");
                push_err(&mut s, dir, Span { line: 0, col: 0 }, m);
            }
            let ghost s2 = val_diags(s@);
            if inv.entries.len() > 0 {
                push_err(&mut s, inv_path.as_str(), Span { line: 0, col: 0 }, String::from_str("War inventory cannot list any files."));
            }
            let ghost s3 = val_diags(s@);
            check_children_rank(&d.subdirs, Rank::Theater, &mut s);
            proof {
                assert(s1 =~= when(nf > 0, one(dir@, msg_war_files(nf as nat))));
                assert(s2 =~= s1 + when(ns > 5, one(dir@, msg_war_theaters(ns as nat))));
                assert(s3 =~= s2 + when(inv.entries@.len() > 0, one(inv_path@, msg_war_lists())));
            }
            all.extend_structural(s);
            let callable = collect_child_callable(&d.subdirs);
            validate_main(d, &callable, &mut all);
            proof {
                lemma_all_cat_none(structural_only(val_diags(s@)));
                assert(all_cat(no_errs(), structural_only(val_diags(s@))) == structural_only(val_diags(s@)));
            }
            all
        },
        Rank::Skirmish => {
            if ns > 0 {
                let mut m = String::from_str("Skirmish folder cannot contain sub-folders (found ");
                add_num(&mut m, ns);
                m.append(").");
                push_err(&mut s, dir, Span { line: 0, col: 0 }, m);
            }
            let ghost s1 = val_diags(s@);
            if nf > 5 {
                let mut m = String::from_str("Skirmish folder cannot contain more than 5 source files (found ");
                add_num(&mut m, nf);
                m.append(").");
                push_err(&mut s, dir, Span { line: 0, col: 0 }, m);
            }
            let ghost s2 = val_diags(s@);
            if d.main.is_some() {
                let mp = join_path(dir, "main.bu");
                push_err(
                    &mut s,
                    mp.as_str(),
                    Span { line: 0, col: 0 },
                    String::from_str("Skirmish folders cannot contain main.bu. Move your entry point to a tactic or higher rank folder."),
                );
            }
            let ghost s3 = val_diags(s@);
            let none: Vec<FolderSnap> = Vec::new();
            let se = validate_inventory_structs(dir, inv, &none);
            append_errs(&mut s, se);
            let ce = validate_inventory_completeness(dir, inv, &d.files);
            append_errs(&mut s, ce);
            proof {
                assert(s1 =~= when(ns > 0, one(dir@, msg_skirmish_subs(ns as nat))));
                assert(s2 =~= s1 + when(nf > 5, one(dir@, msg_skirmish_files(nf as nat))));
                assert(s3 =~= s2 + when(d.main is Some, one(join(dir@, "main.bu"@), msg_skirmish_main())));
                assert(none@ =~= Seq::<FolderSnap>::empty());
                assert(child_structs(none@) =~= Seq::<Seq<char>>::empty());
            }
            all.extend_structural(s);
            let callable: Vec<String> = Vec::new();
            proof {
                assert(name_seq(callable@) =~= Seq::<Seq<char>>::empty());
            }
            validate_files(&d.files, inv.rank, &callable, lang, &mut all);
            proof {
                lemma_all_cat_none(structural_only(val_diags(s@)));
            }
            all
        },
        _ => {
            let child = match inv.rank.child_rank() {
                Some(c) => c,
                None => Rank::Skirmish,
            };
            if ns > 5 {
                let rn = inv.rank.name();
                let mut m = capitalize(rn.as_str());
                m.append(" folder cannot contain more than 5 ");
                let cn = child.name();
                m.append(cn.as_str());
                m.append(" sub-folders (found ");
                add_num(&mut m, ns);
                m.append(").");
                push_err(&mut s, dir, Span { line: 0, col: 0 }, m);
            }
            let ghost s1 = val_diags(s@);
            if nf > 5 {
                let rn = inv.rank.name();
                let mut m = capitalize(rn.as_str());
                m.append(" folder cannot contain more than 5 source files (found ");
                add_num(&mut m, nf);
                m.append(").");
                push_err(&mut s, dir, Span { line: 0, col: 0 }, m);
            }
            let ghost s2 = val_diags(s@);
            check_children_rank(&d.subdirs, child, &mut s);
            let se = validate_inventory_structs(dir, inv, &d.subdirs);
            append_errs(&mut s, se);
            let ce = validate_inventory_completeness(dir, inv, &d.files);
            append_errs(&mut s, ce);
            proof {
                assert(s1 =~= when(ns > 5, one(dir@, msg_rank_subs(inv.rank, child, ns as nat))));
                assert(s2 =~= s1 + when(nf > 5, one(dir@, msg_rank_files(inv.rank, nf as nat))));
            }
            all.extend_structural(s);
            let callable = collect_child_callable(&d.subdirs);
            validate_files(&d.files, inv.rank, &callable, lang, &mut all);
            validate_main(d, &callable, &mut all);
            proof {
                lemma_all_cat_none(structural_only(val_diags(s@)));
            }
            all
        },
    }
}

/// Validates a folder and, first, every folder below it; `parent_lang` is the
/// language that its ancestors declare.
pub fn validate_folder(d: &FolderSnap, parent_lang: Option<&Backend>) -> (r: AllErrors)
    ensures
        r@ == folder_errs(*d, opt_backend(parent_lang)),
    decreases d,
{
    let mut all = AllErrors::new();
    let inv = match &d.inventory {
        InvRead::Found(inv) => inv,
        other => {
            let mut m = String::new();
            match other {
                InvRead::Missing => {
                    m.append("Missing inventory.bu in '");
                    m.append(d.path.as_str());
                    m.append("' \u{2014} every Bullang folder must have one.");
                },
                InvRead::NotInventory => {
                    m.append("inventory.bu in '");
                    m.append(d.path.as_str());
                    m.append("' parsed as a source file.");
                },
                InvRead::Malformed(e) => {
                    m.append("Parse error in inventory.bu: ");
                    m.append(e.as_str());
                },
                InvRead::Found(_) => {},
            }
            push_one(&mut all, d.path.as_str(), m);
            proof {
                lemma_all_cat_none(structural_only(one(d.path@, m@)));
            }
            return all;
        },
    };
    let inv_path = join_path(d.path.as_str(), "inventory.bu");
    if let Some(p) = parent_lang {
        if let Some(c) = &inv.lang {
            if !c.same(p) {
                let mut m = String::from_str("Language mismatch: parent folder declares '");
                let pe = p.ext();
                m.append(pe.as_str());
                m.append("' but this folder declares '");
                let ce = c.ext();
                m.append(ce.as_str());
                m.append("'. Language is inherited from the highest ancestor \u{2014} remove #lang: from this inventory or align it with the parent.");
                push_one(&mut all, inv_path.as_str(), m);
            }
        }
    }
    let ghost lm = mismatch_msgs(inv_path@, opt_backend(parent_lang), inv.lang);
    proof {
        assert(all@.parse =~= Seq::<DiagV>::empty());
        assert(all@.structural =~= lm);
        assert(all@ == structural_only(lm));
    }
    let eff: Option<&Backend> = match &inv.lang {
        Some(l) => Some(l),
        None => parent_lang,
    };
    validate_subfolders(&d.subdirs, eff, &mut all);
    let rest = rank_rules(d, inv, eff);
    all.extend_all(rest);
    all
}

fn validate_subfolders(subs: &Vec<FolderSnap>, lang: Option<&Backend>, all: &mut AllErrors)
    ensures
        final(all)@ == all_cat(old(all)@, subfolders_errs(subs@, opt_backend(lang))),
    decreases subs,
{
    let ghost a0 = all@;
    let mut i: usize = 0;
    proof {
        assert(subs@.subrange(0, 0) =~= Seq::<FolderSnap>::empty());
        lemma_all_cat_none(a0);
    }
    while i < subs.len()
        invariant
            i <= subs@.len(),
            all@ == all_cat(a0, subfolders_errs(subs@.subrange(0, i as int), opt_backend(lang))),
        decreases subs@.len() - i,
    {
        proof {
            assert(subs@.subrange(0, i + 1).drop_last() =~= subs@.subrange(0, i as int));
            assert(subs@.subrange(0, i + 1).last() == subs@[i as int]);
        }
        let e = validate_folder(&subs[i], lang);
        all.extend_all(e);
        proof {
            lemma_all_cat_assoc(a0, subfolders_errs(subs@.subrange(0, i as int), opt_backend(lang)), folder_errs(subs@[i as int], opt_backend(lang)));
        }
        i = i + 1;
    }
    proof {
        assert(subs@.subrange(0, subs@.len() as int) =~= subs@);
    }
}

/// Whether `small` stands in `big` as a run starting at `a`.
pub open spec fn occurs_at(big: Seq<DiagV>, small: Seq<DiagV>, a: int) -> bool {
    0 <= a && a + small.len() <= big.len() && big.subrange(a, a + small.len()) == small
}

proof fn lemma_subfolders_split(subs: Seq<FolderSnap>, lang: Option<BackendV>, i: int)
    requires
        0 <= i <= subs.len(),
    ensures
        subfolders_errs(subs, lang) == all_cat(
            subfolders_errs(subs.subrange(0, i), lang),
            subfolders_errs(subs.subrange(i, subs.len() as int), lang),
        ),
    decreases subs.len() - i,
{
    if i == subs.len() {
        assert(subs.subrange(0, i) =~= subs);
        assert(subs.subrange(i, subs.len() as int) =~= Seq::<FolderSnap>::empty());
        lemma_all_cat_none(subfolders_errs(subs, lang));
    } else {
        lemma_subfolders_split(subs, lang, i + 1);
        let a = subs.subrange(0, i);
        let b = subs.subrange(i, subs.len() as int);
        let a1 = subs.subrange(0, i + 1);
        let b1 = subs.subrange(i + 1, subs.len() as int);
        assert(a1.drop_last() =~= a);
        assert(a1.last() == subs[i]);
        lemma_subfolders_front(b, lang);
        assert(b.drop_first() =~= b1);
        assert(b[0] == subs[i]);
        lemma_all_cat_assoc(subfolders_errs(a, lang), folder_errs(subs[i], lang), subfolders_errs(b1, lang));
    }
}

proof fn lemma_subfolders_front(subs: Seq<FolderSnap>, lang: Option<BackendV>)
    requires
        subs.len() > 0,
    ensures
        subfolders_errs(subs, lang) == all_cat(folder_errs(subs[0], lang), subfolders_errs(subs.drop_first(), lang)),
    decreases subs.len(),
{
    if subs.len() == 1 {
        assert(subs.drop_first() =~= Seq::<FolderSnap>::empty());
        assert(subs.drop_last() =~= Seq::<FolderSnap>::empty());
        lemma_all_cat_none(folder_errs(subs[0], lang));
    } else {
        lemma_subfolders_front(subs.drop_last(), lang);
        assert(subs.drop_last().drop_first() =~= subs.drop_first().drop_last());
        assert(subs.drop_last()[0] == subs[0]);
        assert(subs.drop_first().last() == subs.last());
        lemma_all_cat_assoc(
            folder_errs(subs[0], lang),
            subfolders_errs(subs.drop_first().drop_last(), lang),
            folder_errs(subs.last(), lang),
        );
    }
}

/// The language a folder passes down to its subfolders: its own, else the
/// one it was given.
pub open spec fn passed_lang(inv: InventoryFile, parent: Option<BackendV>) -> Option<BackendV> {
    match inv.lang {
        Some(l) => Some(l@),
        None => parent,
    }
}

/// Every error that validating a subfolder of a folder with a readable
/// inventory reports is reported for the folder too, in a run of its own:
/// the subfolder is validated under the language the folder passes down.
#[verifier::rlimit(30)]
pub proof fn law_subfolder_errors_reported(d: FolderSnap, parent: Option<BackendV>, i: int)
    requires
        d.inventory is Found,
        0 <= i < d.subdirs@.len(),
    ensures
        exists|a: int| #[trigger] occurs_at(folder_errs(d, parent).parse,
            folder_errs(d.subdirs@[i], passed_lang(d.inventory->Found_0, parent)).parse, a),
        exists|b: int| #[trigger] occurs_at(folder_errs(d, parent).structural,
            folder_errs(d.subdirs@[i], passed_lang(d.inventory->Found_0, parent)).structural, b),
{
    let inv = d.inventory->Found_0;
    let eff = passed_lang(inv, parent);
    let subs = d.subdirs@;
    let sub = folder_errs(subs[i], eff);
    let inv_path = join(d.path@, "inventory.bu"@);
    let lm = structural_only(mismatch_msgs(inv_path, parent, inv.lang));
    let pre = subfolders_errs(subs.subrange(0, i), eff);
    let post = subfolders_errs(subs.subrange(i + 1, subs.len() as int), eff);
    let r = rank_errs(d, inv, eff);
    lemma_subfolders_split(subs, eff, i);
    lemma_subfolders_front(subs.subrange(i, subs.len() as int), eff);
    assert(subs.subrange(i, subs.len() as int)[0] == subs[i]);
    assert(subs.subrange(i, subs.len() as int).drop_first() =~= subs.subrange(i + 1, subs.len() as int));
    assert(subfolders_errs(subs, eff) == all_cat(pre, all_cat(sub, post)));
    let all = folder_errs(d, parent);
    assert(all == all_cat(all_cat(lm, subfolders_errs(subs, eff)), r));
    lemma_run_in(lm, pre, sub, post, r);
    let a: int = (lm.parse.len() + pre.parse.len()) as int;
    let b: int = (lm.structural.len() + pre.structural.len()) as int;
    assert(occurs_at(all.parse, sub.parse, a));
    assert(occurs_at(all.structural, sub.structural, b));
    assert(exists|x: int| #[trigger] occurs_at(all.parse, sub.parse, x));
    assert(exists|x: int| #[trigger] occurs_at(all.structural, sub.structural, x));
}

proof fn lemma_run_in(lm: AllV, pre: AllV, sub: AllV, post: AllV, r: AllV)
    ensures
        occurs_at(all_cat(all_cat(lm, all_cat(pre, all_cat(sub, post))), r).parse, sub.parse,
            (lm.parse.len() + pre.parse.len()) as int),
        occurs_at(all_cat(all_cat(lm, all_cat(pre, all_cat(sub, post))), r).structural, sub.structural,
            (lm.structural.len() + pre.structural.len()) as int),
{
    let all = all_cat(all_cat(lm, all_cat(pre, all_cat(sub, post))), r);
    let a: int = (lm.parse.len() + pre.parse.len()) as int;
    let b: int = (lm.structural.len() + pre.structural.len()) as int;
    assert(all.parse.subrange(a, a + sub.parse.len()) =~= sub.parse);
    assert(all.structural.subrange(b, b + sub.structural.len()) =~= sub.structural);
    assert(occurs_at(all.parse, sub.parse, a));
    assert(occurs_at(all.structural, sub.structural, b));
}

/// Validates a whole project from its root folder.
pub fn validate_tree(root: &FolderSnap) -> (r: AllErrors)
    ensures
        r@ == folder_errs(*root, None),
{
    validate_folder(root, None)
}


/// Whether an input expression names a parameter or a binding made so far;
/// anything but a bare name asks nothing of the names.
pub open spec fn input_known(ps: Seq<Param>, bound: Seq<Seq<char>>, e: Expr) -> bool {
    match e {
        Expr::Atom(Atom::Ident(n)) => param_named(ps, n@) || bound.contains(n@),
        _ => true,
    }
}

/// A bullet input that names a binding of an earlier bullet (or a
/// parameter) is consumed and draws no message: where every input is known,
/// nothing is reported; and every name read this way is among the consumed
/// names afterwards, as is every name consumed before.
pub proof fn law_bound_inputs_consumed(
    ps: Seq<Param>,
    bound: Seq<Seq<char>>,
    consumed: Set<Seq<char>>,
    f: Seq<char>,
    idx: nat,
    ins: Seq<Expr>,
)
    ensures
        (forall|i: int| 0 <= i < ins.len() ==> input_known(ps, bound, #[trigger] ins[i]))
            ==> inputs_step(ps, bound, consumed, f, idx, ins).1.len() == 0,
        forall|i: int| 0 <= i < ins.len() ==> match #[trigger] ins[i] {
            Expr::Atom(Atom::Ident(n)) => bound.contains(n@) ==> inputs_step(ps, bound, consumed, f, idx, ins).0.contains(n@),
            _ => true,
        },
        consumed.subset_of(inputs_step(ps, bound, consumed, f, idx, ins).0),
    decreases ins.len(),
{
    if ins.len() > 0 {
        let pre = ins.drop_last();
        law_bound_inputs_consumed(ps, bound, consumed, f, idx, pre);
        assert forall|i: int| 0 <= i < pre.len() implies #[trigger] pre[i] == ins[i] by {}
        if forall|i: int| 0 <= i < ins.len() ==> input_known(ps, bound, #[trigger] ins[i]) {
            assert forall|i: int| 0 <= i < pre.len() implies input_known(ps, bound, #[trigger] pre[i]) by {
                assert(pre[i] == ins[i]);
            }
            assert(input_known(ps, bound, ins[ins.len() - 1]));
        }
        assert forall|i: int| 0 <= i < ins.len() implies match #[trigger] ins[i] {
            Expr::Atom(Atom::Ident(n)) => bound.contains(n@) ==> inputs_step(ps, bound, consumed, f, idx, ins).0.contains(n@),
            _ => true,
        } by {
            if i < ins.len() - 1 {
                assert(pre[i] == ins[i]);
            }
        }
    }
}

} // verus!
