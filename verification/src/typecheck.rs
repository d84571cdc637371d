//! Type checking of function bodies: every bullet's expression gets a type,
//! and mismatches are reported against the bullet's position.
use vstd::prelude::*;
use crate::ast::{
    Atom, BinOp, BuType, Bullet, BulletBody, BulletSig, CallArg, EnumDef, Expr, Field, Param, Pipe, SourceFile,
    Span, StructDef, TyV, Variant, ty_view, tys_view, ty_text, tys_text, nat_decimal, ty_is_numeric, named,
    lemma_tys_view,
};
use crate::table::{NameTable, last_index, last_key, lookup_key, view_entries, lemma_view_entries};
use crate::text::{
    str_is, usize_to_string, strip_ws, remove_whitespace, has_prefix, has_suffix, chars_of, starts_with,
    ends_with, trim_seq, trim_chars,
};

verus! {

// ── Errors ────────────────────────────────────────────────────────────────────

/// A type error at a position in a file (line 0 when there is none).
pub struct TypeError {
    pub file: String,
    pub line: usize,
    pub col: usize,
    pub message: String,
}

/// The value of a reported error.
pub struct DiagV {
    pub file: Seq<char>,
    pub line: nat,
    pub col: nat,
    pub message: Seq<char>,
}

impl View for TypeError {
    type V = DiagV;

    open spec fn view(&self) -> DiagV {
        DiagV { file: self.file@, line: self.line as nat, col: self.col as nat, message: self.message@ }
    }
}

pub open spec fn type_diags(v: Seq<TypeError>) -> Seq<DiagV> {
    v.map_values(|e: TypeError| e@)
}

/// Messages reported at one position of one file.
pub open spec fn at_span(path: Seq<char>, span: Span, msgs: Seq<Seq<char>>) -> Seq<DiagV> {
    msgs.map_values(|m: Seq<char>| DiagV { file: path, line: span.line as nat, col: span.col as nat, message: m })
}

pub proof fn lemma_at_span_add(path: Seq<char>, span: Span, a: Seq<Seq<char>>, b: Seq<Seq<char>>)
    ensures
        at_span(path, span, a + b) == at_span(path, span, a) + at_span(path, span, b),
{
    assert(at_span(path, span, a + b) =~= at_span(path, span, a) + at_span(path, span, b));
}

fn push_error(errors: &mut Vec<TypeError>, path: &str, span: Span, message: String)
    ensures
        type_diags(final(errors)@) == type_diags(old(errors)@) + at_span(path@, span, seq![message@]),
{
    errors.push(TypeError { file: String::from_str(path), line: span.line, col: span.col, message });
    proof {
        assert(type_diags(final(errors)@) =~= type_diags(old(errors)@) + at_span(path@, span, seq![message@]));
    }
}

// ── What the checker knows ────────────────────────────────────────────────────

/// Everything that an expression's type depends on.
pub struct Scope<'a> {
    /// Types of the names bound so far in the function.
    pub local: NameTable<BuType>,
    /// Signatures of the functions that may be called.
    pub env: &'a NameTable<BulletSig>,
    pub structs: &'a NameTable<StructDef>,
    pub enums: &'a NameTable<EnumDef>,
    /// In a skirmish folder calls are not checked.
    pub skirmish: bool,
}

/// What a scope holds, as plain values.
pub struct ScopeV {
    pub local: Seq<(Seq<char>, TyV)>,
    pub env: Seq<(Seq<char>, SigV)>,
    pub structs: Seq<(Seq<char>, Seq<(Seq<char>, TyV)>)>,
    pub enums: Seq<(Seq<char>, Seq<Seq<char>>)>,
    pub skirmish: bool,
}

/// A signature as plain values: the parameter types and the result type.
pub struct SigV {
    pub params: Seq<TyV>,
    pub returns: TyV,
}

pub open spec fn sig_view(s: BulletSig) -> SigV {
    SigV { params: tys_view(s.params@), returns: s.returns@ }
}

/// A struct's fields as plain values: each name with its type.
pub open spec fn fields_view(fs: Seq<Field>) -> Seq<(Seq<char>, TyV)> {
    fs.map_values(|f: Field| (f.name@, f.ty@))
}

/// The names of an enum's variants.
pub open spec fn variant_names(def: EnumDef) -> Seq<Seq<char>> {
    def.variants@.map_values(|v: Variant| v.name@)
}

/// Known functions by name, as plain values.
pub open spec fn sigs_view(s: Seq<(String, BulletSig)>) -> Seq<(Seq<char>, SigV)> {
    s.map_values(|e: (String, BulletSig)| (e.0@, sig_view(e.1)))
}

/// Known structs by name, as plain values.
pub open spec fn structs_view(s: Seq<(String, StructDef)>) -> Seq<(Seq<char>, Seq<(Seq<char>, TyV)>)> {
    s.map_values(|e: (String, StructDef)| (e.0@, fields_view(e.1.fields@)))
}

/// Known enums by name, as plain values.
pub open spec fn enums_view(s: Seq<(String, EnumDef)>) -> Seq<(Seq<char>, Seq<Seq<char>>)> {
    s.map_values(|e: (String, EnumDef)| (e.0@, variant_names(e.1)))
}

pub proof fn lemma_sigs_view(s: Seq<(String, BulletSig)>, k: Seq<char>)
    ensures
        last_key(sigs_view(s), k) == last_index(s, k),
        sigs_view(s).len() == s.len(),
    decreases s.len(),
{
    if s.len() > 0 {
        assert(sigs_view(s).drop_last() =~= sigs_view(s.drop_last()));
        lemma_sigs_view(s.drop_last(), k);
    }
}

pub proof fn lemma_structs_view(s: Seq<(String, StructDef)>, k: Seq<char>)
    ensures
        last_key(structs_view(s), k) == last_index(s, k),
        structs_view(s).len() == s.len(),
    decreases s.len(),
{
    if s.len() > 0 {
        assert(structs_view(s).drop_last() =~= structs_view(s.drop_last()));
        lemma_structs_view(s.drop_last(), k);
    }
}

pub proof fn lemma_enums_view(s: Seq<(String, EnumDef)>, k: Seq<char>)
    ensures
        last_key(enums_view(s), k) == last_index(s, k),
        enums_view(s).len() == s.len(),
    decreases s.len(),
{
    if s.len() > 0 {
        assert(enums_view(s).drop_last() =~= enums_view(s.drop_last()));
        lemma_enums_view(s.drop_last(), k);
    }
}

impl<'a> View for Scope<'a> {
    type V = ScopeV;

    open spec fn view(&self) -> ScopeV {
        ScopeV {
            local: view_entries(self.local.entries()),
            env: sigs_view(self.env.entries()),
            structs: structs_view(self.structs.entries()),
            enums: enums_view(self.enums.entries()),
            skirmish: self.skirmish,
        }
    }
}

pub open spec fn local_ty(sc: ScopeV, name: Seq<char>) -> TyV {
    match lookup_key(sc.local, name) {
        Some(t) => t,
        None => TyV::Unknown,
    }
}

pub open spec fn string_ty() -> TyV { named("String"@) }
pub open spec fn bool_ty() -> TyV { named("bool"@) }
pub open spec fn unit_ty() -> TyV { named("Unit"@) }

// ── Type relations ────────────────────────────────────────────────────────────

/// Two types fit each other when either is unknown, when both are names equal
/// up to whitespace, or when they are equal.
pub open spec fn compatible(a: TyV, b: TyV) -> bool {
    if a is Unknown || b is Unknown {
        true
    } else {
        match (a, b) {
            (TyV::Named(sa), TyV::Named(sb)) => strip_ws(sa) == strip_ws(sb),
            _ => a == b,
        }
    }
}

/// Compatibility of types is reflexive and symmetric.
pub proof fn law_compatible_reflexive_symmetric(a: TyV, b: TyV)
    ensures
        compatible(a, a),
        compatible(a, b) == compatible(b, a),
{
}

pub fn types_compatible(a: &BuType, b: &BuType) -> (r: bool)
    ensures
        r == compatible(a@, b@),
{
    if a.is_unknown() || b.is_unknown() {
        return true;
    }
    match (a, b) {
        (BuType::Named(sa), BuType::Named(sb)) => {
            let na = remove_whitespace(sa.as_str());
            let nb = remove_whitespace(sb.as_str());
            na == nb
        },
        _ => {
            let r = a.same(b);
            proof {
                if let BuType::Named(x) = a {
                    assert(!(b@ is Named));
                }
            }
            r
        },
    }
}

/// A `?` may only be used in a function that returns `Option[..]`.
pub open spec fn propagatable(t: TyV) -> bool {
    match t {
        TyV::Named(s) => has_prefix(s, "Option["@),
        _ => false,
    }
}

pub fn is_propagatable_type(t: &BuType) -> (r: bool)
    ensures
        r == propagatable(t@),
{
    match t {
        BuType::Named(s) => {
            let v = chars_of(s.as_str());
            starts_with(v.as_slice(), "Option[")
        },
        _ => false,
    }
}

/// `Option[T]` gives `T` (trimmed); anything else is unknown.
pub open spec fn unwrap_inner(t: TyV) -> TyV {
    match t {
        TyV::Named(s) => if has_prefix(s, "Option["@) && has_suffix(s, "]"@) {
            named(trim_seq(s.subrange(7, s.len() - 1)))
        } else {
            TyV::Unknown
        },
        _ => TyV::Unknown,
    }
}

pub fn unwrap_inner_type(t: &BuType) -> (r: BuType)
    ensures
        r@ == unwrap_inner(t@),
{
    match t {
        BuType::Named(s) => {
            let v = chars_of(s.as_str());
            if starts_with(v.as_slice(), "Option[") && ends_with(v.as_slice(), "]") {
                proof {
                    reveal_strlit("Option[");
                    reveal_strlit("]");
                    assert("Option["@.len() == 7);
                    assert(v@.subrange(0, 7) == "Option["@);
                    assert(v@[6] == v@.subrange(0, 7)[6]);
                    assert(v@[6] == '[');
                    assert("]"@[0] == ']');
                    assert(v@.subrange(v@.len() - 1, v@.len() as int)[0] == ']');
                }
                let inner = trim_chars(v.as_slice(), 7, v.len() - 1);
                BuType::Named(inner)
            } else {
                BuType::Unknown
            }
        },
        _ => BuType::Unknown,
    }
}

/// The function type `Fn[A, B -> R]` (or `Fn[-> R]`) of a signature.
pub open spec fn fn_type_text(params: Seq<TyV>, ret: TyV) -> Seq<char> {
    if params.len() == 0 {
        "Fn[-> "@ + ty_text(ret) + "]"@
    } else {
        "Fn["@ + tys_text(params) + " -> "@ + ty_text(ret) + "]"@
    }
}

pub fn build_fn_type(sig: &BulletSig) -> (r: BuType)
    ensures
        r@ == named(fn_type_text(tys_view(sig.params@), sig.returns@)),
{
    proof {
        lemma_tys_view(sig.params@);
    }
    let ret = sig.returns.to_rust();
    let mut s = String::new();
    if sig.params.len() == 0 {
        s.append("Fn[-> ");
    } else {
        s.append("Fn[");
        let ps = crate::ast::types_text(&sig.params);
        s.append(ps.as_str());
        s.append(" -> ");
    }
    s.append(ret.as_str());
    s.append("]");
    BuType::Named(s)
}

// ── Messages ──────────────────────────────────────────────────────────────────

pub open spec fn fq(f: Seq<char>) -> Seq<char> {
    "Function '"@ + f + "': "@
}

pub open spec fn msg_bool_sides(f: Seq<char>, op: Seq<char>, l: TyV, r: TyV) -> Seq<char> {
    fq(f) + "operator '"@ + op + "' requires bool on both sides (left: "@ + ty_text(l) + ", right: "@
        + ty_text(r) + ")."@
}

pub open spec fn msg_same_type(f: Seq<char>, op: Seq<char>, l: TyV, r: TyV) -> Seq<char> {
    fq(f) + "operator '"@ + op + "' requires both sides to be the same type (left: "@ + ty_text(l)
        + ", right: "@ + ty_text(r) + ")."@
}

pub open spec fn msg_numeric(f: Seq<char>, op: Seq<char>, l: TyV) -> Seq<char> {
    fq(f) + "operator '"@ + op + "' requires a numeric type, got "@ + ty_text(l) + "."@
}

pub open spec fn msg_arg_count(f: Seq<char>, callee: Seq<char>, expected: nat, got: nat) -> Seq<char> {
    fq(f) + "'"@ + callee + "' expects "@ + nat_decimal(expected) + " argument(s) but received "@
        + nat_decimal(got) + "."@
}

pub open spec fn msg_arg_type(f: Seq<char>, i: nat, callee: Seq<char>, actual: TyV, expected: TyV) -> Seq<char> {
    fq(f) + "argument "@ + nat_decimal(i + 1) + " passed to '"@ + callee + "' is "@ + ty_text(actual)
        + " but "@ + ty_text(expected) + " was expected."@
}

pub open spec fn msg_ref_type(f: Seq<char>, r: Seq<char>, fn_ty: TyV, i: nat, callee: Seq<char>, expected: TyV) -> Seq<char> {
    fq(f) + "'&"@ + r + "' has type "@ + ty_text(fn_ty) + " but argument "@ + nat_decimal(i + 1)
        + " of '"@ + callee + "' expects "@ + ty_text(expected) + "."@
}

pub open spec fn msg_not_bool(f: Seq<char>, t: TyV) -> Seq<char> {
    fq(f) + "'!' requires a bool operand, got "@ + ty_text(t) + "."@
}

pub open spec fn msg_neg(f: Seq<char>, t: TyV) -> Seq<char> {
    fq(f) + "unary '-' requires a numeric operand, got "@ + ty_text(t) + "."@
}

pub open spec fn msg_unary(f: Seq<char>, op: Seq<char>) -> Seq<char> {
    fq(f) + "unknown unary operator '"@ + op + "'."@
}

pub open spec fn msg_no_field(f: Seq<char>, st: Seq<char>, field: Seq<char>) -> Seq<char> {
    fq(f) + "struct '"@ + st + "' has no field '"@ + field + "'."@
}

pub open spec fn msg_non_struct(f: Seq<char>, field: Seq<char>, t: TyV) -> Seq<char> {
    fq(f) + "cannot access field '"@ + field + "' on non-struct type "@ + ty_text(t) + "."@
}

pub open spec fn msg_assert_arity(f: Seq<char>, got: nat) -> Seq<char> {
    fq(f) + "builtin::assert expects 1 argument, got "@ + nat_decimal(got) + "."@
}

pub open spec fn msg_assert_bool(f: Seq<char>, t: TyV) -> Seq<char> {
    fq(f) + "builtin::assert requires a bool argument, got "@ + ty_text(t) + "."@
}

pub open spec fn msg_assert2_arity(f: Seq<char>, name: Seq<char>, got: nat) -> Seq<char> {
    fq(f) + "builtin::"@ + name + " expects 2 arguments, got "@ + nat_decimal(got) + "."@
}

pub open spec fn msg_builtin_expr(f: Seq<char>, name: Seq<char>) -> Seq<char> {
    fq(f) + "'builtin::"@ + name
        + "' is not available as a pipe expression. Use it as a function body or check `bullang stdlib --list`."@
}

pub open spec fn msg_no_variant(f: Seq<char>, ty: Seq<char>, v: Seq<char>) -> Seq<char> {
    fq(f) + "enum '"@ + ty + "' has no variant '"@ + v + "'."@
}

pub open spec fn msg_no_enum(f: Seq<char>, ty: Seq<char>) -> Seq<char> {
    fq(f) + "'"@ + ty + "' is not a known enum type."@
}

pub open spec fn msg_index(f: Seq<char>, t: TyV) -> Seq<char> {
    fq(f) + "index operator [] requires a String, got "@ + ty_text(t) + "."@
}

pub open spec fn msg_slice(f: Seq<char>, t: TyV) -> Seq<char> {
    fq(f) + "slice operator [..] requires a String, got "@ + ty_text(t) + "."@
}

pub open spec fn msg_propagate_type(f: Seq<char>, out: TyV) -> Seq<char> {
    fq(f) + "`?` can only be used when the function returns Option[T] (declared return type is "@
        + ty_text(out) + ")."@
}

pub open spec fn msg_propagate_last(f: Seq<char>) -> Seq<char> {
    fq(f)
        + "`?` cannot appear on the last bullet. Use it on intermediate bullets to propagate None/Err early."@
}

pub open spec fn msg_last_output(f: Seq<char>, got: TyV, out: TyV) -> Seq<char> {
    fq(f) + "last bullet produces "@ + ty_text(got) + " but declared output is "@ + ty_text(out) + "."@
}

// ── Inference, as a specification ────────────────────────────────────────────

/// Whether an expression holds a bare `builtin::name` atom, which only a pipe
/// with implicit inputs may use and which no expression has a type for.
pub open spec fn atom_has_bare(a: Atom) -> bool
    decreases a,
{
    match a {
        Atom::BuiltinNoArgs(_) => true,
        Atom::Unary { rhs, .. } => atom_has_bare(*rhs),
        Atom::BuiltinExpr { name, args } => name@ == "assert"@ && args@.len() == 1 && expr_has_bare(args@[0]),
        _ => false,
    }
}

pub open spec fn expr_has_bare(e: Expr) -> bool
    decreases e,
{
    match e {
        Expr::Atom(a) => atom_has_bare(a),
        Expr::BinOp(b) => atom_has_bare(b.lhs) || atom_has_bare(b.rhs),
        Expr::Tuple(es) => exprs_have_bare(es@),
    }
}

pub open spec fn exprs_have_bare(es: Seq<Expr>) -> bool
    decreases es,
{
    if es.len() == 0 {
        false
    } else {
        exprs_have_bare(es.drop_last()) || expr_has_bare(es.last())
    }
}

/// Whether an atom holds a bare builtin.
pub fn atom_is_bare(a: &Atom) -> (r: bool)
    ensures
        r == atom_has_bare(*a),
    decreases a,
{
    match a {
        Atom::BuiltinNoArgs(_) => true,
        Atom::Unary { rhs, .. } => atom_is_bare(rhs),
        Atom::BuiltinExpr { name, args } => {
            if str_is(name.as_str(), "assert") && args.len() == 1 {
                expr_is_bare(&args[0])
            } else {
                proof {
                    reveal_strlit("assert");
                }
                false
            }
        },
        _ => false,
    }
}

/// Whether an expression holds a bare builtin.
pub fn expr_is_bare(e: &Expr) -> (r: bool)
    ensures
        r == expr_has_bare(*e),
    decreases e,
{
    match e {
        Expr::Atom(a) => atom_is_bare(a),
        Expr::BinOp(b) => atom_is_bare(&b.lhs) || atom_is_bare(&b.rhs),
        Expr::Tuple(es) => exprs_are_bare(es),
    }
}

fn exprs_are_bare(es: &Vec<Expr>) -> (r: bool)
    ensures
        r == exprs_have_bare(es@),
    decreases es,
{
    let mut i: usize = 0;
    let mut found = false;
    proof {
        assert(es@.subrange(0, 0) =~= Seq::<Expr>::empty());
    }
    while i < es.len()
        invariant
            i <= es@.len(),
            found == exprs_have_bare(es@.subrange(0, i as int)),
        decreases es@.len() - i,
    {
        proof {
            assert(es@.subrange(0, i + 1).drop_last() =~= es@.subrange(0, i as int));
            assert(es@.subrange(0, i + 1).last() == es@[i as int]);
        }
        let b = expr_is_bare(&es[i]);
        found = found || b;
        i = i + 1;
    }
    proof {
        assert(es@.subrange(0, es@.len() as int) =~= es@);
    }
    found
}

/// Whether a function has types to infer.
pub fn is_checkable(func: &Bullet) -> (r: bool)
    ensures
        r == checkable(*func),
{
    if func.type_params.len() > 0 {
        return true;
    }
    match &func.body {
        BulletBody::Pipes(ps) => {
            let mut i: usize = 0;
            while i < ps.len()
                invariant
                    i <= ps@.len(),
                    func.type_params@.len() == 0,
                    func.body == BulletBody::Pipes(*ps),
                    forall|k: int| 0 <= k < i ==> !expr_has_bare(#[trigger] ps@[k].expr),
                decreases ps@.len() - i,
            {
                if expr_is_bare(&ps[i].expr) {
                    proof {
                        assert(expr_has_bare(ps@[i as int].expr));
                    }
                    return false;
                }
                i = i + 1;
            }
            true
        },
        _ => true,
    }
}

/// Index of the first field named `name`.
pub open spec fn first_field(fs: Seq<(Seq<char>, TyV)>, name: Seq<char>) -> Option<int>
    decreases fs.len(),
{
    if fs.len() == 0 {
        None
    } else if fs[0].0 == name {
        Some(0)
    } else {
        match first_field(fs.drop_first(), name) {
            Some(i) => Some(i + 1),
            None => None,
        }
    }
}

/// Whether an enum declares a variant of this name.
pub open spec fn has_variant(names: Seq<Seq<char>>, v: Seq<char>) -> bool {
    exists|k: int| 0 <= k < names.len() && #[trigger] names[k] == v
}

/// Following `fields` from a value of type `cur`.
pub open spec fn field_walk(sc: ScopeV, f: Seq<char>, cur: TyV, fields: Seq<String>, i: int) -> (TyV, Seq<Seq<char>>)
    decreases fields.len() - i,
{
    if i < 0 || i >= fields.len() {
        (cur, Seq::empty())
    } else {
        match cur {
            TyV::Unknown => (TyV::Unknown, Seq::empty()),
            TyV::Named(sn) => match lookup_key(sc.structs, sn) {
                Some(fs) => match first_field(fs, fields[i]@) {
                    Some(k) => field_walk(sc, f, fs[k].1, fields, i + 1),
                    None => (TyV::Unknown, seq![msg_no_field(f, sn, fields[i]@)]),
                },
                None => (TyV::Unknown, Seq::empty()),
            },
            _ => (TyV::Unknown, seq![msg_non_struct(f, fields[i]@, cur)]),
        }
    }
}

pub open spec fn sig_of(sc: ScopeV, name: Seq<char>) -> Option<SigV> {
    lookup_key(sc.env, name)
}

/// The message, if any, for the `i`-th argument of a call to `callee`.
pub open spec fn arg_issue(sc: ScopeV, f: Seq<char>, callee: Seq<char>, arg: CallArg, expected: TyV, i: nat) -> Seq<Seq<char>> {
    match arg {
        CallArg::Value(v) => {
            let actual = local_ty(sc, v@);
            if !(actual is Unknown) && !compatible(actual, expected) {
                seq![msg_arg_type(f, i, callee, actual, expected)]
            } else {
                Seq::empty()
            }
        },
        CallArg::BulletRef(r) => match sig_of(sc, r@) {
            Some(rs) => {
                let fn_ty = named(fn_type_text(rs.params, rs.returns));
                if !compatible(fn_ty, expected) {
                    seq![msg_ref_type(f, r@, fn_ty, i, callee, expected)]
                } else {
                    Seq::empty()
                }
            },
            None => Seq::empty(),
        },
    }
}

/// The messages for the first `n` arguments of a call.
pub open spec fn args_issues(sc: ScopeV, f: Seq<char>, callee: Seq<char>, args: Seq<CallArg>, params: Seq<TyV>, n: nat) -> Seq<Seq<char>>
    decreases n,
{
    if n == 0 {
        Seq::empty()
    } else {
        args_issues(sc, f, callee, args, params, (n - 1) as nat) + arg_issue(
            sc,
            f,
            callee,
            args[n - 1],
            params[n - 1],
            (n - 1) as nat,
        )
    }
}

pub open spec fn closure_type_text(params: Seq<Param>, ret: TyV) -> Seq<char> {
    fn_type_text(params.map_values(|p: Param| ty_view(p.ty)), ret)
}

/// The type of an atom and the messages that inferring it reports.
pub open spec fn infer_atom_spec(sc: ScopeV, f: Seq<char>, a: Atom) -> (TyV, Seq<Seq<char>>)
    decreases a,
{
    match a {
        Atom::Float(_) => (named("f64"@), Seq::empty()),
        Atom::Integer(_) => (TyV::Unknown, Seq::empty()),
        Atom::StringLit(_) => (string_ty(), Seq::empty()),
        Atom::Interp(_) => (string_ty(), Seq::empty()),
        Atom::Ident(n) => (local_ty(sc, n@), Seq::empty()),
        Atom::Call { name, args } => {
            if sc.skirmish {
                (TyV::Unknown, Seq::empty())
            } else {
                match sig_of(sc, name@) {
                    None => (TyV::Unknown, Seq::empty()),
                    Some(sig) => if args@.len() != sig.params.len() {
                        (sig.returns, seq![msg_arg_count(f, name@, sig.params.len(), args@.len())])
                    } else {
                        (sig.returns, args_issues(sc, f, name@, args@, sig.params, args@.len()))
                    },
                }
            }
        },
        Atom::Unary { op, rhs } => {
            let (rt, m) = infer_atom_spec(sc, f, *rhs);
            if op@ == "!"@ {
                if !(rt is Unknown) && rt != bool_ty() {
                    (TyV::Unknown, m.push(msg_not_bool(f, rt)))
                } else {
                    (bool_ty(), m)
                }
            } else if op@ == "-"@ {
                if !(rt is Unknown) && !ty_is_numeric(rt) {
                    (TyV::Unknown, m.push(msg_neg(f, rt)))
                } else {
                    (rt, m)
                }
            } else {
                (TyV::Unknown, m.push(msg_unary(f, op@)))
            }
        },
        Atom::FieldAccess { base, fields } => field_walk(sc, f, local_ty(sc, base@), fields@, 0),
        Atom::BuiltinNoArgs(_) => (TyV::Unknown, Seq::empty()),
        Atom::BuiltinExpr { name, args } => {
            if name@ == "assert"@ {
                if args@.len() != 1 {
                    (TyV::Unknown, seq![msg_assert_arity(f, args@.len())])
                } else {
                    let (ct, m) = infer_expr_spec(sc, f, args@[0]);
                    if !(ct is Unknown) && ct != bool_ty() {
                        (bool_ty(), m.push(msg_assert_bool(f, ct)))
                    } else {
                        (bool_ty(), m)
                    }
                }
            } else if name@ == "assert_eq"@ || name@ == "assert_ne"@ {
                if args@.len() != 2 {
                    (TyV::Unknown, seq![msg_assert2_arity(f, name@, args@.len())])
                } else {
                    (bool_ty(), Seq::empty())
                }
            } else {
                (TyV::Unknown, seq![msg_builtin_expr(f, name@)])
            }
        },
        Atom::EnumVariant { ty, variant } => match lookup_key(sc.enums, ty@) {
            Some(names) => if has_variant(names, variant@) {
                (named(ty@), Seq::empty())
            } else {
                (TyV::Unknown, seq![msg_no_variant(f, ty@, variant@)])
            },
            None => (TyV::Unknown, seq![msg_no_enum(f, ty@)]),
        },
        Atom::Index { base, .. } => {
            let bt = local_ty(sc, base@);
            if !(bt is Unknown) && bt != string_ty() {
                (TyV::Unknown, seq![msg_index(f, bt)])
            } else {
                (named("char"@), Seq::empty())
            }
        },
        Atom::Slice { base, .. } => {
            let bt = local_ty(sc, base@);
            if !(bt is Unknown) && bt != string_ty() {
                (TyV::Unknown, seq![msg_slice(f, bt)])
            } else {
                (string_ty(), Seq::empty())
            }
        },
        Atom::Closure { params, ret, .. } => (named(closure_type_text(params@, ret@)), Seq::empty()),
    }
}

/// The type of an expression and the messages that inferring it reports.
pub open spec fn infer_expr_spec(sc: ScopeV, f: Seq<char>, e: Expr) -> (TyV, Seq<Seq<char>>)
    decreases e,
{
    match e {
        Expr::Atom(a) => infer_atom_spec(sc, f, a),
        Expr::BinOp(b) => {
            let (lt, lm) = infer_atom_spec(sc, f, b.lhs);
            let (rt, rm) = infer_atom_spec(sc, f, b.rhs);
            let m = lm + rm;
            let op = b.op@;
            if lt is Unknown || rt is Unknown {
                (TyV::Unknown, m)
            } else if op == "+"@ && lt == string_ty() && rt == string_ty() {
                (string_ty(), m)
            } else if op == "&&"@ || op == "||"@ {
                if lt != bool_ty() || rt != bool_ty() {
                    (TyV::Unknown, m.push(msg_bool_sides(f, op, lt, rt)))
                } else {
                    (bool_ty(), m)
                }
            } else if op == "=="@ || op == "!="@ || op == "<"@ || op == ">"@ || op == "<="@ || op == ">="@ {
                (bool_ty(), m)
            } else if lt != rt {
                (TyV::Unknown, m.push(msg_same_type(f, op, lt, rt)))
            } else if !ty_is_numeric(lt) {
                (TyV::Unknown, m.push(msg_numeric(f, op, lt)))
            } else {
                (lt, m)
            }
        },
        Expr::Tuple(es) => {
            let (ts, m) = infer_exprs_spec(sc, f, es@);
            (TyV::Tuple(ts), m)
        },
    }
}

pub open spec fn infer_exprs_spec(sc: ScopeV, f: Seq<char>, es: Seq<Expr>) -> (Seq<TyV>, Seq<Seq<char>>)
    decreases es,
{
    if es.len() == 0 {
        (Seq::empty(), Seq::empty())
    } else {
        let (ts, ms) = infer_exprs_spec(sc, f, es.drop_last());
        let (t, m) = infer_expr_spec(sc, f, es.last());
        (ts.push(t), ms + m)
    }
}

// ── Messages, built ───────────────────────────────────────────────────────────

pub fn start_msg(f: &str) -> (r: String)
    ensures
        r@ == fq(f@),
{
    let mut m = String::from_str("Function '");
    m.append(f);
    m.append("': ");
    m
}

pub fn add_ty(m: &mut String, t: &BuType)
    ensures
        final(m)@ == old(m)@ + ty_text(t@),
{
    let s = t.to_rust();
    m.append(s.as_str());
}

pub fn add_num(m: &mut String, n: usize)
    ensures
        final(m)@ == old(m)@ + nat_decimal(n as nat),
{
    let s = usize_to_string(n);
    m.append(s.as_str());
}

// ── Lookups ───────────────────────────────────────────────────────────────────

pub fn local_type(sc: &Scope, name: &str) -> (r: BuType)
    ensures
        r@ == local_ty(sc@, name@),
{
    proof {
        lemma_view_entries(sc.local.entries(), name@);
    }
    match sc.local.find(name) {
        Some(i) => sc.local.at(i).copy(),
        None => BuType::Unknown,
    }
}

pub proof fn lemma_first_field(fs: Seq<(Seq<char>, TyV)>, name: Seq<char>)
    ensures
        first_field(fs, name) matches Some(k) ==> 0 <= k < fs.len() && fs[k].0 == name && forall|j: int|
            0 <= j < k ==> (#[trigger] fs[j]).0 != name,
        first_field(fs, name) is None ==> forall|j: int| 0 <= j < fs.len() ==> (#[trigger] fs[j]).0 != name,
    decreases fs.len(),
{
    if fs.len() > 0 {
        lemma_first_field(fs.drop_first(), name);
        assert forall|j: int| 0 < j < fs.len() implies fs[j] == fs.drop_first()[j - 1] by {}
    }
}

fn find_field(fs: &Vec<Field>, name: &str) -> (r: Option<usize>)
    ensures
        r matches Some(k) ==> first_field(fields_view(fs@), name@) == Some(k as int) && k < fs@.len(),
        r is None ==> first_field(fields_view(fs@), name@) is None,
{
    let ghost fv = fields_view(fs@);
    proof {
        lemma_first_field(fv, name@);
    }
    let key = String::from_str(name);
    let mut i: usize = 0;
    while i < fs.len()
        invariant
            i <= fs@.len(),
            key@ == name@,
            fv == fields_view(fs@),
            forall|j: int| 0 <= j < i ==> (#[trigger] fs@[j]).name@ != name@,
        decreases fs@.len() - i,
    {
        if fs[i].name == key {
            proof {
                lemma_first_field(fv, name@);
                assert(fv[i as int].0 == fs@[i as int].name@);
                assert(fv[i as int].0 == name@);
                match first_field(fv, name@) {
                    Some(k) => {
                        assert(fv[k].0 == fs@[k].name@);
                        if k < i {
                            assert(fs@[k].name@ != name@);
                        }
                        assert(k == i);
                    },
                    None => {},
                }
            }
            return Some(i);
        }
        i = i + 1;
    }
    proof {
        lemma_first_field(fv, name@);
        assert forall|j: int| 0 <= j < fv.len() implies fv[j].0 != name@ by {
            assert(fv[j].0 == fs@[j].name@);
        }
        if let Some(k) = first_field(fv, name@) {
            assert(fv[k].0 == name@);
        }
    }
    None
}

// ── Inference ─────────────────────────────────────────────────────────────────

/// Infers the type of an atom, reporting its errors at `span` in `path`.
pub fn infer_atom(sc: &Scope, f: &str, path: &str, span: Span, a: &Atom, errors: &mut Vec<TypeError>) -> (t: BuType)
    requires
        !atom_has_bare(*a),
    ensures
        t@ == infer_atom_spec(sc@, f@, *a).0,
        type_diags(final(errors)@) == type_diags(old(errors)@) + at_span(path@, span, infer_atom_spec(sc@, f@, *a).1),
    decreases a, 1nat,
{
    proof {
        assert(at_span(path@, span, Seq::<Seq<char>>::empty()) =~= Seq::<DiagV>::empty());
        assert(type_diags(old(errors)@) + Seq::<DiagV>::empty() =~= type_diags(old(errors)@));
    }
    match a {
        Atom::Float(_) => BuType::Named(String::from_str("f64")),
        Atom::Integer(_) => BuType::Unknown,
        Atom::StringLit(_) => BuType::Named(String::from_str("String")),
        Atom::Interp(_) => BuType::Named(String::from_str("String")),
        Atom::Ident(n) => local_type(sc, n.as_str()),
        Atom::Call { .. } => infer_call(sc, f, path, span, a, errors),
        Atom::Unary { .. } => infer_unary(sc, f, path, span, a, errors),
        Atom::FieldAccess { base, fields } => infer_fields(sc, f, path, span, base, fields, errors),
        Atom::BuiltinNoArgs(_) => {
            proof {
                assert(false);
            }
            BuType::Unknown
        },
        Atom::BuiltinExpr { .. } => infer_builtin_expr(sc, f, path, span, a, errors),
        Atom::EnumVariant { .. } => infer_enum_variant(sc, f, path, span, a, errors),
        Atom::Index { base, .. } => {
            let bt = local_type(sc, base.as_str());
            if !bt.is_unknown() && !bt.is_named("String") {
                let mut m = start_msg(f);
                m.append("index operator [] requires a String, got ");
                add_ty(&mut m, &bt);
                m.append(".");
                push_error(errors, path, span, m);
                BuType::Unknown
            } else {
                BuType::Named(String::from_str("char"))
            }
        },
        Atom::Slice { base, .. } => {
            let bt = local_type(sc, base.as_str());
            if !bt.is_unknown() && !bt.is_named("String") {
                let mut m = start_msg(f);
                m.append("slice operator [..] requires a String, got ");
                add_ty(&mut m, &bt);
                m.append(".");
                push_error(errors, path, span, m);
                BuType::Unknown
            } else {
                BuType::Named(String::from_str("String"))
            }
        },
        Atom::Closure { .. } => infer_closure(sc, f, path, span, a, errors),
    }
}

fn infer_call(sc: &Scope, f: &str, path: &str, span: Span, a: &Atom, errors: &mut Vec<TypeError>) -> (t: BuType)
    requires
        !atom_has_bare(*a),
        a is Call,
    ensures
        t@ == infer_atom_spec(sc@, f@, *a).0,
        type_diags(final(errors)@) == type_diags(old(errors)@) + at_span(path@, span, infer_atom_spec(sc@, f@, *a).1),
    decreases a, 0nat,
{
    proof {
        assert(at_span(path@, span, Seq::<Seq<char>>::empty()) =~= Seq::<DiagV>::empty());
        assert(type_diags(old(errors)@) + Seq::<DiagV>::empty() =~= type_diags(old(errors)@));
    }
    match a {
        Atom::Call { name, args } => {
            if sc.skirmish {
                return BuType::Unknown;
            }
            proof {
                lemma_sigs_view(sc.env.entries(), name@);
            }
            let si = match sc.env.find(name.as_str()) {
                Some(i) => i,
                None => return BuType::Unknown,
            };
            let sig = sc.env.at(si);
            proof {
                assert(sig_of(sc@, name@) == Some(sig_view(*sig)));
                lemma_tys_view(sig.params@);
            }
            if args.len() != sig.params.len() {
                let mut m = start_msg(f);
                m.append("'");
                m.append(name.as_str());
                m.append("' expects ");
                add_num(&mut m, sig.params.len());
                m.append(" argument(s) but received ");
                add_num(&mut m, args.len());
                m.append(".");
                push_error(errors, path, span, m);
                return sig.returns.copy();
            }
            let ghost params = tys_view(sig.params@);
            proof {
                lemma_tys_view(sig.params@);
                assert(args_issues(sc@, f@, name@, args@, params, 0) =~= Seq::<Seq<char>>::empty());
            }
            let mut i: usize = 0;
            while i < args.len()
                invariant
                    i <= args@.len(),
                    args@.len() == sig.params@.len(),
                    params == tys_view(sig.params@),
                    params.len() == sig.params@.len(),
                    forall|j: int| 0 <= j < sig.params@.len() ==> #[trigger] params[j] == ty_view(sig.params@[j]),
                    type_diags(errors@) == type_diags(old(errors)@) + at_span(
                        path@,
                        span,
                        args_issues(sc@, f@, name@, args@, params, i as nat),
                    ),
                decreases args@.len() - i,
            {
                let ghost before = args_issues(sc@, f@, name@, args@, params, i as nat);
                let expected = &sig.params[i];
                match &args[i] {
                    CallArg::Value(v) => {
                        let actual = local_type(sc, v.as_str());
                        if !actual.is_unknown() && !types_compatible(&actual, expected) {
                            let mut m = start_msg(f);
                            m.append("argument ");
                            add_num(&mut m, i + 1);
                            m.append(" passed to '");
                            m.append(name.as_str());
                            m.append("' is ");
                            add_ty(&mut m, &actual);
                            m.append(" but ");
                            add_ty(&mut m, expected);
                            m.append(" was expected.");
                            push_error(errors, path, span, m);
                        }
                    },
                    CallArg::BulletRef(r) => {
                        proof {
                            lemma_sigs_view(sc.env.entries(), r@);
                        }
                        match sc.env.find(r.as_str()) {
                            Some(ri) => {
                                proof {
                                    assert(sig_of(sc@, r@) == Some(sig_view(sc.env.entries()[ri as int].1)));
                                }
                                let fn_ty = build_fn_type(sc.env.at(ri));
                                if !types_compatible(&fn_ty, expected) {
                                    let mut m = start_msg(f);
                                    m.append("'&");
                                    m.append(r.as_str());
                                    m.append("' has type ");
                                    add_ty(&mut m, &fn_ty);
                                    m.append(" but argument ");
                                    add_num(&mut m, i + 1);
                                    m.append(" of '");
                                    m.append(name.as_str());
                                    m.append("' expects ");
                                    add_ty(&mut m, expected);
                                    m.append(".");
                                    push_error(errors, path, span, m);
                                }
                            },
                            None => {},
                        }
                    },
                }
                proof {
                    let issue = arg_issue(sc@, f@, name@, args@[i as int], params[i as int], i as nat);
                    assert(args_issues(sc@, f@, name@, args@, params, (i + 1) as nat) == before + issue);
                    lemma_at_span_add(path@, span, before, issue);
                    if issue.len() == 0 {
                        assert(issue =~= Seq::<Seq<char>>::empty());
                        assert(at_span(path@, span, issue) =~= Seq::<DiagV>::empty());
                    }
                }
                i = i + 1;
            }
            sig.returns.copy()
        },
        _ => { proof { assert(false); } BuType::Unknown },
    }
}

fn infer_unary(sc: &Scope, f: &str, path: &str, span: Span, a: &Atom, errors: &mut Vec<TypeError>) -> (t: BuType)
    requires
        !atom_has_bare(*a),
        a is Unary,
    ensures
        t@ == infer_atom_spec(sc@, f@, *a).0,
        type_diags(final(errors)@) == type_diags(old(errors)@) + at_span(path@, span, infer_atom_spec(sc@, f@, *a).1),
    decreases a, 0nat,
{
    proof {
        assert(at_span(path@, span, Seq::<Seq<char>>::empty()) =~= Seq::<DiagV>::empty());
        assert(type_diags(old(errors)@) + Seq::<DiagV>::empty() =~= type_diags(old(errors)@));
    }
    match a {
        Atom::Unary { op, rhs } => {
            let rt = infer_atom(sc, f, path, span, &**rhs, errors);
            let ghost m0 = infer_atom_spec(sc@, f@, **rhs).1;
            if str_is(op.as_str(), "!") {
                if !rt.is_unknown() && !rt.is_named("bool") {
                    let mut m = start_msg(f);
                    m.append("'!' requires a bool operand, got ");
                    add_ty(&mut m, &rt);
                    m.append(".");
                    push_error(errors, path, span, m);
                    proof { lemma_at_span_add(path@, span, m0, seq![m@]); assert(m0 + seq![m@] == m0.push(m@)); }
                    BuType::Unknown
                } else {
                    BuType::Named(String::from_str("bool"))
                }
            } else if str_is(op.as_str(), "-") {
                if !rt.is_unknown() && !rt.is_numeric() {
                    let mut m = start_msg(f);
                    m.append("unary '-' requires a numeric operand, got ");
                    add_ty(&mut m, &rt);
                    m.append(".");
                    push_error(errors, path, span, m);
                    proof { lemma_at_span_add(path@, span, m0, seq![m@]); assert(m0 + seq![m@] == m0.push(m@)); }
                    BuType::Unknown
                } else {
                    rt
                }
            } else {
                let mut m = start_msg(f);
                m.append("unknown unary operator '");
                m.append(op.as_str());
                m.append("'.");
                push_error(errors, path, span, m);
                proof { lemma_at_span_add(path@, span, m0, seq![m@]); assert(m0 + seq![m@] == m0.push(m@)); }
                BuType::Unknown
            }
        },
        _ => { proof { assert(false); } BuType::Unknown },
    }
}

fn infer_builtin_expr(sc: &Scope, f: &str, path: &str, span: Span, a: &Atom, errors: &mut Vec<TypeError>) -> (t: BuType)
    requires
        !atom_has_bare(*a),
        a is BuiltinExpr,
    ensures
        t@ == infer_atom_spec(sc@, f@, *a).0,
        type_diags(final(errors)@) == type_diags(old(errors)@) + at_span(path@, span, infer_atom_spec(sc@, f@, *a).1),
    decreases a, 0nat,
{
    proof {
        assert(at_span(path@, span, Seq::<Seq<char>>::empty()) =~= Seq::<DiagV>::empty());
        assert(type_diags(old(errors)@) + Seq::<DiagV>::empty() =~= type_diags(old(errors)@));
    }
    match a {
        Atom::BuiltinExpr { name, args } => {
            if str_is(name.as_str(), "assert") {
                if args.len() != 1 {
                    let mut m = start_msg(f);
                    m.append("builtin::assert expects 1 argument, got ");
                    add_num(&mut m, args.len());
                    m.append(".");
                    push_error(errors, path, span, m);
                    return BuType::Unknown;
                }
                let ct = infer_expr(sc, f, path, span, &args[0], errors);
                let ghost m0 = infer_expr_spec(sc@, f@, args@[0]).1;
                if !ct.is_unknown() && !ct.is_named("bool") {
                    let mut m = start_msg(f);
                    m.append("builtin::assert requires a bool argument, got ");
                    add_ty(&mut m, &ct);
                    m.append(".");
                    push_error(errors, path, span, m);
                    proof { lemma_at_span_add(path@, span, m0, seq![m@]); assert(m0 + seq![m@] == m0.push(m@)); }
                }
                BuType::Named(String::from_str("bool"))
            } else if str_is(name.as_str(), "assert_eq") || str_is(name.as_str(), "assert_ne") {
                if args.len() != 2 {
                    let mut m = start_msg(f);
                    m.append("builtin::");
                    m.append(name.as_str());
                    m.append(" expects 2 arguments, got ");
                    add_num(&mut m, args.len());
                    m.append(".");
                    push_error(errors, path, span, m);
                    return BuType::Unknown;
                }
                BuType::Named(String::from_str("bool"))
            } else {
                let mut m = start_msg(f);
                m.append("'builtin::");
                m.append(name.as_str());
                m.append("' is not available as a pipe expression. Use it as a function body or check `bullang stdlib --list`.");
                push_error(errors, path, span, m);
                BuType::Unknown
            }
        },
        _ => { proof { assert(false); } BuType::Unknown },
    }
}

fn infer_enum_variant(sc: &Scope, f: &str, path: &str, span: Span, a: &Atom, errors: &mut Vec<TypeError>) -> (t: BuType)
    requires
        !atom_has_bare(*a),
        a is EnumVariant,
    ensures
        t@ == infer_atom_spec(sc@, f@, *a).0,
        type_diags(final(errors)@) == type_diags(old(errors)@) + at_span(path@, span, infer_atom_spec(sc@, f@, *a).1),
    decreases a, 0nat,
{
    proof {
        assert(at_span(path@, span, Seq::<Seq<char>>::empty()) =~= Seq::<DiagV>::empty());
        assert(type_diags(old(errors)@) + Seq::<DiagV>::empty() =~= type_diags(old(errors)@));
    }
    match a {
        Atom::EnumVariant { ty, variant } => {
            proof {
                lemma_enums_view(sc.enums.entries(), ty@);
            }
            match sc.enums.find(ty.as_str()) {
                Some(ei) => {
                    let def = sc.enums.at(ei);
                    let ghost names = variant_names(*def);
                    let mut k: usize = 0;
                    let mut found = false;
                    while k < def.variants.len()
                        invariant
                            k <= def.variants@.len(),
                            found == exists|j: int| 0 <= j < k && (#[trigger] def.variants@[j]).name@ == variant@,
                            errors@ == old(errors)@,
                        decreases def.variants@.len() - k,
                    {
                        if def.variants[k].name == *variant {
                            found = true;
                        }
                        k = k + 1;
                    }
                    proof {
                        assert(lookup_key(sc@.enums, ty@) == Some(names));
                        assert(errors@ == old(errors)@);
                        if !found {
                            assert forall|j: int| 0 <= j < names.len() implies names[j] != variant@ by {
                                assert(names[j] == def.variants@[j].name@);
                            }
                        } else {
                            let j = choose|j: int| 0 <= j < def.variants@.len() && (#[trigger] def.variants@[j]).name@ == variant@;
                            assert(names[j] == variant@);
                        }
                    }
                    if found {
                        let r = BuType::Named(ty.clone());
                        proof {
                            assert(has_variant(names, variant@));
                        }
                        r
                    } else {
                        let mut m = start_msg(f);
                        m.append("enum '");
                        m.append(ty.as_str());
                        m.append("' has no variant '");
                        m.append(variant.as_str());
                        m.append("'.");
                        push_error(errors, path, span, m);
                        BuType::Unknown
                    }
                },
                None => {
                    let mut m = start_msg(f);
                    m.append("'");
                    m.append(ty.as_str());
                    m.append("' is not a known enum type.");
                    push_error(errors, path, span, m);
                    BuType::Unknown
                },
            }
        },
        _ => { proof { assert(false); } BuType::Unknown },
    }
}

fn infer_closure(sc: &Scope, f: &str, path: &str, span: Span, a: &Atom, errors: &mut Vec<TypeError>) -> (t: BuType)
    requires
        !atom_has_bare(*a),
        a is Closure,
    ensures
        t@ == infer_atom_spec(sc@, f@, *a).0,
        type_diags(final(errors)@) == type_diags(old(errors)@) + at_span(path@, span, infer_atom_spec(sc@, f@, *a).1),
    decreases a, 0nat,
{
    proof {
        assert(at_span(path@, span, Seq::<Seq<char>>::empty()) =~= Seq::<DiagV>::empty());
        assert(type_diags(old(errors)@) + Seq::<DiagV>::empty() =~= type_diags(old(errors)@));
    }
    match a {
        Atom::Closure { params, ret, .. } => {
            let mut tys: Vec<BuType> = Vec::new();
            let mut k: usize = 0;
            while k < params.len()
                invariant
                    k <= params@.len(),
                    tys@.len() == k,
                    forall|j: int| 0 <= j < k ==> ty_view(#[trigger] tys@[j]) == ty_view(params@[j].ty),
                decreases params@.len() - k,
            {
                tys.push(params[k].ty.copy());
                k = k + 1;
            }
            let sig = BulletSig { params: tys, returns: ret.copy() };
            proof {
                lemma_tys_view(sig.params@);
                assert(tys_view(sig.params@) =~= params@.map_values(|p: Param| ty_view(p.ty)));
            }
            build_fn_type(&sig)
        },
        _ => { proof { assert(false); } BuType::Unknown },
    }
}

/// Follows a chain of field accesses from a local variable.
fn infer_fields(sc: &Scope, f: &str, path: &str, span: Span, base: &String, fields: &Vec<String>, errors: &mut Vec<TypeError>) -> (t: BuType)
    ensures
        t@ == field_walk(sc@, f@, local_ty(sc@, base@), fields@, 0).0,
        type_diags(final(errors)@) == type_diags(old(errors)@) + at_span(
            path@,
            span,
            field_walk(sc@, f@, local_ty(sc@, base@), fields@, 0).1,
        ),
{
    let mut cur = local_type(sc, base.as_str());
    let mut i: usize = 0;
    proof {
        assert(at_span(path@, span, Seq::<Seq<char>>::empty()) =~= Seq::<DiagV>::empty());
        assert(type_diags(old(errors)@) + Seq::<DiagV>::empty() =~= type_diags(old(errors)@));
    }
    while i < fields.len()
        invariant
            i <= fields@.len(),
            errors@ == old(errors)@,
            field_walk(sc@, f@, local_ty(sc@, base@), fields@, 0) == field_walk(sc@, f@, cur@, fields@, i as int),
        decreases fields@.len() - i,
    {
        match &cur {
            BuType::Unknown => return BuType::Unknown,
            BuType::Named(sn) => {
                proof {
                    lemma_structs_view(sc.structs.entries(), sn@);
                }
                match sc.structs.find(sn.as_str()) {
                    Some(si) => {
                        let def = sc.structs.at(si);
                        proof {
                            assert(lookup_key(sc@.structs, sn@) == Some(fields_view(def.fields@)));
                        }
                        match find_field(&def.fields, fields[i].as_str()) {
                            Some(k) => {
                                cur = def.fields[k].ty.copy();
                                proof {
                                    assert(fields_view(def.fields@)[k as int].1 == def.fields@[k as int].ty@);
                                }
                            },
                            None => {
                                let mut m = start_msg(f);
                                m.append("struct '");
                                m.append(sn.as_str());
                                m.append("' has no field '");
                                m.append(fields[i].as_str());
                                m.append("'.");
                                push_error(errors, path, span, m);
                                return BuType::Unknown;
                            },
                        }
                    },
                    None => return BuType::Unknown,
                }
            },
            _ => {
                let mut m = start_msg(f);
                m.append("cannot access field '");
                m.append(fields[i].as_str());
                m.append("' on non-struct type ");
                add_ty(&mut m, &cur);
                m.append(".");
                push_error(errors, path, span, m);
                return BuType::Unknown;
            },
        }
        i = i + 1;
    }
    cur
}

/// Infers the type of an expression, reporting its errors at `span` in `path`.
pub fn infer_expr(sc: &Scope, f: &str, path: &str, span: Span, e: &Expr, errors: &mut Vec<TypeError>) -> (t: BuType)
    requires
        !expr_has_bare(*e),
    ensures
        t@ == infer_expr_spec(sc@, f@, *e).0,
        type_diags(final(errors)@) == type_diags(old(errors)@) + at_span(path@, span, infer_expr_spec(sc@, f@, *e).1),
    decreases e, 1nat,
{
    match e {
        Expr::Atom(a) => infer_atom(sc, f, path, span, a, errors),
        Expr::BinOp(b) => {
            let lt = infer_atom(sc, f, path, span, &b.lhs, errors);
            let rt = infer_atom(sc, f, path, span, &b.rhs, errors);
            let ghost lm = infer_atom_spec(sc@, f@, b.lhs).1;
            let ghost rm = infer_atom_spec(sc@, f@, b.rhs).1;
            proof {
                lemma_at_span_add(path@, span, lm, rm);
                assert(type_diags(old(errors)@) + at_span(path@, span, lm) + at_span(path@, span, rm)
                    =~= type_diags(old(errors)@) + (at_span(path@, span, lm) + at_span(path@, span, rm)));
            }
            let op = b.op.as_str();
            if lt.is_unknown() || rt.is_unknown() {
                return BuType::Unknown;
            }
            if str_is(op, "+") && lt.is_named("String") && rt.is_named("String") {
                return lt;
            }
            if str_is(op, "&&") || str_is(op, "||") {
                if !lt.is_named("bool") || !rt.is_named("bool") {
                    let mut m = start_msg(f);
                    m.append("operator '");
                    m.append(op);
                    m.append("' requires bool on both sides (left: ");
                    add_ty(&mut m, &lt);
                    m.append(", right: ");
                    add_ty(&mut m, &rt);
                    m.append(").");
                    push_error(errors, path, span, m);
                    proof { lemma_at_span_add(path@, span, lm + rm, seq![m@]); assert(lm + rm + seq![m@] == (lm + rm).push(m@)); }
                    return BuType::Unknown;
                }
                return lt;
            }
            if str_is(op, "==") || str_is(op, "!=") || str_is(op, "<") || str_is(op, ">") || str_is(op, "<=") || str_is(op, ">=") {
                return BuType::Named(String::from_str("bool"));
            }
            if !lt.same(&rt) {
                let mut m = start_msg(f);
                m.append("operator '");
                m.append(op);
                m.append("' requires both sides to be the same type (left: ");
                add_ty(&mut m, &lt);
                m.append(", right: ");
                add_ty(&mut m, &rt);
                m.append(").");
                push_error(errors, path, span, m);
                proof { lemma_at_span_add(path@, span, lm + rm, seq![m@]); assert(lm + rm + seq![m@] == (lm + rm).push(m@)); }
                return BuType::Unknown;
            }
            if !lt.is_numeric() {
                let mut m = start_msg(f);
                m.append("operator '");
                m.append(op);
                m.append("' requires a numeric type, got ");
                add_ty(&mut m, &lt);
                m.append(".");
                push_error(errors, path, span, m);
                proof { lemma_at_span_add(path@, span, lm + rm, seq![m@]); assert(lm + rm + seq![m@] == (lm + rm).push(m@)); }
                return BuType::Unknown;
            }
            lt
        },
        Expr::Tuple(es) => {
            let ts = infer_exprs(sc, f, path, span, es, errors);
            BuType::Tuple(ts)
        },
    }
}

pub fn infer_exprs(sc: &Scope, f: &str, path: &str, span: Span, es: &Vec<Expr>, errors: &mut Vec<TypeError>) -> (ts: Vec<BuType>)
    requires
        !exprs_have_bare(es@),
    ensures
        tys_view(ts@) == infer_exprs_spec(sc@, f@, es@).0,
        type_diags(final(errors)@) == type_diags(old(errors)@) + at_span(path@, span, infer_exprs_spec(sc@, f@, es@).1),
    decreases es, 1nat,
{
    let mut ts: Vec<BuType> = Vec::new();
    let mut i: usize = 0;
    proof {
        assert(es@.subrange(0, 0) =~= Seq::<Expr>::empty());
        assert(at_span(path@, span, Seq::<Seq<char>>::empty()) =~= Seq::<DiagV>::empty());
        assert(type_diags(old(errors)@) + Seq::<DiagV>::empty() =~= type_diags(old(errors)@));
        assert(tys_view(ts@) =~= Seq::<TyV>::empty());
        lemma_no_bare_prefix(es@, es@.len() as int);
    }
    while i < es.len()
        invariant
            i <= es@.len(),
            !exprs_have_bare(es@),
            tys_view(ts@) == infer_exprs_spec(sc@, f@, es@.subrange(0, i as int)).0,
            type_diags(errors@) == type_diags(old(errors)@) + at_span(
                path@,
                span,
                infer_exprs_spec(sc@, f@, es@.subrange(0, i as int)).1,
            ),
        decreases es@.len() - i,
    {
        proof {
            lemma_no_bare_prefix(es@, es@.len() as int);
            assert(!expr_has_bare(es@[i as int]));
        }
        let ghost pre = es@.subrange(0, i as int);
        let ghost nxt = es@.subrange(0, i + 1);
        let ghost m0 = infer_exprs_spec(sc@, f@, pre).1;
        let t = infer_expr(sc, f, path, span, &es[i], errors);
        let ghost old_ts = ts@;
        ts.push(t);
        proof {
            assert(nxt.drop_last() =~= pre);
            assert(nxt.last() == es@[i as int]);
            lemma_at_span_add(path@, span, m0, infer_expr_spec(sc@, f@, es@[i as int]).1);
            lemma_tys_view(old_ts);
            lemma_tys_view(ts@);
            assert(tys_view(ts@) =~= tys_view(old_ts).push(ty_view(t)));
            assert(type_diags(old(errors)@) + at_span(path@, span, m0) + at_span(path@, span, infer_expr_spec(sc@, f@, es@[i as int]).1)
                =~= type_diags(old(errors)@) + (at_span(path@, span, m0) + at_span(path@, span, infer_expr_spec(sc@, f@, es@[i as int]).1)));
        }
        i = i + 1;
    }
    proof {
        assert(es@.subrange(0, es@.len() as int) =~= es@);
    }
    ts
}

/// No element of a list has a bare builtin when the list has none.
pub proof fn lemma_no_bare_prefix(es: Seq<Expr>, n: int)
    requires
        !exprs_have_bare(es),
        0 <= n <= es.len(),
    ensures
        forall|j: int| 0 <= j < n ==> !expr_has_bare(#[trigger] es[j]),
    decreases es.len(),
{
    if es.len() > 0 {
        lemma_no_bare_prefix(es.drop_last(), if n == es.len() { n - 1 } else { n });
        assert forall|j: int| 0 <= j < n implies !expr_has_bare(#[trigger] es[j]) by {
            if j < es.len() - 1 {
                assert(es.drop_last()[j] == es[j]);
            }
        }
    }
}

// ── Functions and files ──────────────────────────────────────────────────────

/// The declared output type of a function (`Unit` when it declares none).
pub open spec fn output_ty(func: Bullet) -> TyV {
    match func.output {
        Some(o) => o.ty@,
        None => unit_ty(),
    }
}

/// The names bound by a function's parameters.
pub open spec fn param_entries(ps: Seq<Param>) -> Seq<(Seq<char>, TyV)> {
    ps.map_values(|p: Param| (p.name@, p.ty@))
}

/// A scope in which `name` is bound to `t` as well.
pub open spec fn bind(sc: ScopeV, name: Seq<char>, t: TyV) -> ScopeV {
    ScopeV { local: sc.local.push((name, t)), ..sc }
}

/// What one bullet of a body reports, and the scope after it.
pub open spec fn pipe_step(sc: ScopeV, f: Seq<char>, out: TyV, p: Pipe, last: bool) -> (ScopeV, Seq<Seq<char>>) {
    let m1: Seq<Seq<char>> = if p.propagate && !propagatable(out) { seq![msg_propagate_type(f, out)] } else { Seq::empty() };
    let m2: Seq<Seq<char>> = if p.propagate && last { seq![msg_propagate_last(f)] } else { Seq::empty() };
    let (t, m3) = infer_expr_spec(sc, f, p.expr);
    let m4: Seq<Seq<char>> = if last && !compatible(t, out) { seq![msg_last_output(f, t, out)] } else { Seq::empty() };
    let bt = if p.propagate { unwrap_inner(t) } else { t };
    let next = match p.binding {
        Some(n) => bind(sc, n@, bt),
        None => sc,
    };
    (next, m1 + m2 + m3 + m4)
}

/// What the bullets from the `i`-th on report, each at its own position.
pub open spec fn pipes_diags(sc: ScopeV, f: Seq<char>, path: Seq<char>, out: TyV, ps: Seq<Pipe>, i: int) -> Seq<DiagV>
    decreases ps.len() - i,
{
    if i < 0 || i >= ps.len() {
        Seq::empty()
    } else {
        let (next, m) = pipe_step(sc, f, out, ps[i], i == ps.len() - 1);
        at_span(path, ps[i].span, m) + pipes_diags(next, f, path, out, ps, i + 1)
    }
}

/// Whether a function's bullets have types to infer: it is generic, and so
/// not inferred, or none of its bullets holds a bare builtin.
pub open spec fn checkable(func: Bullet) -> bool {
    func.type_params@.len() > 0 || match func.body {
        BulletBody::Pipes(ps) => forall|k: int| 0 <= k < ps@.len() ==> !expr_has_bare(#[trigger] ps@[k].expr),
        _ => true,
    }
}

/// What checking one function reports. A generic function, and one written
/// natively or as a builtin, is not checked.
pub open spec fn function_diags(
    env: Seq<(Seq<char>, SigV)>,
    structs: Seq<(Seq<char>, Seq<(Seq<char>, TyV)>)>,
    enums: Seq<(Seq<char>, Seq<Seq<char>>)>,
    skirmish: bool,
    path: Seq<char>,
    func: Bullet,
) -> Seq<DiagV> {
    if func.type_params@.len() > 0 {
        Seq::empty()
    } else {
        match func.body {
            BulletBody::Pipes(ps) => pipes_diags(
                ScopeV { local: param_entries(func.params@), env, structs, enums, skirmish },
                func.name@,
                path,
                output_ty(func),
                ps@,
                0,
            ),
            _ => Seq::empty(),
        }
    }
}

/// Checks one bullet of a body and binds its result.
fn check_pipe(
    sc: &mut Scope,
    f: &str,
    path: &str,
    out: &BuType,
    out_prop: bool,
    p: &Pipe,
    last: bool,
    errors: &mut Vec<TypeError>,
)
    requires
        !expr_has_bare(p.expr),
        out_prop == propagatable(out@),
    ensures
        final(sc)@ == pipe_step(old(sc)@, f@, out@, *p, last).0,
        final(sc).env == old(sc).env,
        final(sc).structs == old(sc).structs,
        final(sc).enums == old(sc).enums,
        final(sc).skirmish == old(sc).skirmish,
        type_diags(final(errors)@) == type_diags(old(errors)@) + at_span(path@, p.span, pipe_step(old(sc)@, f@, out@, *p, last).1),
{
    let ghost sc0 = sc@;
    let ghost e0 = type_diags(errors@);
    let ghost step = pipe_step(sc0, f@, out@, *p, last);
    let ghost m = step.1;
    let ghost inf = infer_expr_spec(sc0, f@, p.expr);
    let ghost m1: Seq<Seq<char>> = if p.propagate && !propagatable(out@) { seq![msg_propagate_type(f@, out@)] } else { Seq::empty() };
    let ghost m2: Seq<Seq<char>> = if p.propagate && last { seq![msg_propagate_last(f@)] } else { Seq::empty() };
    let ghost m4: Seq<Seq<char>> = if last && !compatible(inf.0, out@) { seq![msg_last_output(f@, inf.0, out@)] } else { Seq::empty() };
    proof {
        assert(m == m1 + m2 + inf.1 + m4);
        assert(at_span(path@, p.span, Seq::<Seq<char>>::empty()) =~= Seq::<DiagV>::empty());
    }
    if p.propagate && !out_prop {
        let mut msg = start_msg(f);
        msg.append("`?` can only be used when the function returns Option[T] (declared return type is ");
        add_ty(&mut msg, out);
        msg.append(").");
        push_error(errors, path, p.span, msg);
    } else {
        proof { assert(type_diags(errors@) =~= e0 + at_span(path@, p.span, m1)); }
    }
    let ghost e1 = type_diags(errors@);
    proof { assert(e1 == e0 + at_span(path@, p.span, m1)); }
    if p.propagate && last {
        let mut msg = start_msg(f);
        msg.append("`?` cannot appear on the last bullet. Use it on intermediate bullets to propagate None/Err early.");
        push_error(errors, path, p.span, msg);
    } else {
        proof { assert(type_diags(errors@) =~= e1 + at_span(path@, p.span, m2)); }
    }
    let ghost e2 = type_diags(errors@);
    proof { assert(e2 == e1 + at_span(path@, p.span, m2)); }
    let t = infer_expr(sc, f, path, p.span, &p.expr, errors);
    let ghost e3 = type_diags(errors@);
    if last && !types_compatible(&t, out) {
        let mut msg = start_msg(f);
        msg.append("last bullet produces ");
        add_ty(&mut msg, &t);
        msg.append(" but declared output is ");
        add_ty(&mut msg, out);
        msg.append(".");
        push_error(errors, path, p.span, msg);
    } else {
        proof { assert(type_diags(errors@) =~= e3 + at_span(path@, p.span, m4)); }
    }
    proof {
        lemma_at_span_add(path@, p.span, m1, m2);
        lemma_at_span_add(path@, p.span, m1 + m2, inf.1);
        lemma_at_span_add(path@, p.span, m1 + m2 + inf.1, m4);
        assert(type_diags(errors@) =~= e0 + at_span(path@, p.span, m));
    }
    let bt = if p.propagate { unwrap_inner_type(&t) } else { t };
    match &p.binding {
        Some(name) => {
            let ghost before = sc.local.entries();
            sc.local.insert(name.clone(), bt);
            proof {
                assert(view_entries(sc.local.entries()) =~= view_entries(before).push((name@, bt@)));
            }
        },
        None => {},
    }
    proof {
        assert(sc@ == step.0);
    }
}

/// Checks one function's body against its declaration.
pub fn check_function(
    func: &Bullet,
    path: &str,
    env: &NameTable<BulletSig>,
    structs: &NameTable<StructDef>,
    enums: &NameTable<EnumDef>,
    skirmish: bool,
) -> (r: Vec<TypeError>)
    requires
        checkable(*func),
    ensures
        type_diags(r@) == function_diags(
            sigs_view(env.entries()),
            structs_view(structs.entries()),
            enums_view(enums.entries()),
            skirmish,
            path@,
            *func,
        ),
{
    let mut errors: Vec<TypeError> = Vec::new();
    proof {
        assert(type_diags(errors@) =~= Seq::<DiagV>::empty());
    }
    if func.type_params.len() > 0 {
        return errors;
    }
    let ps = match &func.body {
        BulletBody::Pipes(ps) => ps,
        _ => { return errors; },
    };
    let mut local: NameTable<BuType> = NameTable::new();
    let mut j: usize = 0;
    while j < func.params.len()
        invariant
            j <= func.params@.len(),
            view_entries(local.entries()) == param_entries(func.params@.subrange(0, j as int)),
        decreases func.params@.len() - j,
    {
        let ghost before = local.entries();
        local.insert(func.params[j].name.clone(), func.params[j].ty.copy());
        proof {
            assert(view_entries(local.entries()) =~= view_entries(before).push((func.params@[j as int].name@, func.params@[j as int].ty@)));
            assert(param_entries(func.params@.subrange(0, j + 1)) =~= param_entries(func.params@.subrange(0, j as int)).push((func.params@[j as int].name@, func.params@[j as int].ty@)));
        }
        j = j + 1;
    }
    proof {
        assert(func.params@.subrange(0, func.params@.len() as int) =~= func.params@);
    }
    let unit = BuType::Named(String::from_str("Unit"));
    let out: &BuType = match &func.output {
        Some(o) => &o.ty,
        None => &unit,
    };
    let out_prop = is_propagatable_type(out);
    let f = func.name.as_str();
    let mut sc = Scope { local, env, structs, enums, skirmish };
    let ghost target = pipes_diags(sc@, f@, path@, out@, ps@, 0);
    proof {
        assert(out@ == output_ty(*func));
        assert(type_diags(errors@) + target =~= target);
    }
    let n = ps.len();
    let mut i: usize = 0;
    while i < n
        invariant
            n == ps@.len(),
            i <= n,
            out@ == output_ty(*func),
            out_prop == propagatable(out@),
            sc.env == env,
            sc.structs == structs,
            sc.enums == enums,
            sc.skirmish == skirmish,
            forall|k: int| 0 <= k < ps@.len() ==> !expr_has_bare(#[trigger] ps@[k].expr),
            type_diags(errors@) + pipes_diags(sc@, f@, path@, out@, ps@, i as int) == target,
        decreases n - i,
    {
        let p = &ps[i];
        let last = i + 1 == n;
        let ghost sc0 = sc@;
        let ghost e0 = type_diags(errors@);
        proof {
            assert(!expr_has_bare(ps@[i as int].expr));
        }
        check_pipe(&mut sc, f, path, out, out_prop, p, last, &mut errors);
        proof {
            let m = pipe_step(sc0, f@, out@, *p, last).1;
            assert(pipes_diags(sc0, f@, path@, out@, ps@, i as int) == at_span(path@, p.span, m) + pipes_diags(sc@, f@, path@, out@, ps@, i + 1));
            assert(type_diags(errors@) + pipes_diags(sc@, f@, path@, out@, ps@, i + 1)
                =~= e0 + (at_span(path@, p.span, m) + pipes_diags(sc@, f@, path@, out@, ps@, i + 1)));
        }
        i = i + 1;
    }
    proof {
        assert(type_diags(errors@) + Seq::<DiagV>::empty() =~= type_diags(errors@));
    }
    errors
}

/// What checking the functions of a file reports, in order.
pub open spec fn file_diags(
    env: Seq<(Seq<char>, SigV)>,
    structs: Seq<(Seq<char>, Seq<(Seq<char>, TyV)>)>,
    enums: Seq<(Seq<char>, Seq<Seq<char>>)>,
    skirmish: bool,
    path: Seq<char>,
    bs: Seq<Bullet>,
) -> Seq<DiagV>
    decreases bs.len(),
{
    if bs.len() == 0 {
        Seq::empty()
    } else {
        file_diags(env, structs, enums, skirmish, path, bs.drop_last()) + function_diags(
            env,
            structs,
            enums,
            skirmish,
            path,
            bs.last(),
        )
    }
}

/// Whether a signature is the one that a function declares.
pub open spec fn declares(sig: BulletSig, func: Bullet) -> bool {
    &&& tys_view(sig.params@) == func.params@.map_values(|p: Param| p.ty@)
    &&& sig.returns@ == output_ty(func)
}

/// Checks every function of a file (its enum references already resolved)
/// and gives the signatures that the file declares, in order.
pub fn check_source_file(
    sf: &SourceFile,
    path: &str,
    env: &NameTable<BulletSig>,
    structs: &NameTable<StructDef>,
    enums: &NameTable<EnumDef>,
    skirmish: bool,
    errors: &mut Vec<TypeError>,
) -> (r: NameTable<BulletSig>)
    requires
        forall|k: int| 0 <= k < sf.bullets@.len() ==> checkable(#[trigger] sf.bullets@[k]),
    ensures
        type_diags(final(errors)@) == type_diags(old(errors)@) + file_diags(
            sigs_view(env.entries()),
            structs_view(structs.entries()),
            enums_view(enums.entries()),
            skirmish,
            path@,
            sf.bullets@,
        ),
        r.entries().len() == sf.bullets@.len(),
        forall|k: int| 0 <= k < sf.bullets@.len() ==> (#[trigger] r.entries()[k]).0@ == sf.bullets@[k].name@
            && declares(r.entries()[k].1, sf.bullets@[k]),
{
    let mut file_env: NameTable<BulletSig> = NameTable::new();
    let mut i: usize = 0;
    proof {
        assert(sf.bullets@.subrange(0, 0) =~= Seq::<Bullet>::empty());
        assert(type_diags(old(errors)@) + Seq::<DiagV>::empty() =~= type_diags(old(errors)@));
    }
    while i < sf.bullets.len()
        invariant
            i <= sf.bullets@.len(),
            forall|k: int| 0 <= k < sf.bullets@.len() ==> checkable(#[trigger] sf.bullets@[k]),
            type_diags(errors@) == type_diags(old(errors)@) + file_diags(
                sigs_view(env.entries()),
                structs_view(structs.entries()),
                enums_view(enums.entries()),
                skirmish,
                path@,
                sf.bullets@.subrange(0, i as int),
            ),
            file_env.entries().len() == i,
            forall|k: int| 0 <= k < i ==> (#[trigger] file_env.entries()[k]).0@ == sf.bullets@[k].name@
                && declares(file_env.entries()[k].1, sf.bullets@[k]),
        decreases sf.bullets@.len() - i,
    {
        let func = &sf.bullets[i];
        let mut found = check_function(func, path, env, structs, enums, skirmish);
        let ghost e0 = type_diags(errors@);
        let ghost fd = type_diags(found@);
        errors.append(&mut found);
        proof {
            assert(type_diags(errors@) =~= e0 + fd);
            let pre = sf.bullets@.subrange(0, i as int);
            let nxt = sf.bullets@.subrange(0, i + 1);
            assert(nxt.drop_last() =~= pre);
            assert(nxt.last() == *func);
            let done = file_diags(
                sigs_view(env.entries()),
                structs_view(structs.entries()),
                enums_view(enums.entries()),
                skirmish,
                path@,
                pre,
            );
            assert(type_diags(old(errors)@) + done + fd =~= type_diags(old(errors)@) + (done + fd));
        }
        let mut params: Vec<BuType> = Vec::new();
        let mut j: usize = 0;
        while j < func.params.len()
            invariant
                j <= func.params@.len(),
                tys_view(params@) == func.params@.subrange(0, j as int).map_values(|p: Param| p.ty@),
            decreases func.params@.len() - j,
        {
            let ghost before = params@;
            params.push(func.params[j].ty.copy());
            proof {
                lemma_tys_view(before);
                lemma_tys_view(params@);
                assert(tys_view(params@) =~= tys_view(before).push(func.params@[j as int].ty@));
                assert(func.params@.subrange(0, j + 1).map_values(|p: Param| p.ty@)
                    =~= func.params@.subrange(0, j as int).map_values(|p: Param| p.ty@).push(func.params@[j as int].ty@));
            }
            j = j + 1;
        }
        proof {
            assert(func.params@.subrange(0, func.params@.len() as int) =~= func.params@);
        }
        let ret = match &func.output {
            Some(o) => o.ty.copy(),
            None => BuType::Named(String::from_str("Unit")),
        };
        let ghost before = file_env.entries();
        file_env.insert(func.name.clone(), BulletSig { params, returns: ret });
        proof {
            assert forall|k: int| 0 <= k < i + 1 implies (#[trigger] file_env.entries()[k]).0@ == sf.bullets@[k].name@
                && declares(file_env.entries()[k].1, sf.bullets@[k]) by {
                if k < i {
                    assert(file_env.entries()[k] == before[k]);
                }
            }
        }
        i = i + 1;
    }
    proof {
        assert(sf.bullets@.subrange(0, sf.bullets@.len() as int) =~= sf.bullets@);
    }
    file_env
}


/// A comparison of two operands whose types are known has type `bool`, and
/// reports nothing beyond what its operands report.
pub proof fn law_comparison_is_bool(sc: ScopeV, f: Seq<char>, b: BinOp)
    requires
        b.op@ == "=="@ || b.op@ == "!="@ || b.op@ == "<"@ || b.op@ == ">"@ || b.op@ == "<="@ || b.op@ == ">="@,
        !(infer_atom_spec(sc, f, b.lhs).0 is Unknown),
        !(infer_atom_spec(sc, f, b.rhs).0 is Unknown),
    ensures
        infer_expr_spec(sc, f, Expr::BinOp(b)).0 == TyV::Named("bool"@),
        infer_expr_spec(sc, f, Expr::BinOp(b)).1 == infer_atom_spec(sc, f, b.lhs).1 + infer_atom_spec(sc, f, b.rhs).1,
{
    reveal_strlit("==");
    reveal_strlit("!=");
    reveal_strlit("<");
    reveal_strlit(">");
    reveal_strlit("<=");
    reveal_strlit(">=");
    reveal_strlit("+");
    reveal_strlit("&&");
    reveal_strlit("||");
    reveal_strlit("bool");
    let op = b.op@;
    assert("+"@.len() == 1 && "+"@[0] == '+');
    assert("&&"@.len() == 2 && "&&"@[0] == '&');
    assert("||"@.len() == 2 && "||"@[0] == '|');
    assert("=="@.len() == 2 && "=="@[0] == '=');
    assert("!="@.len() == 2 && "!="@[0] == '!');
    assert("<"@.len() == 1 && "<"@[0] == '<');
    assert(">"@.len() == 1 && ">"@[0] == '>');
    assert("<="@.len() == 2 && "<="@[0] == '<');
    assert(">="@.len() == 2 && ">="@[0] == '>');
    assert(op != "+"@);
    assert(op != "&&"@ && op != "||"@);
    assert(bool_ty() == TyV::Named("bool"@));
}


/// Arithmetic on two operands of one numeric type has that type; `&&` and
/// `||` on two `bool`s are `bool`; `+` on two `String`s is `String`. None of
/// these reports anything beyond what its operands report.
pub proof fn law_operator_types(sc: ScopeV, f: Seq<char>, b: BinOp)
    ensures
        ({
            let (lt, lm) = infer_atom_spec(sc, f, b.lhs);
            let (rt, rm) = infer_atom_spec(sc, f, b.rhs);
            let r = infer_expr_spec(sc, f, Expr::BinOp(b));
            &&& (b.op@ == "-"@ || b.op@ == "*"@ || b.op@ == "/"@ || b.op@ == "%"@) && lt == rt && ty_is_numeric(lt)
                ==> r == (lt, lm + rm)
            &&& (b.op@ == "&&"@ || b.op@ == "||"@) && lt == TyV::Named("bool"@) && rt == TyV::Named("bool"@)
                ==> r == (TyV::Named("bool"@), lm + rm)
            &&& b.op@ == "+"@ && lt == TyV::Named("String"@) && rt == TyV::Named("String"@)
                ==> r == (TyV::Named("String"@), lm + rm)
            &&& (lt is Unknown || rt is Unknown) ==> r == (TyV::Unknown, lm + rm)
        }),
{
    reveal_strlit("==");
    reveal_strlit("!=");
    reveal_strlit("<");
    reveal_strlit(">");
    reveal_strlit("<=");
    reveal_strlit(">=");
    reveal_strlit("+");
    reveal_strlit("-");
    reveal_strlit("*");
    reveal_strlit("/");
    reveal_strlit("%");
    reveal_strlit("&&");
    reveal_strlit("||");
    reveal_strlit("bool");
    reveal_strlit("String");
    assert("+"@.len() == 1 && "+"@[0] == '+');
    assert("-"@.len() == 1 && "-"@[0] == '-');
    assert("*"@.len() == 1 && "*"@[0] == '*');
    assert("/"@.len() == 1 && "/"@[0] == '/');
    assert("%"@.len() == 1 && "%"@[0] == '%');
    assert("&&"@.len() == 2 && "&&"@[0] == '&');
    assert("||"@.len() == 2 && "||"@[0] == '|');
    assert("=="@.len() == 2 && "=="@[0] == '=');
    assert("!="@.len() == 2 && "!="@[0] == '!');
    assert("<"@.len() == 1 && "<"@[0] == '<');
    assert(">"@.len() == 1 && ">"@[0] == '>');
    assert("<="@.len() == 2 && "<="@[0] == '<');
    assert(">="@.len() == 2 && ">="@[0] == '>');
    assert(bool_ty() == TyV::Named("bool"@));
    assert(string_ty() == TyV::Named("String"@));
}

} // verus!
