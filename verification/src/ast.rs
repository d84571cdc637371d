//! The Bullang syntax tree as the toolchain reads it: ranks, backends, types,
//! expressions, functions ("bullets"), source files and inventories.
use vstd::prelude::*;
use crate::text::{str_is, usize_to_string};

verus! {

// ── Backends ──────────────────────────────────────────────────────────────────

/// A code-generation target, as named by `#lang:` and by `@backend` escape blocks.
pub enum Backend {
    Rust,
    Python,
    C,
    Cpp,
    Go,
    Java,
    Unknown(String),
}

/// The mathematical value of a backend: an unknown backend is its keyword.
pub enum BackendV {
    Rust,
    Python,
    C,
    Cpp,
    Go,
    Java,
    Unknown(Seq<char>),
}

impl View for Backend {
    type V = BackendV;

    open spec fn view(&self) -> BackendV {
        match self {
            Backend::Rust => BackendV::Rust,
            Backend::Python => BackendV::Python,
            Backend::C => BackendV::C,
            Backend::Cpp => BackendV::Cpp,
            Backend::Go => BackendV::Go,
            Backend::Java => BackendV::Java,
            Backend::Unknown(k) => BackendV::Unknown(k@),
        }
    }
}

/// File extension of a backend (`rs`, `py`, `c`, `cpp`, `go`, `java`); an
/// unknown backend answers with its own keyword.
pub open spec fn backend_ext(b: BackendV) -> Seq<char> {
    match b {
        BackendV::Rust => "rs"@,
        BackendV::Python => "py"@,
        BackendV::C => "c"@,
        BackendV::Cpp => "cpp"@,
        BackendV::Go => "go"@,
        BackendV::Java => "java"@,
        BackendV::Unknown(k) => k,
    }
}

/// The keyword written after `@` in an escape block.
pub open spec fn backend_keyword(b: BackendV) -> Seq<char> {
    match b {
        BackendV::Rust => "rust"@,
        BackendV::Python => "python"@,
        BackendV::C => "c"@,
        BackendV::Cpp => "cpp"@,
        BackendV::Go => "go"@,
        BackendV::Java => "java"@,
        BackendV::Unknown(k) => k,
    }
}

/// The backend that a short extension names, if any.
pub open spec fn backend_from_ext(s: Seq<char>) -> Option<BackendV> {
    if s == "rs"@ {
        Some(BackendV::Rust)
    } else if s == "py"@ {
        Some(BackendV::Python)
    } else if s == "c"@ {
        Some(BackendV::C)
    } else if s == "cpp"@ {
        Some(BackendV::Cpp)
    } else if s == "go"@ {
        Some(BackendV::Go)
    } else if s == "java"@ {
        Some(BackendV::Java)
    } else {
        None
    }
}

impl Backend {
    pub fn ext(&self) -> (r: String)
        ensures
            r@ == backend_ext(self@),
    {
        match self {
            Backend::Rust => String::from_str("rs"),
            Backend::Python => String::from_str("py"),
            Backend::C => String::from_str("c"),
            Backend::Cpp => String::from_str("cpp"),
            Backend::Go => String::from_str("go"),
            Backend::Java => String::from_str("java"),
            Backend::Unknown(k) => k.clone(),
        }
    }

    pub fn escape_keyword(&self) -> (r: String)
        ensures
            r@ == backend_keyword(self@),
    {
        match self {
            Backend::Rust => String::from_str("rust"),
            Backend::Python => String::from_str("python"),
            Backend::C => String::from_str("c"),
            Backend::Cpp => String::from_str("cpp"),
            Backend::Go => String::from_str("go"),
            Backend::Java => String::from_str("java"),
            Backend::Unknown(k) => k.clone(),
        }
    }

    pub fn from_ext(s: &str) -> (r: Option<Backend>)
        ensures
            r matches Some(b) ==> backend_from_ext(s@) == Some(b@),
            r is None ==> backend_from_ext(s@) is None,
    {
        let s = String::from_str(s);
        if s == String::from_str("rs") {
            Some(Backend::Rust)
        } else if s == String::from_str("py") {
            Some(Backend::Python)
        } else if s == String::from_str("c") {
            Some(Backend::C)
        } else if s == String::from_str("cpp") {
            Some(Backend::Cpp)
        } else if s == String::from_str("go") {
            Some(Backend::Go)
        } else if s == String::from_str("java") {
            Some(Backend::Java)
        } else {
            None
        }
    }

    pub fn copy(&self) -> (r: Backend)
        ensures
            r@ == self@,
    {
        match self {
            Backend::Rust => Backend::Rust,
            Backend::Python => Backend::Python,
            Backend::C => Backend::C,
            Backend::Cpp => Backend::Cpp,
            Backend::Go => Backend::Go,
            Backend::Java => Backend::Java,
            Backend::Unknown(k) => Backend::Unknown(k.clone()),
        }
    }

    pub fn same(&self, other: &Backend) -> (r: bool)
        ensures
            r == (self@ == other@),
    {
        match self {
            Backend::Rust => match other { Backend::Rust => true, _ => false },
            Backend::Python => match other { Backend::Python => true, _ => false },
            Backend::C => match other { Backend::C => true, _ => false },
            Backend::Cpp => match other { Backend::Cpp => true, _ => false },
            Backend::Go => match other { Backend::Go => true, _ => false },
            Backend::Java => match other { Backend::Java => true, _ => false },
            Backend::Unknown(a) => match other {
                Backend::Unknown(b) => *a == *b,
                _ => false,
            },
        }
    }

    pub fn is_unknown(&self) -> (r: bool)
        ensures
            r == (self@ is Unknown),
    {
        match self {
            Backend::Unknown(_) => true,
            _ => false,
        }
    }
}

// ── Ranks ─────────────────────────────────────────────────────────────────────

/// The place of a folder in the hierarchy, from `war` down to `skirmish`.
#[derive(PartialEq, Eq, Structural, Clone, Copy)]
pub enum Rank {
    War,
    Theater,
    Battle,
    Strategy,
    Tactic,
    Skirmish,
}

pub open spec fn rank_name(r: Rank) -> Seq<char> {
    match r {
        Rank::War => "war"@,
        Rank::Theater => "theater"@,
        Rank::Battle => "battle"@,
        Rank::Strategy => "strategy"@,
        Rank::Tactic => "tactic"@,
        Rank::Skirmish => "skirmish"@,
    }
}

/// The rank one level below, if any.
pub open spec fn rank_child(r: Rank) -> Option<Rank> {
    match r {
        Rank::War => Some(Rank::Theater),
        Rank::Theater => Some(Rank::Battle),
        Rank::Battle => Some(Rank::Strategy),
        Rank::Strategy => Some(Rank::Tactic),
        Rank::Tactic => Some(Rank::Skirmish),
        Rank::Skirmish => None,
    }
}

impl Rank {
    pub fn name(&self) -> (r: String)
        ensures
            r@ == rank_name(*self),
    {
        match self {
            Rank::War => String::from_str("war"),
            Rank::Theater => String::from_str("theater"),
            Rank::Battle => String::from_str("battle"),
            Rank::Strategy => String::from_str("strategy"),
            Rank::Tactic => String::from_str("tactic"),
            Rank::Skirmish => String::from_str("skirmish"),
        }
    }

    pub fn child_rank(&self) -> (r: Option<Rank>)
        ensures
            r == rank_child(*self),
    {
        match self {
            Rank::War => Some(Rank::Theater),
            Rank::Theater => Some(Rank::Battle),
            Rank::Battle => Some(Rank::Strategy),
            Rank::Strategy => Some(Rank::Tactic),
            Rank::Tactic => Some(Rank::Skirmish),
            Rank::Skirmish => None,
        }
    }

    /// Every rank above skirmish holds sub-folders.
    pub fn has_sub_folders(&self) -> (r: bool)
        ensures
            r == (*self != Rank::Skirmish),
    {
        match self {
            Rank::Skirmish => false,
            _ => true,
        }
    }

    /// Every rank below war holds source files of its own.
    pub fn has_own_files(&self) -> (r: bool)
        ensures
            r == (*self != Rank::War),
    {
        match self {
            Rank::War => false,
            _ => true,
        }
    }
}

// ── Types ─────────────────────────────────────────────────────────────────────

#[derive(PartialEq, Eq, Structural, Clone, Copy)]
pub struct Span {
    pub line: usize,
    pub col: usize,
}

/// A type as written in Bullang source.
pub enum BuType {
    Named(String),
    Tuple(Vec<BuType>),
    Array(Box<BuType>, usize),
    Unknown,
}

/// The mathematical value of a type.
pub enum TyV {
    Named(Seq<char>),
    Tuple(Seq<TyV>),
    Array(Box<TyV>, nat),
    Unknown,
}

pub open spec fn ty_view(t: BuType) -> TyV
    decreases t,
{
    match t {
        BuType::Named(s) => TyV::Named(s@),
        BuType::Tuple(ts) => TyV::Tuple(tys_view(ts@)),
        BuType::Array(b, n) => TyV::Array(Box::new(ty_view(*b)), n as nat),
        BuType::Unknown => TyV::Unknown,
    }
}

pub open spec fn tys_view(s: Seq<BuType>) -> Seq<TyV>
    decreases s,
{
    if s.len() == 0 {
        Seq::empty()
    } else {
        seq![ty_view(s[0])] + tys_view(s.drop_first())
    }
}

impl View for BuType {
    type V = TyV;

    open spec fn view(&self) -> TyV {
        ty_view(*self)
    }
}

pub open spec fn ty_text(t: TyV) -> Seq<char>
    decreases t,
{
    match t {
        TyV::Named(s) => s,
        TyV::Tuple(ts) => "("@ + tys_text(ts) + ")"@,
        TyV::Array(b, n) => "["@ + ty_text(*b) + "; "@ + nat_decimal(n) + "]"@,
        TyV::Unknown => "_"@,
    }
}

/// The texts of a list of types, separated by `", "`.
pub open spec fn tys_text(s: Seq<TyV>) -> Seq<char>
    decreases s,
{
    if s.len() == 0 {
        Seq::empty()
    } else if s.len() == 1 {
        ty_text(s[0])
    } else {
        ty_text(s[0]) + ", "@ + tys_text(s.drop_first())
    }
}

pub open spec fn digit_char(d: nat) -> char {
    if d == 0 { '0' } else if d == 1 { '1' } else if d == 2 { '2' } else if d == 3 { '3' }
    else if d == 4 { '4' } else if d == 5 { '5' } else if d == 6 { '6' } else if d == 7 { '7' }
    else if d == 8 { '8' } else { '9' }
}

/// Decimal digits of a natural number, most significant first, no leading zeros.
pub open spec fn nat_decimal(n: nat) -> Seq<char>
    decreases n,
{
    if n < 10 {
        seq![digit_char(n)]
    } else {
        nat_decimal(n / 10) + seq![digit_char(n % 10)]
    }
}

/// Decimal text of an integer, with a leading `-` when negative.
pub open spec fn int_decimal(i: int) -> Seq<char> {
    if i < 0 { seq!['-'] + nat_decimal((-i) as nat) } else { nat_decimal(i as nat) }
}

pub open spec fn is_numeric_name(s: Seq<char>) -> bool {
    s == "i8"@ || s == "i16"@ || s == "i32"@ || s == "i64"@ || s == "i128"@ || s == "isize"@
        || s == "u8"@ || s == "u16"@ || s == "u32"@ || s == "u64"@ || s == "u128"@
        || s == "usize"@ || s == "f32"@ || s == "f64"@
}

/// A type is numeric when it names one of the integer or float primitives.
pub open spec fn ty_is_numeric(t: TyV) -> bool {
    match t {
        TyV::Named(s) => is_numeric_name(s),
        _ => false,
    }
}

pub open spec fn named(s: Seq<char>) -> TyV {
    TyV::Named(s)
}

pub proof fn lemma_tys_view(s: Seq<BuType>)
    ensures
        tys_view(s).len() == s.len(),
        forall|i: int| 0 <= i < s.len() ==> #[trigger] tys_view(s)[i] == ty_view(s[i]),
    decreases s.len(),
{
    if s.len() > 0 {
        lemma_tys_view(s.drop_first());
        assert forall|i: int| 0 <= i < s.len() implies #[trigger] tys_view(s)[i] == ty_view(s[i]) by {
            if i > 0 {
                assert(s.drop_first()[i - 1] == s[i]);
            }
        }
    }
}

/// Two lists of types have the same value when they agree element by element.
pub proof fn lemma_tys_view_eq(a: Seq<BuType>, b: Seq<BuType>)
    ensures
        (tys_view(a) == tys_view(b)) <==> (a.len() == b.len() && forall|i: int|
            0 <= i < a.len() ==> ty_view(#[trigger] a[i]) == ty_view(b[i])),
{
    lemma_tys_view(a);
    lemma_tys_view(b);
    if a.len() == b.len() && forall|i: int| 0 <= i < a.len() ==> ty_view(#[trigger] a[i]) == ty_view(b[i]) {
        assert(tys_view(a) =~= tys_view(b));
    }
    if tys_view(a) == tys_view(b) {
        assert forall|i: int| 0 <= i < a.len() implies ty_view(#[trigger] a[i]) == ty_view(b[i]) by {
            assert(tys_view(a)[i] == tys_view(b)[i]);
        }
    }
}

impl BuType {
    /// A copy with the same value.
    pub fn copy(&self) -> (r: BuType)
        ensures
            r@ == self@,
        decreases self,
    {
        match self {
            BuType::Named(s) => BuType::Named(s.clone()),
            BuType::Tuple(ts) => BuType::Tuple(copy_types(ts)),
            BuType::Array(b, n) => BuType::Array(Box::new((**b).copy()), *n),
            BuType::Unknown => BuType::Unknown,
        }
    }

    /// Whether two types have the same value.
    pub fn same(&self, other: &BuType) -> (r: bool)
        ensures
            r == (self@ == other@),
        decreases self,
    {
        match self {
            BuType::Named(a) => match other {
                BuType::Named(b) => *a == *b,
                _ => false,
            },
            BuType::Tuple(xs) => match other {
                BuType::Tuple(ys) => same_types(xs, ys),
                _ => false,
            },
            BuType::Array(a, n) => match other {
                BuType::Array(b, m) => *n == *m && (**a).same(&**b),
                _ => false,
            },
            BuType::Unknown => match other {
                BuType::Unknown => true,
                _ => false,
            },
        }
    }

    pub fn is_unknown(&self) -> (r: bool)
        ensures
            r == (self@ is Unknown),
    {
        match self {
            BuType::Unknown => true,
            _ => false,
        }
    }

    /// Whether this is the named type `name`.
    pub fn is_named(&self, name: &str) -> (r: bool)
        ensures
            r == (self@ == TyV::Named(name@)),
    {
        match self {
            BuType::Named(s) => *s == String::from_str(name),
            _ => false,
        }
    }

    /// Whether the type names one of the integer or float primitives.
    pub fn is_numeric(&self) -> (r: bool)
        ensures
            r == ty_is_numeric(self@),
    {
        match self {
            BuType::Named(s) => {
                let s = s.as_str();
                str_is(s, "i8") || str_is(s, "i16") || str_is(s, "i32") || str_is(s, "i64")
                    || str_is(s, "i128") || str_is(s, "isize") || str_is(s, "u8") || str_is(s, "u16")
                    || str_is(s, "u32") || str_is(s, "u64") || str_is(s, "u128")
                    || str_is(s, "usize") || str_is(s, "f32") || str_is(s, "f64")
            },
            _ => false,
        }
    }

    /// The type as text: a name as written, a tuple as `(A, B)`, an array as
    /// `[T; n]`, an unknown type as `_`.
    pub fn to_rust(&self) -> (r: String)
        ensures
            r@ == ty_text(self@),
        decreases self,
    {
        match self {
            BuType::Named(s) => s.clone(),
            BuType::Tuple(ts) => {
                let mut out = String::from_str("(");
                let inner = types_text(ts);
                out.append(inner.as_str());
                out.append(")");
                out
            },
            BuType::Array(b, n) => {
                let mut out = String::from_str("[");
                let inner = (**b).to_rust();
                out.append(inner.as_str());
                out.append("; ");
                let ns = usize_to_string(*n);
                out.append(ns.as_str());
                out.append("]");
                out
            },
            BuType::Unknown => String::from_str("_"),
        }
    }
}

pub fn copy_types(ts: &Vec<BuType>) -> (r: Vec<BuType>)
    ensures
        tys_view(r@) == tys_view(ts@),
    decreases ts,
{
    let mut v: Vec<BuType> = Vec::new();
    let mut i: usize = 0;
    while i < ts.len()
        invariant
            i <= ts@.len(),
            v@.len() == i,
            forall|j: int| 0 <= j < i ==> ty_view(#[trigger] v@[j]) == ty_view(ts@[j]),
        decreases ts@.len() - i,
    {
        v.push(ts[i].copy());
        i = i + 1;
    }
    proof {
        lemma_tys_view_eq(v@, ts@);
    }
    v
}

/// Whether two lists of types have the same value.
pub fn same_types(xs: &Vec<BuType>, ys: &Vec<BuType>) -> (r: bool)
    ensures
        r == (tys_view(xs@) == tys_view(ys@)),
    decreases xs,
{
    proof {
        lemma_tys_view_eq(xs@, ys@);
    }
    if xs.len() != ys.len() {
        return false;
    }
    let mut i: usize = 0;
    while i < xs.len()
        invariant
            xs@.len() == ys@.len(),
            i <= xs@.len(),
            forall|j: int| 0 <= j < i ==> ty_view(#[trigger] xs@[j]) == ty_view(ys@[j]),
        decreases xs@.len() - i,
    {
        if !xs[i].same(&ys[i]) {
            proof {
                lemma_tys_view_eq(xs@, ys@);
            }
            return false;
        }
        i = i + 1;
    }
    proof {
        lemma_tys_view_eq(xs@, ys@);
    }
    true
}

/// The texts of a list of types joined by `", "`.
pub fn types_text(ts: &Vec<BuType>) -> (r: String)
    ensures
        r@ == tys_text(tys_view(ts@)),
    decreases ts,
{
    let mut out = String::new();
    let n = ts.len();
    let mut i: usize = n;
    proof {
        lemma_tys_view(ts@);
    }
    // Built back to front: tys_text peels the first element off.
    let mut parts: Vec<String> = Vec::new();
    let mut k: usize = 0;
    while k < n
        invariant
            n == ts@.len(),
            k <= n,
            parts@.len() == k,
            forall|j: int| 0 <= j < k ==> (#[trigger] parts@[j])@ == ty_text(ty_view(ts@[j])),
        decreases n - k,
    {
        parts.push(ts[k].to_rust());
        k = k + 1;
    }
    while i > 0
        invariant
            n == ts@.len(),
            parts@.len() == n,
            i <= n,
            forall|j: int| 0 <= j < n ==> (#[trigger] parts@[j])@ == ty_text(ty_view(ts@[j])),
            tys_view(ts@).len() == n,
            forall|j: int| 0 <= j < n ==> #[trigger] tys_view(ts@)[j] == ty_view(ts@[j]),
            out@ == tys_text(tys_view(ts@).subrange(i as int, n as int)),
        decreases i,
    {
        let ghost tail = tys_view(ts@).subrange(i as int, n as int);
        let ghost whole = tys_view(ts@).subrange(i - 1, n as int);
        proof {
            assert(whole.drop_first() =~= tail);
            assert(whole[0] == ty_view(ts@[i - 1]));
        }
        let mut s = parts[i - 1].clone();
        if i < n {
            s.append(", ");
        }
        s.append(out.as_str());
        out = s;
        i = i - 1;
    }
    proof {
        assert(tys_view(ts@).subrange(0, n as int) =~= tys_view(ts@));
    }
    out
}

// ── Expressions and functions ────────────────────────────────────────────────

pub struct Param {
    pub name: String,
    pub ty: BuType,
}

pub enum CallArg {
    /// A variable passed by name.
    Value(String),
    /// `&name`: a function passed as a value.
    BulletRef(String),
}

/// The smallest expressions. A float literal is held as the text that it
/// prints as.
#[allow(inconsistent_fields)]
pub enum Atom {
    Integer(i64),
    Float(String),
    StringLit(String),
    Interp(String),
    Ident(String),
    Call { name: String, args: Vec<CallArg> },
    Unary { op: String, rhs: Box<Atom> },
    FieldAccess { base: String, fields: Vec<String> },
    BuiltinNoArgs(String),
    BuiltinExpr { name: String, args: Vec<Expr> },
    EnumVariant { ty: String, variant: String },
    Index { base: String, idx: Box<Expr> },
    Slice { base: String, from: Box<Expr>, to: Box<Expr> },
    Closure { params: Vec<Param>, ret: BuType, body: Box<Expr> },
}

pub struct BinOp {
    pub lhs: Atom,
    pub op: String,
    pub rhs: Atom,
}

pub enum Expr {
    Atom(Atom),
    BinOp(BinOp),
    Tuple(Vec<Expr>),
}

/// One bullet of a function body: `(inputs) : expr -> {binding}`, with `?`
/// when `propagate` is set.
pub struct Pipe {
    pub inputs: Vec<Expr>,
    pub expr: Expr,
    pub binding: Option<String>,
    pub propagate: bool,
    pub span: Span,
}

pub struct OutputDecl {
    pub name: String,
    pub ty: BuType,
}

/// An escape block: code written directly in a target language.
pub struct NativeBlock {
    pub backend: Backend,
    pub code: String,
}

pub enum BulletBody {
    Pipes(Vec<Pipe>),
    Natives(Vec<NativeBlock>),
    Builtin(String),
}

/// A function declaration.
pub struct Bullet {
    pub name: String,
    pub type_params: Vec<String>,
    pub params: Vec<Param>,
    pub output: Option<OutputDecl>,
    pub body: BulletBody,
    pub span: Span,
}

pub struct SourceFile {
    pub bullets: Vec<Bullet>,
}

// ── Inventories ───────────────────────────────────────────────────────────────

pub struct Field {
    pub name: String,
    pub ty: BuType,
}

pub struct StructDef {
    pub name: String,
    pub fields: Vec<Field>,
}

pub struct Variant {
    pub name: String,
}

pub struct EnumDef {
    pub name: String,
    pub variants: Vec<Variant>,
}

/// One line of an inventory: a source file stem and the functions it lists.
pub struct InvEntry {
    pub file: String,
    pub functions: Vec<String>,
}

pub struct InventoryFile {
    pub rank: Rank,
    pub lang: Option<Backend>,
    pub libs: Vec<String>,
    pub entries: Vec<InvEntry>,
    pub structs: Vec<StructDef>,
    pub enums: Vec<EnumDef>,
}

/// A parsed `.bu` file: a source file or an inventory.
pub enum BuFile {
    Source(SourceFile),
    Inventory(InventoryFile),
}

/// A syntax error reported by the parser.
pub struct ParseError {
    pub file: String,
    pub line: usize,
    pub col: usize,
    pub message: String,
}

/// The parameter types and return type of a declared function.
pub struct BulletSig {
    pub params: Vec<BuType>,
    pub returns: BuType,
}

} // verus!
