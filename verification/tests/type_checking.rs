use bullarchy::ast::{
    Atom, BuType, Bullet, BulletBody, CallArg, EnumDef, Expr, Field, OutputDecl, Param, Pipe, Rank, SourceFile, Span,
    StructDef, Variant,
};
use bullarchy::type_walk::{tree_is_checkable, typecheck_tree, TcFile, TcFolder, TcInventory};
use bullarchy::typecheck::{atom_is_bare, is_checkable};

fn named(s: &str) -> BuType {
    BuType::Named(s.to_string())
}

fn span(line: usize) -> Span {
    Span { line, col: 2 }
}

/// `name(p: ty) -> r: out` whose one bullet computes `expr`.
fn func(name: &str, p: &str, ty: BuType, out: BuType, expr: Atom, line: usize) -> Bullet {
    Bullet {
        name: name.to_string(),
        type_params: vec![],
        params: vec![Param { name: p.to_string(), ty }],
        output: Some(OutputDecl { name: "r".to_string(), ty: out }),
        body: BulletBody::Pipes(vec![Pipe {
            inputs: vec![],
            expr: Expr::Atom(expr),
            binding: Some("r".to_string()),
            propagate: false,
            span: span(line),
        }]),
        span: span(line),
    }
}

fn pair() -> BuType {
    BuType::Tuple(vec![named("i32"), named("i32")])
}

fn ident(s: &str) -> Atom {
    Atom::Ident(s.to_string())
}

fn call(name: &str, args: &[&str]) -> Atom {
    Atom::Call { name: name.to_string(), args: args.iter().map(|a| CallArg::Value(a.to_string())).collect() }
}

fn field(base: &str, f: &str) -> Atom {
    Atom::FieldAccess { base: base.to_string(), fields: vec![f.to_string()] }
}

fn file(path: &str, bullets: Vec<Bullet>) -> TcFile {
    TcFile { path: path.to_string(), source: Some(SourceFile { bullets }) }
}

fn folder(rank: Rank, structs: Vec<StructDef>, enums: Vec<EnumDef>, files: Vec<TcFile>, subdirs: Vec<TcFolder>) -> TcFolder {
    TcFolder { inventory: Some(TcInventory { rank, structs, enums, files }), subdirs }
}

fn point() -> StructDef {
    StructDef { name: "Point".to_string(), fields: vec![Field { name: "x".to_string(), ty: named("i32") }] }
}

/// A tactic whose file calls into a skirmish below it.
fn project() -> TcFolder {
    let math = file(
        "/p/util/math.bu",
        vec![
            func("double", "x", named("i32"), named("i32"), ident("x"), 1),
            func("peek", "x", pair(), named("i32"), field("x", "y"), 2),
            func("loose", "x", named("i32"), named("i32"), call("nowhere", &["x", "x"]), 3),
        ],
    );
    let util = folder(Rank::Skirmish, vec![], vec![], vec![math], vec![]);
    let ops = file(
        "/p/ops.bu",
        vec![
            func("twice", "a", named("i32"), named("i32"), call("double", &["a", "a"]), 5),
            func("px", "p", named("Point"), named("i32"), field("p", "y"), 6),
            func("ok", "p", named("Point"), named("i32"), field("p", "x"), 7),
        ],
    );
    folder(Rank::Tactic, vec![point()], vec![], vec![ops], vec![util])
}

#[test]
fn tree_errors_come_bottom_up() {
    let errors = typecheck_tree(&project());
    let got: Vec<(String, usize, String)> = errors.iter().map(|e| (e.file.clone(), e.line, e.message.clone())).collect();
    assert_eq!(
        got,
        vec![
            (
                "/p/util/math.bu".to_string(),
                2,
                "Function 'peek': cannot access field 'y' on non-struct type (i32, i32).".to_string()
            ),
            (
                "/p/ops.bu".to_string(),
                5,
                "Function 'twice': 'double' expects 1 argument(s) but received 2.".to_string()
            ),
            ("/p/ops.bu".to_string(), 6, "Function 'px': struct 'Point' has no field 'y'.".to_string()),
        ]
    );
}

#[test]
fn functions_of_the_same_file_are_not_yet_known() {
    let f = file(
        "/p/a.bu",
        vec![
            func("one", "x", named("i32"), named("i32"), ident("x"), 1),
            func("two", "x", named("i32"), named("i32"), call("one", &["x", "x"]), 2),
        ],
    );
    let g = file("/p/b.bu", vec![func("three", "x", named("i32"), named("i32"), call("one", &["x", "x"]), 3)]);
    let root = folder(Rank::Tactic, vec![], vec![], vec![f, g], vec![]);
    let errors = typecheck_tree(&root);
    assert_eq!(errors.len(), 1);
    assert_eq!(errors[0].file, "/p/b.bu");
    assert_eq!(errors[0].message, "Function 'three': 'one' expects 1 argument(s) but received 2.");
}

#[test]
fn war_files_and_unreadable_folders_are_skipped() {
    let bad = file("/w/x.bu", vec![func("f", "x", pair(), named("i32"), field("x", "y"), 1)]);
    let unreadable = TcFolder { inventory: None, subdirs: vec![] };
    let below = folder(
        Rank::Theater,
        vec![],
        vec![],
        vec![file("/w/t/y.bu", vec![func("g", "x", BuType::Tuple(vec![named("bool")]), named("bool"), field("x", "z"), 4)])],
        vec![],
    );
    let root = folder(Rank::War, vec![], vec![], vec![bad], vec![unreadable, below]);
    let errors = typecheck_tree(&root);
    assert_eq!(errors.len(), 1);
    assert_eq!(errors[0].file, "/w/t/y.bu");
    assert_eq!(errors[0].message, "Function 'g': cannot access field 'z' on non-struct type (bool).");
    let missing = TcFolder { inventory: None, subdirs: vec![] };
    assert!(typecheck_tree(&missing).is_empty());
}

#[test]
fn structs_and_enums_from_below_are_known() {
    let shapes = folder(
        Rank::Skirmish,
        vec![point()],
        vec![EnumDef { name: "Dir".to_string(), variants: vec![Variant { name: "Up".to_string() }] }],
        vec![TcFile { path: "/s/shapes/unreadable.bu".to_string(), source: None }],
        vec![],
    );
    let use_them = file(
        "/s/use.bu",
        vec![
            func("gx", "p", named("Point"), named("i32"), field("p", "x"), 1),
            func(
                "up",
                "p",
                named("Point"),
                named("Dir"),
                Atom::EnumVariant { ty: "Dir".to_string(), variant: "Up".to_string() },
                2,
            ),
            func(
                "down",
                "p",
                named("Point"),
                named("Dir"),
                Atom::EnumVariant { ty: "Dir".to_string(), variant: "Down".to_string() },
                3,
            ),
        ],
    );
    let root = folder(Rank::Tactic, vec![], vec![], vec![use_them], vec![shapes]);
    let errors = typecheck_tree(&root);
    assert_eq!(errors.len(), 1);
    assert_eq!(errors[0].file, "/s/use.bu");
    assert_eq!(errors[0].line, 3);
    assert_eq!(errors[0].message, "Function 'down': enum 'Dir' has no variant 'Down'.");
}

#[test]
fn bare_builtins_cannot_be_type_checked() {
    let bare = Atom::BuiltinNoArgs("len".to_string());
    assert!(atom_is_bare(&bare));
    assert!(atom_is_bare(&Atom::Unary { op: "!".to_string(), rhs: Box::new(bare.clone_atom()) }));
    assert!(!atom_is_bare(&ident("x")));
    let f = func("f", "x", named("i32"), named("i32"), bare.clone_atom(), 1);
    assert!(!is_checkable(&f));
    let mut generic = func("g", "x", named("T"), named("T"), bare.clone_atom(), 1);
    generic.type_params = vec!["T".to_string()];
    assert!(is_checkable(&generic));
    let root = folder(Rank::Skirmish, vec![], vec![], vec![file("/b/f.bu", vec![f])], vec![]);
    assert!(!tree_is_checkable(&root));
    assert!(tree_is_checkable(&project()));
}

trait CloneAtom {
    fn clone_atom(&self) -> Atom;
}

impl CloneAtom for Atom {
    fn clone_atom(&self) -> Atom {
        match self {
            Atom::BuiltinNoArgs(n) => Atom::BuiltinNoArgs(n.clone()),
            Atom::Ident(n) => Atom::Ident(n.clone()),
            _ => panic!("not needed here"),
        }
    }
}
