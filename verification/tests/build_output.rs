use bullarchy::ast::{
    Atom, Backend, BuFile, BuType, Bullet, BulletBody, EnumDef, Expr, Field, InvEntry, InventoryFile, NativeBlock,
    OutputDecl, Param, Pipe, Rank, SourceFile, Span, StructDef, Variant,
};
use bullarchy::builder::{
    collect_all_enums, collect_all_libs, collect_all_structs, collect_tree_tuples, tree_has_main,
    validate_backend_compatibility,
};
use bullarchy::codegen_go::{emit_main_go, emit_source_go};
use bullarchy::codegen_python::{emit_main_py, emit_source_py};
use bullarchy::codegen_rs::{emit_main, emit_source};
use bullarchy::planner::{build, build_can_emit, structs_can_emit_py, BuildPlan};
use bullarchy::validator::{FolderSnap, InvRead, ParsedFile, SourceSnap};

const NOT_FOUND: &str = "No such file or directory (os error 2)";

fn span() -> Span {
    Span { line: 3, col: 1 }
}

fn func(name: &str, ty: impl Fn() -> BuType) -> Bullet {
    Bullet {
        name: name.to_string(),
        type_params: vec![],
        params: vec![Param { name: "x".to_string(), ty: ty() }],
        output: Some(OutputDecl { name: "r".to_string(), ty: ty() }),
        body: BulletBody::Pipes(vec![Pipe {
            inputs: vec![],
            expr: Expr::Atom(Atom::Ident("x".to_string())),
            binding: Some("r".to_string()),
            propagate: false,
            span: span(),
        }]),
        span: span(),
    }
}

fn main_func() -> Bullet {
    Bullet {
        name: "main".to_string(),
        type_params: vec![],
        params: vec![],
        output: None,
        body: BulletBody::Pipes(vec![]),
        span: span(),
    }
}

fn source(path: &str, stem: &str, sf: SourceFile) -> SourceSnap {
    SourceSnap {
        path: path.to_string(),
        stem: stem.to_string(),
        read: Ok(ParsedFile { file: BuFile::Source(SourceFile { bullets: vec![] }), errors: vec![] }),
        strict: Some(sf),
        strict_error: None,
    }
}

fn inventory(rank: Rank, files: &[&str]) -> InventoryFile {
    InventoryFile {
        rank,
        lang: None,
        libs: vec![],
        entries: files.iter().map(|f| InvEntry { file: f.to_string(), functions: vec![] }).collect(),
        structs: vec![],
        enums: vec![],
    }
}

fn math_file() -> SourceFile {
    SourceFile { bullets: vec![func("double", || BuType::Named("i64".to_string()))] }
}

fn helpers_file() -> SourceFile {
    SourceFile { bullets: vec![func("same", || BuType::Tuple(vec![BuType::Named("i32".to_string()), BuType::Named("bool".to_string())]))] }
}

fn main_file() -> SourceFile {
    SourceFile { bullets: vec![main_func()] }
}

/// A tactic folder with `math.bu` and `main.bu`, and a skirmish folder
/// `util` below it with `helpers.bu`.
fn project() -> FolderSnap {
    let util = FolderSnap {
        path: "/proj/util".to_string(),
        name: "util".to_string(),
        inventory: InvRead::Found(inventory(Rank::Skirmish, &["helpers"])),
        files: vec![source("/proj/util/helpers.bu", "helpers", helpers_file())],
        main: None,
        subdirs: vec![],
    };
    FolderSnap {
        path: "/proj".to_string(),
        name: "proj".to_string(),
        inventory: InvRead::Found(inventory(Rank::Tactic, &["math"])),
        files: vec![source("/proj/math.bu", "math", math_file())],
        main: Some(source("/proj/main.bu", "main", main_file())),
        subdirs: vec![util],
    }
}

fn paths(plan: &BuildPlan) -> Vec<String> {
    plan.files.iter().map(|f| f.path.clone()).collect()
}

fn content<'a>(plan: &'a BuildPlan, path: &str) -> &'a str {
    plan.files.iter().find(|f| f.path == path).map(|f| f.content.as_str()).unwrap()
}

#[test]
fn rust_build_layout() {
    let root = project();
    let plan = build(&root, "/out", "demo", &Backend::Rust, &vec![], &vec![], &vec![], None, NOT_FOUND);
    assert_eq!(plan.dirs, vec!["/out/src".to_string(), "/out/src/util".to_string()]);
    assert_eq!(
        paths(&plan),
        vec!["/out/src/util/helpers.rs", "/out/src/util/mod.rs", "/out/src/math.rs", "/out/src/main.rs", "/out/src/lib.rs", "/out/Cargo.toml"]
    );
    assert!(plan.errors.is_empty());
    assert_eq!(content(&plan, "/out/src/util/mod.rs"), "pub mod helpers;\n\npub use helpers::*;\n");
    assert_eq!(content(&plan, "/out/src/math.rs"), emit_source(&math_file()));
    assert_eq!(content(&plan, "/out/src/main.rs"), emit_main(&main_file(), "demo"));
    assert_eq!(
        content(&plan, "/out/src/lib.rs"),
        "#![allow(unused_imports)]\n\npub mod util;\npub mod math;\n\npub use util::*;\npub use math::*;\n"
    );
    assert!(content(&plan, "/out/Cargo.toml").contains("[[bin]]\nname = \"demo\"\npath = \"src/main.rs\""));
}

#[test]
fn python_build_layout() {
    let root = project();
    let plan = build(&root, "/out", "demo", &Backend::Python, &vec![], &vec![], &vec![], Some("# plan".to_string()), NOT_FOUND);
    assert_eq!(plan.dirs, vec!["/out/demo".to_string(), "/out/demo/util".to_string()]);
    assert_eq!(
        paths(&plan),
        vec![
            "/out/demo/util/helpers.py",
            "/out/demo/util/__init__.py",
            "/out/demo/math.py",
            "/out/demo/__main__.py",
            "/out/demo/__init__.py",
            "/out/demo/blueprint.md",
        ]
    );
    assert_eq!(content(&plan, "/out/demo/math.py"), emit_source_py(&math_file()));
    assert_eq!(content(&plan, "/out/demo/__main__.py"), emit_main_py(&main_file(), "demo"));
    assert!(content(&plan, "/out/demo/__init__.py").ends_with("\nfrom .util import *\nfrom .math import *\n"));
    assert_eq!(content(&plan, "/out/demo/blueprint.md"), "# plan");
}

#[test]
fn go_build_is_flat() {
    let root = project();
    let tuples = collect_tree_tuples(&root);
    assert_eq!(tuples.len(), 1);
    let plan = build(&root, "/out", "demo", &Backend::Go, &vec![], &vec![], &tuples, None, NOT_FOUND);
    assert_eq!(plan.dirs, vec!["/out".to_string()]);
    assert_eq!(
        paths(&plan),
        vec!["/out/helpers.go", "/out/math.go", "/out/main.go", "/out/go.mod", "/out/types.go"]
    );
    assert_eq!(content(&plan, "/out/math.go"), emit_source_go(&math_file(), "main"));
    assert_eq!(content(&plan, "/out/main.go"), emit_main_go(&main_file(), "demo"));
    assert_eq!(content(&plan, "/out/go.mod"), "module demo\n\ngo 1.21\n");
    assert!(content(&plan, "/out/types.go").starts_with("package main\n\n"));
}

#[test]
fn build_reports_unreadable_files() {
    let mut root = project();
    if let InvRead::Found(inv) = &mut root.inventory {
        inv.entries.push(InvEntry { file: "missing".to_string(), functions: vec![] });
        inv.entries.push(InvEntry { file: "broken".to_string(), functions: vec![] });
        inv.entries.push(InvEntry { file: "locked".to_string(), functions: vec![] });
    }
    root.files.push(SourceSnap {
        path: "/proj/broken.bu".to_string(),
        stem: "broken".to_string(),
        read: Ok(ParsedFile { file: BuFile::Source(SourceFile { bullets: vec![] }), errors: vec![] }),
        strict: None,
        strict_error: Some("expected '->'".to_string()),
    });
    root.files.push(SourceSnap {
        path: "/proj/locked.bu".to_string(),
        stem: "locked".to_string(),
        read: Err("Permission denied (os error 13)".to_string()),
        strict: None,
        strict_error: None,
    });
    let plan = build(&root, "/out", "demo", &Backend::Rust, &vec![], &vec![], &vec![], None, NOT_FOUND);
    let msgs: Vec<(String, String)> = plan.errors.iter().map(|e| (e.file.clone(), e.message.clone())).collect();
    assert_eq!(
        msgs,
        vec![
            ("/proj/missing.bu".to_string(), "Could not read: No such file or directory (os error 2)".to_string()),
            ("/proj/broken.bu".to_string(), "Parse error: expected '->'".to_string()),
            ("/proj/locked.bu".to_string(), "Could not read: Permission denied (os error 13)".to_string()),
        ]
    );
    assert!(plan.errors.iter().all(|e| e.line == 0 && e.col == 0));
    assert!(!paths(&plan).iter().any(|p| p.contains("missing") || p.contains("broken") || p.contains("locked")));
}

#[test]
fn unknown_backend_writes_only_the_source_dir() {
    let root = project();
    let plan = build(&root, "/out", "demo", &Backend::Unknown("zig".to_string()), &vec![], &vec![], &vec![], None, NOT_FOUND);
    assert_eq!(plan.dirs, vec!["/out/src".to_string(), "/out/src/util".to_string()]);
    assert!(plan.files.is_empty());
}

#[test]
fn tree_collections() {
    let mut root = project();
    assert!(tree_has_main(&root));
    root.main = None;
    assert!(!tree_has_main(&root));

    let point = StructDef { name: "Point".to_string(), fields: vec![Field { name: "x".to_string(), ty: BuType::Named("f64".to_string()) }] };
    let other_point = StructDef { name: "Point".to_string(), fields: vec![] };
    let color = EnumDef { name: "Color".to_string(), variants: vec![Variant { name: "Red".to_string() }] };
    if let InvRead::Found(inv) = &mut root.inventory {
        inv.libs = vec!["m".to_string(), "z".to_string(), "m".to_string()];
        inv.structs = vec![point];
        inv.enums = vec![color.clone_shallow()];
    }
    if let InvRead::Found(inv) = &mut root.subdirs[0].inventory {
        inv.libs = vec!["z".to_string(), "ssl".to_string()];
        inv.structs = vec![other_point];
        inv.enums = vec![EnumDef { name: "Shape".to_string(), variants: vec![] }];
    }
    assert_eq!(collect_all_libs(&root), vec!["m".to_string(), "z".to_string(), "ssl".to_string()]);
    let structs = collect_all_structs(&root);
    assert_eq!(structs.len(), 1);
    assert_eq!(structs[0].fields.len(), 1);
    let enums = collect_all_enums(&root);
    assert_eq!(enums.iter().map(|e| e.name.clone()).collect::<Vec<_>>(), vec!["Color".to_string(), "Shape".to_string()]);

    root.inventory = InvRead::Missing;
    assert!(collect_all_structs(&root).is_empty());
    assert_eq!(collect_all_libs(&root), vec!["z".to_string(), "ssl".to_string()]);
}

trait ShallowClone {
    fn clone_shallow(&self) -> Self;
}

impl ShallowClone for EnumDef {
    fn clone_shallow(&self) -> Self {
        EnumDef { name: self.name.clone(), variants: self.variants.iter().map(|v| Variant { name: v.name.clone() }).collect() }
    }
}

#[test]
fn backend_compatibility() {
    let mut root = project();
    let natives = Bullet {
        name: "fast".to_string(),
        type_params: vec![],
        params: vec![],
        output: Some(OutputDecl { name: "r".to_string(), ty: BuType::Named("i32".to_string()) }),
        body: BulletBody::Natives(vec![
            NativeBlock { backend: Backend::Rust, code: "1".to_string() },
            NativeBlock { backend: Backend::Python, code: "return 1".to_string() },
        ]),
        span: Span { line: 7, col: 2 },
    };
    root.subdirs[0].files[0].strict = Some(SourceFile { bullets: vec![natives] });
    let errs = validate_backend_compatibility(&root, &Backend::Go);
    assert_eq!(errs.len(), 1);
    assert_eq!(errs[0].file, "/proj/util/helpers.bu");
    assert_eq!((errs[0].line, errs[0].col), (7, 2));
    assert_eq!(
        errs[0].message,
        "Function 'fast': no '@go' escape block provided. Available blocks: @rust, @python. Add a '@go' block for this backend."
    );
    assert!(validate_backend_compatibility(&root, &Backend::Python).is_empty());

    root.subdirs[0].files[0].strict = Some(SourceFile {
        bullets: vec![Bullet {
            name: "c_only".to_string(),
            type_params: vec![],
            params: vec![],
            output: None,
            body: BulletBody::Natives(vec![NativeBlock { backend: Backend::C, code: "return 1;".to_string() }]),
            span: span(),
        }],
    });
    assert!(validate_backend_compatibility(&root, &Backend::Cpp).is_empty());
    assert_eq!(validate_backend_compatibility(&root, &Backend::Rust).len(), 1);
}

#[test]
fn builds_that_cannot_be_written() {
    assert!(build_can_emit(&project(), &Backend::Rust));
    assert!(build_can_emit(&project(), &Backend::Python));
    assert!(build_can_emit(&project(), &Backend::Go));
    let mut p = project();
    let mut bad = func("bad", || BuType::Named("i32".to_string()));
    bad.body = BulletBody::Pipes(vec![Pipe {
        inputs: vec![],
        expr: Expr::Atom(Atom::Unary { op: "!".to_string(), rhs: Box::new(Atom::BuiltinNoArgs("len".to_string())) }),
        binding: None,
        propagate: false,
        span: span(),
    }]);
    p.subdirs[0].files[0].strict = Some(SourceFile { bullets: vec![bad] });
    assert!(!build_can_emit(&p, &Backend::Rust));
    assert!(!build_can_emit(&p, &Backend::Go));
    let odd = StructDef {
        name: "Odd".to_string(),
        fields: vec![Field { name: "f".to_string(), ty: BuType::Named("(i32, \u{e9}".to_string()) }],
    };
    let fine = StructDef {
        name: "Fine".to_string(),
        fields: vec![Field { name: "f".to_string(), ty: BuType::Named("(i32, i64)".to_string()) }],
    };
    assert!(structs_can_emit_py(&vec![fine]));
    assert!(!structs_can_emit_py(&vec![odd]));
}
