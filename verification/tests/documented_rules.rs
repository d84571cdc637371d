use bullarchy::add::{clone_args, tag_listing_args};
use bullarchy::ast::{
    Atom, Backend, BuType, Bullet, BulletBody, Expr, Field, InventoryFile, OutputDecl, Param, Pipe, Rank, SourceFile,
    Span, StructDef,
};
use bullarchy::codegen_go::sanitize_go_pkg;
use bullarchy::codegen_jni::needs_jni_java;
use bullarchy::codegen_rs::emit_main;
use bullarchy::convert::{check_next, convert_next, output_clash, Pass};
use bullarchy::go_types::tuple_go_name;
use bullarchy::java_types::bu_type_to_java;
use bullarchy::lsp::{server_info, LspAction, LspEvent, Server};
use bullarchy::report::{error_report, ReportRow};
use bullarchy::rust_types::split_top_level;
use bullarchy::stdlib::{emit_builtin, py_esc};
use bullarchy::project::find_root_from_probe;
use bullarchy::validator::{validate_folder, validate_inventory_structs, validate_tree, FolderSnap, InvRead};

fn named(s: &str) -> BuType {
    BuType::Named(s.to_string())
}

fn span() -> Span {
    Span { line: 1, col: 1 }
}

fn param(n: &str) -> Param {
    Param { name: n.to_string(), ty: BuType::Unknown }
}

fn simple(name: &str, expr: Atom, out: Option<BuType>) -> Bullet {
    Bullet {
        name: name.to_string(),
        type_params: vec![],
        params: vec![Param { name: "x".to_string(), ty: named("i32") }],
        output: out.map(|ty| OutputDecl { name: "r".to_string(), ty }),
        body: BulletBody::Pipes(vec![Pipe {
            inputs: vec![],
            expr: Expr::Atom(expr),
            binding: Some("r".to_string()),
            propagate: false,
            span: span(),
        }]),
        span: span(),
    }
}

#[test]
fn output_must_lie_outside_the_source_tree() {
    assert!(output_clash("/w/proj/_out", "/w/proj"));
    assert!(output_clash("/w", "/w/proj"));
    assert!(output_clash("/w/proj/", "/w//proj"));
    assert!(!output_clash("/w/_proj", "/w/proj"));
    assert!(!output_clash("/w/projects", "/w/proj"));
    assert!(!output_clash("w/proj", "/w/proj"));
}

#[test]
fn passes_run_in_order_and_stop_at_a_failure() {
    assert!(matches!(convert_next(&Pass::Validate, false), Some(Pass::Compatibility)));
    assert!(matches!(convert_next(&Pass::Compatibility, false), Some(Pass::Types)));
    assert!(matches!(convert_next(&Pass::Types, false), Some(Pass::Build)));
    assert!(convert_next(&Pass::Build, false).is_none());
    assert!(convert_next(&Pass::Types, true).is_none());
    assert!(matches!(check_next(&Pass::Validate, false), Some(Pass::Types)));
    assert!(matches!(check_next(&Pass::Types, false), Some(Pass::Format)));
    assert!(check_next(&Pass::Format, false).is_none());
    assert!(check_next(&Pass::Validate, true).is_none());
}

#[test]
fn git_arguments() {
    assert_eq!(
        clone_args("https://x/p.git", "v1.0.0", "/h/.bull/packages/p/v1.0.0"),
        vec!["clone", "--depth", "1", "--branch", "v1.0.0", "https://x/p.git", "/h/.bull/packages/p/v1.0.0"]
    );
    assert_eq!(tag_listing_args("u"), vec!["ls-remote", "--tags", "--sort=-version:refname", "u"]);
}

#[test]
fn server_announcement_and_checked_handling() {
    let info = server_info();
    assert_eq!(info.text_document_sync, 1);
    assert!(info.hover_provider && info.definition_provider);
    assert_eq!(info.name, "bullang-lsp");
    let mut s = Server::new();
    let uri = "file:///p/a.bu".to_string();
    assert!(s.handle_checked(LspEvent::DidOpen { uri: uri.clone(), text: "h\u{e9}llo\n".to_string() }).is_some());
    let bad = s.handle_checked(LspEvent::Hover { uri: uri.clone(), line: 0, col: 2, root: None });
    assert!(bad.is_none());
    let ok = s.handle_checked(LspEvent::Hover { uri: uri.clone(), line: 0, col: 3, root: None });
    assert!(matches!(ok, Some(LspAction::Hover(None))));
}

#[test]
fn python_keywords_are_escaped() {
    assert_eq!(py_esc("def"), "def_");
    assert_eq!(py_esc("lambda"), "lambda_");
    assert_eq!(py_esc("None"), "None_");
    assert_eq!(py_esc("yield"), "yield_");
    assert_eq!(py_esc("x"), "x");
    assert_eq!(py_esc("match"), "match");
}

#[test]
fn type_lists_split_at_top_level_commas() {
    assert_eq!(split_top_level("i32, Vec[(u8, u8)]", ','), vec!["i32", "Vec[(u8, u8)]"]);
    assert_eq!(split_top_level("Fn[i32 -> i32], u8", ','), vec!["Fn[i32 -> i32]", "u8"]);
    assert_eq!(split_top_level("HashMap<K, V>, u8", ','), vec!["HashMap<K, V>", "u8"]);
}

#[test]
fn names_made_for_go_and_types_for_java() {
    assert_eq!(tuple_go_name(&vec![named("i32"), named("f64")]), "Tuple_i32_f64");
    assert_eq!(sanitize_go_pkg("My-Pkg2"), "my_pkg2");
    assert_eq!(sanitize_go_pkg("_9lives-"), "lives_");
    assert_eq!(bu_type_to_java(&named("Tuple[i32, f64]")), "Object[]");
    assert_eq!(bu_type_to_java(&named("u8")), "int");
    assert_eq!(bu_type_to_java(&named("()")), "void");
    assert_eq!(bu_type_to_java(&named("Vec[i32]")), "java.util.ArrayList<Integer>");
    assert_eq!(bu_type_to_java(&named("Option[i64]")), "Long");
}

#[test]
fn struct_fields_may_not_use_structs_of_the_same_inventory() {
    let inv = InventoryFile {
        rank: Rank::Tactic,
        lang: None,
        libs: vec![],
        entries: vec![],
        structs: vec![
            StructDef { name: "A".to_string(), fields: vec![Field { name: "x".to_string(), ty: named("i32") }] },
            StructDef { name: "B".to_string(), fields: vec![Field { name: "a".to_string(), ty: named("A") }] },
            StructDef { name: "C".to_string(), fields: vec![Field { name: "c".to_string(), ty: named("Vec[Child]") }] },
            StructDef { name: "E".to_string(), fields: vec![] },
        ],
        enums: vec![],
    };
    let child = FolderSnap {
        path: "/p/sub".to_string(),
        name: "sub".to_string(),
        inventory: InvRead::Found(InventoryFile {
            rank: Rank::Skirmish,
            lang: None,
            libs: vec![],
            entries: vec![],
            structs: vec![StructDef { name: "Child".to_string(), fields: vec![Field { name: "v".to_string(), ty: named("u8") }] }],
            enums: vec![],
        }),
        files: vec![],
        main: None,
        subdirs: vec![],
    };
    let errors = validate_inventory_structs("/p", &inv, &vec![child]);
    let msgs: Vec<String> = errors.iter().map(|e| e.message.clone()).collect();
    assert_eq!(
        msgs,
        vec![
            "Struct 'B': field 'a' has unknown type 'A'. To use a struct type, define it in a child folder's inventory."
                .to_string(),
            "Struct 'E' has no fields. Add at least one field.".to_string(),
        ]
    );
}

#[test]
fn open_inside_a_closure_needs_the_native_library() {
    let closure = Atom::Closure {
        params: vec![],
        ret: named("i32"),
        body: Box::new(Expr::Atom(Atom::BuiltinExpr {
            name: "open".to_string(),
            args: vec![Expr::Atom(Atom::Ident("p".to_string()))],
        })),
    };
    let file = SourceFile { bullets: vec![simple("f", closure, Some(named("i32")))] };
    assert!(needs_jni_java(&file));
}

#[test]
fn helpers_of_main_are_not_pub() {
    let helper = simple("helper", Atom::Ident("x".to_string()), Some(named("i32")));
    let mut main = simple("main", Atom::Ident("x".to_string()), None);
    main.params = vec![];
    let out = emit_main(&SourceFile { bullets: vec![helper, main] }, "demo");
    assert!(out.starts_with("use demo::*;\n\nfn helper(x: i32) -> i32 {\n"));
    assert!(!out.contains("pub fn"));
    assert!(out.contains("fn main() {\n"));
}

#[test]
fn hoisted_helpers_are_called_by_name() {
    let s = vec![param("s")];
    assert_eq!(emit_builtin("to_upper", &s, &Backend::C), Ok("to_upper(s)".to_string()));
    assert_eq!(emit_builtin("to_upper", &s, &Backend::Cpp), Ok("to_upper(s)".to_string()));
    assert_eq!(emit_builtin("to_lower", &s, &Backend::C), Ok("to_lower(s)".to_string()));
    assert_eq!(emit_builtin("trim", &s, &Backend::Cpp), Ok("trim(s)".to_string()));
    let t = vec![param("x"), param("y"), param("a"), param("b")];
    assert_eq!(emit_builtin("tern", &t, &Backend::Go), Ok("__tern(x, y, a, b)".to_string()));
}

#[test]
fn error_report_groups_and_orders() {
    let row = |f: &str, l: usize, c: usize, m: &str| ReportRow { file: f.to_string(), line: l, col: c, message: m.to_string() };
    let rows = vec![
        row("b.bu", 3, 1, "x"),
        row("a.bu", 0, 0, "whole"),
        row("b.bu", 1, 5, "y"),
        row("b.bu", 1, 5, "z"),
        row("a.bu", 2, 2, "w"),
    ];
    assert_eq!(
        error_report(&rows, "error(s)"),
        "\n  a.bu:\n    whole\n    [2:2] w\n\n  b.bu:\n    [1:5] y\n    [1:5] z\n    [3:1] x\n\n5 error(s) in 2 file(s)\n"
    );
    assert_eq!(error_report(&vec![], "type error(s)"), "\n0 type error(s) in 0 file(s)\n");
}

#[test]
fn probing_from_the_root_finds_it_again() {
    let up = |v: &[&str]| v.iter().map(|s| s.to_string()).collect::<Vec<String>>();
    let root = find_root_from_probe(&up(&["/a/b/c", "/a/b", "/a", "/"]), &vec![true, true, false, false]);
    assert_eq!(root, "/a/b");
    let again = find_root_from_probe(&up(&["/a/b", "/a", "/"]), &vec![true, false, false]);
    assert_eq!(again, root);
}

#[test]
fn subfolder_errors_are_reported_for_the_folder() {
    let sub = FolderSnap {
        path: "/p/sub".to_string(),
        name: "sub".to_string(),
        inventory: InvRead::Missing,
        files: vec![],
        main: None,
        subdirs: vec![],
    };
    let root = FolderSnap {
        path: "/p".to_string(),
        name: "p".to_string(),
        inventory: InvRead::Found(InventoryFile {
            rank: Rank::Tactic,
            lang: None,
            libs: vec![],
            entries: vec![],
            structs: vec![],
            enums: vec![],
        }),
        files: vec![],
        main: None,
        subdirs: vec![sub],
    };
    let whole = validate_tree(&root);
    let below = validate_folder(&root.subdirs[0], None);
    assert_eq!(below.structural.len(), 1);
    assert!(whole.structural.iter().any(|e| e.message == below.structural[0].message && e.file == below.structural[0].file));
}

#[test]
fn builtin_catalogue_refusals() {
    let one = vec![param("s")];
    assert!(emit_builtin("nope", &one, &Backend::Rust).is_err());
    assert!(emit_builtin("to_upper", &vec![], &Backend::Rust).is_err());
    assert!(emit_builtin("to_upper", &one, &Backend::Unknown("zz".to_string())).is_err());
    for b in [Backend::Rust, Backend::Python, Backend::C, Backend::Cpp, Backend::Go, Backend::Java] {
        assert!(emit_builtin("to_upper", &one, &b).is_ok());
    }
}
