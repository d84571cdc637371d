use bullarchy::ast::{BuType, Bullet, BulletBody, OutputDecl, Param, SourceFile, Span};
use bullarchy::lsp::{
    build_fn_index, file_name, find_root, fmt_type, format_hover, is_indexed_file, make_diag, method_kind,
    path_to_uri, percent_decode, position_valid, publish_plan, uri_to_path, word_at, LspAction, LspEvent,
    MethodKind, Server, METHOD_NOT_FOUND,
};
use bullarchy::typecheck::TypeError;
use bullarchy::validator::{AllErrors, ValidationError};

fn named(s: &str) -> BuType {
    BuType::Named(s.to_string())
}

fn sample_bullet() -> Bullet {
    Bullet {
        name: "add".to_string(),
        type_params: vec![],
        params: vec![
            Param { name: "a".to_string(), ty: named("i32") },
            Param { name: "b".to_string(), ty: BuType::Tuple(vec![named("i32"), named("f64")]) },
        ],
        output: Some(OutputDecl { name: "r".to_string(), ty: named("i64") }),
        body: BulletBody::Builtin("abs".to_string()),
        span: Span { line: 3, col: 5 },
    }
}

#[test]
fn percent_decode_examples() {
    assert_eq!(percent_decode("a%20b"), "a b");
    assert_eq!(percent_decode("%41%42"), "AB");
    assert_eq!(percent_decode("x%zzy"), "xy");
    assert_eq!(percent_decode("%"), "\u{0}");
    assert_eq!(percent_decode("%+5"), "\u{5}");
    assert_eq!(percent_decode("plain/path.bu"), "plain/path.bu");
}

#[test]
fn uri_and_path_round_trip() {
    assert_eq!(uri_to_path("file:///tmp/my%20proj/a.bu"), Some("/tmp/my proj/a.bu".to_string()));
    assert_eq!(uri_to_path("http://example.com/a.bu"), None);
    let uri = path_to_uri("/x/y/main.bu");
    assert_eq!(uri, "file:///x/y/main.bu");
    assert_eq!(uri_to_path(&uri), Some("/x/y/main.bu".to_string()));
}

#[test]
fn root_is_topmost_folder_with_inventory() {
    let dirs = vec!["/a/b/c".to_string(), "/a/b".to_string(), "/a".to_string(), "/".to_string()];
    assert_eq!(find_root(&dirs, &vec![true, false, true, false]), Some("/a".to_string()));
    assert_eq!(find_root(&dirs, &vec![false, false, false, false]), None);
    assert_eq!(find_root(&dirs, &vec![true, false, false, false]), Some("/a/b/c".to_string()));
}

#[test]
fn diagnostic_positions_count_from_zero() {
    let d = make_diag(3, 5, "bad", 1);
    assert_eq!(d.line, 2);
    assert_eq!(d.character, 4);
    assert_eq!(d.end_character, 84);
    assert_eq!(d.severity, 1);
    assert_eq!(d.source, "bullang");
    assert_eq!(d.message, "bad");
    let z = make_diag(0, 0, "x", 2);
    assert_eq!(z.line, 0);
    assert_eq!(z.character, 0);
    assert_eq!(z.end_character, 80);
}

#[test]
fn word_under_cursor() {
    let src = "let foo(x)\nbar_baz qux\n";
    assert_eq!(word_at(src, 1, 2), Some("bar_baz".to_string()));
    assert_eq!(word_at(src, 1, 7), Some("bar_baz".to_string()));
    assert_eq!(word_at(src, 0, 5), Some("foo".to_string()));
    assert_eq!(word_at(src, 0, 3), Some("let".to_string()));
    assert_eq!(word_at("a  b", 0, 2), None);
    assert_eq!(word_at(src, 0, 50), None);
    assert_eq!(word_at(src, 9, 0), None);
    assert!(position_valid(src, 1, 2));
    assert!(position_valid(src, 0, 50));
    // The byte column falls inside the two bytes of 'é'.
    assert!(!position_valid("é", 0, 1));
}

#[test]
fn hover_text_of_a_function() {
    let b = sample_bullet();
    assert_eq!(
        format_hover(&b, "/p/src/math.bu"),
        "```\nlet add(a: i32, b: Tuple[i32, f64]) -> r: i64\n```\n*math.bu*"
    );
    let mut no_out = sample_bullet();
    no_out.output = None;
    no_out.params = vec![];
    assert_eq!(format_hover(&no_out, "m.bu"), "```\nlet add() -> _: \n```\n*m.bu*");
    assert_eq!(fmt_type(&BuType::Array(Box::new(named("u8")), 4)), "[u8; 4]");
    assert_eq!(fmt_type(&BuType::Unknown), "_");
}

#[test]
fn file_names_of_paths() {
    assert_eq!(file_name("/a/b/c.bu"), Some("c.bu".to_string()));
    assert_eq!(file_name("/a/b/"), Some("b".to_string()));
    assert_eq!(file_name("/a/b/."), Some("b".to_string()));
    assert_eq!(file_name("/a/.."), None);
    assert_eq!(file_name("/"), None);
    assert_eq!(file_name("name"), Some("name".to_string()));
}

#[test]
fn indexed_files() {
    assert!(is_indexed_file("math.bu"));
    assert!(!is_indexed_file("inventory.bu"));
    assert!(!is_indexed_file("blueprint.bu"));
    assert!(!is_indexed_file("notes.txt"));
}

#[test]
fn methods_by_name() {
    assert!(matches!(method_kind("initialize"), MethodKind::Initialize));
    assert!(matches!(method_kind("textDocument/hover"), MethodKind::Hover));
    assert!(matches!(method_kind("textDocument/definition"), MethodKind::Definition));
    assert!(matches!(method_kind("workspace/symbol"), MethodKind::Other));
    assert_eq!(METHOD_NOT_FOUND, -32601);
}

#[test]
fn open_hover_and_close() {
    let mut s = Server::new();
    let uri = "file:///p/main.bu".to_string();
    let a = s.handle(LspEvent::DidOpen { uri: uri.clone(), text: "x : add -> y\n".to_string() });
    assert!(matches!(a, LspAction::PushDiagnostics(ref u) if u == &uri));
    assert_eq!(s.document(&uri).map(|t| t.clone()), Some("x : add -> y\n".to_string()));
    let files = vec![("/p/math.bu".to_string(), SourceFile { bullets: vec![sample_bullet()] })];
    s.set_index("/p".to_string(), build_fn_index(files));
    let h = s.handle(LspEvent::Hover { uri: uri.clone(), line: 0, col: 5, root: Some("/p".to_string()) });
    match h {
        LspAction::Hover(Some(t)) => assert!(t.starts_with("```\nlet add(")),
        _ => panic!("expected hover text"),
    }
    let d = s.handle(LspEvent::Definition { uri: uri.clone(), line: 0, col: 5, root: Some("/p".to_string()) });
    match d {
        LspAction::Definition(Some(l)) => {
            assert_eq!(l.uri, "file:///p/math.bu");
            assert_eq!(l.line, 2);
            assert_eq!(l.character, 4);
        },
        _ => panic!("expected a location"),
    }
    let other_root = s.handle(LspEvent::Hover { uri: uri.clone(), line: 0, col: 5, root: Some("/q".to_string()) });
    assert!(matches!(other_root, LspAction::Hover(None)));
    let c = s.handle(LspEvent::DidClose { uri: uri.clone() });
    assert!(matches!(c, LspAction::ClearDiagnostics(_)));
    assert!(s.document(&uri).is_none());
    let h2 = s.handle(LspEvent::Hover { uri: uri.clone(), line: 0, col: 5, root: Some("/p".to_string()) });
    assert!(matches!(h2, LspAction::Hover(None)));
}

#[test]
fn later_text_replaces_earlier() {
    let mut s = Server::new();
    s.handle(LspEvent::DidOpen { uri: "u".to_string(), text: "one".to_string() });
    s.handle(LspEvent::DidChange { uri: "u".to_string(), text: Some("two".to_string()) });
    assert_eq!(s.document("u").map(|t| t.clone()), Some("two".to_string()));
    s.handle(LspEvent::DidChange { uri: "u".to_string(), text: None });
    assert_eq!(s.document("u").map(|t| t.clone()), Some("two".to_string()));
    assert_eq!(s.open_uris(), vec!["u".to_string()]);
}

#[test]
fn unknown_methods() {
    let mut s = Server::new();
    assert!(matches!(s.handle(LspEvent::Unknown { is_request: true }), LspAction::MethodNotFound));
    assert!(matches!(s.handle(LspEvent::Unknown { is_request: false }), LspAction::Nothing));
    assert!(matches!(s.handle(LspEvent::Shutdown), LspAction::Null));
    assert!(matches!(s.handle(LspEvent::Exit), LspAction::Quit));
}

#[test]
fn publishing_diagnostics() {
    let mut all = AllErrors::new();
    all.push_structural(ValidationError {
        file: "/p/a.bu".to_string(),
        line: 2,
        col: 1,
        message: "bad".to_string(),
    });
    let types = vec![TypeError { file: "/p/a.bu".to_string(), line: 9, col: 9, message: "type".to_string() }];
    let none = publish_plan("file:///x.bu", &None, &vec![], &all, &types);
    assert_eq!(none.len(), 1);
    assert_eq!(none[0].uri, "file:///x.bu");
    assert!(none[0].diagnostics.is_empty());
    let open = vec![
        ("file:///p/a.bu".to_string(), Some("/p".to_string())),
        ("file:///q/b.bu".to_string(), Some("/q".to_string())),
    ];
    let plan = publish_plan("file:///p/a.bu", &Some("/p".to_string()), &open, &all, &types);
    assert_eq!(plan.len(), 2);
    assert_eq!(plan[0].uri, "file:///p/a.bu");
    assert_eq!(plan[0].diagnostics.len(), 1);
    assert_eq!(plan[0].diagnostics[0].message, "bad");
    assert_eq!(plan[1].uri, "file:///p/a.bu");
    // Without structural errors the type errors are shown.
    let clean = AllErrors::new();
    let plan2 = publish_plan("file:///p/a.bu", &Some("/p".to_string()), &vec![], &clean, &types);
    assert_eq!(plan2.len(), 1);
    assert_eq!(plan2[0].diagnostics[0].message, "type");
    assert_eq!(plan2[0].diagnostics[0].line, 8);
}
