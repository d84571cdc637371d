use bullarchy::ast::{
    Atom, Backend, BuType, Bullet, BulletBody, Expr, NativeBlock, OutputDecl, Param, Pipe, SourceFile, Span,
};
use bullarchy::codegen_go::go_file_can_emit;
use bullarchy::codegen_java::java_file_can_emit;
use bullarchy::codegen_python::py_file_can_emit;
use bullarchy::codegen_rs::file_can_emit;
use bullarchy::python_types::{named_py_ok, type_py_ok};

fn named(s: &str) -> BuType {
    BuType::Named(s.to_string())
}

fn with_body(body: BulletBody, output: bool) -> Bullet {
    Bullet {
        name: "f".to_string(),
        type_params: vec![],
        params: vec![Param { name: "x".to_string(), ty: named("i32") }],
        output: if output { Some(OutputDecl { name: "r".to_string(), ty: named("i32") }) } else { None },
        body,
        span: Span { line: 1, col: 1 },
    }
}

fn pipe(expr: Atom) -> BulletBody {
    BulletBody::Pipes(vec![Pipe {
        inputs: vec![],
        expr: Expr::Atom(expr),
        binding: Some("r".to_string()),
        propagate: false,
        span: Span { line: 1, col: 1 },
    }])
}

fn native(backend: Backend, code: &str) -> BulletBody {
    BulletBody::Natives(vec![NativeBlock { backend, code: code.to_string() }])
}

#[test]
fn rust_files_with_bare_builtins_in_expressions() {
    let ok = SourceFile { bullets: vec![with_body(pipe(Atom::Ident("x".to_string())), true)] };
    assert!(file_can_emit(&ok));
    let top = SourceFile { bullets: vec![with_body(pipe(Atom::BuiltinNoArgs("len".to_string())), true)] };
    assert!(file_can_emit(&top));
    let nested = SourceFile {
        bullets: vec![with_body(
            pipe(Atom::Unary { op: "-".to_string(), rhs: Box::new(Atom::BuiltinNoArgs("len".to_string())) }),
            true,
        )],
    };
    assert!(!file_can_emit(&nested));
}

#[test]
fn escape_blocks_that_cannot_be_dedented() {
    let fine = vec![with_body(native(Backend::Go, "  a := 1\n  return a"), true)];
    assert!(go_file_can_emit(&fine));
    // The common indentation is one byte; the first line starts with a
    // three-byte space, which that byte cuts.
    let cut = vec![with_body(native(Backend::Go, "\u{3000}x\n y"), true)];
    assert!(!go_file_can_emit(&cut));
    let other = vec![with_body(native(Backend::Python, "\u{3000}x\n y"), true)];
    assert!(go_file_can_emit(&other));
    assert!(!py_file_can_emit(&other));
    let java = vec![with_body(native(Backend::Java, "\u{3000}x\n y"), true)];
    assert!(!java_file_can_emit(&java));
}

#[test]
fn python_needs_outputs_and_type_hints() {
    let no_output = vec![with_body(pipe(Atom::Ident("x".to_string())), false)];
    assert!(!py_file_can_emit(&no_output));
    assert!(!java_file_can_emit(&no_output));
    let ok = vec![with_body(pipe(Atom::Ident("x".to_string())), true)];
    assert!(py_file_can_emit(&ok));
    assert!(java_file_can_emit(&ok));
    assert!(named_py_ok("Vec[(i32, i64)]"));
    assert!(named_py_ok("Fn[i32, bool -> String]"));
    assert!(!named_py_ok("Vec[(i32, \u{e9}]"));
    assert!(!type_py_ok(&BuType::Tuple(vec![named("i32"), named("(u8, \u{e9}")])));
    assert!(type_py_ok(&BuType::Array(Box::new(named("Option[i32]")), 3)));
}
