use bullarchy::ast::{
    Atom, Backend, BinOp, BuType, Bullet, BulletBody, CallArg, EnumDef, Expr, Field, NativeBlock, OutputDecl, Param,
    Pipe, SourceFile, Span, StructDef, Variant,
};
use bullarchy::codegen_go::{
    collect_fn_output_types, collect_tuple_types, emit_atom_go, emit_body_go, emit_enum_go, emit_expr_go,
    emit_function_go, emit_go_mod, emit_main_go, emit_source_go, emit_struct_go, emit_types_go, go_imports,
    go_param_list, sanitize_go_pkg, to_pascal_case,
};

fn named(s: &str) -> BuType {
    BuType::Named(s.to_string())
}

fn ident(s: &str) -> Expr {
    Expr::Atom(Atom::Ident(s.to_string()))
}

fn span() -> Span {
    Span { line: 1, col: 1 }
}

fn pipe(inputs: Vec<Expr>, expr: Expr, binding: Option<&str>) -> Pipe {
    Pipe { inputs, expr, binding: binding.map(|b| b.to_string()), propagate: false, span: span() }
}

fn func(name: &str, params: Vec<Param>, out: Option<&str>, body: BulletBody) -> Bullet {
    Bullet {
        name: name.to_string(),
        type_params: vec![],
        params,
        output: out.map(|t| OutputDecl { name: "r".to_string(), ty: named(t) }),
        body,
        span: span(),
    }
}

#[test]
fn pascal_case_names() {
    assert_eq!(to_pascal_case("hello_world"), "HelloWorld");
    assert_eq!(to_pascal_case("__x_y"), "XY");
    assert_eq!(to_pascal_case("already"), "Already");
}

#[test]
fn package_names() {
    assert_eq!(sanitize_go_pkg("My-Project 2"), "my_project_2");
    assert_eq!(sanitize_go_pkg("My-Pkg2"), "my_pkg2");
    assert_eq!(sanitize_go_pkg("9lives"), "lives");
    assert_eq!(sanitize_go_pkg("___"), "");
}

#[test]
fn atoms_and_expressions() {
    assert_eq!(emit_atom_go(&Atom::Interp("Hello {name}!".to_string())), "fmt.Sprintf(\"Hello %v!\", name)");
    assert_eq!(emit_atom_go(&Atom::Interp("no {vars here}".to_string())), "\"no {vars here}\"");
    assert_eq!(
        emit_atom_go(&Atom::Call { name: "do_it".to_string(), args: vec![CallArg::Value("x".to_string()), CallArg::BulletRef("helper_fn".to_string())] }),
        "DoIt(x, HelperFn)"
    );
    assert_eq!(
        emit_atom_go(&Atom::FieldAccess { base: "p".to_string(), fields: vec!["first_name".to_string()] }),
        "p.FirstName"
    );
    assert_eq!(
        emit_atom_go(&Atom::Index { base: "s".to_string(), idx: Box::new(Expr::Atom(Atom::Integer(2))) }),
        "string([]rune(s)[2])"
    );
    assert_eq!(emit_atom_go(&Atom::EnumVariant { ty: "Color".to_string(), variant: "Red".to_string() }), "Red");
    let t = Expr::Tuple(vec![ident("a"), Expr::Atom(Atom::Integer(1))]);
    assert_eq!(emit_expr_go(&t), "struct{ V0 interface{}; V1 interface{} }{a, 1}");
    let b = Expr::BinOp(BinOp { lhs: Atom::Ident("a".to_string()), op: "+".to_string(), rhs: Atom::Integer(-3) });
    assert_eq!(emit_expr_go(&b), "a + -3");
    let assert_atom = Atom::BuiltinExpr { name: "assert".to_string(), args: vec![ident("ok")] };
    assert!(emit_atom_go(&assert_atom).starts_with("func() bool { __r := (ok);"));
    let other = Atom::BuiltinExpr { name: "frob".to_string(), args: vec![] };
    assert_eq!(emit_atom_go(&other), "false /* builtin::frob not supported as expression */");
}

#[test]
fn parameter_lists() {
    let ps = vec![Param { name: "a".to_string(), ty: named("i32") }, Param { name: "xs".to_string(), ty: named("Vec[u8]") }];
    assert_eq!(go_param_list(&ps), "a int32, xs []uint8");
}

#[test]
fn a_function_with_pipes() {
    let f = func(
        "add_one",
        vec![Param { name: "x".to_string(), ty: named("i64") }],
        Some("i64"),
        BulletBody::Pipes(vec![pipe(
            vec![],
            Expr::BinOp(BinOp { lhs: Atom::Ident("x".to_string()), op: "+".to_string(), rhs: Atom::Integer(1) }),
            Some("y"),
        )]),
    );
    let file = SourceFile { bullets: vec![f] };
    let outs = collect_fn_output_types(&file);
    assert_eq!(
        emit_function_go(&file.bullets[0], &outs),
        "func AddOne(x int64) int64 {\n\ty := x + 1\n\treturn y\n}\n"
    );
}

#[test]
fn builtin_pipes_get_temporaries() {
    let p = pipe(
        vec![ident("a"), Expr::Atom(Atom::Integer(2)), Expr::Atom(Atom::Integer(3))],
        Expr::Atom(Atom::BuiltinNoArgs("frobnicate".to_string())),
        Some("z"),
    );
    let body = BulletBody::Pipes(vec![p]);
    let file = SourceFile { bullets: vec![] };
    let outs = collect_fn_output_types(&file);
    let mut out = String::new();
    emit_body_go(&mut out, &body, &vec![], &None, &outs);
    assert!(out.starts_with("\t__arg_0 := 2\n\t__arg_1 := 3\n\tz := /* ERROR: "));
}

#[test]
fn escape_blocks_are_dedented() {
    let body = BulletBody::Natives(vec![
        NativeBlock { backend: Backend::Rust, code: "x".to_string() },
        NativeBlock { backend: Backend::Go, code: "    a := 1\n\n      b := 2".to_string() },
    ]);
    let file = SourceFile { bullets: vec![] };
    let outs = collect_fn_output_types(&file);
    let mut out = String::new();
    emit_body_go(&mut out, &body, &vec![], &None, &outs);
    assert_eq!(out, "\ta := 1\n\n\t  b := 2\n");
    let only_py = BulletBody::Natives(vec![NativeBlock { backend: Backend::Python, code: "x".to_string() }]);
    let mut out2 = String::new();
    emit_body_go(&mut out2, &only_py, &vec![], &None, &outs);
    assert_eq!(out2, "\t// ERROR: '@python' cannot be used in a Go build \u{2014} use '@go'\n");
}

#[test]
fn imports_and_source_files() {
    let f = func(
        "root",
        vec![Param { name: "x".to_string(), ty: named("f64") }],
        Some("f64"),
        BulletBody::Builtin("sqrt".to_string()),
    );
    let g = func(
        "greet",
        vec![Param { name: "name".to_string(), ty: named("String") }],
        Some("String"),
        BulletBody::Pipes(vec![pipe(vec![], Expr::Atom(Atom::Interp("hi {name}".to_string())), Some("s"))]),
    );
    let file = SourceFile { bullets: vec![f, g] };
    let imps = go_imports(&file);
    assert_eq!(imps, vec!["math".to_string(), "fmt".to_string()]);
    let src = emit_source_go(&file, "My Pkg");
    assert!(src.starts_with("package my_pkg\n\nimport (\n\t\"math\"\n\t\"fmt\"\n)\n\n"));
    assert!(src.contains("func Greet(name string) string {\n\ts := fmt.Sprintf(\"hi %v\", name)\n\treturn s\n}\n"));
}

#[test]
fn main_file_adds_fmt_for_go_blocks() {
    let m = func("main", vec![], None, BulletBody::Natives(vec![NativeBlock { backend: Backend::Go, code: "println(1)".to_string() }]));
    let file = SourceFile { bullets: vec![m] };
    assert_eq!(
        emit_main_go(&file, "x"),
        "package main\n\nimport (\n\t\"fmt\"\n)\n\nfunc main() {\n\tprintln(1)\n}\n\n"
    );
}

#[test]
fn types_file() {
    let s = StructDef {
        name: "point_2d".to_string(),
        fields: vec![Field { name: "x_pos".to_string(), ty: named("f64") }],
    };
    assert_eq!(emit_struct_go(&s), "type Point2d struct {\n\tXPos float64\n}\n");
    let e = EnumDef { name: "Color".to_string(), variants: vec![Variant { name: "Red".to_string() }, Variant { name: "Blue".to_string() }] };
    assert_eq!(emit_enum_go(&e), "type Color int\n\nconst (\n\tRed Color = iota\n\tBlue\n)\n");
    let t = emit_types_go("pkg", &vec![], &vec![], &vec![vec![named("i32"), named("f64")]]);
    assert_eq!(t, "package pkg\n\ntype Tuple_i32_f64 struct {\n\tV0 int32\n\tV1 float64\n}\n\n");
    assert_eq!(emit_go_mod("demo"), "module demo\n\ngo 1.21\n");
}

#[test]
fn tuple_types_once_each() {
    let tup = BuType::Tuple(vec![named("i32"), named("i32")]);
    let f1 = Bullet {
        name: "a".to_string(),
        type_params: vec![],
        params: vec![Param { name: "p".to_string(), ty: BuType::Tuple(vec![named("i32"), named("i32")]) }],
        output: Some(OutputDecl { name: "r".to_string(), ty: tup }),
        body: BulletBody::Builtin("abs".to_string()),
        span: span(),
    };
    let files = vec![("a.bu".to_string(), SourceFile { bullets: vec![f1] })];
    let ts = collect_tuple_types(&files);
    assert_eq!(ts.len(), 1);
    assert_eq!(ts[0].len(), 2);
}
