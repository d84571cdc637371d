use bullarchy::ast::{
    Atom, Backend, BinOp, BuType, Bullet, BulletBody, CallArg, EnumDef, Expr, Field, NativeBlock, OutputDecl, Param,
    Pipe, SourceFile, Span, StructDef, Variant,
};
use bullarchy::codegen_jni::needs_jni_java;
use bullarchy::codegen_python::{
    emit_atom_py, emit_body_py, emit_bare_py, emit_enum_py, emit_expr_py, emit_function_py, emit_init_py,
    emit_main_py, emit_source_py, emit_struct_py,
};
use bullarchy::python_types::{bu_type_to_python, rust_type_to_python};
use bullarchy::stdlib::{helper_definition, required_imports, required_includes};

fn named(s: &str) -> BuType {
    BuType::Named(s.to_string())
}

fn span() -> Span {
    Span { line: 1, col: 1 }
}

fn ident(s: &str) -> Expr {
    Expr::Atom(Atom::Ident(s.to_string()))
}

fn pipe(expr: Expr, binding: Option<&str>, propagate: bool) -> Pipe {
    Pipe { inputs: vec![], expr, binding: binding.map(|b| b.to_string()), propagate, span: span() }
}

fn bullet(name: &str, params: Vec<Param>, output: Option<BuType>, body: BulletBody) -> Bullet {
    Bullet {
        name: name.to_string(),
        type_params: vec![],
        params,
        output: output.map(|t| OutputDecl { name: "r".to_string(), ty: t }),
        body,
        span: span(),
    }
}

#[test]
fn python_type_names() {
    assert_eq!(rust_type_to_python("u8"), "int");
    assert_eq!(rust_type_to_python("f32"), "float");
    assert_eq!(rust_type_to_python("&'static str"), "str");
    assert_eq!(rust_type_to_python("()"), "None");
    assert_eq!(rust_type_to_python("Vec[i32]"), "List[int]");
    assert_eq!(rust_type_to_python("Option[String]"), "Optional[str]");
    assert_eq!(rust_type_to_python("Vec[Option[bool]]"), "List[Optional[bool]]");
    assert_eq!(rust_type_to_python("(i32, String)"), "Tuple[int, str]");
    assert_eq!(rust_type_to_python("HashMap[String, i32]"), "Any  # HashMap[String,i32]");
    assert_eq!(rust_type_to_python("MyType"), "Any  # MyType");
}

#[test]
fn python_function_types() {
    assert_eq!(rust_type_to_python("Fn[]"), "Callable");
    assert_eq!(rust_type_to_python("Fn[i32, bool -> String]"), "Callable[[int, bool], str]");
    assert_eq!(rust_type_to_python("Fn[i32 ->]"), "Callable[[int], None]");
    assert_eq!(rust_type_to_python("Fn[-> ()]"), "Callable[[], None]");
    assert_eq!(rust_type_to_python("Fn[f64]"), "Callable[[], float]");
}

#[test]
fn python_type_of_shapes() {
    assert_eq!(bu_type_to_python(&BuType::Tuple(vec![named("i64"), named("bool")])), "Tuple[int, bool]");
    assert_eq!(bu_type_to_python(&BuType::Array(Box::new(named("f64")), 3)), "List[float]  # [T; 3]");
    assert_eq!(bu_type_to_python(&BuType::Unknown), "Any");
}

#[test]
fn python_atoms_and_expressions() {
    assert_eq!(emit_atom_py(&Atom::Integer(-7)), "-7");
    assert_eq!(emit_atom_py(&Atom::Float("2.5".to_string())), "2.5");
    assert_eq!(emit_atom_py(&Atom::Interp("x={x}".to_string())), "f\"x={x}\"");
    assert_eq!(
        emit_atom_py(&Atom::Call {
            name: "f".to_string(),
            args: vec![CallArg::Value("a".to_string()), CallArg::BulletRef("g".to_string())],
        }),
        "f(a, g)"
    );
    assert_eq!(
        emit_atom_py(&Atom::Unary { op: "!".to_string(), rhs: Box::new(Atom::Ident("ok".to_string())) }),
        "(not ok)"
    );
    assert_eq!(
        emit_atom_py(&Atom::Unary { op: "-".to_string(), rhs: Box::new(Atom::Integer(3)) }),
        "(-3)"
    );
    assert_eq!(
        emit_atom_py(&Atom::Slice {
            base: "s".to_string(),
            from: Box::new(Expr::Atom(Atom::Integer(1))),
            to: Box::new(Expr::Atom(Atom::Integer(3))),
        }),
        "s[1:3]"
    );
    assert_eq!(emit_atom_py(&Atom::EnumVariant { ty: "Color".to_string(), variant: "Red".to_string() }), "Color.Red");
    assert_eq!(
        emit_atom_py(&Atom::Closure {
            params: vec![Param { name: "from".to_string(), ty: named("i32") }],
            ret: named("i32"),
            body: Box::new(ident("from_")),
        }),
        "lambda from_: from_"
    );
    let and = Expr::BinOp(BinOp { lhs: Atom::Ident("a".to_string()), op: "&&".to_string(), rhs: Atom::Ident("b".to_string()) });
    assert_eq!(emit_expr_py(&and), "a and b");
    let or = Expr::BinOp(BinOp { lhs: Atom::Ident("a".to_string()), op: "||".to_string(), rhs: Atom::Ident("b".to_string()) });
    assert_eq!(emit_expr_py(&or), "a or b");
    assert_eq!(emit_expr_py(&Expr::Tuple(vec![ident("a"), ident("b")])), "(a, b)");
}

#[test]
fn python_assertions() {
    let a = Atom::BuiltinExpr { name: "assert".to_string(), args: vec![ident("ok")] };
    assert_eq!(
        emit_atom_py(&a),
        "(lambda __r: __r if __r else [__import__('sys').stderr.write('[assert] failed\\n'), __r][-1])(ok)"
    );
    let eq = Atom::BuiltinExpr { name: "assert_eq".to_string(), args: vec![ident("x"), ident("y")] };
    assert_eq!(
        emit_atom_py(&eq),
        "(lambda __l, __r: __l == __r if __l == __r else [__import__('sys').stderr.write(f'[assert_eq] expected {__r!r}, got {__l!r}\\n'), False][-1])(x, y)"
    );
    let other = Atom::BuiltinExpr { name: "len".to_string(), args: vec![] };
    assert_eq!(emit_atom_py(&other), "None  # builtin::len not supported as expression");
}

#[test]
fn python_bodies() {
    let mut out = String::new();
    emit_body_py(&mut out, &BulletBody::Pipes(vec![]), &vec![]);
    assert_eq!(out, "    pass\n");

    let mut out = String::new();
    let body = BulletBody::Pipes(vec![pipe(ident("x"), Some("y"), true), pipe(ident("y"), None, false)]);
    emit_body_py(&mut out, &body, &vec![]);
    assert_eq!(out, "    y = x\n    if y is None: return None\n    _ = y\n    return _\n");

    let mut out = String::new();
    let natives = BulletBody::Natives(vec![
        NativeBlock { backend: Backend::Rust, code: "x + 1".to_string() },
        NativeBlock { backend: Backend::Python, code: "    a = 1\n\n      return a".to_string() },
    ]);
    emit_body_py(&mut out, &natives, &vec![]);
    assert_eq!(out, "    a = 1\n\n      return a\n");

    let mut out = String::new();
    let foreign = BulletBody::Natives(vec![NativeBlock { backend: Backend::Go, code: "return 1".to_string() }]);
    emit_body_py(&mut out, &foreign, &vec![]);
    assert_eq!(out, "    raise NotImplementedError(\"'@go' block cannot run in Python \u{2014} use '@python' instead\")\n");

    let mut out = String::new();
    let params = vec![Param { name: "s".to_string(), ty: named("String") }];
    emit_body_py(&mut out, &BulletBody::Builtin("to_upper".to_string()), &params);
    assert_eq!(out, "    return s.upper()\n");
}

#[test]
fn python_functions_and_files() {
    let mut f = bullet(
        "twice",
        vec![Param { name: "in".to_string(), ty: named("i32") }],
        Some(named("i32")),
        BulletBody::Pipes(vec![pipe(ident("in_"), Some("r"), false)]),
    );
    f.type_params = vec!["T".to_string()];
    assert_eq!(emit_function_py(&f), "T = TypeVar('T')\ndef twice(in_: int) -> int:\n    r = in_\n    return r\n");

    let g = bullet("one", vec![], Some(named("i64")), BulletBody::Pipes(vec![pipe(Expr::Atom(Atom::Integer(1)), Some("r"), false)]));
    let file = SourceFile { bullets: vec![g] };
    let body = "def one() -> int:\n    r = 1\n    return r\n\n";
    assert_eq!(emit_bare_py(&file), body);
    assert_eq!(
        emit_source_py(&file),
        format!("from __future__ import annotations\nfrom typing import Any, Callable, Optional, List, Tuple, Dict\n\n{}", body)
    );

    let m = bullet("main", vec![], None, BulletBody::Pipes(vec![]));
    let main_file = SourceFile { bullets: vec![m] };
    assert_eq!(
        emit_main_py(&main_file, "demo"),
        "from __future__ import annotations\nfrom . import *\n\ndef main() -> None:\n    pass\n\nif __name__ == \"__main__\":\n    main()\n"
    );
}

#[test]
fn python_inventory_types() {
    let p = StructDef {
        name: "Point".to_string(),
        fields: vec![Field { name: "x".to_string(), ty: named("f64") }, Field { name: "tag".to_string(), ty: named("String") }],
    };
    assert_eq!(emit_struct_py(&p), "@dataclass\nclass Point:\n    x: float\n    tag: str\n");
    let empty = StructDef { name: "Unit".to_string(), fields: vec![] };
    assert_eq!(emit_struct_py(&empty), "@dataclass\nclass Unit:\n    pass\n");
    let c = EnumDef {
        name: "Color".to_string(),
        variants: vec![Variant { name: "Red".to_string() }, Variant { name: "Green".to_string() }],
    };
    assert_eq!(emit_enum_py(&c), "class Color(Enum):\n    Red = 0\n    Green = 1\n");
    let none = EnumDef { name: "Never".to_string(), variants: vec![] };
    assert_eq!(emit_enum_py(&none), "class Never(Enum):\n    pass\n");

    let init = emit_init_py(&vec!["math".to_string()], &vec![empty], &vec![]);
    assert_eq!(
        init,
        "from __future__ import annotations\nfrom typing import Any, Callable, Optional, List, Tuple, Dict\nfrom dataclasses import dataclass\n\n@dataclass\nclass Unit:\n    pass\n\nfrom .math import *\n"
    );
    let plain = emit_init_py(&vec![], &vec![], &vec![]);
    assert_eq!(plain, "from __future__ import annotations\nfrom typing import Any, Callable, Optional, List, Tuple, Dict\n\n");
}

#[test]
fn java_native_library_need() {
    let call = |name: &str, arg: Expr| SourceFile {
        bullets: vec![bullet(
            "f",
            vec![],
            Some(named("i32")),
            BulletBody::Pipes(vec![Pipe {
                inputs: vec![arg],
                expr: Expr::Atom(Atom::BuiltinNoArgs(name.to_string())),
                binding: Some("r".to_string()),
                propagate: false,
                span: span(),
            }]),
        )],
    };
    assert!(needs_jni_java(&call("open", ident("path"))));
    assert!(!needs_jni_java(&call("close", Expr::Atom(Atom::Integer(1)))));
    assert!(needs_jni_java(&call("close", Expr::Atom(Atom::Integer(7)))));
    assert!(needs_jni_java(&call("out", ident("fd"))));
    assert!(!needs_jni_java(&call("to_upper", ident("s"))));
    let whole = SourceFile { bullets: vec![bullet("g", vec![], Some(named("i32")), BulletBody::Builtin("in".to_string()))] };
    assert!(needs_jni_java(&whole));
    let nested = SourceFile {
        bullets: vec![bullet(
            "h",
            vec![],
            Some(named("bool")),
            BulletBody::Pipes(vec![pipe(
                Expr::Atom(Atom::BuiltinExpr {
                    name: "assert".to_string(),
                    args: vec![Expr::Atom(Atom::BuiltinExpr { name: "close".to_string(), args: vec![ident("fd")] })],
                }),
                Some("r"),
                false,
            )]),
        )],
    };
    assert!(needs_jni_java(&nested));
}

#[test]
fn builtin_file_scope_needs() {
    assert_eq!(
        required_imports("in", &Backend::Rust),
        vec!["use std::io::{BufRead, BufReader};", "use std::os::unix::io::FromRawFd;"]
    );
    assert_eq!(required_imports("in", &Backend::Go), Vec::<&str>::new());
    assert_eq!(required_imports("trim", &Backend::Rust), Vec::<&str>::new());
    assert_eq!(required_includes("trim", &Backend::C), vec!["#include <ctype.h>", "#include <string.h>"]);
    assert_eq!(required_includes("to_lower", &Backend::Cpp), vec!["#include <algorithm>", "#include <cctype>", "#include <string>"]);
    assert_eq!(required_includes("out", &Backend::Python), Vec::<&str>::new());
    assert!(helper_definition("trim", &Backend::Cpp).unwrap().starts_with("static std::string trim(std::string str) {\n"));
    assert!(helper_definition("to_upper", &Backend::C).unwrap().contains("toupper((unsigned char)str[i])"));
    assert_eq!(helper_definition("trim", &Backend::Rust), None);
}
