use bullarchy::ast::{Atom, Backend, BuType, Bullet, BulletBody, EnumDef, Expr, Field, NativeBlock, OutputDecl, Param, Pipe, SourceFile, Span, StructDef, Variant};
use bullarchy::codegen_java::{
    emit_atom_java, emit_body_java, emit_enum_java, emit_expr_java, emit_function_java, emit_main_java,
    emit_source_java, emit_struct_java, emit_types_java,
};
use bullarchy::java_types::{box_java_primitive, bu_type_to_java, rust_type_to_java};

fn named(s: &str) -> BuType {
    BuType::Named(s.to_string())
}

fn span() -> Span {
    Span { line: 1, col: 1 }
}

#[test]
fn java_type_names() {
    assert_eq!(rust_type_to_java("u32"), "long");
    assert_eq!(rust_type_to_java("Vec[i32]"), "java.util.ArrayList<Integer>");
    assert_eq!(rust_type_to_java("HashMap[String, f64]"), "java.util.HashMap<String, Double>");
    assert_eq!(rust_type_to_java("Option[bool]"), "Boolean");
    assert_eq!(rust_type_to_java("&str"), "String");
    assert_eq!(rust_type_to_java("MyType"), "MyType");
    assert_eq!(rust_type_to_java("()"), "void");
    assert_eq!(box_java_primitive("char".to_string()), "Character");
}

#[test]
fn java_function_types() {
    assert_eq!(rust_type_to_java("Fn[]"), "java.lang.Runnable");
    assert_eq!(rust_type_to_java("Fn[-> i32]"), "java.util.function.Supplier<Integer>");
    assert_eq!(rust_type_to_java("Fn[i32 ->]"), "java.util.function.Consumer<Integer>");
    assert_eq!(rust_type_to_java("Fn[i32 -> f64]"), "java.util.function.Function<Integer,Double>");
    assert_eq!(rust_type_to_java("Fn[i32, i64 -> bool]"), "java.util.function.BiFunction<Integer,Long,Boolean>");
    assert_eq!(rust_type_to_java("Fn[i32, i32, i32 -> i32]"), "java.util.function.Function<Object,Object> /* multi-arg */");
    assert_eq!(rust_type_to_java("Fn[i32]"), "java.util.function.Supplier<Integer>");
}

#[test]
fn java_type_of_shapes() {
    assert_eq!(bu_type_to_java(&BuType::Tuple(vec![named("i32")])), "Object[]");
    assert_eq!(bu_type_to_java(&BuType::Array(Box::new(named("i16")), 3)), "short[]");
    assert_eq!(bu_type_to_java(&BuType::Unknown), "Object");
}

#[test]
fn java_atoms() {
    assert_eq!(emit_atom_java(&Atom::Float("2".to_string())), "2d");
    assert_eq!(emit_atom_java(&Atom::Float("2.5".to_string())), "2.5");
    assert_eq!(emit_atom_java(&Atom::Interp("x={x}".to_string())), "String.format(\"x=%s\", x)");
    assert_eq!(
        emit_atom_java(&Atom::Slice {
            base: "s".to_string(),
            from: Box::new(Expr::Atom(Atom::Integer(1))),
            to: Box::new(Expr::Atom(Atom::Integer(3))),
        }),
        "s.substring((int)(1), (int)(3))"
    );
    assert_eq!(emit_expr_java(&Expr::Tuple(vec![Expr::Atom(Atom::Integer(1))])), "new Object[]{1}");
    assert_eq!(emit_atom_java(&Atom::EnumVariant { ty: "Color".to_string(), variant: "Red".to_string() }), "Color.Red");
}

#[test]
fn java_methods() {
    let f = Bullet {
        name: "twice".to_string(),
        type_params: vec!["T".to_string()],
        params: vec![Param { name: "x".to_string(), ty: named("i32") }],
        output: Some(OutputDecl { name: "r".to_string(), ty: named("i32") }),
        body: BulletBody::Pipes(vec![Pipe {
            inputs: vec![],
            expr: Expr::Atom(Atom::Ident("x".to_string())),
            binding: None,
            propagate: false,
            span: span(),
        }]),
        span: span(),
    };
    assert_eq!(
        emit_function_java(&f),
        "    public static <T extends Comparable<T>> int twice(int x) {\n        var __v = x;\n        return __v;\n    }\n"
    );
    let file = SourceFile { bullets: vec![f] };
    let src = emit_source_java(&file, "Util");
    assert!(src.starts_with("public class Util {\n\n    public static"));
    assert!(src.ends_with("    }\n\n}\n"));
}

#[test]
fn java_main_and_escape_blocks() {
    let m = Bullet {
        name: "main".to_string(),
        type_params: vec![],
        params: vec![],
        output: None,
        body: BulletBody::Natives(vec![NativeBlock { backend: Backend::Java, code: "  System.out.println(1);".to_string() }]),
        span: span(),
    };
    let file = SourceFile { bullets: vec![m] };
    assert_eq!(
        emit_main_java(&file, "x"),
        "import java.util.*;\nimport java.util.function.*;\n\npublic class Main {\n\n    public static void main(String[] args) {\n        System.out.println(1);\n    }\n\n}\n"
    );
    let mut out = String::new();
    let body = BulletBody::Natives(vec![NativeBlock { backend: Backend::Go, code: "x".to_string() }]);
    emit_body_java(&mut out, &body, &vec![], &None);
    assert_eq!(out, "        // ERROR: '@go' cannot be used in a Java build \u{2014} use '@java'\n");
}

#[test]
fn java_types_class() {
    let s = StructDef { name: "point".to_string(), fields: vec![Field { name: "x".to_string(), ty: named("i32") }] };
    assert_eq!(
        emit_struct_java(&s),
        "    public static class Point {\n        public int x;\n        public Point(int x) {\n            this.x = x;\n        }\n    }\n"
    );
    let e = EnumDef { name: "Dir".to_string(), variants: vec![Variant { name: "Up".to_string() }, Variant { name: "Down".to_string() }] };
    assert_eq!(emit_enum_java(&e), "    public enum Dir {\n        Up, Down\n    }\n");
    assert_eq!(emit_types_java("Types", &vec![], &vec![e]), "public class Types {\n\n    public enum Dir {\n        Up, Down\n    }\n\n}\n");
}
