use bullarchy::ast::{
    Backend, BuType, Bullet, BulletBody, EnumDef, Field, NativeBlock, OutputDecl, Param, SourceFile, Span, StructDef,
    Variant,
};
use bullarchy::codegen_cpp::{cpp_param_list, emit_enum_cpp, emit_header_cpp, emit_makefile_cpp, emit_struct_cpp};
use bullarchy::cpp_types::{bu_type_to_cpp, rust_type_to_cpp};

fn named(s: &str) -> BuType {
    BuType::Named(s.to_string())
}

#[test]
fn cpp_type_names() {
    assert_eq!(rust_type_to_cpp("i128"), "__int128");
    assert_eq!(rust_type_to_cpp("u128"), "unsigned __int128");
    assert_eq!(rust_type_to_cpp("usize"), "size_t");
    assert_eq!(rust_type_to_cpp("&str"), "std::string_view");
    assert_eq!(rust_type_to_cpp("()"), "void");
    assert_eq!(rust_type_to_cpp("Vec[String]"), "std::vector<std::string>");
    assert_eq!(rust_type_to_cpp("HashMap[String, i64]"), "std::unordered_map<std::string, int64_t>");
    assert_eq!(rust_type_to_cpp("HashMap[String]"), "HashMap[String] /* ? */");
    assert_eq!(rust_type_to_cpp("Option[f64]"), "std::optional<double>");
    assert_eq!(rust_type_to_cpp("&mut Vec[u8]"), "std::vector<uint8_t>&");
    assert_eq!(rust_type_to_cpp("&Point"), "const Point /* ? */&");
    assert_eq!(rust_type_to_cpp("(i32, bool)"), "std::tuple<int32_t, bool>");
    assert_eq!(rust_type_to_cpp("Point"), "Point /* ? */");
}

#[test]
fn cpp_function_types() {
    assert_eq!(rust_type_to_cpp("Fn[]"), "std::function<void()>");
    assert_eq!(rust_type_to_cpp("Fn[i32, i32 -> bool]"), "std::function<bool(int32_t, int32_t)>");
    assert_eq!(rust_type_to_cpp("Fn[i32 ->]"), "std::function<void(int32_t)>");
    assert_eq!(rust_type_to_cpp("Fn[u8]"), "std::function<uint8_t()>");
}

#[test]
fn cpp_type_of_shapes() {
    assert_eq!(bu_type_to_cpp(&BuType::Tuple(vec![named("i8"), named("String")])), "std::tuple<int8_t, std::string>");
    assert_eq!(bu_type_to_cpp(&BuType::Array(Box::new(named("f32")), 4)), "std::array<float, 4>");
    assert_eq!(bu_type_to_cpp(&BuType::Unknown), "auto");
}

#[test]
fn cpp_inventory_types() {
    let p = StructDef {
        name: "Point".to_string(),
        fields: vec![Field { name: "x".to_string(), ty: named("i32") }, Field { name: "label".to_string(), ty: named("String") }],
    };
    assert_eq!(emit_struct_cpp(&p), "struct Point {\n    int32_t x;\n    std::string label;\n};\n");
    let e = EnumDef { name: "Dir".to_string(), variants: vec![Variant { name: "Up".to_string() }, Variant { name: "Down".to_string() }] };
    assert_eq!(emit_enum_cpp(&e), "enum class Dir {\n    Up,\n    Down,\n};\n");
    assert_eq!(
        cpp_param_list(&vec![Param { name: "a".to_string(), ty: named("i64") }, Param { name: "b".to_string(), ty: named("bool") }]),
        "int64_t a, bool b"
    );
    assert_eq!(cpp_param_list(&vec![]), "");
}

#[test]
fn cpp_header() {
    let f = Bullet {
        name: "add".to_string(),
        type_params: vec![],
        params: vec![Param { name: "a".to_string(), ty: named("i32") }, Param { name: "b".to_string(), ty: named("i32") }],
        output: Some(OutputDecl { name: "r".to_string(), ty: named("i32") }),
        body: BulletBody::Pipes(vec![]),
        span: Span { line: 1, col: 1 },
    };
    let files = vec![("math".to_string(), SourceFile { bullets: vec![f] })];
    let natives = vec![
        NativeBlock { backend: Backend::Cpp, code: "\n  class Cache {};\n".to_string() },
        NativeBlock { backend: Backend::Go, code: "type X int".to_string() },
    ];
    let e = EnumDef { name: "Dir".to_string(), variants: vec![Variant { name: "Up".to_string() }] };
    let h = emit_header_cpp("my-lib", &files, "my_lib", &vec!["zlib.h".to_string()], &vec![], &vec![e], &natives);
    let expected = "#pragma once\n#ifndef MY_LIB_HPP\n#define MY_LIB_HPP\n\n\
#include <cstdint>\n#include <cstddef>\n#include <string>\n#include <vector>\n#include <unordered_map>\n#include <optional>\n#include <functional>\n#include <algorithm>\n#include <numeric>\n#include <cmath>\n#include <cctype>\n\
#include <zlib.h>\n\n\
namespace my_lib {\n\n\
enum class Dir {\n    Up,\n};\n\n\
// @cpp native block\nclass Cache {};\n\n\
// WARNING: @go native block skipped in C++ header\n\n\
// math\nint32_t add(int32_t a, int32_t b);\n\n\
} // namespace my_lib\n\n#endif // MY_LIB_HPP\n";
    assert_eq!(h, expected);
}

#[test]
fn cpp_makefiles() {
    let program = emit_makefile_cpp("demo", &vec!["math.cpp".to_string(), "main.cpp".to_string()], true);
    assert!(program.contains("TARGET   = demo\n\nOBJECTS  = math.o main.o\n\n"));
    assert!(program.contains("all: $(TARGET)\n\n$(TARGET): $(OBJECTS)\n\t$(CXX) $(CXXFLAGS) -o $@ $^\n\n"));
    let library = emit_makefile_cpp("demo", &vec!["a.cpp.cpp".to_string()], false);
    assert!(library.contains("OBJECTS  = a.o.o\n\n"));
    assert!(library.contains("all: libdemo.a\n\nlibdemo.a: $(OBJECTS)\n\tar rcs $@ $^\n\n"));
    assert!(library.ends_with("clean:\n\trm -f $(OBJECTS) $(TARGET) libdemo.a\n\n.PHONY: all clean\n"));
}
