pub mod ast;
pub mod table;
pub mod text;
pub mod typecheck;
pub mod report;
pub mod type_walk;
pub mod validator;
pub mod stdlib;
pub mod add;
pub mod project;
pub mod routes;
pub mod templates;
pub mod go_types;
pub mod rust_types;
pub mod codegen_rs;
pub mod lsp;
pub mod tools;
pub mod codegen_go;
pub mod convert;
pub mod java_types;
pub mod codegen_java;
pub mod cli;
pub mod python_types;
pub mod codegen_python;
pub mod codegen_jni;
pub mod builder;
pub mod planner;
pub mod cpp_types;
pub mod codegen_cpp;
