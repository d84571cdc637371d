use bullarchy::add::{is_semver, package_name_from_url};
use bullarchy::ast::{Atom, Backend, BuType, Rank};
use bullarchy::codegen_rs::{emit_atom, has_interp_var, join_strings};
use bullarchy::go_types::{bu_type_to_go, rust_type_to_go};
use bullarchy::project::{extension, rank_chain, rank_for_depth};
use bullarchy::rust_types::bu_type_to_rust;
use bullarchy::stdlib::is_known_builtin;
use bullarchy::typecheck::types_compatible;
use bullarchy::validator::join_path;

fn named(s: &str) -> BuType {
    BuType::Named(s.to_string())
}

#[test]
fn semver_tags() {
    assert!(is_semver("v1.2.3"));
    assert!(is_semver("10"));
    assert!(is_semver("v1.2"));
    assert!(!is_semver("v1.2.3.4"));
    assert!(!is_semver("v1.2.x"));
    assert!(!is_semver("v1..2"));
    assert!(!is_semver("1.x"));
    assert!(!is_semver("v"));
}

#[test]
fn package_names_from_urls() {
    assert_eq!(package_name_from_url("https://github.com/org/MathLib.git"), "MathLib");
    assert_eq!(package_name_from_url("https://github.com/org/net/"), "net");
}

#[test]
fn depth_chain() {
    assert!(matches!(rank_for_depth(2), Some(Rank::Tactic)));
    assert!(rank_for_depth(7).is_none());
    let c = rank_chain(3);
    assert_eq!(c.len(), 3);
    assert!(matches!(c[0], Rank::Strategy));
    assert!(matches!(c[2], Rank::Skirmish));
    assert_eq!(rank_chain(9).len(), 6);
}

#[test]
fn path_helpers() {
    assert_eq!(extension("src/a.rs"), Some("rs".to_string()));
    assert_eq!(extension(".hidden"), None);
    assert_eq!(join_path("/a", "b"), "/a/b");
    assert_eq!(join_path("/a/", "b"), "/a/b");
    assert_eq!(join_path("/a", "/b"), "/b");
}

#[test]
fn type_texts() {
    assert_eq!(rust_type_to_go("Vec[i32]"), "[]int32");
    assert_eq!(rust_type_to_go("HashMap[String, i64]"), "map[string]int64");
    assert_eq!(rust_type_to_go("Option[f64]"), "*float64");
    assert_eq!(rust_type_to_go("Fn[i32 -> bool]"), "func(int32) bool");
    assert_eq!(rust_type_to_go("Widget"), "interface{}  /* Widget */");
    assert_eq!(bu_type_to_go(&BuType::Array(Box::new(named("u8")), 4)), "[4]uint8");
    assert_eq!(bu_type_to_rust(&named("Vec[i32]")), "Vec<i32>");
    assert_eq!(bu_type_to_rust(&BuType::Tuple(vec![named("i32"), named("f64")])), "(i32, f64)");
}

#[test]
fn compatibility_of_types() {
    assert!(types_compatible(&named("i32"), &named(" i32 ")));
    assert!(types_compatible(&BuType::Unknown, &named("f64")));
    assert!(!types_compatible(&named("i32"), &named("i64")));
}

#[test]
fn rust_atoms() {
    assert!(has_interp_var("hi {name}"));
    assert!(!has_interp_var("hi {not a var}"));
    assert_eq!(emit_atom(&Atom::Interp("hi {name}".to_string())), "format!(\"hi {name}\")");
    assert_eq!(emit_atom(&Atom::StringLit("x".to_string())), "\"x\"");
    assert_eq!(join_strings(&vec!["a".to_string(), "b".to_string()], "::"), "a::b");
}

#[test]
fn builtins_and_backends() {
    assert!(is_known_builtin("tern"));
    assert!(!is_known_builtin("sqrt"));
    assert!(!is_known_builtin("frobnicate"));
    assert_eq!(Backend::Cpp.ext(), "cpp");
    assert!(Backend::from_ext("java").is_some());
    assert!(Backend::from_ext("kt").is_none());
}
