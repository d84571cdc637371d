use bullarchy::ast::{Backend, Bullet, BulletBody, NativeBlock, SourceFile, Span};
use bullarchy::cli::{
    cli_command, parse_fmt_args, parse_init_args, parse_u8, repl_step, run_mode, split_words, CliCommand,
    ReplStep, RunMode,
};
use bullarchy::convert::{
    check_escape_compat, check_lang_override, detect_lang, is_known_ext, multi_target, next_steps, out_ext,
    project_langs, project_mode, project_out, resolve_single_second, single_target, LangTree, ProjectMode,
};

fn strings(xs: &[&str]) -> Vec<String> {
    xs.iter().map(|s| s.to_string()).collect()
}

#[test]
fn known_extensions() {
    assert!(is_known_ext("go"));
    assert!(is_known_ext("cpp"));
    assert!(!is_known_ext("java"));
    assert!(!is_known_ext("txt"));
}

#[test]
fn single_file_language() {
    assert_eq!(detect_lang(&None, &Some(Backend::Go)), "go");
    assert_eq!(detect_lang(&Some(Backend::Python), &Some(Backend::Go)), "py");
    assert_eq!(detect_lang(&None, &None), "rs");
    match resolve_single_second(&None, "py") {
        Ok((l, o)) => {
            assert_eq!(l, "py");
            assert!(o.is_none());
        },
        Err(_) => panic!(),
    }
    match resolve_single_second(&Some("go".to_string()), "rs") {
        Ok((l, o)) => {
            assert_eq!(l, "go");
            assert!(o.is_none());
        },
        Err(_) => panic!(),
    }
    match resolve_single_second(&Some("out/file.cpp".to_string()), "rs") {
        Ok((l, o)) => {
            assert_eq!(l, "cpp");
            assert_eq!(o, Some("out/file.cpp".to_string()));
        },
        Err(_) => panic!(),
    }
    match resolve_single_second(&Some("notes.txt".to_string()), "rs") {
        Err(m) => assert_eq!(m, "error: cannot infer language from 'notes.txt' \u{2014} use a known extension (rs, py, c, cpp, go)"),
        Ok(_) => panic!(),
    }
}

#[test]
fn language_argument_of_a_project() {
    assert!(matches!(check_lang_override(&None), Ok(None)));
    assert!(matches!(check_lang_override(&Some("c".to_string())), Ok(Some(_))));
    match check_lang_override(&Some("kotlin".to_string())) {
        Err(m) => assert_eq!(m, "error: 'kotlin' is not a recognised backend \u{2014} use rs py c cpp go java"),
        Ok(_) => panic!(),
    }
}

#[test]
fn escape_block_conflicts() {
    let b = Bullet {
        name: "f".to_string(),
        type_params: vec![],
        params: vec![],
        output: None,
        body: BulletBody::Natives(vec![NativeBlock { backend: Backend::Python, code: "x".to_string() }]),
        span: Span { line: 1, col: 1 },
    };
    let sf = SourceFile { bullets: vec![b] };
    assert_eq!(
        check_escape_compat(&sf, &Backend::Go, "a.bu"),
        Some("error: 'a.bu': function 'f' has a @python escape block but target is go. Remove the override or match the backend.".to_string())
    );
    assert_eq!(check_escape_compat(&sf, &Backend::Python, "a.bu"), None);
    assert_eq!(out_ext(&Backend::Unknown("zig".to_string())), "rs");
    assert_eq!(out_ext(&Backend::Java), "java");
    assert!(matches!(single_target("nope"), Backend::Rust));
    assert!(matches!(single_target("go"), Backend::Go));
}

#[test]
fn project_languages_and_mode() {
    let tree = LangTree {
        lang: None,
        children: vec![
            LangTree { lang: Some(Backend::Go), children: vec![LangTree { lang: None, children: vec![] }] },
            LangTree { lang: Some(Backend::Rust), children: vec![] },
            LangTree { lang: Some(Backend::Go), children: vec![] },
        ],
    };
    let langs = project_langs(&tree);
    assert_eq!(langs, strings(&["go", "rs"]));
    match project_mode(langs.clone(), &Some("go".to_string()), &None) {
        ProjectMode::Refused(ls) => assert_eq!(ls, strings(&["go", "rs"])),
        _ => panic!(),
    }
    assert!(matches!(project_mode(langs, &None, &None), ProjectMode::Multi));
    assert!(matches!(project_mode(strings(&["go"]), &None, &Some(Backend::Go)), ProjectMode::Single(Backend::Go)));
    assert!(matches!(project_mode(vec![], &None, &None), ProjectMode::Single(Backend::Rust)));
    match project_mode(vec![], &None, &Some(Backend::Unknown("zig".to_string()))) {
        ProjectMode::UnknownBackend(s) => assert_eq!(s, "zig"),
        _ => panic!(),
    }
}

#[test]
fn output_places_and_next_steps() {
    assert_eq!(project_out("/work", "demo"), "/work/_demo");
    let (d, c) = multi_target("/work/demo", "engine");
    assert_eq!(d, "/work/demo/_engine");
    assert_eq!(c, "_engine");
    assert_eq!(next_steps(&Backend::Go, "/o", "c"), Ok("to run:\n  cd /o && go run .".to_string()));
    assert_eq!(next_steps(&Backend::Python, "/o", "pkg"), Ok("to run:\n  cd /o && python3 -m pkg".to_string()));
    assert_eq!(next_steps(&Backend::Unknown("zig".to_string()), "/o", "c"), Err("error: unknown backend 'zig'".to_string()));
}

#[test]
fn numbers_for_depth() {
    assert_eq!(parse_u8("4"), Some(4));
    assert_eq!(parse_u8("+7"), Some(7));
    assert_eq!(parse_u8("007"), Some(7));
    assert_eq!(parse_u8("255"), Some(255));
    assert_eq!(parse_u8("256"), None);
    assert_eq!(parse_u8("-1"), None);
    assert_eq!(parse_u8(""), None);
    assert_eq!(parse_u8("+"), None);
    assert_eq!(parse_u8("1x"), None);
}

#[test]
fn init_options() {
    let o = parse_init_args(&strings(&["proj"])).ok().unwrap();
    assert_eq!(o.name, "proj");
    assert_eq!(o.depth, 2);
    assert!(o.lang.is_none() && o.blueprint.is_none() && o.path.is_none() && o.libs.is_empty());
    let o2 = parse_init_args(&strings(&["p", "--depth", "4", "--lang", "c", "--lib", "stdio.h", "--lib", "math.h", "--path", "/tmp"]))
        .ok()
        .unwrap();
    assert_eq!(o2.depth, 4);
    assert_eq!(o2.lang, Some("c".to_string()));
    assert_eq!(o2.libs, strings(&["stdio.h", "math.h"]));
    assert_eq!(o2.path, Some("/tmp".to_string()));
    assert_eq!(parse_init_args(&vec![]).err(), Some("missing project name".to_string()));
    assert_eq!(parse_init_args(&strings(&["p", "--depth"])).err(), Some("--depth requires a value".to_string()));
    assert_eq!(
        parse_init_args(&strings(&["p", "--depth", "x"])).err(),
        Some("--depth must be a number between 1 and 6".to_string())
    );
    assert_eq!(parse_init_args(&strings(&["p", "--lang"])).err(), Some("--lang requires a value".to_string()));
    assert_eq!(parse_init_args(&strings(&["p", "--bogus"])).err(), Some("unknown option: '--bogus'".to_string()));
}

#[test]
fn fmt_options() {
    assert_eq!(parse_fmt_args(&strings(&["--dry-run", "src"])), (Some("src".to_string()), true));
    assert_eq!(parse_fmt_args(&strings(&["a", "b"])), (Some("b".to_string()), false));
    assert_eq!(parse_fmt_args(&vec![]), (None, false));
}

#[test]
fn modes_and_commands() {
    assert!(matches!(run_mode(&strings(&["bullarchy", "lsp"])), RunMode::Lsp));
    assert!(matches!(run_mode(&strings(&["bullarchy", "check"])), RunMode::Command));
    assert!(matches!(run_mode(&strings(&["bullarchy", "--cli"])), RunMode::Repl));
    assert!(matches!(run_mode(&strings(&["bullarchy"])), RunMode::Repl));
    assert!(matches!(cli_command("help", &vec![]), CliCommand::Help));
    assert!(matches!(cli_command("init", &vec![]), CliCommand::InitUsage));
    match cli_command("convert", &strings(&["proj", "go"])) {
        CliCommand::Convert { target, second } => {
            assert_eq!(target, Some("proj".to_string()));
            assert_eq!(second, Some("go".to_string()));
        },
        _ => panic!(),
    }
    match cli_command("frob", &vec![]) {
        CliCommand::Unknown(c) => assert_eq!(c, "frob"),
        _ => panic!(),
    }
}

#[test]
fn prompt_lines() {
    assert_eq!(split_words("  add   math  "), strings(&["add", "math"]));
    assert!(split_words(" \t ").is_empty());
    assert!(matches!(repl_step("   "), ReplStep::Skip));
    assert!(matches!(repl_step(" exit "), ReplStep::Exit));
    match repl_step("remove  math") {
        ReplStep::Run(p) => assert_eq!(p, strings(&["remove", "math"])),
        _ => panic!(),
    }
}
