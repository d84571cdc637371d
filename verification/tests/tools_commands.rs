use bullarchy::tools::{
    cache_hit, cargo_home_from, contains_str, head_hash, install_args, installed_hash_in, pick_latest,
    reinstall_args, remove_plan, stale_binaries, update_notice, LockEntry, RemovePlan, BULLARCHY_REPO,
    UPDATE_NOTICE,
};

fn lock(name: &str, feature: Option<&str>) -> LockEntry {
    LockEntry { name: name.to_string(), feature: feature.map(|f| f.to_string()) }
}

fn strings(xs: &[&str]) -> Vec<String> {
    xs.iter().map(|s| s.to_string()).collect()
}

#[test]
fn substring_search() {
    assert!(contains_str("bullarchy-1a2b", "bullarchy"));
    assert!(contains_str("abc", ""));
    assert!(!contains_str("bull", "bullang"));
    assert!(!contains_str("xyz", "yzz"));
}

#[test]
fn remove_needs_a_name() {
    assert!(matches!(remove_plan(&vec![], &vec![]), RemovePlan::Usage));
}

#[test]
fn remove_unknown_package() {
    let l = vec![lock("math", None)];
    match remove_plan(&strings(&["net"]), &l) {
        RemovePlan::NotInstalled(n) => assert_eq!(n, "net"),
        _ => panic!("expected not installed"),
    }
}

#[test]
fn remove_plain_package() {
    let l = vec![lock("math", None), lock("net", Some(""))];
    match remove_plan(&strings(&["net"]), &l) {
        RemovePlan::Remove { name, feature, reinstall } => {
            assert_eq!(name, "net");
            assert_eq!(feature, None);
            assert!(reinstall.is_none());
        },
        _ => panic!("expected removal"),
    }
}

#[test]
fn remove_feature_package_keeps_other_features() {
    let l = vec![lock("a", Some("gpu")), lock("b", Some("net")), lock("c", Some("gpu")), lock("d", Some("sql"))];
    match remove_plan(&strings(&["b"]), &l) {
        RemovePlan::Remove { feature, reinstall, .. } => {
            assert_eq!(feature, Some("net".to_string()));
            let args = reinstall.unwrap();
            assert_eq!(args, strings(&["install", "--git", BULLARCHY_REPO, "--features", "gpu,sql", "--force", "bullarchy"]));
        },
        _ => panic!("expected removal"),
    }
}

#[test]
fn remove_last_feature_package() {
    let l = vec![lock("b", Some("net")), lock("x", None)];
    match remove_plan(&strings(&["b"]), &l) {
        RemovePlan::Remove { reinstall, .. } => {
            assert_eq!(reinstall.unwrap(), strings(&["install", "--git", BULLARCHY_REPO, "--force", "bullarchy"]));
        },
        _ => panic!("expected removal"),
    }
}

#[test]
fn reinstall_argument_lists() {
    assert_eq!(reinstall_args(&vec![]).len(), 5);
    assert_eq!(reinstall_args(&strings(&["a", "b"]))[4], "a,b");
    assert_eq!(install_args("R", "bin"), strings(&["install", "--git", "R", "--force", "bin"]));
}

#[test]
fn cache_entries_match_lowercased() {
    assert!(cache_hit("Bullarchy-7f3a", "bullarchy"));
    assert!(cache_hit("bullang-01", "bullang"));
    assert!(!cache_hit("serde-1.0", "bullang"));
}

#[test]
fn stale_binary_names() {
    let b = stale_binaries();
    assert_eq!(b.len(), 8);
    assert_eq!(b[1], "bullang.exe");
    assert_eq!(b[7], "bullarchy-gui.exe");
}

#[test]
fn cargo_home_choices() {
    assert_eq!(cargo_home_from(Some("/c".to_string()), Some("/h".to_string()), None), "/c");
    assert_eq!(cargo_home_from(None, Some("/home/u".to_string()), None), "/home/u/.cargo");
    assert_eq!(cargo_home_from(None, None, Some("C:/Users/u".to_string())), "C:/Users/u/.cargo");
    assert_eq!(cargo_home_from(None, None, None), ".cargo");
}

#[test]
fn latest_entry_wins_ties_last() {
    assert_eq!(pick_latest(&vec![]), None);
    assert_eq!(pick_latest(&vec![Some((5, 0)), Some((9, 1)), Some((3, 0))]), Some(1));
    assert_eq!(pick_latest(&vec![Some((9, 1)), None, Some((9, 1))]), Some(2));
    assert_eq!(pick_latest(&vec![None, None]), Some(1));
}

#[test]
fn head_hash_of_listing() {
    let h = "0123456789abcdef0123456789abcdef01234567";
    assert_eq!(head_hash(&format!("{}\trefs/heads/main\n", h)), Some(h.to_string()));
    assert_eq!(head_hash(&format!("  {}  x", h)), Some(h.to_string()));
    assert_eq!(head_hash("abc\trefs/heads/main"), None);
    assert_eq!(head_hash("   "), None);
}

#[test]
fn installed_hash_from_keys() {
    let keys = strings(&[
        "other 1.0 (git+https://x/other.git?branch=main#aaaa)",
        "bullarchy 1.0.0 (git+https://github.com/The-Bullang-Foundation/Bullarchy?branch=main#0123abcd)",
    ]);
    assert_eq!(
        installed_hash_in(&keys, "bullarchy", "https://github.com/The-Bullang-Foundation/Bullarchy.git", "main"),
        Some("0123abcd".to_string())
    );
    assert_eq!(installed_hash_in(&keys, "bullarchy", "https://github.com/The-Bullang-Foundation/Bullarchy.git", "dev"), None);
    let no_hash = strings(&["bullarchy (git+https://r?branch=main)"]);
    assert_eq!(installed_hash_in(&no_hash, "bullarchy", "https://r", "main"), None);
}

#[test]
fn update_notice_only_when_commits_differ() {
    let a = Some("a".to_string());
    let b = Some("b".to_string());
    assert_eq!(update_notice(&a, &b), Some(UPDATE_NOTICE.to_string()));
    assert_eq!(update_notice(&a, &a), None);
    assert_eq!(update_notice(&None, &b), None);
}
