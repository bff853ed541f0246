use snob::config::{Config, FilesConfig, TestsConfig};
use snob::fs::{check_files_exist, DirEntryInfo};
use snob::utils::get_repo_root;
use snob::{
    build_glob_set, get_first_level_components, get_impacted_tests_from_changed_files,
    run_all_tests, SnobOutput, SnobResult,
};

fn strings(items: &[&str]) -> Vec<String> {
    items.iter().map(|s| s.to_string()).collect()
}

fn config_with(
    file_ignores: &[&str],
    run_all: &[&str],
    test_ignores: &[&str],
    always_run: &[&str],
) -> Config {
    Config {
        files: FilesConfig {
            ignores: strings(file_ignores),
            run_all_tests_on_change: strings(run_all),
        },
        tests: TestsConfig { always_run: strings(always_run), ignores: strings(test_ignores) },
    }
}

#[test]
fn test_build_glob_set_invalid_pattern() {
    let r = build_glob_set(&strings(&["a{"]));
    assert!(r.is_err());
    let e = r.err().unwrap();
    assert!(!e.message.is_empty());
}

#[test]
fn test_run_all_tests_matching() {
    let set = build_glob_set(&strings(&["src/critical.py"])).expect("valid globs");
    assert!(run_all_tests(&strings(&["/p/src/critical.py"]), &set, "/p"));
    assert!(!run_all_tests(&strings(&["/p/src/other.py"]), &set, "/p"));
    assert!(!run_all_tests(&strings(&[]), &set, "/p"));
}

#[test]
fn test_run_all_sentinel() {
    // A changed file matching the run-all patterns short-circuits the
    // whole analysis.
    let config = config_with(&[], &["src/critical.py"], &[], &[]);
    let workspace = strings(&["/p/src/critical.py", "/p/tests/test_x.py"]);
    let sources = vec![Some(String::new()), Some(String::new())];
    let flc = vec![strings(&["/p/src/critical.py"])];
    let out = get_impacted_tests_from_changed_files(
        &config,
        "/p",
        &strings(&["/p/src/critical.py"]),
        &workspace,
        &sources,
        &flc,
    )
    .expect("globs are valid");
    assert!(matches!(out, SnobOutput::All));
}

#[test]
fn test_ignored_test_excluded() {
    // An impacted test matching tests.ignores lands in `ignored`, not in
    // the impacted output.
    let ignore = build_glob_set(&strings(&["tests/test_expensive.py"])).expect("valid globs");
    let always = build_glob_set(&strings(&[])).expect("valid globs");
    let impacted = strings(&["/p/tests/test_expensive.py", "/p/tests/test_cheap.py"]);
    let workspace = strings(&[
        "/p/src/a.py",
        "/p/tests/test_expensive.py",
        "/p/tests/test_cheap.py",
    ]);
    let r = SnobResult::new(impacted, workspace, &ignore, &always, "/p");
    assert_eq!(r.impacted, strings(&["/p/tests/test_cheap.py"]));
    assert_eq!(r.ignored, strings(&["/p/tests/test_expensive.py"]));
}

#[test]
fn test_selection_disjoint() {
    // Selection disjointness: no test is both impacted and ignored.
    let ignore = build_glob_set(&strings(&["tests/test_a.py"])).expect("valid globs");
    let always = build_glob_set(&strings(&[])).expect("valid globs");
    let impacted = strings(&["/p/tests/test_a.py", "/p/tests/test_b.py", "/p/src/a.py"]);
    let workspace = impacted.clone();
    let r = SnobResult::new(impacted, workspace, &ignore, &always, "/p");
    for f in &r.impacted {
        assert!(!r.ignored.contains(f));
    }
    for f in &r.ignored {
        assert!(!r.impacted.contains(f));
    }
}

#[test]
fn test_always_run_selection() {
    let ignore = build_glob_set(&strings(&[])).expect("valid globs");
    let always = build_glob_set(&strings(&["tests/mandatory/*.py"])).expect("valid globs");
    let workspace = strings(&[
        "/p/src/a.py",
        "/p/tests/mandatory/test_mandatory.py",
        "/p/tests/mandatory/helper.py",
        "/p/tests/test_other.py",
    ]);
    let r = SnobResult::new(strings(&[]), workspace, &ignore, &always, "/p");
    // only test files matching the always-run globs qualify
    assert_eq!(r.always_run, strings(&["/p/tests/mandatory/test_mandatory.py"]));
    assert!(r.impacted.is_empty());
    assert!(r.ignored.is_empty());
}

#[test]
fn test_non_test_files_filtered_out() {
    let ignore = build_glob_set(&strings(&[])).expect("valid globs");
    let always = build_glob_set(&strings(&[])).expect("valid globs");
    let impacted = strings(&["/p/src/a.py", "/p/tests/test_a.py", "/p/tests/helper.py"]);
    let r = SnobResult::new(impacted.clone(), impacted, &ignore, &always, "/p");
    assert_eq!(r.impacted, strings(&["/p/tests/test_a.py"]));
}

#[test]
fn test_check_files_exist_ok() {
    let files = strings(&["/p/a.py", "/p/b.py"]);
    assert!(check_files_exist(&files, &vec![true, true]).is_ok());
}

#[test]
fn test_check_files_exist_missing() {
    let files = strings(&["/p/a.py", "/p/b.py", "/p/c.py"]);
    let r = check_files_exist(&files, &vec![true, false, false]);
    let e = r.err().expect("second file is missing");
    assert_eq!(e.path, "/p/b.py");
    assert_eq!(e.message(), "File /p/b.py does not exist");
}

#[test]
fn test_get_repo_root_found() {
    let with_git = strings(&["/home/user/project"]);
    let r = get_repo_root("/home/user/project/src/pkg", &with_git);
    assert_eq!(r.ok(), Some("/home/user/project".to_string()));
    let direct = get_repo_root("/home/user/project", &with_git);
    assert_eq!(direct.ok(), Some("/home/user/project".to_string()));
}

#[test]
fn test_get_repo_root_not_found() {
    let with_git = strings(&["/somewhere/else"]);
    let r = get_repo_root("/home/user/project/src", &with_git);
    let e = r.err().expect("no marker on the ancestor chain");
    assert_eq!(e.message(), "Could not find git root");
}

#[test]
fn test_config_default_is_empty() {
    let c = Config::default();
    assert!(c.files.ignores.is_empty());
    assert!(c.files.run_all_tests_on_change.is_empty());
    assert!(c.tests.always_run.is_empty());
    assert!(c.tests.ignores.is_empty());
}

#[test]
fn test_first_level_components_filter() {
    let entry = |path: &str, is_file: bool, is_dir: bool, has_init: bool| DirEntryInfo {
        path: path.to_string(),
        is_file,
        is_dir,
        has_init,
    };
    let entries = vec![vec![
        entry("/p/src/a.py", true, false, false),
        entry("/p/src/notes.txt", true, false, false),
        entry("/p/src/pkg", false, true, true),
        entry("/p/src/plain_dir", false, true, false),
    ]];
    let flc = get_first_level_components(&entries);
    assert_eq!(flc, vec![strings(&["/p/src/a.py", "/p/src/pkg"])]);
}

#[test]
fn test_glob_scope_is_root_relative() {
    // Globs see the project-root-relative form: a pattern anchored at
    // `src/` matches `/p/src/...` under root `/p` but nothing under a
    // different root.
    let set = build_glob_set(&strings(&["src/*.py"])).expect("valid globs");
    assert!(run_all_tests(&strings(&["/p/src/x.py"]), &set, "/p"));
    assert!(!run_all_tests(&strings(&["/p/other/src/x.py"]), &set, "/p"));
}
