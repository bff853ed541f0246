use snob::config::{Config, FilesConfig, TestsConfig};
use snob::utils::is_test_file;
use snob::{get_impacted_tests_from_changed_files, SnobOutput};

fn strings(items: &[&str]) -> Vec<String> {
    items.iter().map(|s| s.to_string()).collect()
}

fn components_for(root: &str, files: &[(&str, &str)]) -> Vec<String> {
    let prefix = format!("{}/", root);
    let mut out: Vec<String> = Vec::new();
    for (path, _) in files {
        if let Some(rest) = path.strip_prefix(&prefix) {
            match rest.find('/') {
                None => {
                    if rest.ends_with(".py") {
                        let child = format!("{}/{}", root, rest);
                        if !out.contains(&child) {
                            out.push(child);
                        }
                    }
                }
                Some(idx) => {
                    let child = format!("{}/{}", root, &rest[..idx]);
                    let marker = format!("{}/__init__.py", child);
                    if files.iter().any(|(p, _)| *p == marker) && !out.contains(&child) {
                        out.push(child);
                    }
                }
            }
        }
    }
    out
}

fn analyze(
    files: &[(&str, &str)],
    config: &Config,
    changed: &[&str],
) -> Result<SnobOutput, snob::GlobSetError> {
    let root = "/proj";
    let workspace: Vec<String> = files.iter().map(|(p, _)| p.to_string()).collect();
    let sources: Vec<Option<String>> = files.iter().map(|(_, s)| Some(s.to_string())).collect();
    let flc = vec![
        components_for(root, files),
        components_for("/proj/src", files),
    ];
    get_impacted_tests_from_changed_files(
        config,
        root,
        &strings(changed),
        &workspace,
        &sources,
        &flc,
    )
}

fn empty_config() -> Config {
    Config {
        files: FilesConfig { ignores: vec![], run_all_tests_on_change: vec![] },
        tests: TestsConfig { always_run: vec![], ignores: vec![] },
    }
}

fn nested_package_project() -> Vec<(&'static str, &'static str)> {
    vec![
        ("/proj/src/__init__.py", ""),
        ("/proj/src/package/__init__.py", ""),
        ("/proj/src/package/subpackage/__init__.py", ""),
        (
            "/proj/src/package/subpackage/deep_module.py",
            r#"
def deep_function():
    return "deep"

class DeepClass:
    def deep_method(self):
        return "deep_method"
"#,
        ),
        (
            "/proj/src/package/top_module.py",
            r#"
from .subpackage.deep_module import deep_function

def top_function():
    return f"top_{deep_function()}"
"#,
        ),
        (
            "/proj/tests/package/subpackage/test_deep_module.py",
            r#"

from package.subpackage.deep_module import deep_function, DeepClass

def test_deep_function():
    assert deep_function() == "deep"

def test_deep_class():
    obj = DeepClass()
    assert obj.deep_method() == "deep_method"
"#,
        ),
        (
            "/proj/tests/package/test_top_module.py",
            r#"

from package.top_module import top_function

def test_top_function():
    assert top_function() == "top_deep"
"#,
        ),
    ]
}

#[test]
fn test_nested_package_deep_module_changes() {
    let files = nested_package_project();
    let result = analyze(&files, &empty_config(), &["/proj/src/package/subpackage/deep_module.py"])
        .expect("valid globs");
    match result {
        SnobOutput::Partial(results) => {
            println!(
                "Nested package deep module - Found {} impacted tests",
                results.impacted.len()
            );
            let mut impacted_tests: Vec<String> = results.impacted.clone();
            impacted_tests.sort();
            println!("Impacted tests: {:?}", impacted_tests);
            assert_eq!(
                impacted_tests,
                strings(&[
                    "/proj/tests/package/subpackage/test_deep_module.py",
                    "/proj/tests/package/test_top_module.py"
                ])
            );
        }
        SnobOutput::All => {
            println!("Nested package deep module - All tests should be run");
        }
    }
}

#[test]
fn test_nested_package_top_module_changes() {
    let files = nested_package_project();
    let result = analyze(&files, &empty_config(), &["/proj/src/package/top_module.py"])
        .expect("valid globs");
    match result {
        SnobOutput::Partial(results) => {
            println!(
                "Nested package top module - Found {} impacted tests",
                results.impacted.len()
            );
            let impacted_tests: Vec<String> = results.impacted.clone();
            println!("Impacted tests: {:?}", impacted_tests);
            assert_eq!(impacted_tests, strings(&["/proj/tests/package/test_top_module.py"]));
        }
        SnobOutput::All => {
            println!("Nested package top module - All tests should be run");
        }
    }
}

#[test]
fn test_nested_package_isolation() {
    let files = nested_package_project();
    let result = analyze(&files, &empty_config(), &[]).expect("valid globs");
    match result {
        SnobOutput::Partial(results) => {
            assert!(
                results.impacted.is_empty(),
                "No changes should result in no impacted tests"
            );
        }
        SnobOutput::All => {
            println!("Unexpected: All tests flagged with no changes");
        }
    }
}

fn relative_import_project() -> Vec<(&'static str, &'static str)> {
    vec![
        ("/proj/src/__init__.py", ""),
        ("/proj/src/package/__init__.py", ""),
        (
            "/proj/src/package/base.py",
            r#"
def base_function():
    return "base"

BASE_CONSTANT = "base_value"
"#,
        ),
        (
            "/proj/src/package/consumer.py",
            r#"
from .base import base_function, BASE_CONSTANT

def consumer_function():
    return f"consumer_{base_function()}"

def get_base_constant():
    return BASE_CONSTANT
"#,
        ),
        (
            "/proj/src/package/sibling.py",
            r#"
from . import base
from .consumer import consumer_function

def sibling_function():
    return f"sibling_{base.base_function()}"

def combined_function():
    return f"{consumer_function()}_and_sibling"
"#,
        ),
        (
            "/proj/tests/test_base.py",
            r#"

from package.base import base_function

def test_base_function():
    assert base_function() == "base"
"#,
        ),
        (
            "/proj/tests/test_consumer.py",
            r#"

from package.consumer import consumer_function

def test_consumer_function():
    assert consumer_function() == "consumer_base"
"#,
        ),
        (
            "/proj/tests/test_sibling.py",
            r#"

from package.sibling import sibling_function

def test_sibling_function():
    assert sibling_function() == "sibling_base"
"#,
        ),
    ]
}

#[test]
fn test_relative_import_base_module_changes() {
    let files = relative_import_project();
    let result = analyze(&files, &empty_config(), &["/proj/src/package/base.py"])
        .expect("valid globs");
    match result {
        SnobOutput::Partial(results) => {
            println!(
                "Relative import base module - Found {} impacted tests",
                results.impacted.len()
            );
            let mut impacted_tests: Vec<String> = results.impacted.clone();
            impacted_tests.sort();
            println!("Impacted tests: {:?}", impacted_tests);
            // base is consumed by consumer and sibling, so every test runs
            assert_eq!(
                impacted_tests,
                strings(&[
                    "/proj/tests/test_base.py",
                    "/proj/tests/test_consumer.py",
                    "/proj/tests/test_sibling.py"
                ])
            );
        }
        SnobOutput::All => {
            println!("Relative import base module - All tests should be run");
        }
    }
}

#[test]
fn test_relative_import_consumer_changes() {
    let files = relative_import_project();
    let result = analyze(&files, &empty_config(), &["/proj/src/package/consumer.py"])
        .expect("valid globs");
    match result {
        SnobOutput::Partial(results) => {
            println!(
                "Relative import consumer module - Found {} impacted tests",
                results.impacted.len()
            );
            let mut impacted_tests: Vec<String> = results.impacted.clone();
            impacted_tests.sort();
            println!("Impacted tests: {:?}", impacted_tests);
            assert_eq!(
                impacted_tests,
                strings(&["/proj/tests/test_consumer.py", "/proj/tests/test_sibling.py"])
            );
        }
        SnobOutput::All => {
            println!("Relative import consumer module - All tests should be run");
        }
    }
}

#[test]
fn test_relative_import_sibling_changes() {
    let files = relative_import_project();
    let result = analyze(&files, &empty_config(), &["/proj/src/package/sibling.py"])
        .expect("valid globs");
    match result {
        SnobOutput::Partial(results) => {
            println!(
                "Relative import sibling module - Found {} impacted tests",
                results.impacted.len()
            );
            let impacted_tests: Vec<String> = results.impacted.clone();
            println!("Impacted tests: {:?}", impacted_tests);
            assert_eq!(impacted_tests, strings(&["/proj/tests/test_sibling.py"]));
        }
        SnobOutput::All => {
            println!("Relative import sibling module - All tests should be run");
        }
    }
}

#[test]
fn test_relative_import_dependency_chain() {
    let files = relative_import_project();
    let result = analyze(
        &files,
        &empty_config(),
        &["/proj/src/package/base.py", "/proj/src/package/consumer.py"],
    )
    .expect("valid globs");
    match result {
        SnobOutput::Partial(results) => {
            println!(
                "Relative import dependency chain - Found {} impacted tests",
                results.impacted.len()
            );
            let mut impacted_tests: Vec<String> = results.impacted.clone();
            impacted_tests.sort();
            println!("Impacted tests: {:?}", impacted_tests);
            assert_eq!(
                impacted_tests,
                strings(&[
                    "/proj/tests/test_base.py",
                    "/proj/tests/test_consumer.py",
                    "/proj/tests/test_sibling.py"
                ])
            );
        }
        SnobOutput::All => {
            println!("Relative import dependency chain - All tests should be run");
        }
    }
}

fn test_pattern_project() -> Vec<(&'static str, &'static str)> {
    vec![
        (
            "/proj/src/main.py",
            r#"
def main_function():
    return "main"

class MainClass:
    def method(self):
        return "method"
"#,
        ),
        (
            "/proj/tests/test_main.py",
            r#"

from main import main_function, MainClass

def test_main_function():
    assert main_function() == "main"

def test_main_class():
    obj = MainClass()
    assert obj.method() == "method"
"#,
        ),
        (
            "/proj/tests/main_test.py",
            r#"

from main import main_function

def test_alternative_pattern():
    assert main_function() == "main"
"#,
        ),
    ]
}

#[test]
fn test_different_test_file_patterns() {
    let files = test_pattern_project();
    let result = analyze(&files, &empty_config(), &["/proj/src/main.py"]).expect("valid globs");
    match result {
        SnobOutput::Partial(results) => {
            println!("Test pattern project - Found {} impacted tests", results.impacted.len());
            let mut impacted_tests: Vec<String> = results.impacted.clone();
            impacted_tests.sort();
            println!("Impacted tests: {:?}", impacted_tests);
            // both naming patterns are recognized
            assert_eq!(
                impacted_tests,
                strings(&["/proj/tests/main_test.py", "/proj/tests/test_main.py"])
            );
        }
        SnobOutput::All => {
            println!("Test pattern project - All tests should be run");
        }
    }
}

#[test]
fn test_pattern_project_is_test_file_detection() {
    assert!(
        is_test_file("tests/test_main.py"),
        "test_main.py should be detected as test file"
    );
    assert!(
        is_test_file("tests/main_test.py"),
        "main_test.py should be detected as test file"
    );
    assert!(!is_test_file("src/main.py"), "main.py should not be detected as test file");
}

#[test]
fn test_pattern_project_no_changes_no_tests() {
    let files = test_pattern_project();
    let result = analyze(&files, &empty_config(), &[]).expect("valid globs");
    match result {
        SnobOutput::Partial(results) => {
            assert!(
                results.impacted.is_empty(),
                "No changes should result in no impacted tests"
            );
        }
        SnobOutput::All => {
            println!("Unexpected: All tests flagged with no changes");
        }
    }
}

#[test]
fn test_basic_functionality() {
    let files = vec![
        (
            "/proj/src/main.py",
            "\ndef main():\n    return \"hello world\"\n",
        ),
        (
            "/proj/tests/test_main.py",
            "\nfrom main import main\n\ndef test_main():\n    assert main() == \"hello world\"\n",
        ),
    ];
    let result = analyze(&files, &empty_config(), &["/proj/src/main.py"]).expect("valid globs");
    match result {
        SnobOutput::Partial(results) => {
            println!("Found {} impacted tests", results.impacted.len());
            assert_eq!(results.impacted, strings(&["/proj/tests/test_main.py"]));
        }
        SnobOutput::All => {
            println!("All tests should be run");
        }
    }
}

#[test]
fn test_empty_changes() {
    let files = vec![("/proj/src/main.py", "def main(): pass")];
    let result = analyze(&files, &empty_config(), &[]).expect("valid globs");
    assert!(
        matches!(result, SnobOutput::Partial(_)),
        "Expected partial results for no changes"
    );
}
