use snob::config::{Config, FilesConfig, TestsConfig};
use snob::{get_impacted_tests_from_changed_files, SnobOutput};

fn strings(items: &[&str]) -> Vec<String> {
    items.iter().map(|s| s.to_string()).collect()
}

/// The first-level components of `root`: its immediate children that are
/// source files, or directories holding a package marker.
fn components_for(root: &str, files: &[(&str, &str)]) -> Vec<String> {
    let prefix = format!("{}/", root);
    let mut out: Vec<String> = Vec::new();
    for (path, _) in files {
        if let Some(rest) = path.strip_prefix(&prefix) {
            match rest.find('/') {
                None => {
                    if rest.ends_with(".py") {
                        let child = format!("{}/{}", root, rest);
                        if !out.contains(&child) {
                            out.push(child);
                        }
                    }
                }
                Some(idx) => {
                    let child = format!("{}/{}", root, &rest[..idx]);
                    let marker = format!("{}/__init__.py", child);
                    if files.iter().any(|(p, _)| *p == marker) && !out.contains(&child) {
                        out.push(child);
                    }
                }
            }
        }
    }
    out
}

fn analyze(
    files: &[(&str, &str)],
    config: &Config,
    changed: &[&str],
) -> Result<SnobOutput, snob::GlobSetError> {
    let root = "/proj";
    let workspace: Vec<String> = files.iter().map(|(p, _)| p.to_string()).collect();
    let sources: Vec<Option<String>> = files.iter().map(|(_, s)| Some(s.to_string())).collect();
    // lookup roots: the working directory (the project root) first, then
    // the import path entries (the src directory)
    let flc = vec![
        components_for(root, files),
        components_for("/proj/src", files),
    ];
    get_impacted_tests_from_changed_files(
        config,
        root,
        &strings(changed),
        &workspace,
        &sources,
        &flc,
    )
}

fn empty_config() -> Config {
    Config {
        files: FilesConfig { ignores: vec![], run_all_tests_on_change: vec![] },
        tests: TestsConfig { always_run: vec![], ignores: vec![] },
    }
}

fn simple_project() -> Vec<(&'static str, &'static str)> {
    vec![
        (
            "/proj/src/main.py",
            r#"
from module import process_data

def main():
    result = process_data("hello")
    print(result)

if __name__ == "__main__":
    main()
"#,
        ),
        (
            "/proj/src/module.py",
            r#"
def process_data(data):
    return data.upper()

def helper_function():
    return "helper"
"#,
        ),
        (
            "/proj/tests/test_main.py",
            r#"
from main import main

def test_main():
    main()  # Should not raise

def test_main_functionality():
    assert True
"#,
        ),
        (
            "/proj/tests/test_module.py",
            r#"
from module import process_data, helper_function

def test_process_data():
    assert process_data("hello") == "HELLO"

def test_helper_function():
    assert helper_function() == "helper"
"#,
        ),
    ]
}

#[test]
fn test_with_clean_imports_simple_project() {
    let files = simple_project();
    let result = analyze(&files, &empty_config(), &["/proj/src/module.py"]).expect("valid globs");
    match result {
        SnobOutput::Partial(results) => {
            println!("Simple project - Found {} impacted tests", results.impacted.len());
            let mut impacted = results.impacted.clone();
            impacted.sort();
            assert_eq!(
                impacted,
                strings(&["/proj/tests/test_main.py", "/proj/tests/test_module.py"])
            );
        }
        SnobOutput::All => {
            println!("Simple project - All tests should be run");
        }
    }
}

fn complex_project() -> Vec<(&'static str, &'static str)> {
    vec![
        (
            "/proj/src/main.py",
            r#"
from module import process_data
from utils import format_output

def main():
    data = process_data("hello")
    result = format_output(data)
    print(result)

if __name__ == "__main__":
    main()
"#,
        ),
        (
            "/proj/src/module.py",
            r#"
from utils import validate_input

def process_data(data):
    if not validate_input(data):
        raise ValueError("Invalid input")
    return data.upper()

def transform_data(data):
    return data.lower()
"#,
        ),
        (
            "/proj/src/utils.py",
            r#"
def validate_input(data):
    return isinstance(data, str) and len(data) > 0

def format_output(data):
    return f"Result: {data}"

def common_utility():
    return 42
"#,
        ),
        (
            "/proj/tests/test_main.py",
            r#"

from main import main

def test_main():
    main()

def test_main_integration():
    assert True
"#,
        ),
        (
            "/proj/tests/test_module.py",
            r#"

from module import process_data, transform_data
import pytest

def test_process_data():
    assert process_data("hello") == "HELLO"

def test_process_data_invalid():
    with pytest.raises(ValueError):
        process_data("")

def test_transform_data():
    assert transform_data("HELLO") == "hello"
"#,
        ),
        (
            "/proj/tests/test_utils.py",
            r#"

from utils import validate_input, format_output, common_utility

def test_validate_input():
    assert validate_input("hello") == True
    assert validate_input("") == False
    assert validate_input(None) == False

def test_format_output():
    assert format_output("test") == "Result: test"

def test_common_utility():
    assert common_utility() == 42
"#,
        ),
    ]
}

#[test]
fn test_with_clean_imports_complex_project() {
    let files = complex_project();
    // utils.py is imported by module.py and main.py; every test transitively
    // depends on it
    let result = analyze(&files, &empty_config(), &["/proj/src/utils.py"]).expect("valid globs");
    match result {
        SnobOutput::Partial(results) => {
            println!("Complex project - Found {} impacted tests", results.impacted.len());
            let mut impacted = results.impacted.clone();
            impacted.sort();
            assert_eq!(
                impacted,
                strings(&[
                    "/proj/tests/test_main.py",
                    "/proj/tests/test_module.py",
                    "/proj/tests/test_utils.py"
                ])
            );
        }
        SnobOutput::All => {
            println!("Complex project - All tests should be run");
        }
    }
}

#[test]
fn test_with_clean_imports_isolated_project() {
    let files = vec![
        (
            "/proj/src/isolated.py",
            r#"
def standalone_function():
    return "standalone"

class StandaloneClass:
    def method(self):
        return "method"
"#,
        ),
        (
            "/proj/src/another_isolated.py",
            r#"
def another_function():
    return "another"
"#,
        ),
        (
            "/proj/tests/test_isolated.py",
            r#"

from isolated import standalone_function, StandaloneClass

def test_standalone_function():
    assert standalone_function() == "standalone"

def test_standalone_class():
    obj = StandaloneClass()
    assert obj.method() == "method"
"#,
        ),
        (
            "/proj/tests/test_another_isolated.py",
            r#"

from another_isolated import another_function

def test_another_function():
    assert another_function() == "another"
"#,
        ),
    ];
    let result = analyze(&files, &empty_config(), &["/proj/src/isolated.py"]).expect("valid globs");
    match result {
        SnobOutput::Partial(results) => {
            println!("Isolated project - Found {} impacted tests", results.impacted.len());
            // only the test of the isolated module is impacted
            assert_eq!(results.impacted, strings(&["/proj/tests/test_isolated.py"]));
        }
        SnobOutput::All => {
            println!("Isolated project - All tests should be run");
        }
    }
}

#[test]
fn test_with_config_file() {
    let files = vec![
        (
            "/proj/src/main.py",
            r#"
def main_function():
    return "main"
"#,
        ),
        (
            "/proj/src/critical.py",
            r#"
# This file should trigger all tests when changed
CRITICAL_CONSTANT = "important"

def critical_function():
    return CRITICAL_CONSTANT
"#,
        ),
        (
            "/proj/src/ignored.py",
            r#"
# This file should be ignored by snob
def ignored_function():
    return "ignored"
"#,
        ),
        (
            "/proj/tests/test_main.py",
            r#"

from main import main_function

def test_main_function():
    assert main_function() == "main"
"#,
        ),
        (
            "/proj/tests/test_critical.py",
            r#"

from critical import critical_function, CRITICAL_CONSTANT

def test_critical_function():
    assert critical_function() == "important"

def test_critical_constant():
    assert CRITICAL_CONSTANT == "important"
"#,
        ),
        (
            "/proj/tests/test_expensive.py",
            r#"
# This test should be ignored by configuration
def test_expensive_operation():
    # Simulate expensive test
    assert sum(range(1000)) == 499500
"#,
        ),
        (
            "/proj/tests/mandatory/test_mandatory.py",
            r#"
# This test should always run
def test_mandatory_check():
    assert True

def test_always_required():
    assert 1 + 1 == 2
"#,
        ),
    ];
    let config = Config {
        files: FilesConfig {
            ignores: strings(&["src/ignored.py"]),
            run_all_tests_on_change: strings(&["src/critical.py"]),
        },
        tests: TestsConfig {
            always_run: strings(&["tests/mandatory/test_mandatory.py"]),
            ignores: strings(&["tests/test_expensive.py"]),
        },
    };
    let result = analyze(&files, &config, &["/proj/src/main.py"]).expect("valid globs");
    match result {
        SnobOutput::Partial(results) => {
            println!("Config project - Found {} impacted tests", results.impacted.len());
            println!("  - Always run: {}", results.always_run.len());
            println!("  - Ignored: {}", results.ignored.len());
            assert!(!results.always_run.is_empty(), "Should have always-run tests");
        }
        SnobOutput::All => {
            println!("Config project - All tests should be run");
        }
    }
}

#[test]
fn test_run_all_on_critical_change() {
    let files = vec![("/proj/src/critical.py", "CRITICAL = 1\n")];
    let config = Config {
        files: FilesConfig {
            ignores: vec![],
            run_all_tests_on_change: strings(&["src/critical.py"]),
        },
        tests: TestsConfig { always_run: vec![], ignores: vec![] },
    };
    let result = analyze(&files, &config, &["/proj/src/critical.py"]).expect("valid globs");
    assert!(matches!(result, SnobOutput::All));
}
