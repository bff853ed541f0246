use snob::paths::{dir_name, file_name, join_components, join_path, nth_ancestor, split_string};
use snob::utils::{
    get_python_local_lookup_paths, get_pythonpath, is_test_file, rel_path, PYTHONPATH_SEPARATOR,
};

#[test]
fn test_split_string_basic() {
    assert_eq!(split_string("a.b.c", '.'), vec!["a", "b", "c"]);
    assert_eq!(split_string("", '.'), vec![""]);
    assert_eq!(split_string("a", '.'), vec!["a"]);
    assert_eq!(split_string("a..b", '.'), vec!["a", "", "b"]);
    assert_eq!(split_string(".a", '.'), vec!["", "a"]);
    assert_eq!(split_string("a.", '.'), vec!["a", ""]);
}

#[test]
fn test_join_components_basic() {
    let v: Vec<String> = vec!["a".to_string(), "b".to_string(), "c".to_string()];
    assert_eq!(join_components(&v), "a/b/c");
    let one: Vec<String> = vec!["x".to_string()];
    assert_eq!(join_components(&one), "x");
    let none: Vec<String> = vec![];
    assert_eq!(join_components(&none), "");
}

#[test]
fn test_file_name_and_dir_name() {
    assert_eq!(file_name("/p/src/a.py"), "a.py");
    assert_eq!(dir_name("/p/src/a.py"), "/p/src");
    assert_eq!(file_name("plain"), "plain");
    assert_eq!(dir_name("plain"), "");
    assert_eq!(dir_name("/p"), "");
    assert_eq!(join_path("/p/src", "pkg"), "/p/src/pkg");
    assert_eq!(join_path("", "p"), "/p");
}

#[test]
fn test_nth_ancestor_basic() {
    assert_eq!(nth_ancestor("/p/src/pkg/a.py", 0), Some("/p/src/pkg/a.py".to_string()));
    assert_eq!(nth_ancestor("/p/src/pkg/a.py", 1), Some("/p/src/pkg".to_string()));
    assert_eq!(nth_ancestor("/p/src/pkg/a.py", 2), Some("/p/src".to_string()));
    assert_eq!(nth_ancestor("/p/a.py", 2), Some("".to_string()));
    assert_eq!(nth_ancestor("/p/a.py", 3), None);
}

#[test]
fn test_rel_path_basic() {
    assert_eq!(rel_path("/p/src/a.py", "/p"), Some("src/a.py".to_string()));
    assert_eq!(rel_path("/p", "/p"), Some("".to_string()));
    assert_eq!(rel_path("/other/a.py", "/p"), None);
    assert_eq!(rel_path("/pq/a.py", "/p"), None);
}

#[test]
fn test_is_test_file_basic() {
    // Test positive cases
    assert!(is_test_file("test_module.py"));
    assert!(is_test_file("module_test.py"));
    assert!(is_test_file("/path/to/test_something.py"));
    assert!(is_test_file("/path/to/something_test.py"));

    // Test negative cases
    assert!(!is_test_file("module.py"));
    assert!(!is_test_file("main.py"));
    assert!(!is_test_file("testmodule.py"));
    assert!(!is_test_file("moduletest.py"));
    assert!(!is_test_file("test.py"));
    assert!(!is_test_file(""));
}

#[test]
fn main_test_get_pythonpath_empty() {
    let pythonpath = get_pythonpath("");
    assert!(pythonpath.is_empty());
}

#[test]
fn main_test_get_pythonpath() {
    let pythonpath = get_pythonpath("/some/path:/another/path");
    assert_eq!(pythonpath, vec!["/some/path".to_string(), "/another/path".to_string()]);
}

#[test]
fn utils_test_get_pythonpath_empty() {
    let pythonpath = get_pythonpath("");
    assert!(pythonpath.is_empty());
}

#[test]
fn utils_test_get_pythonpath() {
    let test_path = format!("/some/path{}/another/path", PYTHONPATH_SEPARATOR);
    let pythonpath = get_pythonpath(&test_path);
    assert_eq!(pythonpath, vec!["/some/path".to_string(), "/another/path".to_string()]);
}

#[test]
fn main_test_get_python_local_lookup_paths() {
    let current_dir = "/home/user/project/src";
    let git_root = "/home/user/project";
    let pythonpath: Vec<String> = vec![
        "/home/user/project/src".to_string(),
        "/home/user/project/lib".to_string(),
        "/home/user/other-project/src/lib".to_string(),
    ];
    let local_paths = get_python_local_lookup_paths(current_dir, git_root, &pythonpath);
    assert_eq!(
        local_paths.local_paths,
        vec!["/home/user/project/src".to_string(), "/home/user/project/lib".to_string()]
    );
}

#[test]
fn utils_test_get_python_local_lookup_paths() {
    let current_dir = "/home/user/project/src";
    let git_root = "/home/user/project";
    let pythonpath: Vec<String> = vec![
        "/home/user/project/src".to_string(),
        "/home/user/project/lib".to_string(),
        "/home/user/other-project/src/lib".to_string(),
    ];
    let local_paths = get_python_local_lookup_paths(current_dir, git_root, &pythonpath);
    assert_eq!(
        local_paths.local_paths,
        vec!["/home/user/project/src".to_string(), "/home/user/project/lib".to_string()]
    );
}
