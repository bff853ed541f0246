use snob::ast::{
    determine_import_type, extract_file_dependencies, import_records, FileImports, Import,
    ImportType, RawImport,
};

fn strings(items: &[&str]) -> Vec<String> {
    items.iter().map(|s| s.to_string()).collect()
}

fn import(segments: &[&str], level: usize) -> Import {
    Import { segments: strings(segments), level }
}

#[test]
fn test_import_to_file_path() {
    assert_eq!(import(&["a", "b", "c"], 0).to_file_path(), "a/b/c");
    assert_eq!(import(&["x"], 0).to_file_path(), "x");
}

#[test]
fn test_import_is_relative() {
    assert!(import(&["a"], 1).is_relative());
    assert!(import(&["a"], 2).is_relative());
    assert!(!import(&["a"], 0).is_relative());
}

#[test]
fn test_import_records_from_raw() {
    let raws = vec![
        RawImport { module: None, name: "a.b.c".to_string(), level: 0 },
        RawImport { module: Some("pkg.sub".to_string()), name: "thing".to_string(), level: 2 },
    ];
    let records = import_records(&raws);
    assert_eq!(records.len(), 2);
    assert_eq!(records[0].segments, strings(&["a", "b", "c"]));
    assert_eq!(records[0].level, 0);
    assert_eq!(records[1].segments, strings(&["pkg", "sub", "thing"]));
    assert_eq!(records[1].level, 2);
}

#[test]
fn test_determine_import_type_package_wins() {
    // A directory with a package marker wins over a same-named module file.
    let files = strings(&["/p/src/pkg/__init__.py", "/p/src/pkg.py"]);
    match determine_import_type("/p/src/pkg", &files) {
        ImportType::Package(p) => assert_eq!(p, "/p/src/pkg/__init__.py"),
        _ => panic!("expected a package"),
    }
}

#[test]
fn test_determine_import_type_module() {
    let files = strings(&["/p/src/mod.py"]);
    match determine_import_type("/p/src/mod", &files) {
        ImportType::Module(p) => assert_eq!(p, "/p/src/mod.py"),
        _ => panic!("expected a module"),
    }
}

#[test]
fn test_determine_import_type_object() {
    let files = strings(&["/p/src/mod.py"]);
    assert!(matches!(determine_import_type("/p/src/other", &files), ImportType::Object));
}

#[test]
fn test_resolve_absolute_module() {
    // `from b import x` inside /p/src/a.py resolves to the module file b.py.
    let files = strings(&["/p/src/a.py", "/p/src/b.py", "/p/tests/test_a.py"]);
    let flc = vec![strings(&["/p/src/a.py", "/p/src/b.py"])];
    let fi = FileImports { file: "/p/src/a.py".to_string(), imports: vec![import(&["b", "x"], 0)] };
    let resolved = fi.resolve_imports(&files, &flc);
    assert_eq!(resolved, strings(&["/p/src/b.py"]));
}

#[test]
fn test_resolve_package_marker_preferred() {
    // `import pkg` resolves to the package marker, not the sibling pkg.py.
    let files = strings(&["/p/src/pkg/__init__.py", "/p/src/pkg.py", "/p/src/user.py"]);
    let flc = vec![strings(&["/p/src/pkg", "/p/src/pkg.py", "/p/src/user.py"])];
    let fi = FileImports { file: "/p/src/user.py".to_string(), imports: vec![import(&["pkg"], 0)] };
    let resolved = fi.resolve_imports(&files, &flc);
    assert_eq!(resolved, strings(&["/p/src/pkg/__init__.py"]));
}

#[test]
fn test_resolve_relative_import() {
    // `from .b import f` inside /p/src/pkg/a.py resolves to pkg/b.py.
    let files = strings(&["/p/src/pkg/__init__.py", "/p/src/pkg/a.py", "/p/src/pkg/b.py"]);
    let flc = vec![strings(&["/p/src/pkg"])];
    let fi = FileImports {
        file: "/p/src/pkg/a.py".to_string(),
        imports: vec![import(&["b", "f"], 1)],
    };
    let resolved = fi.resolve_imports(&files, &flc);
    assert_eq!(resolved, strings(&["/p/src/pkg/b.py"]));
}

#[test]
fn test_resolve_level_too_high_dropped() {
    // A relative import that climbs past the filesystem root is dropped.
    let files = strings(&["/p/a.py", "/p/b.py"]);
    let flc = vec![strings(&["/p/a.py", "/p/b.py"])];
    let fi = FileImports { file: "/p/a.py".to_string(), imports: vec![import(&["b", "f"], 9)] };
    let resolved = fi.resolve_imports(&files, &flc);
    assert!(resolved.is_empty());
}

#[test]
fn test_resolve_unknown_dropped() {
    // An import of something outside the workspace resolves nowhere.
    let files = strings(&["/p/src/a.py"]);
    let flc = vec![strings(&["/p/src/a.py"])];
    let fi = FileImports {
        file: "/p/src/a.py".to_string(),
        imports: vec![import(&["os", "path"], 0)],
    };
    let resolved = fi.resolve_imports(&files, &flc);
    assert!(resolved.is_empty());
}

#[test]
fn test_resolve_deduplicates() {
    let files = strings(&["/p/src/a.py", "/p/src/b.py"]);
    let flc = vec![strings(&["/p/src/a.py", "/p/src/b.py"])];
    let fi = FileImports {
        file: "/p/src/a.py".to_string(),
        imports: vec![import(&["b", "x"], 0), import(&["b", "y"], 0)],
    };
    let resolved = fi.resolve_imports(&files, &flc);
    assert_eq!(resolved, strings(&["/p/src/b.py"]));
}

#[test]
fn test_extract_file_dependencies_basic() {
    let files = strings(&["/p/src/a.py", "/p/src/b.py"]);
    let flc = vec![strings(&["/p/src/a.py", "/p/src/b.py"])];
    let deps = extract_file_dependencies(
        &"/p/src/a.py".to_string(),
        "import b\n",
        &files,
        &flc,
    );
    assert_eq!(deps, Some(strings(&["/p/src/b.py"])));
}

#[test]
fn test_extract_file_dependencies_from_import() {
    let files = strings(&["/p/src/a.py", "/p/src/b.py"]);
    let flc = vec![strings(&["/p/src/a.py", "/p/src/b.py"])];
    let deps = extract_file_dependencies(
        &"/p/src/a.py".to_string(),
        "from b import x, y\n",
        &files,
        &flc,
    );
    assert_eq!(deps, Some(strings(&["/p/src/b.py"])));
}

#[test]
fn test_extract_file_dependencies_nested_import() {
    // The statement walk is structural: imports inside function bodies and
    // conditionals count too.
    let files = strings(&["/p/src/a.py", "/p/src/b.py", "/p/src/c.py"]);
    let flc = vec![strings(&["/p/src/a.py", "/p/src/b.py", "/p/src/c.py"])];
    let source = "def f():\n    import b\n\nif True:\n    from c import thing\n";
    let deps = extract_file_dependencies(&"/p/src/a.py".to_string(), source, &files, &flc);
    let mut got = deps.expect("source should parse");
    got.sort();
    assert_eq!(got, strings(&["/p/src/b.py", "/p/src/c.py"]));
}

#[test]
fn test_extract_file_dependencies_parse_error() {
    let files = strings(&["/p/src/a.py"]);
    let flc = vec![strings(&["/p/src/a.py"])];
    let deps = extract_file_dependencies(
        &"/p/src/a.py".to_string(),
        "def def def(((\n",
        &files,
        &flc,
    );
    assert_eq!(deps, None);
}

#[test]
fn test_extract_file_dependencies_empty_source() {
    let files = strings(&["/p/src/a.py"]);
    let flc = vec![strings(&["/p/src/a.py"])];
    let deps = extract_file_dependencies(&"/p/src/a.py".to_string(), "", &files, &flc);
    assert_eq!(deps, Some(vec![]));
}
