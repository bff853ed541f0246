//! The user configuration: glob overrides for files and tests.
//!
//! Loading the configuration from disk is the caller's task; the library
//! receives the glob lists as plain values.

use vstd::prelude::*;

verus! {

/// Files-related configuration.
#[derive(Debug)]
pub struct FilesConfig {
    /// Files matching these globs are excluded from the dependency graph.
    pub ignores: Vec<String>,
    /// A change to a file matching these globs triggers every test.
    pub run_all_tests_on_change: Vec<String>,
}

/// Tests-related configuration.
#[derive(Debug)]
pub struct TestsConfig {
    /// Tests matching these globs always run.
    pub always_run: Vec<String>,
    /// Tests matching these globs never run.
    pub ignores: Vec<String>,
}

/// The whole configuration.
#[derive(Debug)]
pub struct Config {
    /// files-related configuration
    pub files: FilesConfig,
    /// tests-related configuration
    pub tests: TestsConfig,
}

impl Default for FilesConfig {
    /// The empty configuration: no overrides.
    fn default() -> (r: FilesConfig)
        ensures
            r.ignores@.len() == 0,
            r.run_all_tests_on_change@.len() == 0,
    {
        FilesConfig { ignores: Vec::new(), run_all_tests_on_change: Vec::new() }
    }
}

impl Default for TestsConfig {
    /// The empty configuration: no overrides.
    fn default() -> (r: TestsConfig)
        ensures
            r.always_run@.len() == 0,
            r.ignores@.len() == 0,
    {
        TestsConfig { always_run: Vec::new(), ignores: Vec::new() }
    }
}

impl Default for Config {
    /// The empty configuration: no overrides.
    fn default() -> (r: Config)
        ensures
            r.files.ignores@.len() == 0,
            r.files.run_all_tests_on_change@.len() == 0,
            r.tests.always_run@.len() == 0,
            r.tests.ignores@.len() == 0,
    {
        Config { files: Default::default(), tests: Default::default() }
    }
}

} // verus!
