//! Change-impact test selection for Python source trees.
//!
//! Given the set of files touched by a patch, the library determines which
//! test files could be affected: it extracts the imports of every workspace
//! file, resolves them to workspace paths, builds a reverse-dependency graph,
//! computes the transitive impact closure of the changed files, and filters
//! the closure down to test files subject to the configured glob overrides.

use vstd::prelude::*;

pub mod ast;
pub mod cli;
pub mod config;
pub mod fs;
pub mod globs;
pub mod graph;
pub mod paths;
pub mod utils;

use crate::ast::contains_path;
use crate::ast::extract_file_dependencies;
use crate::ast::parsed_imports;
use crate::ast::spec_file_dependencies;
use crate::config::Config;
use crate::fs::DirEntryInfo;
use crate::globs::glob_match;
use crate::graph::old_importers;
use crate::graph::DependencyGraph;
use crate::graph::discover_impacted_nodes;
use crate::globs::glob_set_patterns;
use crate::globs::glob_set_matches;
use crate::globs::matches_any;
use crate::graph::impact;
use crate::utils::path_under;
use crate::utils::rel_path;
use crate::utils::rel_to_root;
use crate::utils::spec_is_test_file;
use crate::utils::is_test_file;
use crate::paths::is_suffix;
use crate::paths::str_ends_with;

verus! {

/// A glob set that could not be built from its configured patterns.
#[derive(Debug)]
pub struct GlobSetError {
    pub message: String,
}

/// Is the configured pattern list one the glob crate accepts? An empty
/// list always is.
pub open spec fn spec_globs_accepted(patterns: Seq<Seq<char>>) -> bool {
    patterns.len() == 0 || crate::globs::glob_set_ok(patterns)
}

/// Builds a matcher from the configured glob patterns; fails exactly when
/// the glob crate does not accept the pattern list.
pub fn build_glob_set(globs: &Vec<String>) -> (r: Result<globset::GlobSet, GlobSetError>)
    ensures
        r is Ok <==> spec_globs_accepted(globs.deep_view()),
        r matches Ok(g) ==> glob_set_patterns(g) == globs.deep_view().to_set(),
{
    match crate::globs::build_glob_set_raw(globs) {
        Ok(g) => Ok(g),
        Err(e) => Err(GlobSetError { message: crate::globs::glob_error_message(&e) }),
    }
}

/// The test files among `s`.
pub open spec fn spec_test_files(s: Set<Seq<char>>) -> Set<Seq<char>> {
    Set::new(|f: Seq<char>| s.contains(f) && spec_is_test_file(f))
}

/// The elements of `s` whose root-relative form matches the glob set.
pub open spec fn spec_glob_filtered(s: Set<Seq<char>>, g: globset::GlobSet, root: Seq<char>) -> Set<
    Seq<char>,
> {
    Set::new(|f: Seq<char>| s.contains(f) && matches_any(g, rel_to_root(f, root)))
}

/// The outcome of the selection: the impacted tests to run, the tests that
/// always run, and the impacted tests filtered out by configuration.
/// Impacted and ignored are disjoint by construction.
#[derive(Debug)]
pub struct SnobResult {
    pub impacted: Vec<String>,
    pub always_run: Vec<String>,
    pub ignored: Vec<String>,
}

impl SnobResult {
    /// Filters the impact closure down to test files, removes those matching
    /// the ignore globs, and collects the always-run tests from the whole
    /// workspace.
    pub fn new(
        impacted: Vec<String>,
        workspace_files: Vec<String>,
        ignore_glob: &globset::GlobSet,
        always_run_glob: &globset::GlobSet,
        git_root: &str,
    ) -> (r: SnobResult)
        requires
            forall|i: int|
                0 <= i < impacted.len() ==> path_under(
                    #[trigger] impacted.deep_view()[i],
                    git_root@,
                ),
            forall|i: int|
                0 <= i < workspace_files.len() ==> path_under(
                    #[trigger] workspace_files.deep_view()[i],
                    git_root@,
                ),
        ensures
            r.impacted.deep_view().no_duplicates(),
            r.ignored.deep_view().no_duplicates(),
            r.always_run.deep_view().no_duplicates(),
            r.ignored.deep_view().to_set() == spec_glob_filtered(
                spec_test_files(impacted.deep_view().to_set()),
                *ignore_glob,
                git_root@,
            ),
            r.impacted.deep_view().to_set() == spec_test_files(
                impacted.deep_view().to_set(),
            ).difference(
                spec_glob_filtered(
                    spec_test_files(impacted.deep_view().to_set()),
                    *ignore_glob,
                    git_root@,
                ),
            ),
            r.always_run.deep_view().to_set() == spec_glob_filtered(
                spec_test_files(workspace_files.deep_view().to_set()),
                *always_run_glob,
                git_root@,
            ),
            forall|f: Seq<char>|
                !(#[trigger] r.impacted.deep_view().contains(f) && r.ignored.deep_view().contains(
                    f,
                )),
    {
        let ghost root = git_root@;
        let ghost iset = impacted.deep_view().to_set();
        let ghost wset = workspace_files.deep_view().to_set();
        // the impacted test files, deduplicated
        let mut impacted_tests: Vec<String> = Vec::new();
        let mut i: usize = 0;
        while i < impacted.len()
            invariant
                0 <= i <= impacted.len(),
                impacted.deep_view().len() == impacted.len(),
                impacted_tests.deep_view().no_duplicates(),
                forall|f: Seq<char>| #[trigger]
                    impacted_tests.deep_view().contains(f) ==> spec_is_test_file(f) && (exists|
                        j: int,
                    |
                        0 <= j < i && impacted.deep_view()[j] == f),
                forall|j: int|
                    0 <= j < i && spec_is_test_file(#[trigger] impacted.deep_view()[j])
                        ==> impacted_tests.deep_view().contains(impacted.deep_view()[j]),
            decreases impacted.len() - i,
        {
            let ghost fv = impacted.deep_view()[i as int];
            let ghost pre = impacted_tests.deep_view();
            if is_test_file(impacted[i].as_str()) {
                if !contains_path(&impacted_tests, impacted[i].as_str()) {
                    impacted_tests.push(impacted[i].clone());
                    proof {
                        broadcast use vstd::seq_lib::group_seq_properties;

                        assert(impacted_tests.deep_view() =~~= pre.push(fv));
                        assert forall|f: Seq<char>| #[trigger]
                            impacted_tests.deep_view().contains(f) implies spec_is_test_file(f) && (
                        exists|j: int| 0 <= j < i + 1 && impacted.deep_view()[j] == f) by {
                            if pre.contains(f) {
                            } else {
                                assert(f == fv);
                                assert(impacted.deep_view()[i as int] == f);
                            }
                        }
                    }
                } else {
                    proof {
                        assert(impacted_tests.deep_view().contains(fv));
                    }
                }
            }
            proof {
                broadcast use vstd::seq_lib::group_seq_properties;

                assert forall|j: int|
                    0 <= j < i + 1 && spec_is_test_file(#[trigger] impacted.deep_view()[j])
                implies impacted_tests.deep_view().contains(impacted.deep_view()[j]) by {
                    if j < i {
                        assert(pre.contains(impacted.deep_view()[j]));
                        let w = choose|w: int| 0 <= w < pre.len() && pre[w] == impacted.deep_view()[j];
                        assert(impacted_tests.deep_view()[w] == impacted.deep_view()[j]);
                    }
                }
            }
            i = i + 1;
        }
        proof {
            assert(impacted_tests.deep_view().to_set() =~= spec_test_files(iset));
            assert forall|j: int| 0 <= j < impacted_tests.len() implies path_under(
                #[trigger] impacted_tests.deep_view()[j],
                root,
            ) by {
                assert(impacted_tests.deep_view().contains(impacted_tests.deep_view()[j]));
                let k = choose|k: int|
                    0 <= k < impacted.deep_view().len() && impacted.deep_view()[k]
                        == impacted_tests.deep_view()[j];
            }
        }
        // split them into ignored and kept
        let mut ignored: Vec<String> = Vec::new();
        let mut kept: Vec<String> = Vec::new();
        let mut k: usize = 0;
        while k < impacted_tests.len()
            invariant
                0 <= k <= impacted_tests.len(),
                root == git_root@,
                impacted_tests.deep_view().len() == impacted_tests.len(),
                impacted_tests.deep_view().no_duplicates(),
                forall|j: int|
                    0 <= j < impacted_tests.len() ==> path_under(
                        #[trigger] impacted_tests.deep_view()[j],
                        root,
                    ),
                ignored.deep_view().no_duplicates(),
                kept.deep_view().no_duplicates(),
                forall|f: Seq<char>| #[trigger]
                    ignored.deep_view().contains(f) ==> matches_any(*ignore_glob, rel_to_root(f, root))
                        && (exists|j: int| 0 <= j < k && impacted_tests.deep_view()[j] == f),
                forall|f: Seq<char>| #[trigger]
                    kept.deep_view().contains(f) ==> !matches_any(*ignore_glob, rel_to_root(f, root))
                        && (exists|j: int| 0 <= j < k && impacted_tests.deep_view()[j] == f),
                forall|j: int|
                    0 <= j < k ==> (matches_any(
                        *ignore_glob,
                        rel_to_root(#[trigger] impacted_tests.deep_view()[j], root),
                    ) ==> ignored.deep_view().contains(impacted_tests.deep_view()[j])),
                forall|j: int|
                    0 <= j < k ==> (!matches_any(
                        *ignore_glob,
                        rel_to_root(#[trigger] impacted_tests.deep_view()[j], root),
                    ) ==> kept.deep_view().contains(impacted_tests.deep_view()[j])),
            decreases impacted_tests.len() - k,
        {
            let ghost tv = impacted_tests.deep_view()[k as int];
            let rel = match rel_path(impacted_tests[k].as_str(), git_root) {
                Some(q) => q,
                None => {
                    proof {
                        assert(path_under(tv, root));
                        assert(false);
                    }
                    String::new()
                },
            };
            let ghost pre_ignored = ignored.deep_view();
            let ghost pre_kept = kept.deep_view();
            proof {
                assert(impacted_tests@[k as int]@ == tv);
                assert(rel@ == rel_to_root(tv, root));
            }
            if glob_set_matches(ignore_glob, rel.as_str()) {
                proof {
                    if ignored.deep_view().contains(tv) {
                        let j = choose|j: int|
                            0 <= j < k && impacted_tests.deep_view()[j] == tv;
                        assert(impacted_tests.deep_view()[j] == impacted_tests.deep_view()[
                            k as int
                        ]);
                        assert(false);
                    }
                }
                ignored.push(impacted_tests[k].clone());
                proof {
                    broadcast use vstd::seq_lib::group_seq_properties;

                    assert(ignored.deep_view() =~~= pre_ignored.push(tv));
                    assert forall|f: Seq<char>| #[trigger] ignored.deep_view().contains(f) implies matches_any(
                        *ignore_glob,
                        rel_to_root(f, root),
                    ) && (exists|j: int| 0 <= j < k + 1 && impacted_tests.deep_view()[j] == f) by {
                        if pre_ignored.contains(f) {
                        } else {
                            assert(f == tv);
                            assert(impacted_tests.deep_view()[k as int] == f);
                        }
                    }
                }
            } else {
                proof {
                    if kept.deep_view().contains(tv) {
                        let j = choose|j: int|
                            0 <= j < k && impacted_tests.deep_view()[j] == tv;
                        assert(impacted_tests.deep_view()[j] == impacted_tests.deep_view()[
                            k as int
                        ]);
                        assert(false);
                    }
                }
                kept.push(impacted_tests[k].clone());
                proof {
                    broadcast use vstd::seq_lib::group_seq_properties;

                    assert(kept.deep_view() =~~= pre_kept.push(tv));
                    assert forall|f: Seq<char>| #[trigger] kept.deep_view().contains(f) implies !matches_any(
                        *ignore_glob,
                        rel_to_root(f, root),
                    ) && (exists|j: int| 0 <= j < k + 1 && impacted_tests.deep_view()[j] == f) by {
                        if pre_kept.contains(f) {
                        } else {
                            assert(f == tv);
                            assert(impacted_tests.deep_view()[k as int] == f);
                        }
                    }
                }
            }
            proof {
                broadcast use vstd::seq_lib::group_seq_properties;

                assert forall|j: int| 0 <= j < k + 1 && matches_any(
                    *ignore_glob,
                    rel_to_root(#[trigger] impacted_tests.deep_view()[j], root),
                ) implies ignored.deep_view().contains(impacted_tests.deep_view()[j]) by {
                    if j < k {
                        assert(pre_ignored.contains(impacted_tests.deep_view()[j]));
                        let w = choose|w: int|
                            0 <= w < pre_ignored.len() && pre_ignored[w]
                                == impacted_tests.deep_view()[j];
                        assert(ignored.deep_view()[w] == impacted_tests.deep_view()[j]);
                    } else {
                        assert(ignored.deep_view().contains(tv));
                    }
                }
                assert forall|j: int| 0 <= j < k + 1 && !matches_any(
                    *ignore_glob,
                    rel_to_root(#[trigger] impacted_tests.deep_view()[j], root),
                ) implies kept.deep_view().contains(impacted_tests.deep_view()[j]) by {
                    if j < k {
                        assert(pre_kept.contains(impacted_tests.deep_view()[j]));
                        let w = choose|w: int|
                            0 <= w < pre_kept.len() && pre_kept[w]
                                == impacted_tests.deep_view()[j];
                        assert(kept.deep_view()[w] == impacted_tests.deep_view()[j]);
                    } else {
                        assert(kept.deep_view().contains(tv));
                    }
                }
            }
            k = k + 1;
        }
        proof {
            assert(ignored.deep_view().to_set() =~= spec_glob_filtered(
                spec_test_files(iset),
                *ignore_glob,
                root,
            )) by {
                assert forall|f: Seq<char>| #[trigger] ignored.deep_view().to_set().contains(f)
                implies spec_glob_filtered(spec_test_files(iset), *ignore_glob, root).contains(
                    f,
                ) by {
                    assert(impacted_tests.deep_view().to_set().contains(f));
                }
                assert forall|f: Seq<char>|
                    spec_glob_filtered(spec_test_files(iset), *ignore_glob, root).contains(f)
                implies ignored.deep_view().to_set().contains(f) by {
                    assert(impacted_tests.deep_view().to_set().contains(f));
                    let j = choose|j: int|
                        0 <= j < impacted_tests.deep_view().len() && impacted_tests.deep_view()[j]
                            == f;
                }
            }
            assert(kept.deep_view().to_set() =~= spec_test_files(iset).difference(
                spec_glob_filtered(spec_test_files(iset), *ignore_glob, root),
            )) by {
                assert forall|f: Seq<char>| #[trigger] kept.deep_view().to_set().contains(f)
                implies spec_test_files(iset).contains(f) && !spec_glob_filtered(
                    spec_test_files(iset),
                    *ignore_glob,
                    root,
                ).contains(f) by {
                    assert(impacted_tests.deep_view().to_set().contains(f));
                }
                assert forall|f: Seq<char>|
                    spec_test_files(iset).contains(f) && !spec_glob_filtered(
                        spec_test_files(iset),
                        *ignore_glob,
                        root,
                    ).contains(f) implies kept.deep_view().to_set().contains(f) by {
                    assert(impacted_tests.deep_view().to_set().contains(f));
                    let j = choose|j: int|
                        0 <= j < impacted_tests.deep_view().len() && impacted_tests.deep_view()[j]
                            == f;
                }
            }
        }
        // the always-run tests from the whole workspace
        let mut always_run: Vec<String> = Vec::new();
        let mut w: usize = 0;
        while w < workspace_files.len()
            invariant
                0 <= w <= workspace_files.len(),
                root == git_root@,
                workspace_files.deep_view().len() == workspace_files.len(),
                forall|j: int|
                    0 <= j < workspace_files.len() ==> path_under(
                        #[trigger] workspace_files.deep_view()[j],
                        root,
                    ),
                always_run.deep_view().no_duplicates(),
                forall|f: Seq<char>| #[trigger]
                    always_run.deep_view().contains(f) ==> spec_is_test_file(f) && matches_any(
                        *always_run_glob,
                        rel_to_root(f, root),
                    ) && (exists|j: int| 0 <= j < w && workspace_files.deep_view()[j] == f),
                forall|j: int|
                    0 <= j < w ==> (spec_is_test_file(#[trigger] workspace_files.deep_view()[j])
                        && matches_any(
                        *always_run_glob,
                        rel_to_root(workspace_files.deep_view()[j], root),
                    ) ==> always_run.deep_view().contains(workspace_files.deep_view()[j])),
            decreases workspace_files.len() - w,
        {
            let ghost fv = workspace_files.deep_view()[w as int];
            let rel = match rel_path(workspace_files[w].as_str(), git_root) {
                Some(q) => q,
                None => {
                    proof {
                        assert(path_under(fv, root));
                        assert(false);
                    }
                    String::new()
                },
            };
            let ghost pre = always_run.deep_view();
            proof {
                assert(workspace_files@[w as int]@ == fv);
                assert(rel@ == rel_to_root(fv, root));
            }
            if glob_set_matches(always_run_glob, rel.as_str()) && is_test_file(
                workspace_files[w].as_str(),
            ) {
                if !contains_path(&always_run, workspace_files[w].as_str()) {
                    always_run.push(workspace_files[w].clone());
                    proof {
                        broadcast use vstd::seq_lib::group_seq_properties;

                        assert(always_run.deep_view() =~~= pre.push(fv));
                        assert forall|f: Seq<char>| #[trigger] always_run.deep_view().contains(f)
                        implies spec_is_test_file(f) && matches_any(
                            *always_run_glob,
                            rel_to_root(f, root),
                        ) && (exists|j: int| 0 <= j < w + 1 && workspace_files.deep_view()[j] == f)
                            by {
                            if pre.contains(f) {
                            } else {
                                assert(f == fv);
                                assert(workspace_files.deep_view()[w as int] == f);
                            }
                        }
                    }
                } else {
                    proof {
                        assert(always_run.deep_view().contains(fv));
                    }
                }
            }
            proof {
                broadcast use vstd::seq_lib::group_seq_properties;

                assert forall|j: int|
                    0 <= j < w + 1 && spec_is_test_file(#[trigger] workspace_files.deep_view()[j])
                        && matches_any(
                        *always_run_glob,
                        rel_to_root(workspace_files.deep_view()[j], root),
                    ) implies always_run.deep_view().contains(workspace_files.deep_view()[j]) by {
                    if j < w {
                        assert(pre.contains(workspace_files.deep_view()[j]));
                        let x = choose|x: int|
                            0 <= x < pre.len() && pre[x] == workspace_files.deep_view()[j];
                        assert(always_run.deep_view()[x] == workspace_files.deep_view()[j]);
                    }
                }
            }
            w = w + 1;
        }
        proof {
            assert(always_run.deep_view().to_set() =~= spec_glob_filtered(
                spec_test_files(wset),
                *always_run_glob,
                root,
            ));
        }
        SnobResult { impacted: kept, always_run, ignored }
    }
}

/// Either run everything, or the selected subset.
pub enum SnobOutput {
    All,
    Partial(SnobResult),
}

/// Does any changed file, in its root-relative form, match the
/// run-all-tests glob set?
pub fn run_all_tests(
    updated_files: &Vec<String>,
    run_all_tests_on_change: &globset::GlobSet,
    git_root: &str,
) -> (r: bool)
    requires
        forall|i: int|
            0 <= i < updated_files.len() ==> path_under(
                #[trigger] updated_files.deep_view()[i],
                git_root@,
            ),
    ensures
        r == exists|i: int|
            0 <= i < updated_files.len() && matches_any(
                *run_all_tests_on_change,
                rel_to_root(#[trigger] updated_files.deep_view()[i], git_root@),
            ),
{
    crate::utils::should_run_all_tests(updated_files, run_all_tests_on_change, git_root)
}

/// Does a directory entry count as a first-level component: a source file,
/// or a directory holding a package marker?
pub open spec fn spec_component_entry(e: DirEntryInfo) -> bool {
    (e.is_file && is_suffix(".py"@, e.path@)) || (e.is_dir && e.has_init)
}

/// The component paths among one lookup root's entries, in order.
pub open spec fn spec_first_level(list: Seq<DirEntryInfo>) -> Seq<Seq<char>>
    decreases list.len(),
{
    if list.len() == 0 {
        Seq::empty()
    } else {
        let pre = spec_first_level(list.drop_last());
        if spec_component_entry(list.last()) {
            pre.push(list.last().path@)
        } else {
            pre
        }
    }
}

/// Filters each lookup root's directory entries down to its first-level
/// components: source files, and directories holding a package marker.
pub fn get_first_level_components(entries: &Vec<Vec<DirEntryInfo>>) -> (r: Vec<Vec<String>>)
    ensures
        r.len() == entries.len(),
        forall|i: int|
            0 <= i < entries.len() ==> (#[trigger] r@[i]).deep_view() == spec_first_level(
                entries@[i]@,
            ),
{
    let mut r: Vec<Vec<String>> = Vec::new();
    let mut i: usize = 0;
    while i < entries.len()
        invariant
            0 <= i <= entries.len(),
            r.len() == i,
            forall|j: int|
                0 <= j < i ==> (#[trigger] r@[j]).deep_view() == spec_first_level(entries@[j]@),
        decreases entries.len() - i,
    {
        let list = &entries[i];
        let mut comps: Vec<String> = Vec::new();
        let mut j: usize = 0;
        proof {
            assert(comps.deep_view() =~~= spec_first_level(list@.subrange(0, 0)));
        }
        while j < list.len()
            invariant
                0 <= j <= list.len(),
                comps.deep_view() == spec_first_level(list@.subrange(0, j as int)),
            decreases list.len() - j,
        {
            let e = &list[j];
            proof {
                assert(list@.subrange(0, j + 1).drop_last() =~~= list@.subrange(0, j as int));
                assert(list@.subrange(0, j + 1).last() == list@[j as int]);
            }
            let keep = (e.is_file && str_ends_with(e.path.as_str(), ".py")) || (e.is_dir
                && e.has_init);
            if keep {
                let ghost pre = comps.deep_view();
                comps.push(e.path.clone());
                proof {
                    assert(comps.deep_view() =~~= pre.push(list@[j as int].path@));
                }
            }
            j = j + 1;
        }
        proof {
            assert(list@.subrange(0, list.len() as int) =~~= list@);
        }
        r.push(comps);
        i = i + 1;
    }
    r
}

/// Does some pattern of the set match the path?
pub open spec fn spec_patterns_match(patterns: Set<Seq<char>>, path: Seq<char>) -> bool {
    exists|p: Seq<char>| patterns.contains(p) && glob_match(p, path)
}

/// The elements of `s` whose root-relative form matches some pattern.
pub open spec fn spec_patterns_filtered(
    s: Set<Seq<char>>,
    patterns: Set<Seq<char>>,
    root: Seq<char>,
) -> Set<Seq<char>> {
    Set::new(|f: Seq<char>| s.contains(f) && spec_patterns_match(patterns, rel_to_root(f, root)))
}

/// Does workspace file number `i` contribute a reverse edge to `target`:
/// it has readable contents, is not excluded by the ignore patterns, parses,
/// and one of its imports resolves to `target`? A file never counts as an
/// importer of itself, so the graph holds no self-loop.
pub open spec fn file_contributes(
    files: Seq<Seq<char>>,
    sources: Seq<Option<Seq<char>>>,
    project_files: Set<Seq<char>>,
    flc: Seq<Seq<char>>,
    ignore_patterns: Set<Seq<char>>,
    root: Seq<char>,
    i: int,
    target: Seq<char>,
) -> bool {
    &&& 0 <= i < files.len()
    &&& files[i] != target
    &&& sources[i] is Some
    &&& !spec_patterns_match(ignore_patterns, rel_to_root(files[i], root))
    &&& parsed_imports(sources[i].unwrap()) is Some
    &&& spec_file_dependencies(
        files[i],
        parsed_imports(sources[i].unwrap()).unwrap()@,
        project_files,
        flc,
    ).contains(target)
}

/// The reverse-dependency graph of the workspace: `target` maps to every
/// file that contributes an edge to it.
pub open spec fn spec_graph(
    files: Seq<Seq<char>>,
    sources: Seq<Option<Seq<char>>>,
    project_files: Set<Seq<char>>,
    flc: Seq<Seq<char>>,
    ignore_patterns: Set<Seq<char>>,
    root: Seq<char>,
) -> Map<Seq<char>, Set<Seq<char>>> {
    Map::new(
        |t: Seq<char>|
            exists|i: int|
                file_contributes(files, sources, project_files, flc, ignore_patterns, root, i, t),
        |t: Seq<char>|
            Set::new(
                |f: Seq<char>|
                    exists|i: int|
                        files[i] == f && file_contributes(
                            files,
                            sources,
                            project_files,
                            flc,
                            ignore_patterns,
                            root,
                            i,
                            t,
                        ),
            ),
    )
}

/// Records every dependency of one file: an edge from each dependency back
/// to the importing file.
fn insert_file_edges(g: &mut DependencyGraph, file: &str, deps: &Vec<String>)
    requires
        old(g).wf(),
    ensures
        final(g).wf(),
        final(g)@.dom() == old(g)@.dom() + deps.deep_view().to_set(),
        forall|t: Seq<char>|
            deps.deep_view().to_set().contains(t) ==> final(g)@[t] == old_importers(
                *old(g),
                t,
            ).insert(file@),
        forall|t: Seq<char>|
            old(g)@.dom().contains(t) && !deps.deep_view().to_set().contains(t) ==> final(g)@[t]
                == #[trigger] old(g)@[t],
{
    let ghost g0 = *old(g);
    let mut j: usize = 0;
    proof {
        assert(g@.dom() =~= g0@.dom() + deps.deep_view().subrange(0, 0).to_set());
    }
    while j < deps.len()
        invariant
            0 <= j <= deps.len(),
            g0 == *old(g),
            deps.deep_view().len() == deps.len(),
            g.wf(),
            g@.dom() == g0@.dom() + deps.deep_view().subrange(0, j as int).to_set(),
            forall|t: Seq<char>|
                deps.deep_view().subrange(0, j as int).to_set().contains(t) ==> g@[t]
                    == old_importers(g0, t).insert(file@),
            forall|t: Seq<char>|
                g0@.dom().contains(t) && !deps.deep_view().subrange(0, j as int).to_set().contains(
                    t,
                ) ==> g@[t] == #[trigger] g0@[t],
        decreases deps.len() - j,
    {
        let ghost pre = *g;
        let ghost dv = deps.deep_view()[j as int];
        proof {
            broadcast use vstd::seq_lib::group_seq_properties;

            assert(deps@[j as int]@ == dv);
        }
        g.insert_edge(deps[j].as_str(), file);
        proof {
            broadcast use vstd::seq_lib::group_seq_properties;

            let sub_j = deps.deep_view().subrange(0, j as int);
            let sub_j1 = deps.deep_view().subrange(0, j + 1);
            assert(sub_j1 =~~= sub_j.push(dv));
            sub_j.lemma_push_to_set_commute(dv);
            assert(sub_j1.to_set() =~= sub_j.to_set().insert(dv));
            assert(g@.dom() =~= g0@.dom() + sub_j1.to_set());
            assert forall|t: Seq<char>| sub_j1.to_set().contains(t) implies g@[t] == old_importers(
                g0,
                t,
            ).insert(file@) by {
                if t == dv {
                    if sub_j.to_set().contains(t) {
                        assert(pre@[t] == old_importers(g0, t).insert(file@));
                        assert(old_importers(pre, t) == pre@[t]);
                        assert(g@[t] =~= old_importers(g0, t).insert(file@));
                    } else {
                        if g0@.dom().contains(t) {
                            assert(pre@[t] == g0@[t]);
                            assert(old_importers(pre, t) == old_importers(g0, t));
                        } else {
                            assert(!pre@.dom().contains(t));
                            assert(old_importers(pre, t) =~= old_importers(g0, t));
                        }
                        assert(g@[t] == old_importers(pre, t).insert(file@));
                    }
                } else {
                    assert(sub_j.to_set().contains(t));
                    assert(pre@.dom().contains(t));
                    assert(g@[t] == pre@[t]);
                }
            }
            assert forall|t: Seq<char>|
                g0@.dom().contains(t) && !sub_j1.to_set().contains(t) implies g@[t] == g0@[t] by {
                assert(!sub_j.to_set().contains(t));
                assert(pre@[t] == g0@[t]);
                assert(pre@.dom().contains(t));
                assert(t != dv);
                assert(g@[t] == pre@[t]);
            }
        }
        j = j + 1;
    }
    proof {
        assert(deps.deep_view().subrange(0, deps.len() as int) =~~= deps.deep_view());
    }
}

/// Builds the reverse-dependency graph of the workspace: for every
/// non-ignored file whose contents parse, the imports are extracted and
/// resolved, and each resolved dependency gains the file as an importer.
/// A file that fails to parse contributes nothing but does not fail the
/// build.
pub fn build_dependency_graph(
    workspace_files: &Vec<String>,
    sources: &Vec<Option<String>>,
    project_files: &Vec<String>,
    file_ignores: &globset::GlobSet,
    first_level_components: &Vec<Vec<String>>,
    git_root: &str,
) -> (r: DependencyGraph)
    requires
        workspace_files.len() == sources.len(),
        forall|i: int|
            0 <= i < workspace_files.len() ==> path_under(
                #[trigger] workspace_files.deep_view()[i],
                git_root@,
            ),
    ensures
        r.wf(),
        r@ == spec_graph(
            workspace_files.deep_view(),
            sources.deep_view(),
            project_files.deep_view().to_set(),
            first_level_components.deep_view().flatten(),
            glob_set_patterns(*file_ignores),
            git_root@,
        ),
        forall|t: Seq<char>| !crate::graph::has_edge(r@, t, t),
{
    let ghost files_dv = workspace_files.deep_view();
    let ghost sources_dv = sources.deep_view();
    let ghost pf = project_files.deep_view().to_set();
    let ghost flc = first_level_components.deep_view().flatten();
    let ghost pats = glob_set_patterns(*file_ignores);
    let ghost root = git_root@;
    let mut g = DependencyGraph::new();
    let mut i: usize = 0;
    proof {
        assert(g@ =~~= spec_graph(
            files_dv.subrange(0, 0),
            sources_dv.subrange(0, 0),
            pf,
            flc,
            pats,
            root,
        ));
    }
    while i < workspace_files.len()
        invariant
            0 <= i <= workspace_files.len(),
            files_dv == workspace_files.deep_view(),
            sources_dv == sources.deep_view(),
            pf == project_files.deep_view().to_set(),
            flc == first_level_components.deep_view().flatten(),
            pats == glob_set_patterns(*file_ignores),
            root == git_root@,
            workspace_files.len() == sources.len(),
            files_dv.len() == workspace_files.len(),
            sources_dv.len() == sources.len(),
            forall|j: int|
                0 <= j < workspace_files.len() ==> path_under(#[trigger] files_dv[j], root),
            g.wf(),
            g@ == spec_graph(
                files_dv.subrange(0, i as int),
                sources_dv.subrange(0, i as int),
                pf,
                flc,
                pats,
                root,
            ),
        decreases workspace_files.len() - i,
    {
        let ghost pre_graph = g@;
        let ghost fv = files_dv[i as int];
        proof {
            assert(workspace_files@[i as int]@ == fv);
        }
        if let Some(src) = &sources[i] {
            proof {
                assert(sources_dv[i as int] == Some(src@));
            }
            let rel = match rel_path(workspace_files[i].as_str(), git_root) {
                Some(q) => q,
                None => {
                    proof {
                        assert(path_under(fv, root));
                        assert(false);
                    }
                    String::new()
                },
            };
            proof {
                assert(rel@ == rel_to_root(fv, root));
            }
            if !glob_set_matches(file_ignores, rel.as_str()) {
                match extract_file_dependencies(
                    &workspace_files[i],
                    src.as_str(),
                    project_files,
                    first_level_components,
                ) {
                    Some(deps) => {
                        let own_deps = drop_self_dependency(&deps, workspace_files[i].as_str());
                        insert_file_edges(&mut g, workspace_files[i].as_str(), &own_deps);
                        proof {
                            assert(deps.deep_view().to_set() == spec_file_dependencies(
                                fv,
                                parsed_imports(sources_dv[i as int].unwrap()).unwrap()@,
                                pf,
                                flc,
                            ));
                            assert(forall|t: Seq<char>| #[trigger]
                                own_deps.deep_view().to_set().contains(t) <==> file_contributes(
                                files_dv,
                                sources_dv,
                                pf,
                                flc,
                                pats,
                                root,
                                i as int,
                                t,
                            ));
                            lemma_graph_extend(
                                pre_graph,
                                g@,
                                files_dv,
                                sources_dv,
                                pf,
                                flc,
                                pats,
                                root,
                                i as int,
                                own_deps.deep_view().to_set(),
                            );
                        }
                    },
                    None => {
                        proof {
                            lemma_graph_skip(
                                pre_graph,
                                files_dv,
                                sources_dv,
                                pf,
                                flc,
                                pats,
                                root,
                                i as int,
                            );
                        }
                    },
                }
            } else {
                proof {
                    lemma_graph_skip(pre_graph, files_dv, sources_dv, pf, flc, pats, root, i as int);
                }
            }
        } else {
            proof {
                assert(sources_dv[i as int] is None);
                lemma_graph_skip(pre_graph, files_dv, sources_dv, pf, flc, pats, root, i as int);
            }
        }
        i = i + 1;
    }
    proof {
        assert(files_dv.subrange(0, files_dv.len() as int) =~~= files_dv);
        assert(sources_dv.subrange(0, sources_dv.len() as int) =~~= sources_dv);
        assert forall|t: Seq<char>| !crate::graph::has_edge(g@, t, t) by {
            lemma_graph_soundness(files_dv, sources_dv, pf, flc, pats, root, t, t);
            if crate::graph::has_edge(g@, t, t) {
                let w = choose|w: int|
                    files_dv[w] == t && #[trigger] file_contributes(
                        files_dv,
                        sources_dv,
                        pf,
                        flc,
                        pats,
                        root,
                        w,
                        t,
                    );
                assert(false);
            }
        }
    }
    g
}

/// Removes the importing file itself from its dependency list: a file that
/// imports itself contributes no reverse edge, so the graph holds no
/// self-loop.
fn drop_self_dependency(deps: &Vec<String>, file: &str) -> (r: Vec<String>)
    requires
        deps.deep_view().no_duplicates(),
    ensures
        r.deep_view().no_duplicates(),
        forall|t: Seq<char>| #[trigger]
            r.deep_view().to_set().contains(t) <==> (deps.deep_view().to_set().contains(t) && t
                != file@),
{
    let mut r: Vec<String> = Vec::new();
    let mut j: usize = 0;
    while j < deps.len()
        invariant
            0 <= j <= deps.len(),
            deps.deep_view().len() == deps.len(),
            deps.deep_view().no_duplicates(),
            r.deep_view().no_duplicates(),
            forall|t: Seq<char>| #[trigger]
                r.deep_view().contains(t) ==> t != file@ && (exists|k: int|
                    0 <= k < j && deps.deep_view()[k] == t),
            forall|k: int|
                0 <= k < j && #[trigger] deps.deep_view()[k] != file@ ==> r.deep_view().contains(
                    deps.deep_view()[k],
                ),
        decreases deps.len() - j,
    {
        let ghost dv = deps.deep_view()[j as int];
        let ghost pre = r.deep_view();
        if !crate::paths::str_equal(deps[j].as_str(), file) {
            proof {
                if r.deep_view().contains(dv) {
                    let k = choose|k: int| 0 <= k < j && deps.deep_view()[k] == dv;
                    assert(deps.deep_view()[k] == deps.deep_view()[j as int]);
                    assert(false);
                }
            }
            r.push(deps[j].clone());
            proof {
                broadcast use vstd::seq_lib::group_seq_properties;

                assert(r.deep_view() =~~= pre.push(dv));
                assert forall|t: Seq<char>| #[trigger] r.deep_view().contains(t) implies t
                    != file@ && (exists|k: int| 0 <= k < j + 1 && deps.deep_view()[k] == t) by {
                    if pre.contains(t) {
                    } else {
                        assert(t == dv);
                        assert(deps.deep_view()[j as int] == t);
                    }
                }
            }
        }
        proof {
            broadcast use vstd::seq_lib::group_seq_properties;

            assert forall|k: int|
                0 <= k < j + 1 && #[trigger] deps.deep_view()[k] != file@ implies r.deep_view().contains(
                deps.deep_view()[k],
            ) by {
                if k < j {
                    assert(pre.contains(deps.deep_view()[k]));
                    let w = choose|w: int| 0 <= w < pre.len() && pre[w] == deps.deep_view()[k];
                    assert(r.deep_view()[w] == deps.deep_view()[k]);
                } else {
                    assert(r.deep_view().contains(dv));
                }
            }
        }
        j = j + 1;
    }
    proof {
        assert forall|t: Seq<char>| #[trigger] r.deep_view().to_set().contains(t) implies (
        deps.deep_view().to_set().contains(t) && t != file@) by {
            let k = choose|k: int| 0 <= k < deps.deep_view().len() && deps.deep_view()[k] == t;
        }
        assert forall|t: Seq<char>|
            deps.deep_view().to_set().contains(t) && t != file@ implies #[trigger] r.deep_view().to_set().contains(
            t,
        ) by {
            let k = choose|k: int| 0 <= k < deps.deep_view().len() && deps.deep_view()[k] == t;
            assert(deps.deep_view()[k] != file@);
            assert(r.deep_view().contains(deps.deep_view()[k]));
        }
    }
    r
}

/// Extending the prefix by a file that contributes nothing leaves the
/// graph unchanged.
proof fn lemma_graph_skip(
    g: Map<Seq<char>, Set<Seq<char>>>,
    files: Seq<Seq<char>>,
    sources: Seq<Option<Seq<char>>>,
    pf: Set<Seq<char>>,
    flc: Seq<Seq<char>>,
    pats: Set<Seq<char>>,
    root: Seq<char>,
    i: int,
)
    requires
        0 <= i < files.len(),
        i < sources.len(),
        g == spec_graph(files.subrange(0, i), sources.subrange(0, i), pf, flc, pats, root),
        forall|t: Seq<char>|
            !file_contributes(files, sources, pf, flc, pats, root, i, t),
    ensures
        g == spec_graph(files.subrange(0, i + 1), sources.subrange(0, i + 1), pf, flc, pats, root),
{
    lemma_contributes_prefix(files, sources, pf, flc, pats, root, i);
    let lhs = spec_graph(files.subrange(0, i), sources.subrange(0, i), pf, flc, pats, root);
    let rhs = spec_graph(files.subrange(0, i + 1), sources.subrange(0, i + 1), pf, flc, pats, root);
    assert forall|t: Seq<char>| rhs.dom().contains(t) implies lhs.dom().contains(t) by {
        let j = choose|j: int| #[trigger]
            file_contributes(
                files.subrange(0, i + 1),
                sources.subrange(0, i + 1),
                pf,
                flc,
                pats,
                root,
                j,
                t,
            );
        if j == i {
            assert(file_contributes(files, sources, pf, flc, pats, root, i, t));
        } else {
            assert(file_contributes(
                files.subrange(0, i),
                sources.subrange(0, i),
                pf,
                flc,
                pats,
                root,
                j,
                t,
            ));
        }
    }
    assert forall|t: Seq<char>| lhs.dom().contains(t) implies rhs.dom().contains(t) by {
        let j = choose|j: int| #[trigger]
            file_contributes(
                files.subrange(0, i),
                sources.subrange(0, i),
                pf,
                flc,
                pats,
                root,
                j,
                t,
            );
        assert(file_contributes(
            files.subrange(0, i + 1),
            sources.subrange(0, i + 1),
            pf,
            flc,
            pats,
            root,
            j,
            t,
        ));
    }
    assert(lhs.dom() =~= rhs.dom());
    assert forall|t: Seq<char>| lhs.dom().contains(t) implies lhs[t] == rhs[t] by {
        assert forall|f: Seq<char>| rhs[t].contains(f) implies lhs[t].contains(f) by {
            let j = choose|j: int|
                #[trigger] files.subrange(0, i + 1)[j] == f && file_contributes(
                    files.subrange(0, i + 1),
                    sources.subrange(0, i + 1),
                    pf,
                    flc,
                    pats,
                    root,
                    j,
                    t,
                );
            if j == i {
                assert(file_contributes(files, sources, pf, flc, pats, root, i, t));
            } else {
                assert(files.subrange(0, i)[j] == f);
                assert(file_contributes(
                    files.subrange(0, i),
                    sources.subrange(0, i),
                    pf,
                    flc,
                    pats,
                    root,
                    j,
                    t,
                ));
            }
        }
        assert forall|f: Seq<char>| lhs[t].contains(f) implies rhs[t].contains(f) by {
            let j = choose|j: int|
                #[trigger] files.subrange(0, i)[j] == f && file_contributes(
                    files.subrange(0, i),
                    sources.subrange(0, i),
                    pf,
                    flc,
                    pats,
                    root,
                    j,
                    t,
                );
            assert(files.subrange(0, i + 1)[j] == f);
            assert(file_contributes(
                files.subrange(0, i + 1),
                sources.subrange(0, i + 1),
                pf,
                flc,
                pats,
                root,
                j,
                t,
            ));
        }
        assert(lhs[t] =~= rhs[t]);
    }
    assert(lhs =~= rhs);
}

/// Contribution on a prefix agrees with contribution on a longer prefix at
/// the indices both cover.
proof fn lemma_contributes_prefix(
    files: Seq<Seq<char>>,
    sources: Seq<Option<Seq<char>>>,
    pf: Set<Seq<char>>,
    flc: Seq<Seq<char>>,
    pats: Set<Seq<char>>,
    root: Seq<char>,
    i: int,
)
    requires
        0 <= i < files.len(),
        i < sources.len(),
    ensures
        forall|j: int, t: Seq<char>|
            0 <= j < i ==> (#[trigger] file_contributes(
                files.subrange(0, i),
                sources.subrange(0, i),
                pf,
                flc,
                pats,
                root,
                j,
                t,
            ) == file_contributes(
                files.subrange(0, i + 1),
                sources.subrange(0, i + 1),
                pf,
                flc,
                pats,
                root,
                j,
                t,
            )),
        forall|j: int, t: Seq<char>|
            0 <= j <= i ==> (#[trigger] file_contributes(
                files.subrange(0, i + 1),
                sources.subrange(0, i + 1),
                pf,
                flc,
                pats,
                root,
                j,
                t,
            ) == file_contributes(files, sources, pf, flc, pats, root, j, t)),
{
    assert forall|j: int, t: Seq<char>| 0 <= j < i implies (#[trigger] file_contributes(
        files.subrange(0, i),
        sources.subrange(0, i),
        pf,
        flc,
        pats,
        root,
        j,
        t,
    ) == file_contributes(
        files.subrange(0, i + 1),
        sources.subrange(0, i + 1),
        pf,
        flc,
        pats,
        root,
        j,
        t,
    )) by {
        assert(files.subrange(0, i)[j] == files.subrange(0, i + 1)[j]);
        assert(sources.subrange(0, i)[j] == sources.subrange(0, i + 1)[j]);
    }
    assert forall|j: int, t: Seq<char>| 0 <= j <= i implies (#[trigger] file_contributes(
        files.subrange(0, i + 1),
        sources.subrange(0, i + 1),
        pf,
        flc,
        pats,
        root,
        j,
        t,
    ) == file_contributes(files, sources, pf, flc, pats, root, j, t)) by {
        assert(files.subrange(0, i + 1)[j] == files[j]);
        assert(sources.subrange(0, i + 1)[j] == sources[j]);
    }
}

/// Extending the prefix by a file whose dependency set is `deps` adds that
/// file as an importer of exactly those targets.
proof fn lemma_graph_extend(
    g_pre: Map<Seq<char>, Set<Seq<char>>>,
    g_post: Map<Seq<char>, Set<Seq<char>>>,
    files: Seq<Seq<char>>,
    sources: Seq<Option<Seq<char>>>,
    pf: Set<Seq<char>>,
    flc: Seq<Seq<char>>,
    pats: Set<Seq<char>>,
    root: Seq<char>,
    i: int,
    deps: Set<Seq<char>>,
)
    requires
        0 <= i < files.len(),
        i < sources.len(),
        g_pre == spec_graph(files.subrange(0, i), sources.subrange(0, i), pf, flc, pats, root),
        forall|t: Seq<char>|
            #[trigger] deps.contains(t) <==> file_contributes(
                files,
                sources,
                pf,
                flc,
                pats,
                root,
                i,
                t,
            ),
        g_post.dom() == g_pre.dom() + deps,
        forall|t: Seq<char>|
            deps.contains(t) ==> g_post[t] == spec_old_importers(g_pre, t).insert(files[i]),
        forall|t: Seq<char>|
            g_pre.dom().contains(t) && !deps.contains(t) ==> g_post[t] == #[trigger] g_pre[t],
    ensures
        g_post == spec_graph(
            files.subrange(0, i + 1),
            sources.subrange(0, i + 1),
            pf,
            flc,
            pats,
            root,
        ),
{
    lemma_contributes_prefix(files, sources, pf, flc, pats, root, i);
    let rhs = spec_graph(files.subrange(0, i + 1), sources.subrange(0, i + 1), pf, flc, pats, root);
    assert forall|t: Seq<char>| g_post.dom().contains(t) implies rhs.dom().contains(t) by {
        if deps.contains(t) {
            assert(file_contributes(
                files.subrange(0, i + 1),
                sources.subrange(0, i + 1),
                pf,
                flc,
                pats,
                root,
                i,
                t,
            ));
        } else {
            assert(g_pre.dom().contains(t));
            let j = choose|j: int| #[trigger]
                file_contributes(
                    files.subrange(0, i),
                    sources.subrange(0, i),
                    pf,
                    flc,
                    pats,
                    root,
                    j,
                    t,
                );
            assert(file_contributes(
                files.subrange(0, i + 1),
                sources.subrange(0, i + 1),
                pf,
                flc,
                pats,
                root,
                j,
                t,
            ));
        }
    }
    assert forall|t: Seq<char>| rhs.dom().contains(t) implies g_post.dom().contains(t) by {
        let j = choose|j: int| #[trigger]
            file_contributes(
                files.subrange(0, i + 1),
                sources.subrange(0, i + 1),
                pf,
                flc,
                pats,
                root,
                j,
                t,
            );
        if j == i {
            assert(deps.contains(t));
        } else {
            assert(file_contributes(
                files.subrange(0, i),
                sources.subrange(0, i),
                pf,
                flc,
                pats,
                root,
                j,
                t,
            ));
            assert(g_pre.dom().contains(t));
        }
    }
    assert(g_post.dom() =~= rhs.dom());
    assert forall|t: Seq<char>| g_post.dom().contains(t) implies g_post[t] == rhs[t] by {
        assert forall|f: Seq<char>| g_post[t].contains(f) implies rhs[t].contains(f) by {
            if deps.contains(t) {
                if f == files[i] {
                    assert(files.subrange(0, i + 1)[i] == f);
                    assert(file_contributes(
                        files.subrange(0, i + 1),
                        sources.subrange(0, i + 1),
                        pf,
                        flc,
                        pats,
                        root,
                        i,
                        t,
                    ));
                } else {
                    assert(spec_old_importers(g_pre, t).contains(f));
                    assert(g_pre.dom().contains(t) && g_pre[t].contains(f));
                    let j = choose|j: int|
                        #[trigger] files.subrange(0, i)[j] == f && file_contributes(
                            files.subrange(0, i),
                            sources.subrange(0, i),
                            pf,
                            flc,
                            pats,
                            root,
                            j,
                            t,
                        );
                    assert(files.subrange(0, i + 1)[j] == f);
                    assert(file_contributes(
                        files.subrange(0, i + 1),
                        sources.subrange(0, i + 1),
                        pf,
                        flc,
                        pats,
                        root,
                        j,
                        t,
                    ));
                }
            } else {
                assert(g_post[t] == g_pre[t]);
                let j = choose|j: int|
                    #[trigger] files.subrange(0, i)[j] == f && file_contributes(
                        files.subrange(0, i),
                        sources.subrange(0, i),
                        pf,
                        flc,
                        pats,
                        root,
                        j,
                        t,
                    );
                assert(files.subrange(0, i + 1)[j] == f);
                assert(file_contributes(
                    files.subrange(0, i + 1),
                    sources.subrange(0, i + 1),
                    pf,
                    flc,
                    pats,
                    root,
                    j,
                    t,
                ));
            }
        }
        assert forall|f: Seq<char>| rhs[t].contains(f) implies g_post[t].contains(f) by {
            let j = choose|j: int|
                #[trigger] files.subrange(0, i + 1)[j] == f && file_contributes(
                    files.subrange(0, i + 1),
                    sources.subrange(0, i + 1),
                    pf,
                    flc,
                    pats,
                    root,
                    j,
                    t,
                );
            if j == i {
                assert(deps.contains(t));
                assert(f == files[i]);
                assert(g_post[t] == spec_old_importers(g_pre, t).insert(files[i]));
            } else {
                assert(file_contributes(
                    files.subrange(0, i),
                    sources.subrange(0, i),
                    pf,
                    flc,
                    pats,
                    root,
                    j,
                    t,
                ));
                assert(files.subrange(0, i)[j] == f);
                assert(g_pre.dom().contains(t));
                assert(g_pre[t].contains(f));
                if deps.contains(t) {
                    assert(g_post[t] == spec_old_importers(g_pre, t).insert(files[i]));
                    assert(spec_old_importers(g_pre, t).contains(f));
                } else {
                    assert(g_post[t] == g_pre[t]);
                }
            }
        }
        assert(g_post[t] =~= rhs[t]);
    }
    assert(g_post =~= rhs);
}

/// The importers recorded for `k` in a graph map, or the empty set when
/// `k` is no key.
pub open spec fn spec_old_importers(g: Map<Seq<char>, Set<Seq<char>>>, k: Seq<char>) -> Set<
    Seq<char>,
> {
    if g.dom().contains(k) {
        g[k]
    } else {
        Set::empty()
    }
}

/// Graph soundness: the reverse graph holds an edge from `target` to
/// `importer` exactly when `importer` is a workspace file whose parsed
/// imports contain a record that resolves to `target` under the same
/// lookup roots (and the file is readable and not excluded by the ignore
/// patterns).
pub proof fn lemma_graph_soundness(
    files: Seq<Seq<char>>,
    sources: Seq<Option<Seq<char>>>,
    project_files: Set<Seq<char>>,
    flc: Seq<Seq<char>>,
    ignore_patterns: Set<Seq<char>>,
    root: Seq<char>,
    target: Seq<char>,
    importer: Seq<char>,
)
    ensures
        crate::graph::has_edge(
            spec_graph(files, sources, project_files, flc, ignore_patterns, root),
            target,
            importer,
        ) <==> exists|i: int|
            files[i] == importer && #[trigger] file_contributes(
                files,
                sources,
                project_files,
                flc,
                ignore_patterns,
                root,
                i,
                target,
            ),
{
    let g = spec_graph(files, sources, project_files, flc, ignore_patterns, root);
    if exists|i: int|
        files[i] == importer && #[trigger] file_contributes(
            files,
            sources,
            project_files,
            flc,
            ignore_patterns,
            root,
            i,
            target,
        ) {
        let i = choose|i: int|
            files[i] == importer && #[trigger] file_contributes(
                files,
                sources,
                project_files,
                flc,
                ignore_patterns,
                root,
                i,
                target,
            );
        assert(g.dom().contains(target));
        assert(g[target].contains(importer));
    }
}

/// The impact closure of the changed set over the workspace graph.
pub open spec fn spec_impacted_closure(
    files: Seq<Seq<char>>,
    sources: Seq<Option<Seq<char>>>,
    flc: Seq<Seq<char>>,
    file_ignore_patterns: Set<Seq<char>>,
    root: Seq<char>,
    changed: Set<Seq<char>>,
) -> Set<Seq<char>> {
    impact(
        spec_graph(files, sources, files.to_set(), flc, file_ignore_patterns, root),
        changed,
    )
}

/// Every impacted node is a seed or the endpoint of some edge.
proof fn lemma_impact_elements(g: Map<Seq<char>, Set<Seq<char>>>, seeds: Set<Seq<char>>)
    ensures
        forall|t: Seq<char>| #[trigger]
            impact(g, seeds).contains(t) ==> seeds.contains(t) || exists|m: Seq<char>|
                crate::graph::has_edge(g, m, t),
{
    assert forall|t: Seq<char>| #[trigger] impact(g, seeds).contains(t) implies seeds.contains(t)
        || exists|m: Seq<char>| crate::graph::has_edge(g, m, t) by {
        let s = choose|s: Seq<char>| seeds.contains(s) && crate::graph::reaches(g, s, t);
        let n = choose|n: nat| crate::graph::reaches_in(g, s, t, n);
        if n == 0 {
        } else {
            let m = choose|m: Seq<char>|
                crate::graph::reaches_in(g, s, m, (n - 1) as nat) && crate::graph::has_edge(
                    g,
                    m,
                    t,
                );
            assert(crate::graph::has_edge(g, m, t));
        }
    }
}

/// Runs the whole selection over the given workspace snapshot: when a
/// changed file matches the run-all patterns, everything runs; otherwise
/// the reverse graph is built, the impact closure of the changed files
/// computed, and the impacted tests selected under the configured
/// overrides. An error means one of the configured glob sets failed to
/// build.
pub fn get_impacted_tests_from_changed_files(
    config: &Config,
    git_root: &str,
    changed: &Vec<String>,
    workspace_files: &Vec<String>,
    sources: &Vec<Option<String>>,
    first_level_components: &Vec<Vec<String>>,
) -> (r: Result<SnobOutput, GlobSetError>)
    requires
        workspace_files.len() == sources.len(),
        forall|i: int|
            0 <= i < changed.len() ==> path_under(#[trigger] changed.deep_view()[i], git_root@),
        forall|i: int|
            0 <= i < workspace_files.len() ==> path_under(
                #[trigger] workspace_files.deep_view()[i],
                git_root@,
            ),
    ensures
        (r matches Ok(SnobOutput::All)) <==> (spec_globs_accepted(
            config.files.run_all_tests_on_change.deep_view(),
        ) && (exists|i: int|
            0 <= i < changed.len() && spec_patterns_match(
                config.files.run_all_tests_on_change.deep_view().to_set(),
                rel_to_root(#[trigger] changed.deep_view()[i], git_root@),
            ))),
        (r is Err) <==> (!spec_globs_accepted(
            config.files.run_all_tests_on_change.deep_view(),
        ) || (!(exists|i: int|
            0 <= i < changed.len() && spec_patterns_match(
                config.files.run_all_tests_on_change.deep_view().to_set(),
                rel_to_root(#[trigger] changed.deep_view()[i], git_root@),
            )) && !(spec_globs_accepted(config.files.ignores.deep_view())
            && spec_globs_accepted(config.tests.ignores.deep_view())
            && spec_globs_accepted(config.tests.always_run.deep_view())))),
        r matches Ok(SnobOutput::Partial(res)) ==> !(exists|i: int|
            0 <= i < changed.len() && spec_patterns_match(
                config.files.run_all_tests_on_change.deep_view().to_set(),
                rel_to_root(#[trigger] changed.deep_view()[i], git_root@),
            )),
        r matches Ok(SnobOutput::Partial(res)) ==> res.ignored.deep_view().to_set()
            == spec_patterns_filtered(
            spec_test_files(
                spec_impacted_closure(
                    workspace_files.deep_view(),
                    sources.deep_view(),
                    first_level_components.deep_view().flatten(),
                    config.files.ignores.deep_view().to_set(),
                    git_root@,
                    changed.deep_view().to_set(),
                ),
            ),
            config.tests.ignores.deep_view().to_set(),
            git_root@,
        ),
        r matches Ok(SnobOutput::Partial(res)) ==> res.impacted.deep_view().to_set()
            == spec_test_files(
            spec_impacted_closure(
                workspace_files.deep_view(),
                sources.deep_view(),
                first_level_components.deep_view().flatten(),
                config.files.ignores.deep_view().to_set(),
                git_root@,
                changed.deep_view().to_set(),
            ),
        ).difference(
            spec_patterns_filtered(
                spec_test_files(
                    spec_impacted_closure(
                        workspace_files.deep_view(),
                        sources.deep_view(),
                        first_level_components.deep_view().flatten(),
                        config.files.ignores.deep_view().to_set(),
                        git_root@,
                        changed.deep_view().to_set(),
                    ),
                ),
                config.tests.ignores.deep_view().to_set(),
                git_root@,
            ),
        ),
        r matches Ok(SnobOutput::Partial(res)) ==> res.always_run.deep_view().to_set()
            == spec_patterns_filtered(
            spec_test_files(workspace_files.deep_view().to_set()),
            config.tests.always_run.deep_view().to_set(),
            git_root@,
        ),
        r matches Ok(SnobOutput::Partial(res)) ==> res.impacted.deep_view().no_duplicates()
            && res.ignored.deep_view().no_duplicates()
            && res.always_run.deep_view().no_duplicates(),
        r matches Ok(SnobOutput::Partial(res)) ==> forall|f: Seq<char>|
            !(#[trigger] res.impacted.deep_view().contains(f)
                && res.ignored.deep_view().contains(f)),
{
    let ghost root = git_root@;
    let ghost changed_set = changed.deep_view().to_set();
    let run_all_set = match build_glob_set(&config.files.run_all_tests_on_change) {
        Ok(g) => g,
        Err(e) => {
            return Err(e);
        },
    };
    let ghost ra = run_all_set;
    let ghost ra_pats = config.files.run_all_tests_on_change.deep_view().to_set();
    proof {
        assert forall|path: Seq<char>| #[trigger]
            matches_any(ra, path) == spec_patterns_match(ra_pats, path) by {
            assert(glob_set_patterns(ra) == ra_pats);
        }
    }
    if run_all_tests(changed, &run_all_set, git_root) {
        proof {
            let i = choose|i: int|
                0 <= i < changed.len() && matches_any(
                    ra,
                    rel_to_root(#[trigger] changed.deep_view()[i], root),
                );
            assert(spec_patterns_match(ra_pats, rel_to_root(changed.deep_view()[i], root)));
        }
        return Ok(SnobOutput::All);
    }
    proof {
        assert forall|i: int| 0 <= i < changed.len() implies !spec_patterns_match(
            ra_pats,
            rel_to_root(#[trigger] changed.deep_view()[i], root),
        ) by {
            assert(!matches_any(ra, rel_to_root(changed.deep_view()[i], root)));
        }
    }
    let file_ignores = match build_glob_set(&config.files.ignores) {
        Ok(g) => g,
        Err(e) => {
            return Err(e);
        },
    };
    let graph = build_dependency_graph(
        workspace_files,
        sources,
        workspace_files,
        &file_ignores,
        first_level_components,
        git_root,
    );
    let ghost gmap = graph@;
    let impacted_nodes = discover_impacted_nodes(&graph, changed);
    proof {
        assert(spec_graph(
            workspace_files.deep_view(),
            sources.deep_view(),
            workspace_files.deep_view().to_set(),
            first_level_components.deep_view().flatten(),
            config.files.ignores.deep_view().to_set(),
            root,
        ) == gmap) by {
            assert(glob_set_patterns(file_ignores) == config.files.ignores.deep_view().to_set());
        }
        lemma_impact_elements(gmap, changed_set);
        assert forall|i: int| 0 <= i < impacted_nodes.len() implies path_under(
            #[trigger] impacted_nodes.deep_view()[i],
            root,
        ) by {
            let t = impacted_nodes.deep_view()[i];
            assert(impacted_nodes.deep_view().to_set().contains(t));
            assert(impact(gmap, changed_set).contains(t));
            if changed_set.contains(t) {
                let j = choose|j: int|
                    0 <= j < changed.deep_view().len() && changed.deep_view()[j] == t;
            } else {
                let m = choose|m: Seq<char>| crate::graph::has_edge(gmap, m, t);
                assert(gmap[m].contains(t));
                let w = choose|w: int|
                    #[trigger] workspace_files.deep_view()[w] == t && file_contributes(
                        workspace_files.deep_view(),
                        sources.deep_view(),
                        workspace_files.deep_view().to_set(),
                        first_level_components.deep_view().flatten(),
                        config.files.ignores.deep_view().to_set(),
                        root,
                        w,
                        m,
                    );
            }
        }
    }
    let ignored_tests = match build_glob_set(&config.tests.ignores) {
        Ok(g) => g,
        Err(e) => {
            return Err(e);
        },
    };
    let tests_to_always_run = match build_glob_set(&config.tests.always_run) {
        Ok(g) => g,
        Err(e) => {
            return Err(e);
        },
    };
    let ghost impacted_dv = impacted_nodes.deep_view();
    let workspace_copy = workspace_files.clone();
    proof {
        vstd::std_specs::vec::vec_clone_deep_view_proof(*workspace_files, workspace_copy);
    }
    let snob_results = SnobResult::new(
        impacted_nodes,
        workspace_copy,
        &ignored_tests,
        &tests_to_always_run,
        git_root,
    );
    proof {
        let closure = spec_impacted_closure(
            workspace_files.deep_view(),
            sources.deep_view(),
            first_level_components.deep_view().flatten(),
            config.files.ignores.deep_view().to_set(),
            root,
            changed_set,
        );
        assert(impacted_dv.to_set() == closure);
        assert(spec_glob_filtered(spec_test_files(closure), ignored_tests, root)
            =~= spec_patterns_filtered(
            spec_test_files(closure),
            config.tests.ignores.deep_view().to_set(),
            root,
        )) by {
            assert(glob_set_patterns(ignored_tests) == config.tests.ignores.deep_view().to_set());
        }
        assert(spec_glob_filtered(
            spec_test_files(workspace_files.deep_view().to_set()),
            tests_to_always_run,
            root,
        ) =~= spec_patterns_filtered(
            spec_test_files(workspace_files.deep_view().to_set()),
            config.tests.always_run.deep_view().to_set(),
            root,
        )) by {
            assert(glob_set_patterns(tests_to_always_run)
                == config.tests.always_run.deep_view().to_set());
        }
    }
    Ok(SnobOutput::Partial(snob_results))
}

} // verus!
