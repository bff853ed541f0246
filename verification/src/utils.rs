//! Test-file detection, lookup paths, project-root detection and
//! root-relative path forms.

use vstd::prelude::*;
use vstd::string::*;

use crate::ast::contains_path;
use crate::paths::append_str;
use crate::paths::base_name;
use crate::paths::dir_name;
use crate::paths::dir_of;
use crate::paths::file_name;
use crate::paths::is_prefix;
use crate::paths::is_suffix;
use crate::paths::sep;
use crate::paths::split_at;
use crate::paths::split_string;
use crate::paths::str_ends_with;
use crate::paths::str_equal;
use crate::paths::str_starts_with;

verus! {

/// The separator between the entries of the import-path environment list.
pub const PYTHONPATH_SEPARATOR: char = ':';

/// A test file: its base name starts with `test_`, or its path ends with
/// `_test.py`.
pub open spec fn spec_is_test_file(p: Seq<char>) -> bool {
    is_prefix("test_"@, base_name(p)) || is_suffix("_test.py"@, p)
}

/// Decides whether `file` is a test file.
pub fn is_test_file(file: &str) -> (r: bool)
    ensures
        r == spec_is_test_file(file@),
{
    let name = file_name(file);
    str_starts_with(name.as_str(), "test_") || str_ends_with(file, "_test.py")
}

/// Does `p` lie at or under the directory `root`?
pub open spec fn path_under(p: Seq<char>, root: Seq<char>) -> bool {
    p == root || is_prefix(root + seq![sep()], p)
}

/// The project-root-relative form of `p`; empty for the root itself.
pub open spec fn rel_to_root(p: Seq<char>, root: Seq<char>) -> Seq<char> {
    if p == root {
        Seq::empty()
    } else {
        p.subrange(root.len() as int + 1, p.len() as int)
    }
}

/// Strips the root prefix from `p`, giving its root-relative form.
pub fn rel_path(p: &str, root: &str) -> (r: Option<String>)
    ensures
        r matches Some(q) ==> path_under(p@, root@) && q@ == rel_to_root(p@, root@),
        r is None ==> !path_under(p@, root@),
{
    if str_equal(p, root) {
        return Some(String::new());
    }
    let root_slash = append_str(root, "/");
    proof {
        reveal_strlit("/");
        assert(root_slash@ =~= root@ + seq![sep()]);
    }
    if str_starts_with(p, root_slash.as_str()) {
        let n = p.unicode_len();
        let k = root.unicode_len();
        Some(p.substring_char(k + 1, n).to_owned())
    } else {
        None
    }
}

/// The ordered, deduplicated list of lookup roots.
#[derive(Debug)]
pub struct LookupPaths {
    pub local_paths: Vec<String>,
}

impl LookupPaths {
    /// The list holds no path twice.
    pub open spec fn wf(&self) -> bool {
        self.local_paths.deep_view().no_duplicates()
    }

    /// An empty list.
    pub fn new() -> (r: LookupPaths)
        ensures
            r.wf(),
            r.local_paths.deep_view() == Seq::<Seq<char>>::empty(),
    {
        let r = LookupPaths { local_paths: Vec::new() };
        proof {
            assert(r.local_paths.deep_view() =~~= Seq::<Seq<char>>::empty());
        }
        r
    }

    /// Appends `path` unless it is already present.
    pub fn insert(&mut self, path: String)
        requires
            old(self).wf(),
        ensures
            final(self).wf(),
            old(self).local_paths.deep_view().contains(path@) ==> final(self).local_paths
                == old(self).local_paths,
            !old(self).local_paths.deep_view().contains(path@) ==> final(self).local_paths.deep_view()
                == old(self).local_paths.deep_view().push(path@),
    {
        if !contains_path(&self.local_paths, path.as_str()) {
            let ghost pre = self.local_paths.deep_view();
            let ghost pv = path@;
            self.local_paths.push(path);
            proof {
                assert(self.local_paths.deep_view() =~~= pre.push(pv));
            }
        }
    }
}

/// One step of lookup-path collection: keep the candidate when it lies
/// under the project root and is not yet present.
pub open spec fn spec_lookup_paths(cands: Seq<Seq<char>>, root: Seq<char>) -> Seq<Seq<char>>
    decreases cands.len(),
{
    if cands.len() == 0 {
        Seq::empty()
    } else {
        let pre = spec_lookup_paths(cands.drop_last(), root);
        if path_under(cands.last(), root) && !pre.contains(cands.last()) {
            pre.push(cands.last())
        } else {
            pre
        }
    }
}

/// The import lookup roots: the current directory first, then the entries
/// of the environment-provided path list, each kept only when it lies under
/// the project root, first occurrence winning.
pub fn get_python_local_lookup_paths(
    current_dir: &str,
    git_root: &str,
    pythonpath: &Vec<String>,
) -> (r: LookupPaths)
    ensures
        r.wf(),
        r.local_paths.deep_view() == spec_lookup_paths(
            seq![current_dir@] + pythonpath.deep_view(),
            git_root@,
        ),
{
    let ghost cands = seq![current_dir@] + pythonpath.deep_view();
    let mut r = LookupPaths::new();
    let under = rel_path(current_dir, git_root);
    if under.is_some() {
        r.insert(current_dir.to_owned());
    }
    proof {
        assert(cands.subrange(0, 1).drop_last() =~~= Seq::<Seq<char>>::empty());
        assert(cands.subrange(0, 1).last() == current_dir@);
        assert(spec_lookup_paths(Seq::<Seq<char>>::empty(), git_root@)
            == Seq::<Seq<char>>::empty());
        assert(r.local_paths.deep_view() =~~= spec_lookup_paths(cands.subrange(0, 1), git_root@));
    }
    let mut i: usize = 0;
    while i < pythonpath.len()
        invariant
            0 <= i <= pythonpath.len(),
            pythonpath.deep_view().len() == pythonpath.len(),
            cands == seq![current_dir@] + pythonpath.deep_view(),
            r.wf(),
            r.local_paths.deep_view() == spec_lookup_paths(
                cands.subrange(0, 1 + i as int),
                git_root@,
            ),
        decreases pythonpath.len() - i,
    {
        let p = &pythonpath[i];
        let ghost pre = r.local_paths.deep_view();
        proof {
            assert(cands.subrange(0, 2 + i as int).drop_last() =~~= cands.subrange(0, 1 + i as int));
            assert(cands.subrange(0, 2 + i as int).last() == p@);
        }
        let under_root = rel_path(p.as_str(), git_root);
        if under_root.is_some() {
            r.insert(p.clone());
        }
        i = i + 1;
    }
    proof {
        assert(cands.subrange(0, cands.len() as int) =~~= cands);
    }
    r
}

/// Splits the raw environment value into its entries; an unset or empty
/// value yields no entry. The entries joined back with the separator give
/// the raw value, and no entry contains the separator.
pub fn get_pythonpath(raw: &str) -> (r: Vec<String>)
    ensures
        raw@.len() == 0 ==> r.deep_view() == Seq::<Seq<char>>::empty(),
        raw@.len() > 0 ==> r.deep_view() == split_at(raw@, PYTHONPATH_SEPARATOR),
        raw@.len() > 0 ==> crate::paths::join_with(r.deep_view(), PYTHONPATH_SEPARATOR) == raw@,
        forall|k: int, j: int|
            0 <= k < r.deep_view().len() && 0 <= j < r.deep_view()[k].len()
                ==> r.deep_view()[k][j] != PYTHONPATH_SEPARATOR,
{
    if raw.unicode_len() == 0 {
        let r: Vec<String> = Vec::new();
        proof {
            assert(r.deep_view() =~~= Seq::<Seq<char>>::empty());
        }
        return r;
    }
    let r = split_string(raw, PYTHONPATH_SEPARATOR);
    proof {
        crate::paths::lemma_split_join(raw@, PYTHONPATH_SEPARATOR);
        crate::paths::lemma_split_no_sep(raw@, PYTHONPATH_SEPARATOR);
    }
    r
}

/// The failure of project-root detection: no ancestor holds the
/// version-control marker.
#[derive(Debug)]
pub struct GitRootError;

impl GitRootError {
    /// A one-line description of the failure.
    pub fn message(&self) -> (r: String)
        ensures
            r@ == "Could not find git root"@,
    {
        "Could not find git root".to_owned()
    }
}

/// The nearest ancestor of `dir` (itself included) that holds a
/// version-control marker, where `with_git` lists the marker directories.
pub open spec fn spec_repo_root(dir: Seq<char>, with_git: Set<Seq<char>>) -> Option<Seq<char>>
    decreases dir.len(),
    when true
    via spec_repo_root_decreases
{
    if with_git.contains(dir) {
        Some(dir)
    } else if dir.len() == 0 {
        None
    } else {
        spec_repo_root(dir_of(dir), with_git)
    }
}

#[via_fn]
proof fn spec_repo_root_decreases(dir: Seq<char>, with_git: Set<Seq<char>>) {
    if !with_git.contains(dir) && dir.len() != 0 {
        lemma_dir_of_shorter(dir);
    }
}

/// Going one directory up shortens a nonempty path.
pub proof fn lemma_dir_of_shorter(s: Seq<char>)
    requires
        s.len() > 0,
    ensures
        dir_of(s).len() < s.len(),
    decreases s.len(),
{
    if s.last() != sep() {
        if s.drop_last().len() == 0 {
            assert(dir_of(s) == dir_of(s.drop_last()));
            assert(dir_of(s.drop_last()).len() == 0);
        } else {
            lemma_dir_of_shorter(s.drop_last());
        }
    }
}

/// Ascends from `current_dir` until a directory that holds the
/// version-control marker is found; `dirs_with_git` lists the directories
/// that hold one.
pub fn get_repo_root(current_dir: &str, dirs_with_git: &Vec<String>) -> (r: Result<
    String,
    GitRootError,
>)
    ensures
        r matches Ok(p) ==> spec_repo_root(current_dir@, dirs_with_git.deep_view().to_set())
            == Some(p@),
        r is Err ==> spec_repo_root(current_dir@, dirs_with_git.deep_view().to_set()) is None,
{
    let ghost with_git = dirs_with_git.deep_view().to_set();
    let mut cur = current_dir.to_owned();
    loop
        invariant
            with_git == dirs_with_git.deep_view().to_set(),
            spec_repo_root(current_dir@, with_git) == spec_repo_root(cur@, with_git),
        decreases cur@.len(),
    {
        if contains_path(dirs_with_git, cur.as_str()) {
            proof {
                assert(dirs_with_git.deep_view().to_set().contains(cur@));
            }
            return Ok(cur);
        }
        proof {
            if with_git.contains(cur@) {
                assert(dirs_with_git.deep_view().contains(cur@));
            }
        }
        if cur.as_str().unicode_len() == 0 {
            return Err(GitRootError);
        }
        proof {
            lemma_dir_of_shorter(cur@);
        }
        cur = dir_name(cur.as_str());
    }
}

/// Does any changed file, in its root-relative form, match the
/// run-all-tests glob set?
pub fn should_run_all_tests(
    updated_files: &Vec<String>,
    run_all_tests_on_change: &globset::GlobSet,
    git_root: &str,
) -> (r: bool)
    requires
        forall|i: int|
            0 <= i < updated_files.len() ==> path_under(
                #[trigger] updated_files.deep_view()[i],
                git_root@,
            ),
    ensures
        r == exists|i: int|
            0 <= i < updated_files.len() && crate::globs::matches_any(
                *run_all_tests_on_change,
                rel_to_root(#[trigger] updated_files.deep_view()[i], git_root@),
            ),
{
    let mut i: usize = 0;
    while i < updated_files.len()
        invariant
            0 <= i <= updated_files.len(),
            updated_files.deep_view().len() == updated_files.len(),
            forall|j: int|
                0 <= j < updated_files.len() ==> path_under(
                    #[trigger] updated_files.deep_view()[j],
                    git_root@,
                ),
            forall|j: int|
                0 <= j < i ==> !crate::globs::matches_any(
                    *run_all_tests_on_change,
                    rel_to_root(#[trigger] updated_files.deep_view()[j], git_root@),
                ),
        decreases updated_files.len() - i,
    {
        match rel_path(updated_files[i].as_str(), git_root) {
            Some(rel) => {
                if crate::globs::glob_set_matches(run_all_tests_on_change, rel.as_str()) {
                    proof {
                        assert(crate::globs::matches_any(
                            *run_all_tests_on_change,
                            rel_to_root(updated_files.deep_view()[i as int], git_root@),
                        ));
                    }
                    return true;
                }
            },
            None => {
                proof {
                    assert(path_under(updated_files.deep_view()[i as int], git_root@));
                    assert(false);
                }
            },
        }
        i = i + 1;
    }
    false
}

} // verus!
