//! Import records, their extraction from Python sources, and their
//! resolution to workspace files.
//!
//! An import is an ordered list of name segments plus a relative level
//! (`level == 0` means absolute). Resolution maps a record either to a
//! package marker file (`<dir>/__init__.py`), to a module file (`<path>.py`),
//! or drops it as external.

use vstd::prelude::*;
use vstd::string::*;

use crate::paths::base_name;
use crate::paths::dir_of;
use crate::paths::dir_name;
use crate::paths::file_name;
use crate::paths::join_components;
use crate::paths::join_dir;
use crate::paths::join_path;
use crate::paths::join_with;
use crate::paths::append_str;
use crate::paths::nth_ancestor;
use crate::paths::sep;
use crate::paths::spec_ancestor;
use crate::paths::split_at;
use crate::paths::split_string;
use crate::paths::str_equal;

use rustpython_ast::Stmt;

verus! {

/// The file whose presence marks a directory as a package.
pub const INIT_FILE: &'static str = "__init__.py";

/// One import statement alias: name segments and a relative level.
#[derive(Debug, Clone, PartialEq, Eq, Hash)]
pub struct Import {
    pub segments: Vec<String>,
    pub level: usize,
}

/// The path to the package marker inside directory `p`.
pub open spec fn package_marker(p: Seq<char>) -> Seq<char> {
    join_dir(p, "__init__.py"@)
}

/// The path of `p` read as a module file.
pub open spec fn module_file(p: Seq<char>) -> Seq<char> {
    p + ".py"@
}

/// What a candidate path denotes inside the workspace: a package, a module,
/// or neither (an object defined inside a module, or something external).
pub open spec fn spec_candidate_target(p: Seq<char>, files: Set<Seq<char>>) -> Option<Seq<char>> {
    if files.contains(package_marker(p)) {
        Some(package_marker(p))
    } else if files.contains(module_file(p)) {
        Some(module_file(p))
    } else {
        None
    }
}

/// A candidate target, retried one directory up when the path itself denotes
/// neither a package nor a module (the `from module import object` case).
pub open spec fn spec_resolve_candidate(p: Seq<char>, files: Set<Seq<char>>) -> Option<Seq<char>> {
    match spec_candidate_target(p, files) {
        Some(t) => Some(t),
        None => spec_candidate_target(dir_of(p), files),
    }
}

/// Does the first-level component `c` go by `name`: its final path-name is
/// `name` itself (a package directory) or `name` with the source extension
/// (a module file)?
pub open spec fn component_matches(c: Seq<char>, name: Seq<char>) -> bool {
    base_name(c) == name || base_name(c) == name + ".py"@
}

/// The first entry of `flc` that goes by `name`.
pub open spec fn first_component_match(flc: Seq<Seq<char>>, name: Seq<char>) -> Option<Seq<char>>
    decreases flc.len(),
{
    if flc.len() == 0 {
        None
    } else if component_matches(flc[0], name) {
        Some(flc[0])
    } else {
        first_component_match(flc.drop_first(), name)
    }
}

/// The candidate path of an import: for a relative import, the segments are
/// appended `level` directories above the importing file; for an absolute
/// import, they are appended beside the first matching first-level component.
pub open spec fn spec_candidate_path(
    file: Seq<char>,
    segs: Seq<Seq<char>>,
    level: nat,
    flc: Seq<Seq<char>>,
) -> Option<Seq<char>> {
    if level > 0 {
        match spec_ancestor(file, level) {
            Some(anc) => Some(join_dir(anc, join_with(segs, sep()))),
            None => None,
        }
    } else {
        match first_component_match(flc, segs[0]) {
            Some(c) => Some(join_dir(dir_of(c), join_with(segs, sep()))),
            None => None,
        }
    }
}

/// Where an import record resolves inside the workspace, if anywhere.
pub open spec fn spec_resolve_import(
    file: Seq<char>,
    segs: Seq<Seq<char>>,
    level: nat,
    files: Set<Seq<char>>,
    flc: Seq<Seq<char>>,
) -> Option<Seq<char>> {
    if segs.len() == 0 {
        None
    } else {
        match spec_candidate_path(file, segs, level, flc) {
            Some(p) => spec_resolve_candidate(p, files),
            None => None,
        }
    }
}

impl Import {
    /// The segments joined into a relative path.
    pub fn to_file_path(&self) -> (r: String)
        ensures
            r@ == join_with(self.segments.deep_view(), sep()),
    {
        join_components(&self.segments)
    }

    /// A level of one or more means the import is relative to its file.
    pub fn is_relative(&self) -> (r: bool)
        ensures
            r == (self.level > 0),
    {
        self.level > 0
    }
}

/// What a candidate path denotes, carrying the resolved workspace path.
pub enum ImportType {
    Package(String),
    Module(String),
    Object,
}

/// Does the workspace file list contain `s`?
pub fn contains_path(files: &Vec<String>, s: &str) -> (r: bool)
    ensures
        r == files.deep_view().contains(s@),
{
    let mut i: usize = 0;
    while i < files.len()
        invariant
            0 <= i <= files.len(),
            files.deep_view().len() == files.len(),
            forall|j: int| 0 <= j < i ==> files.deep_view()[j] != s@,
        decreases files.len() - i,
    {
        if str_equal(files[i].as_str(), s) {
            proof {
                assert(files.deep_view()[i as int] == s@);
            }
            return true;
        }
        i = i + 1;
    }
    false
}

/// Classifies a candidate path against the workspace file list: a directory
/// with a package marker wins over a same-named module file.
pub fn determine_import_type(import: &str, project_files: &Vec<String>) -> (r: ImportType)
    ensures
        spec_candidate_target(import@, project_files.deep_view().to_set()) matches Some(t)
            ==> ((r matches ImportType::Package(p) && p@ == t) || (r
            matches ImportType::Module(p) && p@ == t)),
        project_files.deep_view().to_set().contains(package_marker(import@)) ==> r is Package,
        !project_files.deep_view().to_set().contains(package_marker(import@))
            && project_files.deep_view().to_set().contains(module_file(import@)) ==> r
            is Module,
        spec_candidate_target(import@, project_files.deep_view().to_set()) is None ==> r
            is Object,
        r matches ImportType::Package(p) ==> Some(p@) == spec_candidate_target(
            import@,
            project_files.deep_view().to_set(),
        ),
        r matches ImportType::Module(p) ==> Some(p@) == spec_candidate_target(
            import@,
            project_files.deep_view().to_set(),
        ),
{
    let init_file = join_path(import, INIT_FILE);
    if contains_path(project_files, init_file.as_str()) {
        return ImportType::Package(init_file);
    }
    let module_name = append_str(import, ".py");
    if contains_path(project_files, module_name.as_str()) {
        return ImportType::Module(module_name);
    }
    ImportType::Object
}

/// Flattens the per-root first-level component lists into one ordered list.
pub fn flatten_components(flc: &Vec<Vec<String>>) -> (r: Vec<String>)
    ensures
        r.deep_view() == flc.deep_view().flatten(),
{
    let mut r: Vec<String> = Vec::new();
    let mut i: usize = 0;
    proof {
        assert(flc.deep_view().subrange(0, 0) =~~= Seq::<Seq<Seq<char>>>::empty());
        assert(r.deep_view() =~~= flc.deep_view().subrange(0, 0).flatten());
    }
    while i < flc.len()
        invariant
            0 <= i <= flc.len(),
            flc.deep_view().len() == flc.len(),
            r.deep_view() =~~= flc.deep_view().subrange(0, i as int).flatten(),
        decreases flc.len() - i,
    {
        let inner = &flc[i];
        let mut j: usize = 0;
        proof {
            assert(inner.deep_view().subrange(0, 0) =~~= Seq::<Seq<char>>::empty());
        }
        while j < inner.len()
            invariant
                0 <= j <= inner.len(),
                0 <= i < flc.len(),
                flc.deep_view().len() == flc.len(),
                inner == flc[i as int],
                inner.deep_view().len() == inner.len(),
                r.deep_view() =~~= flc.deep_view().subrange(0, i as int).flatten()
                    + inner.deep_view().subrange(0, j as int),
            decreases inner.len() - j,
        {
            let ghost r_prev = r.deep_view();
            r.push(inner[j].clone());
            proof {
                assert(r.deep_view() =~~= r_prev.push(inner.deep_view()[j as int]));
                assert(inner.deep_view().subrange(0, j + 1) =~~= inner.deep_view().subrange(
                    0,
                    j as int,
                ).push(inner.deep_view()[j as int]));
            }
            j = j + 1;
        }
        proof {
            let pre = flc.deep_view().subrange(0, i as int);
            pre.lemma_flatten_push(inner.deep_view());
            assert(inner.deep_view().subrange(0, inner.len() as int) =~~= inner.deep_view());
            assert(pre.push(inner.deep_view()) =~~= flc.deep_view().subrange(0, i + 1));
        }
        i = i + 1;
    }
    proof {
        assert(flc.deep_view().subrange(0, flc.len() as int) =~~= flc.deep_view());
    }
    r
}

/// Finds the first component that goes by `name`.
pub fn find_component(flc_flat: &Vec<String>, name: &str) -> (r: Option<String>)
    ensures
        match r {
            Some(c) => first_component_match(flc_flat.deep_view(), name@) == Some(c@),
            None => first_component_match(flc_flat.deep_view(), name@) is None,
        },
{
    let ghost flat = flc_flat.deep_view();
    let mut i: usize = 0;
    proof {
        assert(flat.subrange(0, flat.len() as int) =~~= flat);
    }
    while i < flc_flat.len()
        invariant
            0 <= i <= flc_flat.len(),
            flat == flc_flat.deep_view(),
            flat.len() == flc_flat.len(),
            first_component_match(flat, name@) == first_component_match(
                flat.subrange(i as int, flat.len() as int),
                name@,
            ),
        decreases flc_flat.len() - i,
    {
        let bn = file_name(flc_flat[i].as_str());
        let with_ext = append_str(name, ".py");
        proof {
            let rest = flat.subrange(i as int, flat.len() as int);
            assert(rest[0] == flat[i as int]);
            assert(rest.drop_first() =~~= flat.subrange(i + 1, flat.len() as int));
        }
        if str_equal(bn.as_str(), name) || str_equal(bn.as_str(), with_ext.as_str()) {
            return Some(flc_flat[i].clone());
        }
        i = i + 1;
    }
    proof {
        assert(flat.subrange(flat.len() as int, flat.len() as int) =~~= Seq::<Seq<char>>::empty());
    }
    None
}

/// Resolves one import record against the workspace, or drops it.
pub fn resolve_one_import(
    file: &str,
    imp: &Import,
    project_files: &Vec<String>,
    flc_flat: &Vec<String>,
) -> (r: Option<String>)
    ensures
        match r {
            Some(p) => spec_resolve_import(
                file@,
                imp.segments.deep_view(),
                imp.level as nat,
                project_files.deep_view().to_set(),
                flc_flat.deep_view(),
            ) == Some(p@),
            None => spec_resolve_import(
                file@,
                imp.segments.deep_view(),
                imp.level as nat,
                project_files.deep_view().to_set(),
                flc_flat.deep_view(),
            ) is None,
        },
{
    if imp.segments.len() == 0 {
        return None;
    }
    let joined = imp.to_file_path();
    let cand: String;
    if imp.level > 0 {
        match nth_ancestor(file, imp.level) {
            Some(anc) => {
                cand = join_path(anc.as_str(), joined.as_str());
            },
            None => {
                return None;
            },
        }
    } else {
        match find_component(flc_flat, imp.segments[0].as_str()) {
            Some(c) => {
                let parent = dir_name(c.as_str());
                cand = join_path(parent.as_str(), joined.as_str());
            },
            None => {
                return None;
            },
        }
    }
    match determine_import_type(cand.as_str(), project_files) {
        ImportType::Package(p) => Some(p),
        ImportType::Module(p) => Some(p),
        ImportType::Object => {
            let parent = dir_name(cand.as_str());
            match determine_import_type(parent.as_str(), project_files) {
                ImportType::Package(p) => Some(p),
                ImportType::Module(p) => Some(p),
                ImportType::Object => None,
            }
        },
    }
}

/// Does the record `imp`, read inside `file`, resolve to the workspace
/// path `p`?
pub open spec fn import_resolves_to(
    file: Seq<char>,
    imp: Import,
    files: Set<Seq<char>>,
    flc: Seq<Seq<char>>,
    p: Seq<char>,
) -> bool {
    spec_resolve_import(file, imp.segments.deep_view(), imp.level as nat, files, flc) == Some(p)
}

/// Every workspace path that some record of `imports` resolves to.
pub open spec fn spec_resolved_set(
    file: Seq<char>,
    imports: Seq<Import>,
    files: Set<Seq<char>>,
    flc: Seq<Seq<char>>,
) -> Set<Seq<char>> {
    Set::new(
        |p: Seq<char>|
            exists|k: int|
                0 <= k < imports.len() && import_resolves_to(file, imports[k], files, flc, p),
    )
}

/// The imports extracted from one file.
#[derive(Debug)]
pub struct FileImports {
    pub file: String,
    pub imports: Vec<Import>,
}

impl FileImports {
    /// Resolves every import of the file against the workspace file list and
    /// the first-level components of the lookup roots, dropping records that
    /// resolve nowhere and collapsing duplicates.
    pub fn resolve_imports(
        &self,
        project_files: &Vec<String>,
        first_level_components: &Vec<Vec<String>>,
    ) -> (r: Vec<String>)
        ensures
            r.deep_view().no_duplicates(),
            r.deep_view().to_set() == spec_resolved_set(
                self.file@,
                self.imports@,
                project_files.deep_view().to_set(),
                first_level_components.deep_view().flatten(),
            ),
    {
        let ghost files = project_files.deep_view().to_set();
        let ghost flc = first_level_components.deep_view().flatten();
        let flat = flatten_components(first_level_components);
        let mut r: Vec<String> = Vec::new();
        let mut k: usize = 0;
        while k < self.imports.len()
            invariant
                0 <= k <= self.imports.len(),
                files == project_files.deep_view().to_set(),
                flc == flat.deep_view(),
                flc == first_level_components.deep_view().flatten(),
                r.deep_view().no_duplicates(),
                forall|p: Seq<char>| #[trigger]
                    r.deep_view().contains(p) ==> exists|k2: int|
                        0 <= k2 < k && import_resolves_to(self.file@, self.imports@[k2], files, flc, p),
                forall|k2: int, p: Seq<char>|
                    0 <= k2 < k && #[trigger] import_resolves_to(
                        self.file@,
                        self.imports@[k2],
                        files,
                        flc,
                        p,
                    ) ==> r.deep_view().contains(p),
            decreases self.imports.len() - k,
        {
            match resolve_one_import(self.file.as_str(), &self.imports[k], project_files, &flat) {
                Some(p) => {
                    let ghost pv = p@;
                    proof {
                        assert(import_resolves_to(self.file@, self.imports@[k as int], files, flc, pv));
                    }
                    if !contains_path(&r, p.as_str()) {
                        let ghost r_prev = r.deep_view();
                        r.push(p);
                        proof {
                            assert(r.deep_view() =~~= r_prev.push(pv));
                            assert forall|p2: Seq<char>| #[trigger]
                                r.deep_view().contains(p2) implies exists|k2: int|
                                0 <= k2 < k + 1 && import_resolves_to(
                                    self.file@,
                                    self.imports@[k2],
                                    files,
                                    flc,
                                    p2,
                                ) by {
                                if p2 == pv {
                                    assert(0 <= k < k + 1 && import_resolves_to(
                                        self.file@,
                                        self.imports@[k as int],
                                        files,
                                        flc,
                                        p2,
                                    ));
                                } else {
                                    assert(r_prev.contains(p2));
                                }
                            }
                            assert(r.deep_view()[r.deep_view().len() - 1] == pv);
                            assert(r.deep_view().contains(pv));
                            assert forall|k2: int, p2: Seq<char>|
                                0 <= k2 < k + 1 && #[trigger] import_resolves_to(
                                    self.file@,
                                    self.imports@[k2],
                                    files,
                                    flc,
                                    p2,
                                ) implies r.deep_view().contains(p2) by {
                                if k2 == k {
                                    assert(p2 == pv);
                                } else {
                                    assert(r_prev.contains(p2));
                                    let i = choose|i: int|
                                        0 <= i < r_prev.len() && r_prev[i] == p2;
                                    assert(r.deep_view()[i] == p2);
                                }
                            }
                        }
                    }
                },
                None => {},
            }
            k = k + 1;
        }
        proof {
            assert(r.deep_view().to_set() =~= spec_resolved_set(
                self.file@,
                self.imports@,
                files,
                flc,
            ));
        }
        r
    }
}

/// One import statement alias as the parser reports it. A plain
/// `import a.b.c` carries the whole dotted name in `name`, no module and
/// level zero; `from [dots][module] import name` carries the parts
/// separately, with `level` counting the leading dots.
#[derive(Debug, Clone)]
pub struct RawImport {
    pub module: Option<String>,
    pub name: String,
    pub level: usize,
}

#[verifier::external_type_specification]
#[verifier::external_body]
#[verifier::reject_recursive_types(R)]
pub struct ExStmt<R>(Stmt<R>);

#[verifier::external_type_specification]
#[verifier::external_body]
pub struct ExTextRange(rustpython_ast::text_size::TextRange);

/// The import statement aliases of `source` when it parses as a Python
/// module, nested bodies included; `None` when it does not parse. The
/// parser's answer depends on the source text alone. (The walk fixes some
/// order on the aliases; nothing downstream depends on it, since every
/// consumer is set-valued.)
pub uninterp spec fn parsed_imports(source: Seq<char>) -> Option<Vec<RawImport>>;

/// Relies on rustpython_parser::parse with Mode::Module for whether the text
/// parses, and on the rustpython_ast statement tree for the import aliases
/// it holds.
#[verifier::external_body]
pub(crate) fn parse_python_imports(source: &str) -> (r: Option<Vec<RawImport>>)
    ensures
        r == parsed_imports(source@),
{
    match rustpython_parser::parse(source, rustpython_parser::Mode::Module, "<embedded>") {
        Ok(rustpython_ast::Mod::Module(module)) => Some(collect_raw_imports(&module.body)),
        _ => None,
    }
}

/// Relies on the rustpython_ast statement tree: walks every statement of the
/// module, compound bodies included, and converts each import alias.
#[verifier::external_body]
fn collect_raw_imports(stmts: &Vec<Stmt>) -> (r: Vec<RawImport>) {
    let mut acc: Vec<RawImport> = Vec::new();
    let mut stack: Vec<&Stmt> = stmts.iter().rev().collect();
    while let Some(s) = stack.pop() {
        match s {
            Stmt::Import(x) => acc.extend(x.names.iter().map(|a| RawImport {
                module: None, name: a.name.as_str().to_owned(), level: 0 })),
            Stmt::ImportFrom(x) => push_from_aliases(x, &mut acc),
            _ => push_nested(s, &mut stack),
        }
    }
    acc
}

#[verifier::external_type_specification]
#[verifier::external_body]
#[verifier::reject_recursive_types(R)]
pub struct ExStmtImportFrom<R>(rustpython_ast::StmtImportFrom<R>);

/// Relies on the rustpython_ast statement tree: converts the aliases of one
/// from-import statement.
#[verifier::external_body]
fn push_from_aliases(x: &rustpython_ast::StmtImportFrom, acc: &mut Vec<RawImport>) {
    for a in &x.names {
        acc.push(RawImport {
            module: x.module.as_ref().map(|m| m.as_str().to_owned()),
            name: a.name.as_str().to_owned(),
            level: x.level.map_or(0, |l| l.to_usize()),
        });
    }
}

/// Relies on the rustpython_ast statement tree: pushes the statement lists
/// nested in definitions, `with` blocks and `match` arms.
#[verifier::external_body]
fn push_nested<'a>(s: &'a Stmt, stack: &mut Vec<&'a Stmt>) {
    match s {
        Stmt::FunctionDef(x) => stack.extend(&x.body),
        Stmt::AsyncFunctionDef(x) => stack.extend(&x.body),
        Stmt::ClassDef(x) => stack.extend(&x.body),
        Stmt::With(x) => stack.extend(&x.body),
        Stmt::AsyncWith(x) => stack.extend(&x.body),
        Stmt::Match(x) => stack.extend(x.cases.iter().flat_map(|c| &c.body)),
        _ => push_nested_blocks(s, stack),
    }
}

/// Relies on the rustpython_ast statement tree: pushes the statement lists
/// nested in loops, conditionals and `try` blocks.
#[verifier::external_body]
fn push_nested_blocks<'a>(s: &'a Stmt, stack: &mut Vec<&'a Stmt>) {
    match s {
        Stmt::For(x) => stack.extend(x.body.iter().chain(&x.orelse)),
        Stmt::AsyncFor(x) => stack.extend(x.body.iter().chain(&x.orelse)),
        Stmt::While(x) => stack.extend(x.body.iter().chain(&x.orelse)),
        Stmt::If(x) => stack.extend(x.body.iter().chain(&x.orelse)),
        Stmt::Try(x) => push_try_blocks(&x.body, &x.handlers, &x.orelse, &x.finalbody, stack),
        Stmt::TryStar(x) => push_try_blocks(&x.body, &x.handlers, &x.orelse, &x.finalbody, stack),
        _ => {},
    }
}

#[verifier::external_type_specification]
#[verifier::external_body]
#[verifier::reject_recursive_types(R)]
pub struct ExExceptHandler<R>(rustpython_ast::ExceptHandler<R>);

/// Relies on the rustpython_ast statement tree: pushes the four statement
/// lists of a `try` statement, the handler bodies included.
#[verifier::external_body]
fn push_try_blocks<'a>(
    body: &'a Vec<Stmt>,
    handlers: &'a Vec<rustpython_ast::ExceptHandler>,
    orelse: &'a Vec<Stmt>,
    finalbody: &'a Vec<Stmt>,
    stack: &mut Vec<&'a Stmt>,
) {
    stack.extend(body.iter().chain(orelse).chain(finalbody));
    for h in handlers {
        let rustpython_ast::ExceptHandler::ExceptHandler(hh) = h;
        stack.extend(&hh.body);
    }
}

/// The segments of one raw alias: the dotted module path, when present,
/// followed by the dotted imported name.
pub open spec fn raw_segments(raw: RawImport) -> Seq<Seq<char>> {
    match raw.module {
        Some(m) => split_at(m@, '.') + split_at(raw.name@, '.'),
        None => split_at(raw.name@, '.'),
    }
}

/// Turns the parser's raw aliases into import records by splitting the
/// dotted names into segments.
pub fn import_records(raws: &Vec<RawImport>) -> (r: Vec<Import>)
    ensures
        r.len() == raws.len(),
        forall|i: int|
            0 <= i < raws.len() ==> #[trigger] r@[i].segments.deep_view() == raw_segments(
                raws@[i],
            ) && r@[i].level == raws@[i].level,
{
    let mut r: Vec<Import> = Vec::new();
    let mut i: usize = 0;
    while i < raws.len()
        invariant
            0 <= i <= raws.len(),
            r.len() == i,
            forall|j: int|
                0 <= j < i ==> #[trigger] r@[j].segments.deep_view() == raw_segments(raws@[j])
                    && r@[j].level == raws@[j].level,
        decreases raws.len() - i,
    {
        let raw = &raws[i];
        let mut segments: Vec<String>;
        match &raw.module {
            Some(m) => {
                segments = split_string(m.as_str(), '.');
                let mut tail = split_string(raw.name.as_str(), '.');
                let ghost head = segments.deep_view();
                let ghost tailv = tail.deep_view();
                segments.append(&mut tail);
                proof {
                    assert(segments.deep_view() =~~= head + tailv);
                }
            },
            None => {
                segments = split_string(raw.name.as_str(), '.');
            },
        }
        r.push(Import { segments, level: raw.level });
        i = i + 1;
    }
    r
}

/// Where the text of `file` does not parse, `None`; otherwise the
/// deduplicated set of workspace files that its import statements resolve
/// to.
pub open spec fn spec_file_dependencies(
    file: Seq<char>,
    raws: Seq<RawImport>,
    files: Set<Seq<char>>,
    flc: Seq<Seq<char>>,
) -> Set<Seq<char>> {
    Set::new(
        |p: Seq<char>|
            exists|k: int|
                0 <= k < raws.len() && spec_resolve_import(
                    file,
                    raw_segments(raws[k]),
                    raws[k].level as nat,
                    files,
                    flc,
                ) == Some(p),
    )
}

/// Parses `source` and resolves its imports: the files that `file` depends
/// on. A file that fails to parse contributes no imports.
pub fn extract_file_dependencies(
    file: &String,
    source: &str,
    project_files: &Vec<String>,
    first_level_components: &Vec<Vec<String>>,
) -> (r: Option<Vec<String>>)
    ensures
        r is Some <==> parsed_imports(source@) is Some,
        r matches Some(deps) ==> deps.deep_view().no_duplicates(),
        r matches Some(deps) ==> deps.deep_view().to_set() == spec_file_dependencies(
            file@,
            parsed_imports(source@).unwrap()@,
            project_files.deep_view().to_set(),
            first_level_components.deep_view().flatten(),
        ),
{
    match parse_python_imports(source) {
        None => None,
        Some(raws) => {
            let records = import_records(&raws);
            let file_imports = FileImports { file: file.clone(), imports: records };
            let deps = file_imports.resolve_imports(project_files, first_level_components);
            proof {
                let files = project_files.deep_view().to_set();
                let flc = first_level_components.deep_view().flatten();
                assert(spec_resolved_set(file@, file_imports.imports@, files, flc)
                    =~= spec_file_dependencies(file@, raws@, files, flc)) by {
                    assert forall|p: Seq<char>|
                        spec_resolved_set(file@, file_imports.imports@, files, flc).contains(p)
                        implies spec_file_dependencies(file@, raws@, files, flc).contains(p) by {
                        let k = choose|k: int|
                            0 <= k < file_imports.imports@.len() && import_resolves_to(
                                file@,
                                file_imports.imports@[k],
                                files,
                                flc,
                                p,
                            );
                        assert(spec_resolve_import(
                            file@,
                            raw_segments(raws@[k]),
                            raws@[k].level as nat,
                            files,
                            flc,
                        ) == Some(p));
                    }
                    assert forall|p: Seq<char>|
                        spec_file_dependencies(file@, raws@, files, flc).contains(p)
                        implies spec_resolved_set(file@, file_imports.imports@, files, flc).contains(
                        p,
                    ) by {
                        let k = choose|k: int|
                            0 <= k < raws@.len() && spec_resolve_import(
                                file@,
                                raw_segments(raws@[k]),
                                raws@[k].level as nat,
                                files,
                                flc,
                            ) == Some(p);
                        assert(import_resolves_to(file@, file_imports.imports@[k], files, flc, p));
                    }
                }
            }
            Some(deps)
        },
    }
}

} // verus!
