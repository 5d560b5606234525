//! What a parsed `pyproject.toml` declares: the project name, the dependency
//! names, and the candidate source roots.
use vstd::prelude::*;
use vstd::string::StringExecFns;

use crate::error::ParsingError;
use crate::groups::{extract_dependency_groups, fault_of, resolve_selection, GroupFault};
use crate::name_set::{insert_name, is_name_set, text_set, texts};
use crate::names::{extract_package_name, normalize_package_name, specifier_name};
use crate::tree::{
    child, child_of, deref_opt, parse_manifest, parsed_tree, same_text, str_of, toml_accepts,
    TomlValue,
};

verus! {

/// A candidate source root, as path segments below the project root; an
/// empty list stands for the root itself.
pub struct SourcePath {
    pub segments: Vec<String>,
}

/// What a manifest declares.
pub struct ProjectInfo {
    pub name: Option<String>,
    /// Normalised dependency names, each once.
    pub dependencies: Vec<String>,
    /// Candidate source roots, in the order the conventions are checked.
    pub source_paths: Vec<SourcePath>,
}

/// The segments of each source path.
pub open spec fn path_texts(paths: Seq<SourcePath>) -> Seq<Seq<Seq<char>>> {
    paths.map_values(|p: SourcePath| texts(p.segments@))
}

/// Names that are never reported as dependencies of the primary or legacy lists.
pub open spec fn is_excluded(name: Seq<char>) -> bool {
    name == "python"@ || name == "poetry"@ || name == "poetry_core"@
}

/// The value at `tool.<section>.<key>`.
pub open spec fn tool_entry(tree: TomlValue, section: Seq<char>, key: Seq<char>) -> Option<TomlValue> {
    child(child(child(Some(tree), "tool"@), section), key)
}

/// `project.name`, when it is a string.
pub open spec fn project_name_of(tree: TomlValue) -> Option<Seq<char>> {
    str_of(child(child(Some(tree), "project"@), "name"@))
}

/// The primary dependency list, `project.dependencies`.
pub open spec fn project_dependencies(tree: TomlValue) -> Option<TomlValue> {
    child(child(Some(tree), "project"@), "dependencies"@)
}

/// The legacy dependency table, `tool.poetry.dependencies`.
pub open spec fn poetry_dependencies(tree: TomlValue) -> Option<TomlValue> {
    tool_entry(tree, "poetry"@, "dependencies"@)
}

/// The strings among `items`, in order.
pub open spec fn string_items(items: Seq<TomlValue>) -> Seq<Seq<char>>
    decreases items.len(),
{
    if items.len() == 0 {
        Seq::empty()
    } else {
        let rest = string_items(items.drop_last());
        match items.last() {
            TomlValue::Str(s) => rest.push(s@),
            _ => rest,
        }
    }
}

/// The names that the string specifiers of a dependency array declare.
pub open spec fn array_names(items: Seq<TomlValue>) -> Set<Seq<char>>
    decreases items.len(),
{
    if items.len() == 0 {
        Set::empty()
    } else {
        let rest = array_names(items.drop_last());
        match items.last() {
            TomlValue::Str(s) => if is_excluded(specifier_name(s@)) {
                rest
            } else {
                rest.insert(specifier_name(s@))
            },
            _ => rest,
        }
    }
}

/// The names that the keys of a dependency table declare.
pub open spec fn key_names(entries: Seq<(String, TomlValue)>) -> Set<Seq<char>>
    decreases entries.len(),
{
    if entries.len() == 0 {
        Set::empty()
    } else {
        let rest = key_names(entries.drop_last());
        let n = specifier_name(entries.last().0@);
        if is_excluded(n) {
            rest
        } else {
            rest.insert(n)
        }
    }
}

/// The names that a dependency list declares, as an array of specifiers or as
/// a table keyed by package.
pub open spec fn declared_names(v: TomlValue) -> Set<Seq<char>> {
    match v {
        TomlValue::Array(items) => array_names(items@),
        TomlValue::Table(entries) => key_names(entries@),
        _ => Set::empty(),
    }
}

/// The names of the primary list, or of the legacy table when the primary is absent.
pub open spec fn base_names(tree: TomlValue) -> Set<Seq<char>> {
    match project_dependencies(tree) {
        Some(v) => declared_names(v),
        None => match poetry_dependencies(tree) {
            Some(v) => declared_names(v),
            None => Set::empty(),
        },
    }
}

/// The groups that `tool.tach.external.include_dependency_groups` selects:
/// its strings, or `dev` when it is not an array.
pub open spec fn selected_groups(tree: TomlValue) -> Seq<Seq<char>> {
    match child(tool_entry(tree, "tach"@, "external"@), "include_dependency_groups"@) {
        Some(TomlValue::Array(items)) => string_items(items@),
        _ => seq!["dev"@],
    }
}

/// The `[dependency-groups]` table, when present as a table.
pub open spec fn group_table(tree: TomlValue) -> Option<Seq<(String, TomlValue)>> {
    match child(Some(tree), "dependency-groups"@) {
        Some(TomlValue::Table(entries)) => Some(entries@),
        _ => None,
    }
}

/// Every dependency name of the manifest with groups `selection` included.
pub open spec fn manifest_dependencies(tree: TomlValue, selection: Seq<Seq<char>>) -> Result<
    Set<Seq<char>>,
    GroupFault,
> {
    if selection.len() == 0 {
        Ok(base_names(tree))
    } else {
        match group_table(tree) {
            None => Ok(base_names(tree)),
            Some(groups) => match resolve_selection(groups, selection) {
                Ok(more) => Ok(base_names(tree).union(more)),
                Err(f) => Err(f),
            },
        }
    }
}

/// One path per package of `tool.poetry.packages` that names an `include`:
/// its `from` directory (empty when absent), then the `include`.
pub open spec fn poetry_paths(items: Seq<TomlValue>) -> Seq<Seq<Seq<char>>>
    decreases items.len(),
{
    if items.len() == 0 {
        Seq::empty()
    } else {
        let rest = poetry_paths(items.drop_last());
        let p = items.last();
        match str_of(child(Some(p), "include"@)) {
            Some(inc) => {
                let from = match str_of(child(Some(p), "from"@)) {
                    Some(f) => f,
                    None => Seq::empty(),
                };
                rest.push(seq![from, inc])
            },
            None => rest,
        }
    }
}

/// The source roots that the build-backend sections name, in the order
/// setuptools, poetry, maturin.
pub open spec fn configured_paths(tree: TomlValue) -> Seq<Seq<Seq<char>>> {
    let setuptools = match tool_entry(tree, "setuptools"@, "packages"@) {
        Some(TomlValue::Array(items)) => string_items(items@).map_values(|s: Seq<char>| seq![s]),
        _ => Seq::empty(),
    };
    let poetry = match tool_entry(tree, "poetry"@, "packages"@) {
        Some(TomlValue::Array(items)) => poetry_paths(items@),
        _ => Seq::empty(),
    };
    let maturin = match str_of(tool_entry(tree, "maturin"@, "python-source"@)) {
        Some(ps) => seq![seq![ps]],
        None => Seq::empty(),
    };
    setuptools + poetry + maturin
}

/// The candidate source roots: those configured, else `src` when that
/// directory exists, else the project root.
pub open spec fn source_paths_of(tree: TomlValue, src_dir_exists: bool) -> Seq<Seq<Seq<char>>> {
    if configured_paths(tree).len() > 0 {
        configured_paths(tree)
    } else if src_dir_exists {
        seq![seq!["src"@]]
    } else {
        seq![Seq::empty()]
    }
}

/// Without a setuptools package list, a poetry package list or a maturin
/// python-source, and without a `src` directory, the project root is the one
/// candidate source path.
pub proof fn lemma_root_is_default_source_path(tree: TomlValue)
    requires
        tool_entry(tree, "setuptools"@, "packages"@) is None,
        tool_entry(tree, "poetry"@, "packages"@) is None,
        tool_entry(tree, "maturin"@, "python-source"@) is None,
    ensures
        source_paths_of(tree, false) == seq![Seq::<Seq<char>>::empty()],
{
    assert(configured_paths(tree) == Seq::<Seq<Seq<char>>>::empty());
}

pub(crate) fn is_excluded_name(name: &str) -> (r: bool)
    ensures
        r == is_excluded(name@),
{
    same_text(name, "python") || same_text(name, "poetry") || same_text(name, "poetry_core")
}

fn tool_entry_of<'a>(tree: &'a TomlValue, section: &str, key: &str) -> (r: Option<&'a TomlValue>)
    ensures
        deref_opt(r) == tool_entry(*tree, section@, key@),
{
    child_of(child_of(tree.get("tool"), section), key)
}

/// The project's name, `project.name`, when it is a string.
pub fn extract_project_name(tree: &TomlValue) -> (r: Option<String>)
    ensures
        r matches Some(s) ==> project_name_of(*tree) == Some(s@),
        r is None ==> project_name_of(*tree) is None,
{
    match child_of(tree.get("project"), "name") {
        Some(v) => match v.as_str() {
            Some(s) => Some(String::from_str(s)),
            None => None,
        },
        None => None,
    }
}

fn string_items_of(items: &Vec<TomlValue>) -> (r: Vec<String>)
    ensures
        texts(r@) == string_items(items@),
{
    let mut out: Vec<String> = Vec::new();
    let mut i: usize = 0;
    while i < items.len()
        invariant
            i <= items@.len(),
            texts(out@) == string_items(items@.take(i as int)),
        decreases items.len() - i,
    {
        proof {
            assert(items@.take(i + 1).drop_last() == items@.take(i as int));
        }
        match &items[i] {
            TomlValue::Str(s) => {
                let ghost before = out@;
                out.push(String::from_str(s.as_str()));
                assert(texts(out@) == texts(before).push(s@));
            },
            _ => {},
        }
        i = i + 1;
    }
    assert(items@.take(items@.len() as int) == items@);
    out
}

/// The dependency groups to include: the strings of
/// `tool.tach.external.include_dependency_groups`, or `["dev"]` when that is
/// not an array.
pub fn extract_tach_include_dependency_groups(tree: &TomlValue) -> (r: Vec<String>)
    ensures
        texts(r@) == selected_groups(*tree),
{
    match child_of(tool_entry_of(tree, "tach", "external"), "include_dependency_groups") {
        Some(TomlValue::Array(items)) => string_items_of(items),
        _ => {
            let mut r: Vec<String> = Vec::new();
            r.push(String::from_str("dev"));
            assert(texts(r@) == seq!["dev"@]);
            r
        },
    }
}

/// Adds the names that a dependency list declares, leaving out `python`,
/// `poetry` and `poetry_core` (the normalised `poetry-core`).
pub fn extract_deps_from_value(dependencies: &mut Vec<String>, deps: &TomlValue)
    requires
        is_name_set(old(dependencies)@),
    ensures
        is_name_set(final(dependencies)@),
        text_set(final(dependencies)@) == text_set(old(dependencies)@).union(declared_names(*deps)),
{
    let ghost d0 = text_set(dependencies@);
    match deps {
        TomlValue::Array(items) => {
            let mut i: usize = 0;
            assert(d0.union(Set::empty()) == d0);
            while i < items.len()
                invariant
                    i <= items@.len(),
                    is_name_set(dependencies@),
                    text_set(dependencies@) == d0.union(array_names(items@.take(i as int))),
                decreases items.len() - i,
            {
                proof {
                    assert(items@.take(i + 1).drop_last() == items@.take(i as int));
                }
                match &items[i] {
                    TomlValue::Str(s) => {
                        let name = normalize_package_name(extract_package_name(s.as_str()).as_str());
                        if !is_excluded_name(name.as_str()) {
                            insert_name(dependencies, name);
                        }
                        assert(text_set(dependencies@) == d0.union(array_names(items@.take(i + 1))));
                    },
                    _ => {},
                }
                i = i + 1;
            }
            assert(items@.take(items@.len() as int) == items@);
        },
        TomlValue::Table(entries) => {
            let mut i: usize = 0;
            assert(d0.union(Set::empty()) == d0);
            while i < entries.len()
                invariant
                    i <= entries@.len(),
                    is_name_set(dependencies@),
                    text_set(dependencies@) == d0.union(key_names(entries@.take(i as int))),
                decreases entries.len() - i,
            {
                proof {
                    assert(entries@.take(i + 1).drop_last() == entries@.take(i as int));
                }
                let entry = &entries[i];
                let name = normalize_package_name(extract_package_name(entry.0.as_str()).as_str());
                if !is_excluded_name(name.as_str()) {
                    insert_name(dependencies, name);
                }
                assert(text_set(dependencies@) == d0.union(key_names(entries@.take(i + 1))));
                i = i + 1;
            }
            assert(entries@.take(entries@.len() as int) == entries@);
        },
        _ => {
            assert(d0.union(Set::empty()) == d0);
        },
    }
}

/// Whether the manifest declares both the primary dependency list and the
/// legacy table; the primary list is then the one used.
pub fn has_both_dependency_schemas(tree: &TomlValue) -> (r: bool)
    ensures
        r == (project_dependencies(*tree) is Some && poetry_dependencies(*tree) is Some),
{
    child_of(tree.get("project"), "dependencies").is_some() && tool_entry_of(
        tree,
        "poetry",
        "dependencies",
    ).is_some()
}

/// Every dependency name of the manifest: the primary list (or, without it,
/// the legacy table), plus the groups that `include_dependency_groups` selects.
pub fn extract_dependencies(tree: &TomlValue, include_dependency_groups: &Vec<String>) -> (r:
    Result<Vec<String>, ParsingError>)
    ensures
        match manifest_dependencies(*tree, texts(include_dependency_groups@)) {
            Ok(names) => r matches Ok(v) && is_name_set(v@) && text_set(v@) == names,
            Err(f) => r matches Err(e) && fault_of(e) == Some(f),
        },
{
    let mut dependencies: Vec<String> = Vec::new();
    assert(text_set(dependencies@) == Set::<Seq<char>>::empty());
    assert(Set::<Seq<char>>::empty().union(base_names(*tree)) == base_names(*tree));
    match child_of(tree.get("project"), "dependencies") {
        Some(deps) => extract_deps_from_value(&mut dependencies, deps),
        None => match tool_entry_of(tree, "poetry", "dependencies") {
            Some(deps) => extract_deps_from_value(&mut dependencies, deps),
            None => {},
        },
    }
    if include_dependency_groups.len() > 0 {
        match child_of(Some(tree), "dependency-groups") {
            Some(TomlValue::Table(groups)) => {
                match extract_dependency_groups(&mut dependencies, groups, include_dependency_groups) {
                    Ok(()) => {},
                    Err(e) => {
                        return Err(e);
                    },
                }
            },
            _ => {},
        }
    }
    Ok(dependencies)
}

fn single_path(segment: &str) -> (r: SourcePath)
    ensures
        texts(r.segments@) == seq![segment@],
{
    let mut segments: Vec<String> = Vec::new();
    segments.push(String::from_str(segment));
    assert(texts(segments@) == seq![segment@]);
    SourcePath { segments }
}

/// The source roots that the build-backend sections name: each package of
/// `tool.setuptools.packages`; each `from`/`include` of `tool.poetry.packages`;
/// then `tool.maturin.python-source`.
pub fn configured_source_paths(tree: &TomlValue) -> (r: Vec<SourcePath>)
    ensures
        path_texts(r@) == configured_paths(*tree),
{
    let mut paths: Vec<SourcePath> = Vec::new();
    match tool_entry_of(tree, "setuptools", "packages") {
        Some(TomlValue::Array(items)) => {
            let names = string_items_of(items);
            let mut i: usize = 0;
            while i < names.len()
                invariant
                    i <= names@.len(),
                    path_texts(paths@) == texts(names@).take(i as int).map_values(
                        |s: Seq<char>| seq![s],
                    ),
                decreases names.len() - i,
            {
                let ghost before = paths@;
                paths.push(single_path(names[i].as_str()));
                assert(path_texts(paths@) == path_texts(before).push(seq![names@[i as int]@]));
                assert(texts(names@).take(i + 1) == texts(names@).take(i as int).push(
                    names@[i as int]@,
                ));
                assert(path_texts(paths@) == texts(names@).take(i + 1).map_values(
                    |s: Seq<char>| seq![s],
                ));
                i = i + 1;
            }
            assert(texts(names@).take(names@.len() as int) == texts(names@));
        },
        _ => {},
    }
    let ghost after_setuptools = path_texts(paths@);
    match tool_entry_of(tree, "poetry", "packages") {
        Some(TomlValue::Array(items)) => {
            let mut i: usize = 0;
            assert(after_setuptools + poetry_paths(items@.take(0)) == after_setuptools);
            while i < items.len()
                invariant
                    i <= items@.len(),
                    path_texts(paths@) == after_setuptools + poetry_paths(items@.take(i as int)),
                decreases items.len() - i,
            {
                proof {
                    assert(items@.take(i + 1).drop_last() == items@.take(i as int));
                }
                let package = &items[i];
                let ghost prefix_paths = poetry_paths(items@.take(i as int));
                assert(items@.take(i + 1).last() == *package);
                match package.get("include") {
                    Some(v) => match v.as_str() {
                        Some(package_dir) => {
                            let from: &str = match package.get("from") {
                                Some(f) => match f.as_str() {
                                    Some(s) => s,
                                    None => "",
                                },
                                None => "",
                            };
                            proof {
                                reveal_strlit("");
                            }
                            assert(from@ == match str_of(child(Some(*package), "from"@)) {
                                Some(f) => f,
                                None => Seq::empty(),
                            });
                            assert(str_of(child(Some(*package), "include"@)) == Some(package_dir@));
                            let mut segments: Vec<String> = Vec::new();
                            segments.push(String::from_str(from));
                            segments.push(String::from_str(package_dir));
                            let ghost before = paths@;
                            paths.push(SourcePath { segments });
                            assert(texts(segments@) == seq![from@, package_dir@]);
                            assert(path_texts(paths@) == path_texts(before).push(
                                seq![from@, package_dir@],
                            ));
                            assert(poetry_paths(items@.take(i + 1)) == prefix_paths.push(
                                seq![from@, package_dir@],
                            ));
                            assert(path_texts(paths@) == after_setuptools + poetry_paths(
                                items@.take(i + 1),
                            ));
                        },
                        None => {},
                    },
                    None => {},
                }
                i = i + 1;
            }
            assert(items@.take(items@.len() as int) == items@);
        },
        _ => {
            assert(after_setuptools + Seq::empty() == after_setuptools);
        },
    }
    let ghost after_poetry = path_texts(paths@);
    match tool_entry_of(tree, "maturin", "python-source") {
        Some(v) => match v.as_str() {
            Some(ps) => {
                paths.push(single_path(ps));
            },
            None => {},
        },
        None => {},
    }
    assert(path_texts(paths@) == configured_paths(*tree));
    paths
}

/// The candidate source roots: those that the build-backend sections name,
/// and, when they name none, `src` if `src_dir_exists`, else the root.
pub fn extract_source_paths(tree: &TomlValue, src_dir_exists: bool) -> (r: Vec<SourcePath>)
    ensures
        path_texts(r@) == source_paths_of(*tree, src_dir_exists),
{
    let mut paths = configured_source_paths(tree);
    if paths.len() == 0 {
        if src_dir_exists {
            paths.push(single_path("src"));
        } else {
            paths.push(SourcePath { segments: Vec::new() });
            assert(texts(paths@[0].segments@) == Seq::<Seq<char>>::empty());
        }
    }
    paths
}

/// What a parsed manifest declares, with `src_dir_exists` telling whether the
/// project root holds a `src` directory.
pub fn project_info_from_tree(tree: &TomlValue, src_dir_exists: bool) -> (r: Result<
    ProjectInfo,
    ParsingError,
>)
    ensures
        match manifest_dependencies(*tree, selected_groups(*tree)) {
            Ok(names) => r matches Ok(info) && is_name_set(info.dependencies@) && text_set(
                info.dependencies@,
            ) == names && path_texts(info.source_paths@) == source_paths_of(*tree, src_dir_exists)
                && (info.name matches Some(s) ==> project_name_of(*tree) == Some(s@)) && (
            info.name is None ==> project_name_of(*tree) is None),
            Err(f) => r matches Err(e) && fault_of(e) == Some(f),
        },
{
    let name = extract_project_name(tree);
    let include_dependency_groups = extract_tach_include_dependency_groups(tree);
    let dependencies = match extract_dependencies(tree, &include_dependency_groups) {
        Ok(d) => d,
        Err(e) => {
            return Err(e);
        },
    };
    let source_paths = extract_source_paths(tree, src_dir_exists);
    Ok(ProjectInfo { name, dependencies, source_paths })
}

/// Parses manifest text and extracts what it declares; fails with
/// `TomlParse` exactly when the text is not TOML.
pub fn parse_pyproject_str(content: &str, src_dir_exists: bool) -> (r: Result<
    ProjectInfo,
    ParsingError,
>)
    ensures
        !toml_accepts(content@) <==> (r matches Err(e) && e is TomlParse),
        r matches Err(e) ==> e is TomlParse || fault_of(e) is Some,
        toml_accepts(content@) ==> match manifest_dependencies(
            parsed_tree(content@),
            selected_groups(parsed_tree(content@)),
        ) {
            Ok(names) => r matches Ok(info) && is_name_set(info.dependencies@) && text_set(
                info.dependencies@,
            ) == names && path_texts(info.source_paths@) == source_paths_of(
                parsed_tree(content@),
                src_dir_exists,
            ) && (info.name matches Some(s) ==> project_name_of(parsed_tree(content@)) == Some(
                s@,
            )) && (info.name is None ==> project_name_of(parsed_tree(content@)) is None),
            Err(f) => r matches Err(e) && fault_of(e) == Some(f),
        },
{
    match parse_manifest(content) {
        Ok(tree) => project_info_from_tree(&tree, src_dir_exists),
        Err(e) => Err(e),
    }
}

} // verus!
