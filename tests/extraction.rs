use tach_manifest::config::{
    CacheBackend, CacheConfig, ExternalDependencyConfig, RootModuleTreatment, RuleSetting,
    RulesConfig, ROOT_MODULE_SENTINEL_TAG,
};
use tach_manifest::error::ParsingError;
use tach_manifest::manifest::{
    configured_source_paths, extract_dependencies, extract_source_paths, extract_tach_include_dependency_groups,
    has_both_dependency_schemas, parse_pyproject_str, ProjectInfo,
};
use tach_manifest::names::{
    collapse_name_separators, extract_package_name, normalize_package_name,
};
use tach_manifest::requirements::{parse_requirements_str, requirement_line_name, trim_white_space};
use tach_manifest::tree::{parse_manifest, TomlValue};

fn sorted(v: &[String]) -> Vec<String> {
    let mut out = v.to_vec();
    out.sort();
    out
}

fn names(items: &[&str]) -> Vec<String> {
    let mut out: Vec<String> = items.iter().map(|s| s.to_string()).collect();
    out.sort();
    out
}

fn info(content: &str) -> ProjectInfo {
    parse_pyproject_str(content, false).unwrap()
}

fn segments(info: &ProjectInfo) -> Vec<Vec<String>> {
    info.source_paths.iter().map(|p| p.segments.clone()).collect()
}

#[test]
fn normalize_collapses_separator_runs() {
    assert_eq!(normalize_package_name("My-Package"), "my_package");
    assert_eq!(normalize_package_name("my package"), "my_package");
    assert_eq!(normalize_package_name("MY__PACKAGE"), "my_package");
}

#[test]
fn normalize_drops_separators_at_the_ends() {
    assert_eq!(normalize_package_name("--a_-_b  "), "a_b");
    assert_eq!(normalize_package_name(""), "");
    assert_eq!(normalize_package_name("-_ \t"), "");
    assert_eq!(normalize_package_name("a\u{3000}b"), "a_b");
}

#[test]
fn normalize_is_idempotent_on_examples() {
    for s in ["My-Package", "  Foo__Bar-baz ", "x", "", "ÄÖ-Ü"] {
        let once = normalize_package_name(s);
        assert_eq!(normalize_package_name(&once), once);
    }
}

#[test]
fn collapse_keeps_case_and_joins_words() {
    assert_eq!(collapse_name_separators("A--B"), "A_B");
    assert_eq!(collapse_name_separators("a b\nc"), "a_b_c");
}

#[test]
fn package_name_stops_at_first_delimiter() {
    assert_eq!(extract_package_name("pytest>=7"), "pytest");
    assert_eq!(extract_package_name("coverage[toml]"), "coverage");
    assert_eq!(extract_package_name("ruff~=0.1"), "ruff");
    assert_eq!(extract_package_name("numpy; python_version<'3.9'"), "numpy");
    assert_eq!(extract_package_name("requests ==2"), "requests");
    assert_eq!(extract_package_name("plain-name"), "plain-name");
    assert_eq!(extract_package_name("=x"), "");
}

#[test]
fn selecting_no_group_keeps_primary_only() {
    let content = r#"
[project]
dependencies = ["requests"]

[dependency-groups]
test = ["pytest", "coverage"]
dev = ["ruff", "mypy"]

[tool.tach.external]
include_dependency_groups = []
"#;
    assert_eq!(sorted(&info(content).dependencies), names(&["requests"]));
}

#[test]
fn selecting_all_takes_every_group() {
    let content = r#"
[project]
dependencies = ["requests"]

[dependency-groups]
test = ["pytest", "coverage"]
dev = ["ruff", "mypy"]

[tool.tach.external]
include_dependency_groups = ["all"]
"#;
    assert_eq!(
        sorted(&info(content).dependencies),
        names(&["coverage", "mypy", "pytest", "requests", "ruff"])
    );
}

#[test]
fn included_group_contributes_exactly_its_names() {
    let content = r#"
[dependency-groups]
test = ["pytest", {include-group = "coverage"}]
coverage = ["coverage[toml]"]

[tool.tach.external]
include_dependency_groups = ["test"]
"#;
    assert_eq!(sorted(&info(content).dependencies), names(&["coverage", "pytest"]));
}

#[test]
fn diamond_across_selected_groups_is_no_cycle() {
    let content = r#"
[dependency-groups]
a = ["pkg-a", {include-group = "shared"}]
b = ["pkg-b", {include-group = "shared"}]
shared = ["common"]

[tool.tach.external]
include_dependency_groups = ["a", "b"]
"#;
    assert_eq!(sorted(&info(content).dependencies), names(&["common", "pkg_a", "pkg_b"]));
}

#[test]
fn cycle_error_names_the_group_reached_twice() {
    let content = r#"
[dependency-groups]
a = ["pkg-a", {include-group = "b"}]
b = ["pkg-b", {include-group = "a"}]

[tool.tach.external]
include_dependency_groups = ["a"]
"#;
    match parse_pyproject_str(content, false) {
        Err(ParsingError::CircularDependencyGroup { group }) => assert_eq!(group, "a"),
        _ => panic!("expected a cycle"),
    }
}

#[test]
fn self_include_is_a_cycle() {
    let content = r#"
[dependency-groups]
dev = [{include-group = "dev"}]
"#;
    match parse_pyproject_str(content, false) {
        Err(ParsingError::CircularDependencyGroup { group }) => assert_eq!(group, "dev"),
        _ => panic!("expected a cycle"),
    }
}

#[test]
fn missing_include_error_names_both_groups() {
    let content = r#"
[dependency-groups]
test = ["pytest", {include-group = "nonexistent"}]

[tool.tach.external]
include_dependency_groups = ["test"]
"#;
    match parse_pyproject_str(content, false) {
        Err(ParsingError::MissingDependencyGroup { included, from_group }) => {
            assert_eq!(included, "nonexistent");
            assert_eq!(from_group, "test");
        }
        _ => panic!("expected a missing group"),
    }
}

#[test]
fn group_names_are_not_filtered_by_exclusion_list() {
    let content = r#"
[project]
dependencies = ["python>=3.8", "poetry", "requests"]

[dependency-groups]
dev = ["python", "poetry"]
"#;
    assert_eq!(
        sorted(&info(content).dependencies),
        names(&["poetry", "python", "requests"])
    );
}

#[test]
fn legacy_table_used_without_primary_list() {
    let content = r#"
[tool.poetry.dependencies]
python = "^3.8"
Django = "^4"
"typing-extensions" = "*"
"#;
    assert_eq!(
        sorted(&info(content).dependencies),
        names(&["django", "typing_extensions"])
    );
}

#[test]
fn primary_list_wins_over_legacy_table() {
    let content = r#"
[project]
dependencies = ["requests"]

[tool.poetry.dependencies]
flask = "*"
"#;
    let tree = parse_manifest(content).unwrap();
    assert!(has_both_dependency_schemas(&tree));
    let groups = extract_tach_include_dependency_groups(&tree);
    assert_eq!(groups, vec!["dev".to_string()]);
    let deps = extract_dependencies(&tree, &groups).unwrap();
    assert_eq!(sorted(&deps), names(&["requests"]));
}

#[test]
fn project_name_is_read() {
    let content = r#"
[project]
name = "demo"
"#;
    assert_eq!(info(content).name, Some("demo".to_string()));
    assert_eq!(info("").name, None);
}

#[test]
fn invalid_toml_is_a_parse_error() {
    let result = parse_pyproject_str("[project\nname = ", false);
    assert!(matches!(result, Err(ParsingError::TomlParse(_))));
}

#[test]
fn source_paths_default_to_root() {
    assert_eq!(segments(&info("[project]\nname = \"x\"\n")), vec![Vec::<String>::new()]);
}

#[test]
fn source_paths_default_to_src_when_present() {
    let tree = parse_manifest("").unwrap();
    let paths = extract_source_paths(&tree, true);
    assert_eq!(paths.len(), 1);
    assert_eq!(paths[0].segments, vec!["src".to_string()]);
}

#[test]
fn source_paths_follow_build_backends_in_order() {
    let content = r#"
[tool.setuptools]
packages = ["pkg_one", "pkg_two"]

[tool.poetry]
packages = [{include = "lib_a", from = "src"}, {include = "lib_b"}, {from = "x"}]

[tool.maturin]
python-source = "python"
"#;
    let got = segments(&info(content));
    let want: Vec<Vec<String>> = vec![
        vec!["pkg_one".to_string()],
        vec!["pkg_two".to_string()],
        vec!["src".to_string(), "lib_a".to_string()],
        vec!["".to_string(), "lib_b".to_string()],
        vec!["python".to_string()],
    ];
    assert_eq!(got, want);
}

#[test]
fn tree_lookups_return_absence() {
    let tree = parse_manifest("[a]\nb = \"c\"\nn = 3\n").unwrap();
    let a = tree.get("a").unwrap();
    assert_eq!(a.get("b").and_then(|v| v.as_str()), Some("c"));
    assert!(matches!(a.get("n"), Some(TomlValue::Integer(3))));
    assert!(a.get("missing").is_none());
    assert!(tree.get("a").unwrap().get("b").unwrap().get("x").is_none());
}

#[test]
fn requirements_skip_comments_options_and_blanks() {
    let text = "# comment\n\n-r other.txt\n  Flask>=2.0  \nrequests[security]\r\npython\nMy_Pkg ; os_name == 'nt'\n--index-url x\nlast-line";
    assert_eq!(
        sorted(&parse_requirements_str(text)),
        names(&["flask", "last_line", "my_pkg", "requests"])
    );
}

#[test]
fn requirements_empty_text_has_no_names() {
    assert!(parse_requirements_str("").is_empty());
    assert!(parse_requirements_str("\n\n   \n").is_empty());
}

#[test]
fn requirements_duplicates_collapse() {
    assert_eq!(
        sorted(&parse_requirements_str("a-b\nA_B==1\na b\n")),
        names(&["a", "a_b"])
    );
}

#[test]
fn requirement_line_is_trimmed_and_normalized() {
    assert_eq!(requirement_line_name("\t Foo-Bar>=1 "), Some("foo_bar".to_string()));
    assert_eq!(requirement_line_name("   # note"), None);
    assert_eq!(requirement_line_name("-e ."), None);
    assert_eq!(requirement_line_name("python"), None);
}

#[test]
fn config_defaults() {
    let rules = RulesConfig::default();
    assert!(rules.unused_ignore_directives.is_warn());
    assert!(rules.require_ignore_directive_reasons.is_off());
    assert!(rules.unused_external_dependencies.is_error());
    assert!(rules.local_imports.is_error());
    assert_eq!(CacheConfig::default().backend, CacheBackend::Disk);
    assert!(!ExternalDependencyConfig::default().include_dependency_groups);
    assert_eq!(RootModuleTreatment::default(), RootModuleTreatment::Ignore);
    assert_eq!(RootModuleTreatment::DependenciesOnly.as_str(), "dependenciesonly");
    assert_eq!(RuleSetting::Warn.as_str(), "warn");
    assert_eq!(CacheBackend::Disk.as_str(), "disk");
    assert_eq!(ROOT_MODULE_SENTINEL_TAG, "<root>");
    assert!(!RuleSetting::Error.is_off());
}

#[test]
fn core_variant_of_backend_is_left_out() {
    let content = r#"
[project]
dependencies = ["python>=3.8", "poetry-core>=1.0", "Requests[socks]"]
"#;
    assert_eq!(sorted(&info(content).dependencies), names(&["requests"]));
    let legacy = r#"
[tool.poetry.dependencies]
poetry-core = "*"
python = "^3.8"
flask = "*"
"#;
    assert_eq!(sorted(&info(legacy).dependencies), names(&["flask"]));
    assert_eq!(
        sorted(&parse_requirements_str("poetry-core>=1.0\nrequests\n")),
        names(&["requests"])
    );
}

#[test]
fn configured_source_paths_empty_without_backend_sections() {
    let tree = parse_manifest("[tool.other]\nx = 1\n").unwrap();
    assert!(configured_source_paths(&tree).is_empty());
    let tree = parse_manifest("[tool.maturin]\npython-source = \"py\"\n").unwrap();
    assert_eq!(configured_source_paths(&tree).len(), 1);
}

#[test]
fn all_selection_reports_first_failing_group_in_document_order() {
    let content = r#"
[dependency-groups]
zeta = [{include-group = "missing-z"}]
alpha = [{include-group = "missing-a"}]

[tool.tach.external]
include_dependency_groups = ["all"]
"#;
    match parse_pyproject_str(content, false) {
        Err(ParsingError::MissingDependencyGroup { from_group, .. }) => assert_eq!(from_group, "zeta"),
        _ => panic!("expected a missing group"),
    }
}

#[test]
fn transitive_chain_with_several_literals_per_group() {
    let content = r#"
[dependency-groups]
top = ["t1", "T2>=1", {include-group = "mid"}]
mid = ["m1", "m-2", {include-group = "base"}]
base = ["b1", "b_2", "B 3"]

[tool.tach.external]
include_dependency_groups = ["top"]
"#;
    assert_eq!(
        sorted(&info(content).dependencies),
        names(&["b", "b1", "b_2", "m1", "m_2", "t1", "t2"])
    );
}

#[test]
fn missing_include_deep_in_chain_fails() {
    let content = r#"
[dependency-groups]
top = ["t", {include-group = "mid"}]
mid = [{include-group = "base"}, "m"]
base = ["b", {include-group = "gone"}]

[tool.tach.external]
include_dependency_groups = ["top"]
"#;
    match parse_pyproject_str(content, false) {
        Err(ParsingError::MissingDependencyGroup { included, from_group }) => {
            assert_eq!(included, "gone");
            assert_eq!(from_group, "base");
        }
        _ => panic!("expected a missing group"),
    }
}

#[test]
fn trim_removes_unicode_white_space_at_both_ends() {
    assert_eq!(trim_white_space("\u{3000} a b\t\r\n"), "a b");
    assert_eq!(trim_white_space("   "), "");
    assert_eq!(trim_white_space(""), "");
    assert_eq!(trim_white_space("x"), "x");
}
