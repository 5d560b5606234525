use tach_manifest::error::ParsingError;
use tach_manifest::manifest::{parse_pyproject_str, ProjectInfo};

fn parse(content: &str) -> Result<ProjectInfo, ParsingError> {
    parse_pyproject_str(content, false)
}

fn has(info: &ProjectInfo, name: &str) -> bool {
    info.dependencies.iter().any(|d| d == name)
}

#[test]
fn test_dependency_groups_empty_list() {
    let content = r#"
[project]
name = "test"
dependencies = ["requests"]

[dependency-groups]
test = ["pytest", "coverage"]
dev = ["ruff", "mypy"]

[tool.tach.external]
include_dependency_groups = []
"#;
    let result = parse(content).unwrap();

    assert!(has(&result, "requests"));
    assert!(!has(&result, "pytest"));
    assert!(!has(&result, "coverage"));
    assert!(!has(&result, "ruff"));
    assert!(!has(&result, "mypy"));
}

#[test]
fn test_dependency_groups_default_dev() {
    let content = r#"
[project]
name = "test"
dependencies = ["requests"]

[dependency-groups]
test = ["pytest", "coverage"]
dev = ["ruff", "mypy"]
"#;
    let result = parse(content).unwrap();

    assert!(has(&result, "requests"));
    assert!(!has(&result, "pytest"));
    assert!(!has(&result, "coverage"));
    assert!(has(&result, "ruff"));
    assert!(has(&result, "mypy"));
}

#[test]
fn test_dependency_groups_specific_group() {
    let content = r#"
[project]
name = "test"
dependencies = ["requests"]

[dependency-groups]
test = ["pytest>=7", "coverage[toml]"]
dev = ["ruff~=0.1", "mypy"]

[tool.tach.external]
include_dependency_groups = ["test"]
"#;
    let result = parse(content).unwrap();

    assert!(has(&result, "requests"));
    assert!(has(&result, "pytest"));
    assert!(has(&result, "coverage"));
    assert!(!has(&result, "ruff"));
    assert!(!has(&result, "mypy"));
}

#[test]
fn test_dependency_groups_all() {
    let content = r#"
[project]
name = "test"
dependencies = ["requests"]

[dependency-groups]
test = ["pytest>=7", "coverage[toml]"]
dev = ["ruff~=0.1", "mypy"]

[tool.tach.external]
include_dependency_groups = ["all"]
"#;
    let result = parse(content).unwrap();

    assert!(has(&result, "requests"));
    assert!(has(&result, "pytest"));
    assert!(has(&result, "coverage"));
    assert!(has(&result, "ruff"));
    assert!(has(&result, "mypy"));
}

#[test]
fn test_dependency_groups_with_include_group() {
    let content = r#"
[project]
name = "test"
dependencies = ["requests"]

[dependency-groups]
coverage = ["coverage[toml]"]
test = ["pytest", {include-group = "coverage"}]

[tool.tach.external]
include_dependency_groups = ["test"]
"#;
    let result = parse(content).unwrap();

    assert!(has(&result, "requests"));
    assert!(has(&result, "pytest"));
    assert!(has(&result, "coverage"));
}

#[test]
fn test_dependency_groups_with_transitive_include() {
    let content = r#"
[project]
name = "test"

[dependency-groups]
base = ["base-pkg"]
mid = ["mid-pkg", {include-group = "base"}]
top = ["top-pkg", {include-group = "mid"}]

[tool.tach.external]
include_dependency_groups = ["top"]
"#;
    let result = parse(content).unwrap();

    assert!(has(&result, "base_pkg"));
    assert!(has(&result, "mid_pkg"));
    assert!(has(&result, "top_pkg"));
}

#[test]
fn test_dependency_groups_cycle_detection() {
    let content = r#"
[project]
name = "test"

[dependency-groups]
a = ["pkg-a", {include-group = "b"}]
b = ["pkg-b", {include-group = "a"}]

[tool.tach.external]
include_dependency_groups = ["a"]
"#;
    let result = parse(content);

    assert!(matches!(
        result,
        Err(ParsingError::CircularDependencyGroup { .. })
    ));
}

#[test]
fn test_dependency_groups_missing_include_group() {
    let content = r#"
[project]
name = "test"

[dependency-groups]
test = ["pytest", {include-group = "nonexistent"}]

[tool.tach.external]
include_dependency_groups = ["test"]
"#;
    let result = parse(content);

    assert!(matches!(
        result,
        Err(ParsingError::MissingDependencyGroup { .. })
    ));
}

#[test]
fn test_dependency_groups_normalizes_names() {
    let content = r#"
[project]
name = "test"

[dependency-groups]
test = ["My-Package", "another_package", "UPPER-case"]

[tool.tach.external]
include_dependency_groups = ["test"]
"#;
    let result = parse(content).unwrap();

    assert!(has(&result, "my_package"));
    assert!(has(&result, "another_package"));
    assert!(has(&result, "upper_case"));
}

#[test]
fn test_dependency_groups_nonexistent_group_ignored() {
    let content = r#"
[project]
name = "test"
dependencies = ["requests"]

[dependency-groups]
dev = ["ruff"]

[tool.tach.external]
include_dependency_groups = ["nonexistent"]
"#;
    let result = parse(content).unwrap();

    assert!(has(&result, "requests"));
    assert!(!has(&result, "ruff"));
}
