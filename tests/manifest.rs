use post_init::config::UvinitConfig;
use post_init::document::{rank_cmp, rank_of, str_eq};
use post_init::manifest::{document_has_dynamic, has_project_dynamic, modify_pyproject_toml, transform_document, ManifestError};
use std::cmp::Ordering;
use toml_edit::DocumentMut;

fn parse(s: &str) -> DocumentMut {
    s.parse::<DocumentMut>().unwrap()
}

fn strings_of(doc: &DocumentMut, table: &str, key: &str) -> Vec<String> {
    let t = doc.get(table).unwrap().as_table().unwrap();
    t.get(key)
        .unwrap()
        .as_array()
        .unwrap()
        .iter()
        .map(|v| v.as_str().unwrap().to_string())
        .collect()
}

fn all_off() -> UvinitConfig {
    UvinitConfig {
        enable_bandit: false,
        enable_pytest_asyncio: false,
        enable_dynamic_version: false,
        add_hatch_vcs: false,
        additional_requires: vec![],
        skip_dirs: vec![],
    }
}

#[test]
fn test_has_project_dynamic() {
    let with_dynamic = r#"
[project]
name = "test"
dynamic = ["version"]
description = "Test project"
"#;
    let without_dynamic = r#"
[project]
name = "test"
version = "0.1.0"
description = "Test project"
"#;
    let empty_project = r#"
[project]
name = "test"
"#;
    let no_project = r#"
[build-system]
requires = ["hatchling"]
"#;
    assert!(has_project_dynamic(with_dynamic).unwrap());
    assert!(!has_project_dynamic(without_dynamic).unwrap());
    assert!(!has_project_dynamic(empty_project).unwrap());
    assert!(!has_project_dynamic(no_project).unwrap());
}

#[test]
fn test_modify_pyproject_toml() {
    let input = r#"
[project]
name = "test-project"
version = "0.1.0"
description = "A test project"
dependencies = ["requests"]

[build-system]
requires = ["hatchling"]
build-backend = "hatchling.build"
"#;
    let config = UvinitConfig {
        additional_requires: vec!["setuptools-scm".to_string()],
        ..Default::default()
    };
    let modified = modify_pyproject_toml(input, &config).unwrap();
    println!("Modified content:\n{}", modified);
    let doc = parse(&modified);

    let project = doc.get("project").unwrap().as_table().unwrap();
    assert!(!project.contains_key("version"));
    assert!(project.contains_key("dynamic"));

    let dynamic = project.get("dynamic").unwrap().as_array().unwrap();
    assert_eq!(dynamic.len(), 1);
    assert_eq!(dynamic.get(0).unwrap().as_str().unwrap(), "version");

    let requires = strings_of(&doc, "build-system", "requires");
    assert!(requires.contains(&"hatchling".to_string()));
    assert!(requires.contains(&"hatch-vcs".to_string()));
    assert!(requires.contains(&"setuptools-scm".to_string()));
}

#[test]
fn test_modify_pyproject_toml_with_existing_dynamic() {
    let input = r#"
[project]
name = "test-project"
dynamic = ["version", "description"]
dependencies = ["requests"]

[build-system]
requires = ["hatchling", "hatch-vcs"]
build-backend = "hatchling.build"

[tool.hatch.version]
source = "vcs"
"#;
    let config = UvinitConfig {
        additional_requires: vec!["setuptools-scm".to_string()],
        ..Default::default()
    };
    assert!(has_project_dynamic(input).unwrap());

    let modified = modify_pyproject_toml(input, &config).unwrap();
    let doc = parse(&modified);

    let project = doc.get("project").unwrap().as_table().unwrap();
    assert!(project.contains_key("dynamic"));

    let requires = strings_of(&doc, "build-system", "requires");
    let hatch_vcs_count = requires.iter().filter(|v| v.as_str() == "hatch-vcs").count();
    assert_eq!(hatch_vcs_count, 1);
}

#[test]
fn test_modify_pyproject_toml_disabled_features() {
    let input = r#"
[project]
name = "test-project"
version = "0.1.0"

[build-system]
requires = ["hatchling"]
build-backend = "hatchling.build"
"#;
    let modified = modify_pyproject_toml(input, &all_off()).unwrap();
    let doc = parse(&modified);

    let project = doc.get("project").unwrap().as_table().unwrap();
    assert!(project.contains_key("version"));
    assert!(!project.contains_key("dynamic"));

    let requires = strings_of(&doc, "build-system", "requires");
    assert!(!requires.contains(&"hatch-vcs".to_string()));

    assert!(!doc.contains_key("tool"));
}

#[test]
fn version_gives_way_to_dynamic() {
    let input = "[project]\nname = \"a\"\nversion = \"0.1.0\"\n";
    let doc = parse(&modify_pyproject_toml(input, &UvinitConfig::default()).unwrap());
    let project = doc.get("project").unwrap().as_table().unwrap();
    assert!(!project.contains_key("version"));
    assert_eq!(strings_of(&doc, "project", "dynamic"), vec!["version".to_string()]);
    assert_eq!(project.get("name").unwrap().as_str(), Some("a"));
}

#[test]
fn dynamic_takes_the_place_of_version() {
    let input = "[project]\nname = \"a\"\nversion = \"0.1.0\"\ndescription = \"d\"\n";
    let doc = parse(&modify_pyproject_toml(input, &UvinitConfig::default()).unwrap());
    let project = doc.get("project").unwrap().as_table().unwrap();
    let keys: Vec<&str> = project.iter().map(|(k, _)| k).collect();
    assert_eq!(keys, vec!["name", "dynamic", "description"]);
}

#[test]
fn requires_gets_each_entry_once() {
    let input = "[build-system]\nrequires = [\"hatchling\"]\n";
    let config = UvinitConfig {
        add_hatch_vcs: true,
        additional_requires: vec!["setuptools-scm".to_string()],
        ..all_off()
    };
    let doc = parse(&modify_pyproject_toml(input, &config).unwrap());
    assert_eq!(
        strings_of(&doc, "build-system", "requires"),
        vec!["hatchling".to_string(), "hatch-vcs".to_string(), "setuptools-scm".to_string()]
    );
}

#[test]
fn requires_is_created_under_an_existing_build_system() {
    let input = "[build-system]\nbuild-backend = \"hatchling.build\"\n";
    let config = UvinitConfig { add_hatch_vcs: true, ..all_off() };
    let doc = parse(&modify_pyproject_toml(input, &config).unwrap());
    assert_eq!(strings_of(&doc, "build-system", "requires"), vec!["hatch-vcs".to_string()]);
}

#[test]
fn missing_build_system_is_not_created() {
    let input = "[project]\nname = \"a\"\nversion = \"1.0\"\n";
    let config = UvinitConfig { add_hatch_vcs: true, ..UvinitConfig::default() };
    let out = modify_pyproject_toml(input, &config).unwrap();
    let doc = parse(&out);
    assert!(!doc.contains_key("build-system"));
}

#[test]
fn present_entries_are_not_added_again() {
    let input = "[build-system]\nrequires = [\"hatchling\", \"hatch-vcs\"]\n\n[tool.bandit]\nskips = [\"B101\"]\nexclude_dirs = [\"venv\"]\n";
    let config = UvinitConfig {
        add_hatch_vcs: true,
        additional_requires: vec!["hatchling".to_string()],
        enable_bandit: true,
        ..all_off()
    };
    let doc = parse(&modify_pyproject_toml(input, &config).unwrap());
    assert_eq!(strings_of(&doc, "build-system", "requires").len(), 2);
    let tool = doc.get("tool").unwrap().as_table().unwrap();
    let bandit = tool.get("bandit").unwrap().as_table().unwrap();
    let skips: Vec<&str> = bandit.get("skips").unwrap().as_array().unwrap().iter().map(|v| v.as_str().unwrap()).collect();
    assert_eq!(skips, vec!["B101"]);
    let dirs: Vec<&str> = bandit.get("exclude_dirs").unwrap().as_array().unwrap().iter().map(|v| v.as_str().unwrap()).collect();
    assert_eq!(dirs, vec!["venv", ".venv", "tests"]);
}

#[test]
fn tool_sections_are_set() {
    let input = "[project]\nname = \"a\"\nversion = \"1\"\n";
    let doc = parse(&modify_pyproject_toml(input, &UvinitConfig::default()).unwrap());
    let tool = doc.get("tool").unwrap().as_table().unwrap();
    assert!(tool.is_implicit());
    let hatch = tool.get("hatch").unwrap().as_table().unwrap();
    let version = hatch.get("version").unwrap().as_table().unwrap();
    assert_eq!(version.get("source").unwrap().as_str(), Some("vcs"));
    let pytest = tool.get("pytest").unwrap().as_table().unwrap();
    let ini = pytest.get("ini_options").unwrap().as_table().unwrap();
    assert_eq!(ini.get("asyncio_mode").unwrap().as_str(), Some("auto"));
    let bandit = tool.get("bandit").unwrap().as_table().unwrap();
    assert_eq!(bandit.get("skips").unwrap().as_array().unwrap().len(), 1);
    assert_eq!(bandit.get("exclude_dirs").unwrap().as_array().unwrap().len(), 3);
}

#[test]
fn source_is_overwritten() {
    let input = "[tool.hatch.version]\nsource = \"regex\"\n";
    let config = UvinitConfig { enable_dynamic_version: true, ..all_off() };
    let doc = parse(&modify_pyproject_toml(input, &config).unwrap());
    assert_eq!(doc["tool"]["hatch"]["version"]["source"].as_str(), Some("vcs"));
}

#[test]
fn tool_that_is_not_a_table_is_left_alone() {
    let input = "tool = 3\n";
    let config = UvinitConfig { enable_bandit: true, enable_pytest_asyncio: true, ..all_off() };
    let out = modify_pyproject_toml(input, &config).unwrap();
    assert_eq!(out, input);
}

#[test]
fn nothing_asked_keeps_the_text() {
    let input = "# a comment\n[project]\nname    = \"x\"  # trailing\nversion = \"0.1.0\"\n\n[build-system]\nrequires = [ \"hatchling\" ]\n";
    assert_eq!(modify_pyproject_toml(input, &all_off()).unwrap(), input);
}

#[test]
fn nothing_asked_keeps_the_document() {
    let input = "[project]\nversion = \"0.1.0\"\n";
    let mut doc = parse(input);
    let before = doc.to_string();
    transform_document(&mut doc, &all_off());
    assert_eq!(doc.to_string(), before);
}

#[test]
fn second_run_adds_nothing() {
    let input = "[project]\nname = \"a\"\nversion = \"0.1.0\"\n\n[build-system]\nrequires = [\"hatchling\"]\n";
    let config = UvinitConfig {
        additional_requires: vec!["setuptools-scm".to_string()],
        ..Default::default()
    };
    let once = modify_pyproject_toml(input, &config).unwrap();
    let twice = modify_pyproject_toml(&once, &config).unwrap();
    let a = parse(&once);
    let b = parse(&twice);
    assert_eq!(strings_of(&a, "build-system", "requires"), strings_of(&b, "build-system", "requires"));
    assert_eq!(strings_of(&b, "project", "dynamic"), vec!["version".to_string()]);
    let pa = a.get("project").unwrap().as_table().unwrap();
    let pb = b.get("project").unwrap().as_table().unwrap();
    let mut ka: Vec<&str> = pa.iter().map(|(k, _)| k).collect();
    let mut kb: Vec<&str> = pb.iter().map(|(k, _)| k).collect();
    ka.sort();
    kb.sort();
    assert_eq!(ka, kb);
    assert_eq!(a["tool"].to_string(), b["tool"].to_string());
}

#[test]
fn unparsable_text_is_an_error() {
    let bad = "[project\nname = ";
    assert!(matches!(has_project_dynamic(bad), Err(ManifestError::Parse(_))));
    assert!(matches!(modify_pyproject_toml(bad, &UvinitConfig::default()), Err(ManifestError::Parse(_))));
}

#[test]
fn project_that_is_not_a_table_has_no_marker() {
    assert!(!has_project_dynamic("project = { dynamic = [\"version\"] }\n").unwrap());
    assert!(!has_project_dynamic("project = 1\n").unwrap());
}

#[test]
fn keys_compare_by_their_place() {
    let order = vec!["name".to_string(), "dynamic".to_string(), "description".to_string()];
    assert_eq!(rank_of(&order, "dynamic"), 1);
    assert_eq!(rank_of(&order, "urls"), 3);
    assert_eq!(rank_cmp(&order, "dynamic", "name"), Ordering::Greater);
    assert_eq!(rank_cmp(&order, "name", "description"), Ordering::Less);
    assert_eq!(rank_cmp(&order, "urls", "other"), Ordering::Equal);
    assert!(str_eq("abc", "abc"));
    assert!(!str_eq("abc", "abd"));
    assert!(!str_eq("ab", "abc"));
}

#[test]
fn dynamic_before_version_moves_to_the_front() {
    let input = "[project]
dynamic = [\"x\"]
name = \"a\"
version = \"1\"
";
    let doc = parse(&modify_pyproject_toml(input, &UvinitConfig::default()).unwrap());
    let keys: Vec<&str> = doc["project"].as_table().unwrap().iter().map(|(k, _)| k).collect();
    assert_eq!(keys, vec!["dynamic", "name"]);
    assert_eq!(strings_of(&doc, "project", "dynamic"), vec!["version".to_string()]);
}

#[test]
fn nested_project_tables_keep_their_entries() {
    let input = "[project]
name = \"a\"
version = \"1\"
urls.b = \"x\"
urls.a = \"y\"

[project.optional]
z = 1
y = 2
";
    let doc = parse(&modify_pyproject_toml(input, &UvinitConfig::default()).unwrap());
    let urls: Vec<&str> = doc["project"]["urls"].as_table().unwrap().iter().map(|(k, _)| k).collect();
    assert_eq!(urls, vec!["b", "a"]);
    let opt: Vec<&str> = doc["project"]["optional"].as_table().unwrap().iter().map(|(k, _)| k).collect();
    assert_eq!(opt, vec!["z", "y"]);
}

#[test]
fn root_that_is_not_a_table_is_left_alone() {
    let mut doc = parse("[project]
version = \"1\"
");
    *doc.as_item_mut() = toml_edit::value(1);
    transform_document(&mut doc, &UvinitConfig::default());
    assert!(doc.as_item().is_value());
    assert!(!document_has_dynamic(doc));
}

#[test]
fn detector_on_a_parsed_document() {
    assert!(document_has_dynamic(parse("[project]\ndynamic = []\n")));
    assert!(!document_has_dynamic(parse("[project]\nname = \"x\"\n")));
    assert!(!document_has_dynamic(parse("[tool]\ndynamic = 1\n")));
}

#[test]
fn transform_on_a_parsed_document() {
    let mut doc = parse("[project]\nversion = \"2\"\n");
    transform_document(&mut doc, &UvinitConfig::default());
    assert!(doc["project"].as_table().unwrap().contains_key("dynamic"));
    assert!(!doc["project"].as_table().unwrap().contains_key("version"));
    assert_eq!(doc["tool"]["hatch"]["version"]["source"].as_str(), Some("vcs"));
}
