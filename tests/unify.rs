use cargo_consolidate::dependency::{ConsolidateError, DepSpec, Detail};
use cargo_consolidate::patch::{plan_member_patch, EntryShape, PatchAction};
use cargo_consolidate::requirement::{dedup_terms, render_terms, simplify_requirement};
use cargo_consolidate::unify::{consolidate_dependencies, group_new_dependencies, unify_dependencies, unify_group};
use cargo_toml::DependencyDetail;

fn simple(v: &str) -> DepSpec {
    DepSpec::Simple(v.to_string())
}

fn strings(v: &[&str]) -> Vec<String> {
    v.iter().map(|s| s.to_string()).collect()
}

fn version_of(d: &DepSpec) -> Option<String> {
    match d {
        DepSpec::Simple(v) => Some(v.clone()),
        DepSpec::Detailed(d) => d.version.clone(),
        DepSpec::Inherited => None,
    }
}

#[test]
fn unify_two_simple() {
    let groups = vec![("pkg".to_string(), vec![simple("1.0"), simple("2.0")])];
    let table = unify_dependencies(groups).unwrap();
    assert_eq!(table.len(), 1);
    assert_eq!(table[0].0, "pkg");
    match &table[0].1 {
        DepSpec::Simple(v) => assert_eq!(v, "^1.0, ^2.0"),
        _ => panic!("expected a simple dependency"),
    }
}

#[test]
fn unify_group_seed_is_first() {
    let merged = unify_group(vec![simple("=1.1"), simple(">=1.0"), simple("=1.1")]).unwrap();
    assert_eq!(version_of(&merged), Some("=1.1, >=1.0".to_string()));
}

#[test]
fn unify_group_with_inherited_fails() {
    assert_eq!(
        unify_group(vec![simple("1.0"), DepSpec::Inherited]).err(),
        Some(ConsolidateError::InheritedDependency)
    );
    assert_eq!(unify_group(vec![DepSpec::Inherited]).err(), Some(ConsolidateError::InheritedDependency));
    assert_eq!(
        unify_group(vec![DepSpec::Inherited, simple("1.0")]).err(),
        Some(ConsolidateError::InheritedDependency)
    );
}

#[test]
fn unify_reports_invalid_requirement() {
    let groups = vec![
        ("a".to_string(), vec![simple("1.0")]),
        ("b".to_string(), vec![simple("1.0"), simple("bad!")]),
    ];
    assert_eq!(unify_dependencies(groups).err(), Some(ConsolidateError::InvalidVersionReq));
}

#[test]
fn grouping_skips_shared_and_keeps_order() {
    let shared = strings(&["serde"]);
    let declared = vec![
        ("rand".to_string(), simple("0.8")),
        ("serde".to_string(), simple("1")),
        ("log".to_string(), simple("0.4")),
        ("rand".to_string(), simple("0.8.5")),
    ];
    let groups = group_new_dependencies(&shared, declared);
    let names: Vec<&str> = groups.iter().map(|g| g.0.as_str()).collect();
    assert_eq!(names, vec!["rand", "log"]);
    let rand: Vec<Option<String>> = groups[0].1.iter().map(version_of).collect();
    assert_eq!(rand, vec![Some("0.8".to_string()), Some("0.8.5".to_string())]);
    assert_eq!(groups[1].1.len(), 1);
}

#[test]
fn end_to_end_two_members() {
    let shared: Vec<String> = Vec::new();
    let declared = vec![("lib".to_string(), simple("1.0")), ("lib".to_string(), simple("1.0.5"))];
    let table = consolidate_dependencies(&shared, declared).unwrap();
    assert_eq!(table.len(), 1);
    assert_eq!(table[0].0, "lib");
    assert_eq!(version_of(&table[0].1), Some("^1.0, ^1.0.5".to_string()));

    let member_a = vec![("lib".to_string(), EntryShape::Text), ("other".to_string(), EntryShape::Text)];
    let member_b = vec![("lib".to_string(), EntryShape::Text)];
    let plan_a = plan_member_patch(&member_a, &table).unwrap();
    let plan_b = plan_member_patch(&member_b, &table).unwrap();
    let expected = vec![("lib".to_string(), PatchAction::SetValue("^1.0, ^1.0.5".to_string()))];
    assert_eq!(plan_a, expected);
    assert_eq!(plan_b, expected);
}

#[test]
fn patch_structured_entry_sets_version_only() {
    let table = vec![("lib".to_string(), simple("1.0, 2.0"))];
    let entries = vec![("lib".to_string(), EntryShape::Table(true))];
    let plan = plan_member_patch(&entries, &table).unwrap();
    assert_eq!(plan, vec![("lib".to_string(), PatchAction::SetVersion("1.0, 2.0".to_string()))]);

    let mut doc: toml_edit::DocumentMut =
        "[dependencies]\nlib = { version = \"1.0\", features = [\"x\"] }\n".parse().unwrap();
    let entry = doc["dependencies"]["lib"].as_inline_table_mut().unwrap();
    if let PatchAction::SetVersion(v) = &plan[0].1 {
        entry.insert("version", toml_edit::Value::from(v.as_str()));
    }
    assert_eq!(
        doc.to_string(),
        "[dependencies]\nlib = { version = \"1.0, 2.0\", features = [\"x\"] }\n"
    );
}

#[test]
fn patch_table_without_version_and_unknown_shape() {
    let table = vec![(
        "lib".to_string(),
        DepSpec::Detailed(Detail { version: Some("1.0".to_string()), attrs: DependencyDetail::default() }),
    )];
    let entries = vec![("lib".to_string(), EntryShape::Table(false)), ("x".to_string(), EntryShape::Other)];
    assert_eq!(plan_member_patch(&entries, &table).unwrap(), vec![]);
    let entries = vec![("lib".to_string(), EntryShape::Other)];
    assert_eq!(plan_member_patch(&entries, &table), Err(ConsolidateError::UnsupportedEntry));
}

#[test]
fn requirement_helpers() {
    assert_eq!(render_terms(&Vec::new()), "*");
    assert_eq!(render_terms(&strings(&["^1", "<3"])), "^1, <3");
    assert_eq!(dedup_terms(strings(&["a", "b", "a", "c", "b"])), strings(&["a", "b", "c"]));
    assert_eq!(simplify_requirement("~1.2.3, ~1.2.3, =2").unwrap(), "~1.2.3, =2");
}
