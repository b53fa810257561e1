use cargo_consolidate::dependency::{ConsolidateError, DepSpec, Detail};
use cargo_toml::DependencyDetail;

fn detailed(version: Option<&str>) -> DepSpec {
    DepSpec::Detailed(Detail {
        version: version.map(|v| v.to_string()),
        attrs: DependencyDetail::default(),
    })
}

fn detailed_with_features(version: Option<&str>, features: &[&str]) -> DepSpec {
    let mut attrs = DependencyDetail::default();
    attrs.features = features.iter().map(|f| f.to_string()).collect();
    DepSpec::Detailed(Detail { version: version.map(|v| v.to_string()), attrs })
}

#[test]
fn simple_simple() {
    let mut dep = DepSpec::Simple("1.0.0".to_string());
    dep.merge_simple("1.9.0").unwrap();
    assert!(matches!(dep, DepSpec::Simple(_)));
    if let DepSpec::Simple(version) = dep {
        assert_eq!(version, "1.0.0, 1.9.0");
    }
}

#[test]
fn detailed_simple() {
    let mut dep = detailed(Some("1.0.0"));
    dep.merge_simple("1.9.0").unwrap();
    assert!(matches!(dep, DepSpec::Detailed(_)));
    if let DepSpec::Detailed(details) = dep {
        assert_eq!(details.version, Some("1.0.0, 1.9.0".to_string()));
    }
}

#[test]
fn simple_detailed() {
    let mut dep = DepSpec::Simple("1.0.0".to_string());
    dep
        .merge_detailed(Detail { version: Some("1.9.0".to_string()), attrs: DependencyDetail::default() })
        .unwrap();
    assert!(matches!(dep, DepSpec::Detailed(_)));
    if let DepSpec::Detailed(details) = dep {
        assert_eq!(details.version, Some("1.0.0, 1.9.0".to_string()));
    }
}

#[test]
fn detailed_without_version_ignores_simple() {
    let mut dep = detailed(None);
    dep.merge_simple("1.9.0").unwrap();
    match dep {
        DepSpec::Detailed(d) => assert_eq!(d.version, None),
        _ => panic!("expected a detailed dependency"),
    }
}

#[test]
fn detailed_without_version_adopts_incoming() {
    let mut dep = detailed_with_features(None, &["a"]);
    dep
        .merge_detailed(Detail { version: Some("2.0.0".to_string()), attrs: DependencyDetail::default() })
        .unwrap();
    match dep {
        DepSpec::Detailed(d) => {
            assert_eq!(d.version, Some("2.0.0".to_string()));
            assert_eq!(d.attrs.features, vec!["a".to_string()]);
        }
        _ => panic!("expected a detailed dependency"),
    }
}

#[test]
fn detailed_detailed_keeps_own_attributes() {
    let mut dep = detailed_with_features(Some("1.0"), &["a"]);
    let mut incoming = DependencyDetail::default();
    incoming.features = vec!["b".to_string()];
    dep.merge_detailed(Detail { version: Some("1.2".to_string()), attrs: incoming }).unwrap();
    match dep {
        DepSpec::Detailed(d) => {
            assert_eq!(d.version, Some("1.0, 1.2".to_string()));
            assert_eq!(d.attrs.features, vec!["a".to_string()]);
        }
        _ => panic!("expected a detailed dependency"),
    }
}

#[test]
fn simple_takes_incoming_attributes() {
    let mut dep = DepSpec::Simple("1.0".to_string());
    let mut incoming = DependencyDetail::default();
    incoming.features = vec!["b".to_string()];
    dep.merge_detailed(Detail { version: None, attrs: incoming }).unwrap();
    match dep {
        DepSpec::Detailed(d) => {
            assert_eq!(d.version, Some("1.0".to_string()));
            assert_eq!(d.attrs.features, vec!["b".to_string()]);
        }
        _ => panic!("expected a detailed dependency"),
    }
}

#[test]
fn inherited_merges_fail() {
    let mut inherited = DepSpec::Inherited;
    assert_eq!(inherited.merge_simple("1.0"), Err(ConsolidateError::InheritedDependency));
    assert_eq!(
        inherited.merge_detailed(Detail { version: Some("1.0".to_string()), attrs: DependencyDetail::default() }),
        Err(ConsolidateError::InheritedDependency)
    );
    let mut simple = DepSpec::Simple("1.0".to_string());
    assert_eq!(simple.merge(DepSpec::Inherited), Err(ConsolidateError::InheritedDependency));
    match simple {
        DepSpec::Simple(v) => assert_eq!(v, "1.0"),
        _ => panic!("expected the dependency unchanged"),
    }
    let mut inherited = DepSpec::Inherited;
    assert_eq!(
        inherited.merge(DepSpec::Simple("1.0".to_string())),
        Err(ConsolidateError::InheritedDependency)
    );
}

#[test]
fn simplify_removes_duplicate_comparators() {
    let mut spec = DepSpec::Simple("1.0.0, 1.0.0".to_string());
    spec.simplify().unwrap();
    match spec {
        DepSpec::Simple(v) => assert_eq!(v, "^1.0.0"),
        _ => panic!("expected a simple dependency"),
    }
}

#[test]
fn simplify_keeps_distinct_comparators_in_order() {
    let mut spec = detailed(Some(">=1.2, <2, >=1.2"));
    spec.simplify().unwrap();
    match spec {
        DepSpec::Detailed(d) => assert_eq!(d.version, Some(">=1.2, <2".to_string())),
        _ => panic!("expected a detailed dependency"),
    }
}

#[test]
fn simplify_star_and_missing_version() {
    let mut spec = DepSpec::Simple("*".to_string());
    spec.simplify().unwrap();
    match spec {
        DepSpec::Simple(v) => assert_eq!(v, "*"),
        _ => panic!("expected a simple dependency"),
    }
    let mut spec = detailed(None);
    spec.simplify().unwrap();
    match spec {
        DepSpec::Detailed(d) => assert_eq!(d.version, None),
        _ => panic!("expected a detailed dependency"),
    }
}

#[test]
fn simplify_rejects_invalid_requirement() {
    let mut spec = DepSpec::Simple("not a version".to_string());
    assert_eq!(spec.simplify(), Err(ConsolidateError::InvalidVersionReq));
    let mut spec = DepSpec::Inherited;
    assert_eq!(spec.simplify(), Err(ConsolidateError::InheritedDependency));
}
