use npm_dedup::{read_dependencies, read_key, Expectation, JsonMember, PackageError};

fn key(json: &str) -> Result<(String, String), PackageError> {
    read_key(&"pkg".to_string(), &Ok(json.as_bytes().to_vec())).map(|(k, _)| (k.name, k.version))
}

fn deps(json: &str) -> (Vec<(String, String)>, Vec<PackageError>) {
    let (_, members) = read_key(&"pkg".to_string(), &Ok(json.as_bytes().to_vec())).unwrap();
    let (d, e) = read_dependencies(&"pkg".to_string(), &members);
    (d.into_iter().map(|d| (d.name, d.version_req)).collect(), e)
}

#[test]
fn the_key_is_the_name_and_the_normal_version() {
    assert_eq!(key(r#"{"name":"sigmund","version":"1.0.1"}"#).unwrap(), ("sigmund".to_string(), "1.0.1".to_string()));
}

#[test]
fn an_unreadable_document_is_a_read_failure() {
    let r = read_key(&"pkg".to_string(), &Err("gone".to_string()));
    assert!(matches!(r, Err(PackageError::ReadPackageFile(ref p, ref why)) if p == "pkg/package.json" && why == "gone"));
}

#[test]
fn malformed_json_is_a_decode_failure() {
    assert!(matches!(key("{\"name\": "), Err(PackageError::DecodeJson(ref p, _)) if p == "pkg/package.json"));
}

#[test]
fn a_top_level_that_is_not_an_object_is_a_structure_failure() {
    assert!(matches!(key("[1, 2]"), Err(PackageError::JsonStructure(_, Expectation::TopLevelObject))));
}

#[test]
fn a_missing_version_is_a_structure_failure() {
    assert!(matches!(key(r#"{"name":"x"}"#), Err(PackageError::JsonStructure(_, Expectation::VersionString))));
    assert!(matches!(key(r#"{"name":"x","version":1}"#), Err(PackageError::JsonStructure(_, Expectation::VersionString))));
}

#[test]
fn a_missing_name_is_a_structure_failure() {
    assert!(matches!(key(r#"{"version":"1.0.0"}"#), Err(PackageError::JsonStructure(_, Expectation::NameString))));
}

#[test]
fn a_version_that_is_not_strict_semver_is_refused() {
    assert!(matches!(key(r#"{"name":"x","version":"1.0"}"#), Err(PackageError::InvalidVersion(ref d, ref v, _)) if d == "pkg" && v == "1.0"));
    assert!(matches!(key(r#"{"name":"x","version":"1.0.01"}"#), Err(PackageError::InvalidVersion(..))));
}

#[test]
fn versions_keep_pre_release_and_build() {
    assert_eq!(key(r#"{"name":"x","version":"1.2.3-rc.1+b7"}"#).unwrap().1, "1.2.3-rc.1+b7");
}

#[test]
fn requirements_are_normalized_and_kept_once() {
    let (d, e) = deps(
        r#"{"name":"x","version":"1.0.0","dependencies":{"a":"1.2","b":">= 1.0, < 2"},"devDependencies":{"a":"1.2","c":"*"}}"#,
    );
    assert!(e.is_empty());
    assert_eq!(
        d,
        vec![
            ("a".to_string(), "^1.2".to_string()),
            ("b".to_string(), ">=1.0, <2".to_string()),
            ("c".to_string(), "*".to_string()),
        ]
    );
}

#[test]
fn a_dependency_map_that_is_not_an_object_is_a_structure_failure() {
    let (d, e) = deps(r#"{"name":"x","version":"1.0.0","dependencies":"a","devDependencies":{"b":"1"}}"#);
    assert_eq!(d, vec![("b".to_string(), "^1".to_string())]);
    assert_eq!(e.len(), 1);
    assert!(matches!(e[0], PackageError::JsonStructure(_, Expectation::DependenciesObject)));
    let (_, e) = deps(r#"{"name":"x","version":"1.0.0","devDependencies":[]}"#);
    assert!(matches!(e[0], PackageError::JsonStructure(_, Expectation::DevDependenciesObject)));
}

#[test]
fn members_keep_document_order() {
    let (_, members) = read_key(&"pkg".to_string(), &Ok(br#"{"version":"1.0.0","name":"x","z":{"k":1}}"#.to_vec())).unwrap();
    let names: Vec<&str> = members.iter().map(|(k, _)| k.as_str()).collect();
    assert_eq!(names, vec!["version", "name", "z"]);
    assert_eq!(members[2].1, JsonMember::Object(vec![("k".to_string(), None)]));
}
