use cargo_minimize::package::{is_version_dep, DeclaredDependency, VersionRequirement};

fn from_source(source: Option<&str>) -> DeclaredDependency {
    DeclaredDependency {
        name: "a".to_string(),
        source: source.map(String::from),
        req: VersionRequirement::parse("1").unwrap(),
        rename: None,
        registry: None,
    }
}

#[test]
fn requirements_are_kept_as_they_are_displayed() {
    assert_eq!(VersionRequirement::parse("1.0").unwrap().as_str(), "^1.0");
    assert_eq!(VersionRequirement::parse("=1.0").unwrap().as_str(), "= 1.0");
    assert_eq!(
        VersionRequirement::parse(" >= 0.9,<2.0").unwrap().as_str(),
        ">= 0.9, < 2.0"
    );
    assert_eq!(VersionRequirement::parse("").unwrap().as_str(), "*");
    assert!(VersionRequirement::parse("nonsense").is_none());
}

#[test]
fn displayed_requirements_read_the_same() {
    for text in &["1.0", "=1.0", "~1.2.3-alpha.1", "1.*", "*", "> 1, < 2"] {
        let once = VersionRequirement::parse(text).unwrap();
        let twice = VersionRequirement::parse(once.as_str()).unwrap();
        assert_eq!(once.as_str(), twice.as_str());
    }
}

#[test]
fn prereleases_are_told_by_the_displayed_requirement() {
    assert!(VersionRequirement::parse("1.0.0-alpha").unwrap().is_prerelease());
    assert!(VersionRequirement::parse("1, < 2.0.0-rc.1").unwrap().is_prerelease());
    assert!(!VersionRequirement::parse("1.0.0").unwrap().is_prerelease());
    assert!(!VersionRequirement::parse("1.0.0+build-7").unwrap().is_prerelease());
    assert!(!VersionRequirement::parse("1.*-alpha").unwrap().is_prerelease());
}

#[test]
fn only_the_kind_of_the_source_counts() {
    let index = "https://github.com/rust-lang/crates.io-index";
    assert!(is_version_dep(&from_source(Some(&format!("registry+{}", index)))));
    assert!(is_version_dep(&from_source(Some("registry"))));
    assert!(is_version_dep(&from_source(Some("registry+git+x"))));
    assert!(!is_version_dep(&from_source(Some("git+https://github.com/a/b"))));
    assert!(!is_version_dep(&from_source(Some("registry-like+x"))));
    assert!(!is_version_dep(&from_source(Some("+registry"))));
    assert!(!is_version_dep(&from_source(Some(""))));
    assert!(!is_version_dep(&from_source(None)));
}
