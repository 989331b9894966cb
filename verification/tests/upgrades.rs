use cargo_minimize::action::Action;
use cargo_minimize::failures::Failure;
use cargo_minimize::package::VersionRequirement;
use cargo_minimize::table::Table;
use cargo_minimize::upgrades::{
    index_update_step, lookup_step, Dependency, DesiredUpgrades, UpgradeMetadata,
};

fn dependency(name: &str) -> Dependency {
    Dependency {
        name: name.to_string(),
        rename: None,
    }
}

fn metadata(registry: Option<&str>, req: &str, version: Option<&str>) -> UpgradeMetadata {
    let versionreq = VersionRequirement::parse(req).unwrap();
    let is_prerelease = versionreq.is_prerelease();
    UpgradeMetadata {
        registry: registry.map(String::from),
        versionreq,
        version: version.map(String::from),
        is_prerelease,
    }
}

fn desired(all: Vec<(&str, UpgradeMetadata)>) -> DesiredUpgrades {
    let mut table = Table::new();
    for (name, value) in all {
        table.insert(dependency(name), value);
    }
    DesiredUpgrades(table)
}

fn updated(steps: &[Action]) -> Vec<String> {
    steps
        .iter()
        .map(|step| match step {
            Action::UpdateIndex(url) => url.clone(),
            Action::Fail(failure) => failure.message(),
            other => panic!("{:?}", other),
        })
        .collect()
}

#[test]
fn each_registry_is_listed_once() {
    let upgrades = desired(vec![
        ("a", metadata(Some("https://b.example"), "1", None)),
        ("b", metadata(None, "1", None)),
        ("c", metadata(Some("https://a.example"), "1", Some("1"))),
        ("d", metadata(Some("https://b.example"), "1", None)),
    ]);
    assert_eq!(
        upgrades.registries(),
        vec!["https://b.example", "https://a.example"]
    );
    assert_eq!(
        updated(&upgrades.index_updates()),
        vec!["https://b.example/", "https://a.example/"]
    );
}

#[test]
fn updates_stop_at_a_bad_url() {
    let upgrades = desired(vec![
        ("a", metadata(Some("https://a.example/index"), "1", None)),
        ("b", metadata(Some("no url"), "1", None)),
        ("c", metadata(Some("https://c.example"), "1", None)),
    ]);
    assert_eq!(
        updated(&upgrades.index_updates()),
        vec!["https://a.example/index", "Invalid cargo config"]
    );
}

#[test]
fn without_registries_nothing_is_updated() {
    let upgrades = desired(vec![("a", metadata(None, "1", None))]);
    assert!(upgrades.registries().is_empty());
    assert!(upgrades.index_updates().is_empty());
}

#[test]
fn an_update_goes_by_what_was_read_of_the_url() {
    match index_update_step(Ok("u".to_string())) {
        Action::UpdateIndex(url) => assert_eq!(url, "u"),
        other => panic!("{:?}", other),
    }
    assert!(matches!(
        index_update_step(Err(url::ParseError::EmptyHost)),
        Action::Fail(Failure::InvalidCargoConfig)
    ));
}

#[test]
fn a_lookup_goes_by_what_was_read_of_the_url() {
    let meta = metadata(Some("ignored"), "1.0.0-rc", None);
    match lookup_step(&dependency("a"), &meta, false, Some(Ok("u".to_string()))) {
        Action::FindMinimal(query) => {
            assert_eq!(query.name, "a");
            assert_eq!(query.versionreq.as_str(), "^1.0.0-rc");
            assert!(query.allow_prerelease);
            assert_eq!(query.registry, Some("u".to_string()));
        }
        other => panic!("{:?}", other),
    }
    assert!(matches!(
        lookup_step(
            &dependency("a"),
            &meta,
            false,
            Some(Err(url::ParseError::EmptyHost))
        ),
        Action::Fail(Failure::InvalidCargoConfig)
    ));
}

#[test]
fn prereleases_count_where_they_are_allowed() {
    for (req, allow, counts) in &[
        ("1", false, false),
        ("1", true, true),
        ("1.0.0-rc", false, true),
        ("1.0.0-rc", true, true),
    ] {
        let upgrades = desired(vec![("a", metadata(None, req, None))]);
        match upgrades.lookups(*allow).as_slice() {
            [Action::FindMinimal(query)] => {
                assert_eq!(query.allow_prerelease, *counts);
                assert_eq!(query.registry, None);
            }
            other => panic!("{:?}", other),
        }
    }
}

#[test]
fn a_requested_version_is_not_looked_up() {
    let upgrades = desired(vec![
        ("a", metadata(Some("no url"), "1", Some("1.2"))),
        ("b", metadata(Some("https://b.example"), "2", None)),
    ]);
    match upgrades.lookups(false).as_slice() {
        [Action::FindMinimal(query)] => {
            assert_eq!(query.name, "b");
            assert_eq!(query.registry, Some("https://b.example/".to_string()));
        }
        other => panic!("{:?}", other),
    }
    let actual = upgrades.get_upgraded(&vec!["2.0.1".to_string()]);
    assert_eq!(actual.0.len(), 2);
    assert_eq!(actual.0.key(0).name, "a");
    assert_eq!(actual.0.value(0), "1.2");
    assert_eq!(actual.0.key(1).name, "b");
    assert_eq!(actual.0.value(1), "2.0.1");
}

#[test]
fn lookups_stop_at_a_bad_url() {
    let upgrades = desired(vec![
        ("a", metadata(None, "1", None)),
        ("b", metadata(Some("no url"), "1", None)),
        ("c", metadata(None, "1", None)),
    ]);
    let steps = upgrades.lookups(false);
    assert_eq!(steps.len(), 2);
    assert!(matches!(&steps[0], Action::FindMinimal(_)));
    assert!(matches!(
        &steps[1],
        Action::Fail(Failure::InvalidCargoConfig)
    ));
}

#[test]
fn versions_go_to_the_dependencies_in_order() {
    let upgrades = desired(vec![
        ("a", metadata(None, "1", None)),
        ("b", metadata(None, "1", Some("9"))),
        ("c", metadata(None, "1", None)),
    ]);
    let actual = upgrades.get_upgraded(&vec!["1".to_string(), "3".to_string()]);
    let versions: Vec<&String> = (0..3).map(|i| actual.0.value(i)).collect();
    assert_eq!(versions, vec!["1", "9", "3"]);
}
