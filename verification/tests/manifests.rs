use cargo_minimize::action::Action;
use cargo_minimize::failures::Failure;
use cargo_minimize::manifests::Manifests;
use cargo_minimize::package::{DeclaredDependency, Package, VersionRequirement};
use cargo_minimize::table::Table;
use cargo_minimize::upgrades::{ActualUpgrades, Dependency, DesiredUpgrades};

const CRATES_IO: &str = "registry+https://github.com/rust-lang/crates.io-index";

fn declared(name: &str, req: &str, rename: Option<&str>) -> DeclaredDependency {
    DeclaredDependency {
        name: name.to_string(),
        source: Some(CRATES_IO.to_string()),
        req: VersionRequirement::parse(req).unwrap(),
        rename: rename.map(String::from),
        registry: None,
    }
}

fn package(name: &str, dependencies: Vec<DeclaredDependency>) -> Package {
    Package {
        name: name.to_string(),
        manifest_path: format!("/{}/Cargo.toml", name),
        dependencies,
    }
}

fn texts(all: &[&str]) -> Vec<String> {
    all.iter().map(|t| t.to_string()).collect()
}

/// Name, rename, requirement, version and whether it is a prerelease.
fn listed(upgrades: &DesiredUpgrades) -> Vec<(String, String, String, String, bool)> {
    let mut all = Vec::new();
    for i in 0..upgrades.0.len() {
        let (key, value) = (upgrades.0.key(i), upgrades.0.value(i));
        all.push((
            key.name.clone(),
            key.rename.clone().unwrap_or_default(),
            value.versionreq.as_str().to_string(),
            value.version.clone().unwrap_or_default(),
            value.is_prerelease,
        ));
    }
    all
}

fn entry(
    name: &str,
    rename: &str,
    req: &str,
    version: &str,
    is_prerelease: bool,
) -> (String, String, String, String, bool) {
    (
        name.to_string(),
        rename.to_string(),
        req.to_string(),
        version.to_string(),
        is_prerelease,
    )
}

fn workspace() -> Manifests {
    let mut git = declared("from-git", "*", None);
    git.source = Some("git+https://github.com/a/b".to_string());
    let mut path = declared("from-path", "*", None);
    path.source = None;
    Manifests(vec![
        package(
            "one",
            vec![
                declared("serde", "1.0", None),
                git,
                declared("rand", "0.7.0-pre.1", Some("dice")),
            ],
        ),
        package(
            "two",
            vec![
                path,
                declared("serde", "=1.0.5", None),
                declared("rand", "0.6", None),
            ],
        ),
    ])
}

#[test]
fn the_first_package_at_the_path_is_taken() {
    let mut packages = vec![package("one", vec![]), package("two", vec![])];
    packages.push(Package {
        name: "three".to_string(),
        manifest_path: "/two/Cargo.toml".to_string(),
        dependencies: vec![],
    });
    let manifests = Manifests::get_local_one(&"/two/Cargo.toml".to_string(), packages).unwrap();
    assert_eq!(manifests.0.len(), 1);
    assert_eq!(manifests.0[0].name, "two");
}

#[test]
fn a_manifest_without_a_package_is_virtual() {
    let packages = vec![package("one", vec![])];
    let res = Manifests::get_local_one(&"/Cargo.toml".to_string(), packages);
    assert_eq!(res.unwrap_err(), Failure::VirtualManifest);
}

#[test]
fn without_specifiers_all_registry_dependencies_count() {
    let upgrades = workspace().get_dependencies(&Vec::new()).unwrap();
    assert_eq!(
        listed(&upgrades),
        vec![
            entry("serde", "", "= 1.0.5", "", false),
            entry("rand", "dice", "^0.7.0-pre.1", "", true),
            entry("rand", "", "^0.6", "", false),
        ]
    );
}

#[test]
fn with_specifiers_only_those_dependencies_count() {
    let upgrades = workspace()
        .get_dependencies(&texts(&["rand@0.5.1+x", "absent", "from-git"]))
        .unwrap();
    assert_eq!(
        listed(&upgrades),
        vec![entry("rand", "", "^0.6", "0.5.1", false)]
    );
    let upgrades = workspace().get_dependencies(&texts(&["serde"])).unwrap();
    assert_eq!(
        listed(&upgrades),
        vec![entry("serde", "", "= 1.0.5", "", false)]
    );
}

#[test]
fn a_bad_specifier_leaves_no_upgrades() {
    let res = workspace().get_dependencies(&texts(&["serde@1", "rand@?"]));
    assert_eq!(res.unwrap_err(), Failure::CrateSpec("rand@?".to_string()));
}

#[test]
fn every_manifest_gets_every_upgrade() {
    let mut table: Table<Dependency, String> = Table::new();
    table.insert(
        Dependency {
            name: "serde".to_string(),
            rename: None,
        },
        "1.0.0".to_string(),
    );
    table.insert(
        Dependency {
            name: "rand".to_string(),
            rename: Some("dice".to_string()),
        },
        "0.7.0+build".to_string(),
    );
    let steps = workspace().upgrade(&ActualUpgrades(table), false, true);
    assert_eq!(steps.len(), 6);
    for (block, name) in ["one:", "two:"].iter().enumerate() {
        match &steps[3 * block] {
            Action::Heading(text) => assert_eq!(text, name),
            other => panic!("{:?}", other),
        }
        match &steps[3 * block + 1] {
            Action::Upgrade(change) => {
                assert_eq!(change.manifest, block);
                assert_eq!(change.name, "serde");
                assert_eq!(change.version, "1.0.0");
                assert_eq!(change.rename, None);
                assert!(!change.dry_run && change.skip_compatible);
            }
            other => panic!("{:?}", other),
        }
        match &steps[3 * block + 2] {
            Action::Upgrade(change) => {
                assert_eq!(change.manifest, block);
                assert_eq!(change.name, "rand");
                assert_eq!(change.version, "0.7.0");
                assert_eq!(change.rename, Some("dice".to_string()));
            }
            other => panic!("{:?}", other),
        }
    }
}

#[test]
fn a_dry_run_is_announced_first() {
    let steps = workspace().upgrade(&ActualUpgrades(Table::new()), true, false);
    assert_eq!(steps.len(), 3);
    assert!(matches!(&steps[0], Action::Show(_)));
    assert!(matches!(&steps[1], Action::Heading(_)));
    assert!(matches!(&steps[2], Action::Heading(_)));
}
