use cargo_minimize::action::Action;
use cargo_minimize::failures::Failure;
use cargo_minimize::message::Stream;
use cargo_minimize::package::{DeclaredDependency, Package, VersionRequirement};
use cargo_minimize::session::{Event, Options, Session};

fn options() -> Options {
    Options {
        dependency: Vec::new(),
        pkgid: None,
        all: false,
        workspace: false,
        allow_prerelease: false,
        dry_run: false,
        skip_compatible: false,
        offline: false,
        is_test: false,
    }
}

fn declared(name: &str, registry: Option<&str>) -> DeclaredDependency {
    DeclaredDependency {
        name: name.to_string(),
        source: Some("registry+https://index.example".to_string()),
        req: VersionRequirement::parse("1").unwrap(),
        rename: None,
        registry: registry.map(String::from),
    }
}

fn package(name: &str, dependencies: Vec<DeclaredDependency>) -> Package {
    Package {
        name: name.to_string(),
        manifest_path: format!("/{}/Cargo.toml", name),
        dependencies,
    }
}

fn packages() -> Vec<Package> {
    vec![
        package("one", vec![declared("a", None)]),
        package(
            "two",
            vec![declared("b", Some("https://b.example")), declared("a", None)],
        ),
    ]
}

fn described(action: &Action) -> String {
    match action {
        Action::Show(message) => match message.stream {
            Stream::Stdout => "notice".to_string(),
            Stream::Stderr => "warning".to_string(),
        },
        Action::UpdateDefaultIndex => "update".to_string(),
        Action::ReadWorkspace => "read workspace".to_string(),
        Action::ReadPackage(pkgid) => format!("read {}", pkgid),
        Action::ReadLocal => "read local".to_string(),
        Action::OpenManifest(number) => format!("open {}", number),
        Action::UpdateIndex(url) => format!("update {}", url),
        Action::LocateManifest => "locate".to_string(),
        Action::FindMinimal(query) => format!("find {}", query.name),
        Action::Heading(text) => text.clone(),
        Action::Upgrade(change) => format!(
            "{} {} {} {}",
            change.manifest, change.name, change.version, change.dry_run
        ),
        Action::Finish => "finish".to_string(),
        Action::Fail(failure) => failure.message(),
    }
}

/// Runs to the end. What is found for a crate is its name and a zero.
fn run(options: Options, local: &str, packages: fn() -> Vec<Package>) -> Vec<String> {
    let (mut session, mut action) = Session::begin(options);
    let mut steps = vec![described(&action)];
    loop {
        let event = match &action {
            Action::ReadWorkspace | Action::ReadPackage(_) => Event::Packages(packages()),
            Action::ReadLocal => Event::Local(local.to_string(), packages()),
            Action::FindMinimal(query) => Event::Version(format!("{}0", query.name)),
            _ => Event::Done,
        };
        let over = matches!(&action, Action::Finish | Action::Fail(_));
        assert_eq!(session.expects(&event), !over);
        if over {
            return steps;
        }
        let (later, next) = session.step(event);
        steps.push(described(&next));
        session = later;
        action = next;
    }
}

#[test]
fn a_run_over_the_workspace() {
    let steps = run(
        Options {
            workspace: true,
            ..options()
        },
        "",
        packages,
    );
    assert_eq!(
        steps,
        vec![
            "update",
            "read workspace",
            "open 0",
            "open 1",
            "update https://b.example/",
            "locate",
            "find a",
            "find b",
            "one:",
            "0 a a0 false",
            "0 b b0 false",
            "two:",
            "1 a a0 false",
            "1 b b0 false",
            "finish",
        ]
    );
}

#[test]
fn a_run_over_the_local_manifest() {
    let steps = run(options(), "/one/Cargo.toml", packages);
    assert_eq!(
        steps,
        vec![
            "update",
            "read local",
            "locate",
            "find a",
            "one:",
            "0 a a0 false",
            "finish",
        ]
    );
}

#[test]
fn a_run_over_a_virtual_manifest() {
    let steps = run(options(), "/Cargo.toml", packages);
    assert_eq!(
        steps,
        vec![
            "update".to_string(),
            "read local".to_string(),
            Failure::VirtualManifest.message(),
        ]
    );
}

#[test]
fn a_run_over_one_package() {
    let steps = run(
        Options {
            pkgid: Some("one".to_string()),
            offline: true,
            ..options()
        },
        "",
        || vec![package("one", vec![declared("a", Some("https://a.example"))])],
    );
    assert_eq!(
        steps,
        vec![
            "read one",
            "open 0",
            "locate",
            "find a",
            "one:",
            "0 a a0 false",
            "finish",
        ]
    );
}

#[test]
fn the_workspace_comes_before_a_package() {
    let (_, action) = Session::begin(Options {
        pkgid: Some("one".to_string()),
        workspace: true,
        offline: true,
        ..options()
    });
    assert!(matches!(action, Action::ReadWorkspace));
}

#[test]
fn the_network_is_left_alone() {
    for (offline, is_test) in &[(true, false), (false, true), (true, true)] {
        let steps = run(
            Options {
                workspace: true,
                offline: *offline,
                is_test: *is_test,
                ..options()
            },
            "",
            packages,
        );
        assert!(steps.iter().all(|step| !step.starts_with("update")));
        assert_eq!(steps.last().unwrap(), "finish");
    }
}

#[test]
fn a_dry_run_only_shows_changes() {
    let steps = run(
        Options {
            dry_run: true,
            offline: true,
            ..options()
        },
        "/one/Cargo.toml",
        packages,
    );
    assert_eq!(
        steps,
        vec![
            "read local",
            "locate",
            "find a",
            "notice",
            "one:",
            "0 a a0 true",
            "finish",
        ]
    );
}

#[test]
fn all_means_workspace_after_a_warning() {
    let all = run(
        Options {
            all: true,
            ..options()
        },
        "",
        packages,
    );
    let workspace = run(
        Options {
            workspace: true,
            ..options()
        },
        "",
        packages,
    );
    assert_eq!(all[0], "warning");
    assert_eq!(all[1..], workspace[..]);
}

#[test]
fn requested_versions_need_no_lookup() {
    let steps = run(
        Options {
            dependency: vec!["a@1.5.0".to_string()],
            offline: true,
            ..options()
        },
        "/one/Cargo.toml",
        packages,
    );
    assert_eq!(
        steps,
        vec!["read local", "locate", "one:", "0 a 1.5.0 false", "finish"]
    );
}

#[test]
fn a_bad_specifier_ends_the_run_before_the_updates() {
    let steps = run(
        Options {
            dependency: vec!["a@?".to_string()],
            workspace: true,
            ..options()
        },
        "",
        packages,
    );
    assert_eq!(
        steps,
        vec![
            "update",
            "read workspace",
            "open 0",
            "open 1",
            "Invalid crate version requirement",
        ]
    );
}

#[test]
fn a_bad_url_ends_the_run() {
    let broken: fn() -> Vec<Package> = || {
        vec![package(
            "one",
            vec![declared("a", None), declared("b", Some("no url"))],
        )]
    };
    let online = run(
        Options {
            workspace: true,
            ..options()
        },
        "",
        broken,
    );
    assert_eq!(
        online,
        vec!["update", "read workspace", "open 0", "Invalid cargo config"]
    );
    let offline = run(
        Options {
            workspace: true,
            offline: true,
            ..options()
        },
        "",
        broken,
    );
    assert_eq!(
        offline,
        vec![
            "read workspace",
            "open 0",
            "locate",
            "find a",
            "Invalid cargo config",
        ]
    );
}

#[test]
fn an_empty_workspace_needs_nothing() {
    let steps = run(
        Options {
            workspace: true,
            offline: true,
            ..options()
        },
        "",
        Vec::new,
    );
    assert_eq!(steps, vec!["read workspace", "locate", "finish"]);
}

#[test]
fn only_the_event_of_the_step_is_expected() {
    let (session, action) = Session::begin(Options {
        offline: true,
        ..options()
    });
    assert!(matches!(action, Action::ReadLocal));
    assert!(!session.expects(&Event::Done));
    assert!(!session.expects(&Event::Packages(Vec::new())));
    assert!(!session.expects(&Event::Version("1".to_string())));
    assert!(session.expects(&Event::Local(String::new(), Vec::new())));
}
