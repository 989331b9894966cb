use cargo_minimize::failures::Failure;
use cargo_minimize::selection::{crate_spec_entry, parse_crate_spec, parse_crate_specs, Selection};

fn texts(all: &[&str]) -> Vec<String> {
    all.iter().map(|t| t.to_string()).collect()
}

fn asked(selection: &Selection, name: &str) -> Option<Option<String>> {
    selection.get(&name.to_string()).cloned()
}

#[test]
fn a_name_asks_for_no_version() {
    assert_eq!(
        parse_crate_spec("docopt".to_string()),
        Ok(("docopt".to_string(), None))
    );
    assert_eq!(parse_crate_spec(String::new()), Ok((String::new(), None)));
}

#[test]
fn a_specifier_asks_for_a_version() {
    assert_eq!(
        parse_crate_spec("docopt@0.8.0".to_string()),
        Ok(("docopt".to_string(), Some("0.8.0".to_string())))
    );
    assert_eq!(
        parse_crate_spec("serde@>=0.9,<2.0".to_string()),
        Ok(("serde".to_string(), Some(">=0.9,<2.0".to_string())))
    );
}

#[test]
fn wildcards_are_versions() {
    assert_eq!(
        parse_crate_spec("serde@x".to_string()),
        Ok(("serde".to_string(), Some("x".to_string())))
    );
    assert_eq!(
        parse_crate_spec("serde@".to_string()),
        Ok(("serde".to_string(), Some(String::new())))
    );
}

#[test]
fn build_metadata_is_left_out_of_a_specifier() {
    assert_eq!(
        parse_crate_spec("openssl-src@111.0.1+1.1.1".to_string()),
        Ok(("openssl-src".to_string(), Some("111.0.1".to_string())))
    );
}

#[test]
fn a_bad_version_is_refused() {
    for spec in &["docopt@nonsense", "docopt@1.0@2.0", "docopt@.*", "@@"] {
        assert_eq!(
            parse_crate_spec(spec.to_string()),
            Err(Failure::CrateSpec(spec.to_string()))
        );
    }
}

#[test]
fn what_was_found_decides_about_a_specifier() {
    let entry = ("b".to_string(), Some("1".to_string()));
    assert_eq!(
        crate_spec_entry("a".to_string(), Ok(Some(entry.clone()))),
        Ok(entry)
    );
    assert_eq!(
        crate_spec_entry("a".to_string(), Ok(None)),
        Ok(("a".to_string(), None))
    );
    assert_eq!(
        crate_spec_entry("a".to_string(), Err(cargo_edit::Error::from("no"))),
        Err(Failure::CrateSpec("a".to_string()))
    );
}

#[test]
fn the_last_specifier_for_a_crate_decides() {
    let selection = parse_crate_specs(&texts(&["a@1.0", "b", "a@2.0"])).unwrap();
    assert_eq!(asked(&selection, "a"), Some(Some("2.0".to_string())));
    assert_eq!(asked(&selection, "b"), Some(None));
    assert_eq!(asked(&selection, "c"), None);
    let selection = parse_crate_specs(&texts(&["a@1.0", "a"])).unwrap();
    assert_eq!(asked(&selection, "a"), Some(None));
}

#[test]
fn the_first_bad_specifier_is_named() {
    let res = parse_crate_specs(&texts(&["a@1.0", "b@nope", "c@never"]));
    assert_eq!(res.unwrap_err(), Failure::CrateSpec("b@nope".to_string()));
}

#[test]
fn no_specifiers_ask_for_nothing() {
    assert!(parse_crate_specs(&Vec::new()).unwrap().is_empty());
    assert!(!parse_crate_specs(&texts(&["a"])).unwrap().is_empty());
    assert!(Selection::new().is_empty());
}
