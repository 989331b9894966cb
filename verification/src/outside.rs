//! What is taken from other crates.
//!
//! Nothing here is proved: each contract restates what the named function of the other crate does.
use crate::text::{after, before};
use vstd::prelude::*;

verus! {

/// What `semver` makes of a version requirement: the text that it displays for the requirement it
/// read, or `None` where it rejects the text.
pub uninterp spec fn version_req_text(text: Seq<char>) -> Option<Seq<char>>;

/// What `url` makes of a URL: the serialization of the URL it read, or `None` where it rejects the
/// text.
pub uninterp spec fn url_text(text: Seq<char>) -> Option<Seq<char>>;

/// The error of `semver::VersionReq::parse`.
#[verifier::external_type_specification]
#[verifier::external_body]
pub struct ExReqParseError(semver::ReqParseError);

/// The error of `url::Url::parse`.
#[verifier::external_type_specification]
#[verifier::external_body]
pub struct ExUrlParseError(url::ParseError);

/// The error of `cargo_edit`.
#[verifier::external_type_specification]
#[verifier::external_body]
pub struct ExCargoEditError(cargo_edit::Error);

/// Calls `semver::VersionReq::parse` and displays what it read.
///
/// Both are functions of the text alone. Nothing more is said of what the result reads like.
#[verifier::external_body]
pub(crate) fn parse_version_req(text: &str) -> (res: Result<String, semver::ReqParseError>)
    ensures
        match res {
            Ok(shown) => version_req_text(text@) == Some(shown@),
            Err(_) => version_req_text(text@) is None,
        },
{
    semver::VersionReq::parse(text).map(|req| req.to_string())
}

/// Calls `url::Url::parse` and takes the serialization of what it read.
///
/// Both are functions of the text alone. Nothing more is said of what the result reads like.
#[verifier::external_body]
pub(crate) fn parse_url(text: &str) -> (res: Result<String, url::ParseError>)
    ensures
        match res {
            Ok(shown) => url_text(text@) == Some(shown@),
            Err(_) => url_text(text@) is None,
        },
{
    url::Url::parse(text).map(String::from)
}

/// Calls `cargo_edit::CrateName::parse_as_version` and takes the name and the version of the
/// dependency that it found.
///
/// A specifier without `@` gives nothing. Otherwise what follows the first `@` must be a version
/// requirement that `semver` accepts, else the call fails. The name is what precedes that `@`, and
/// the version is the requirement as it was written, up to the first `+`.
#[verifier::external_body]
pub(crate) fn parse_as_version(spec: &str) -> (res: Result<
    Option<(String, Option<String>)>,
    cargo_edit::Error,
>)
    ensures
        match res {
            Ok(None) => !spec@.contains('@'),
            Ok(Some((name, version))) => {
                &&& spec@.contains('@')
                &&& version_req_text(after(spec@, '@')) is Some
                &&& name@ == before(spec@, '@')
                &&& version matches Some(v) && v@ == before(after(spec@, '@'), '+')
            },
            Err(_) => spec@.contains('@') && version_req_text(after(spec@, '@')) is None,
        },
{
    cargo_edit::CrateName::new(spec).parse_as_version().map(
        |found| found.map(|dep| (dep.name.clone(), dep.version().map(String::from))),
    )
}

/// Calls `cargo_edit::Dependency::set_version` on a new dependency and takes its version.
///
/// The version is the given one up to the first `+`: build metadata has no place in a requirement.
/// The name has no part in it.
#[verifier::external_body]
pub(crate) fn dependency_version(name: &str, version: &str) -> (res: Option<String>)
    ensures
        match res {
            Some(v) => v@ == before(version@, '+'),
            None => false,
        },
{
    cargo_edit::Dependency::new(name).set_version(version).version().map(String::from)
}

} // verus!
