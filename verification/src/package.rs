//! Packages and the dependencies that they declare.
use crate::outside::{parse_version_req, version_req_text};
use crate::text::{before, contains_char, split_before};
use vstd::prelude::*;

verus! {

/// A copy of an optional text.
pub fn copy_text(text: &Option<String>) -> (res: Option<String>)
    ensures
        res == *text,
{
    match text {
        Some(t) => Some(t.clone()),
        None => None,
    }
}

/// A version requirement, as `semver` displays it.
#[derive(Debug)]
pub struct VersionRequirement {
    text: String,
}

impl DeepView for VersionRequirement {
    type V = Seq<char>;

    closed spec fn deep_view(&self) -> Seq<char> {
        self.text@
    }
}

impl VersionRequirement {
    /// Reads a version requirement. There is none where `semver` rejects the text.
    pub fn parse(text: &str) -> (res: Option<VersionRequirement>)
        ensures
            res.deep_view() == version_req_text(text@),
    {
        match parse_version_req(text) {
            Ok(shown) => Some(VersionRequirement { text: shown }),
            Err(_) => None,
        }
    }

    /// The text of the requirement.
    pub fn as_str(&self) -> (res: &str)
        ensures
            res@ == self.deep_view(),
    {
        self.text.as_str()
    }

    /// Whether the requirement speaks of a prerelease.
    pub fn is_prerelease(&self) -> (res: bool)
        ensures
            res == self.deep_view().contains('-'),
    {
        contains_char(self.text.as_str(), '-')
    }
}

impl Clone for VersionRequirement {
    fn clone(&self) -> (res: VersionRequirement)
        ensures
            res.deep_view() == self.deep_view(),
    {
        VersionRequirement { text: self.text.clone() }
    }
}

/// A dependency as a manifest declares it.
#[derive(Debug)]
pub struct DeclaredDependency {
    /// The name of the crate.
    pub name: String,
    /// Where the crate comes from: a kind, `+` and a URL. A path dependency has no source.
    pub source: Option<String>,
    /// The versions that will do.
    pub req: VersionRequirement,
    /// The name that the manifest uses for the crate, where it is another.
    pub rename: Option<String>,
    /// The URL of the index of the registry, where it is not crates.io.
    pub registry: Option<String>,
}

/// A `DeclaredDependency` as its texts.
pub struct DeclaredModel {
    pub name: Seq<char>,
    pub source: Option<Seq<char>>,
    pub req: Seq<char>,
    pub rename: Option<Seq<char>>,
    pub registry: Option<Seq<char>>,
}

impl DeepView for DeclaredDependency {
    type V = DeclaredModel;

    open spec fn deep_view(&self) -> DeclaredModel {
        DeclaredModel {
            name: self.name@,
            source: self.source.deep_view(),
            req: self.req.deep_view(),
            rename: self.rename.deep_view(),
            registry: self.registry.deep_view(),
        }
    }
}

impl DeclaredModel {
    /// Whether the crate comes from a registry: the kind of its source is `registry`.
    pub open spec fn is_version_dep(self) -> bool {
        self.source matches Some(source) && before(source, '+') == "registry"@
    }
}

/// Whether a dependency comes from a registry, so that it is chosen by its version.
pub fn is_version_dep(dependency: &DeclaredDependency) -> (res: bool)
    ensures
        res == dependency.deep_view().is_version_dep(),
{
    match &dependency.source {
        Some(source) => split_before(source.as_str(), '+').to_owned() == "registry".to_owned(),
        None => false,
    }
}

/// A package of the workspace.
#[derive(Debug)]
pub struct Package {
    /// The name of the package.
    pub name: String,
    /// The path of its manifest.
    pub manifest_path: String,
    /// The dependencies that its manifest declares.
    pub dependencies: Vec<DeclaredDependency>,
}

/// A `Package` as its texts.
pub struct PackageModel {
    pub name: Seq<char>,
    pub manifest_path: Seq<char>,
    pub dependencies: Seq<DeclaredModel>,
}

impl DeepView for Package {
    type V = PackageModel;

    open spec fn deep_view(&self) -> PackageModel {
        PackageModel {
            name: self.name@,
            manifest_path: self.manifest_path@,
            dependencies: self.dependencies.deep_view(),
        }
    }
}

/// The dependencies that the packages declare, one package after another.
pub open spec fn declared(packages: Seq<PackageModel>) -> Seq<DeclaredModel>
    decreases packages.len(),
{
    if packages.len() == 0 {
        Seq::empty()
    } else {
        declared(packages.drop_last()) + packages.last().dependencies
    }
}

} // verus!
