//! Why a run is given up.
use vstd::prelude::*;

verus! {

/// Why a run is given up.
#[derive(Debug, PartialEq, Eq)]
pub enum Failure {
    /// This crate specifier asks for a version that is no version requirement.
    CrateSpec(String),
    /// The URL of a registry cannot be read.
    InvalidCargoConfig,
    /// The manifest belongs to no package.
    VirtualManifest,
}

/// A `Failure` as its text.
pub enum FailureModel {
    CrateSpec(Seq<char>),
    InvalidCargoConfig,
    VirtualManifest,
}

impl DeepView for Failure {
    type V = FailureModel;

    open spec fn deep_view(&self) -> FailureModel {
        match self {
            Failure::CrateSpec(spec) => FailureModel::CrateSpec(spec@),
            Failure::InvalidCargoConfig => FailureModel::InvalidCargoConfig,
            Failure::VirtualManifest => FailureModel::VirtualManifest,
        }
    }
}

impl FailureModel {
    /// What the user is told.
    pub open spec fn message(self) -> Seq<char> {
        match self {
            FailureModel::CrateSpec(_) => "Invalid crate version requirement"@,
            FailureModel::InvalidCargoConfig => "Invalid cargo config"@,
            FailureModel::VirtualManifest =>
                "Found virtual manifest, but this command requires running against an actual package in this workspace. Try adding `--workspace`."@,
        }
    }
}

impl Failure {
    /// What the user is told.
    pub fn message(&self) -> (res: String)
        ensures
            res@ == self.deep_view().message(),
    {
        match self {
            Failure::CrateSpec(_) => "Invalid crate version requirement".to_owned(),
            Failure::InvalidCargoConfig => "Invalid cargo config".to_owned(),
            Failure::VirtualManifest =>
                "Found virtual manifest, but this command requires running against an actual package in this workspace. Try adding `--workspace`.".to_owned(),
        }
    }
}

} // verus!
