//! The steps that are taken outside.
use crate::failures::{Failure, FailureModel};
use crate::message::{Message, MessageModel};
use crate::package::VersionRequirement;
use vstd::prelude::*;

verus! {

/// A question to a registry: which is the lowest version of a crate that will do?
#[derive(Debug)]
pub struct Query {
    /// The name of the crate.
    pub name: String,
    /// The versions that will do.
    pub versionreq: VersionRequirement,
    /// Whether prereleases count.
    pub allow_prerelease: bool,
    /// The URL of the index of the registry, where it is not the default one.
    pub registry: Option<String>,
}

/// A `Query` as its texts.
pub struct QueryModel {
    pub name: Seq<char>,
    pub versionreq: Seq<char>,
    pub allow_prerelease: bool,
    pub registry: Option<Seq<char>>,
}

impl DeepView for Query {
    type V = QueryModel;

    open spec fn deep_view(&self) -> QueryModel {
        QueryModel {
            name: self.name@,
            versionreq: self.versionreq.deep_view(),
            allow_prerelease: self.allow_prerelease,
            registry: self.registry.deep_view(),
        }
    }
}

/// A change to one manifest: a dependency gets a version.
#[derive(Debug)]
pub struct Change {
    /// Which manifest, in the order of the packages.
    pub manifest: usize,
    /// The name of the crate.
    pub name: String,
    /// Its new version, without build metadata.
    pub version: String,
    /// The name that the manifest uses for the crate, where it is another.
    pub rename: Option<String>,
    /// Whether the change is only shown.
    pub dry_run: bool,
    /// Whether a version that the old requirement admits is passed over.
    pub skip_compatible: bool,
}

/// A `Change` as its texts.
pub struct ChangeModel {
    pub manifest: int,
    pub name: Seq<char>,
    pub version: Seq<char>,
    pub rename: Option<Seq<char>>,
    pub dry_run: bool,
    pub skip_compatible: bool,
}

impl DeepView for Change {
    type V = ChangeModel;

    open spec fn deep_view(&self) -> ChangeModel {
        ChangeModel {
            manifest: self.manifest as int,
            name: self.name@,
            version: self.version@,
            rename: self.rename.deep_view(),
            dry_run: self.dry_run,
            skip_compatible: self.skip_compatible,
        }
    }
}

/// A step that is taken outside.
#[derive(Debug)]
pub enum Action {
    /// Show a message.
    Show(Message),
    /// Bring the index of the default registry up to date.
    UpdateDefaultIndex,
    /// Read the packages of the workspace.
    ReadWorkspace,
    /// Read the package with this id.
    ReadPackage(String),
    /// Find the manifest, open it, and read the packages of its workspace.
    ReadLocal,
    /// Open the manifest of the package with this number.
    OpenManifest(usize),
    /// Bring the index of the registry with this URL up to date.
    UpdateIndex(String),
    /// Find the manifest, for the lookups that follow.
    LocateManifest,
    /// Look up the lowest version that will do.
    FindMinimal(Query),
    /// Show a line of plain text.
    Heading(String),
    /// Change a manifest.
    Upgrade(Change),
    /// All is done.
    Finish,
    /// Give up.
    Fail(Failure),
}

/// An `Action` as its texts.
pub enum ActionModel {
    Show(MessageModel),
    UpdateDefaultIndex,
    ReadWorkspace,
    ReadPackage(Seq<char>),
    ReadLocal,
    OpenManifest(int),
    UpdateIndex(Seq<char>),
    LocateManifest,
    FindMinimal(QueryModel),
    Heading(Seq<char>),
    Upgrade(ChangeModel),
    Finish,
    Fail(FailureModel),
}

impl DeepView for Action {
    type V = ActionModel;

    open spec fn deep_view(&self) -> ActionModel {
        match self {
            Action::Show(message) => ActionModel::Show(message.deep_view()),
            Action::UpdateDefaultIndex => ActionModel::UpdateDefaultIndex,
            Action::ReadWorkspace => ActionModel::ReadWorkspace,
            Action::ReadPackage(pkgid) => ActionModel::ReadPackage(pkgid@),
            Action::ReadLocal => ActionModel::ReadLocal,
            Action::OpenManifest(number) => ActionModel::OpenManifest(*number as int),
            Action::UpdateIndex(url) => ActionModel::UpdateIndex(url@),
            Action::LocateManifest => ActionModel::LocateManifest,
            Action::FindMinimal(query) => ActionModel::FindMinimal(query.deep_view()),
            Action::Heading(text) => ActionModel::Heading(text@),
            Action::Upgrade(change) => ActionModel::Upgrade(change.deep_view()),
            Action::Finish => ActionModel::Finish,
            Action::Fail(failure) => ActionModel::Fail(failure.deep_view()),
        }
    }
}

/// The steps up to the first failure, which is the last step taken.
pub open spec fn until_failure(steps: Seq<ActionModel>) -> Seq<ActionModel>
    decreases steps.len(),
{
    if steps.len() == 0 {
        Seq::empty()
    } else {
        let taken = until_failure(steps.drop_last());
        if fails(taken) {
            taken
        } else {
            taken.push(steps.last())
        }
    }
}

/// Whether the last step is a failure.
pub open spec fn fails(steps: Seq<ActionModel>) -> bool {
    steps.len() > 0 && steps.last() is Fail
}

/// What follows a failure is not taken.
pub proof fn lemma_until_failure_stops(steps: Seq<ActionModel>, n: int)
    requires
        0 <= n <= steps.len(),
        fails(until_failure(steps.take(n))),
    ensures
        until_failure(steps) == until_failure(steps.take(n)),
    decreases steps.len() - n,
{
    if n < steps.len() {
        assert(steps.take(n + 1).drop_last() =~= steps.take(n));
        lemma_until_failure_stops(steps, n + 1);
    } else {
        assert(steps.take(n) =~= steps);
    }
}

/// The steps up to a failure begin as the steps do, and only the last of them can be a failure.
/// Where it is none, all steps are taken.
pub proof fn lemma_until_failure(steps: Seq<ActionModel>)
    ensures
        until_failure(steps).len() <= steps.len(),
        until_failure(steps) == steps.take(until_failure(steps).len() as int),
        forall|i: int|
            0 <= i < until_failure(steps).len() - 1 ==> !(#[trigger] until_failure(steps)[i] is Fail),
        !fails(until_failure(steps)) ==> until_failure(steps) == steps,
    decreases steps.len(),
{
    if steps.len() > 0 {
        let front = steps.drop_last();
        let taken = until_failure(front);
        lemma_until_failure(front);
        if fails(taken) {
            assert(steps.take(taken.len() as int) =~= front.take(taken.len() as int));
        } else {
            assert(front.push(steps.last()) =~= steps);
            assert(steps.take(steps.len() as int) =~= steps);
            assert forall|i: int| 0 <= i < steps.len() - 1 implies !(#[trigger] until_failure(
                steps,
            )[i] is Fail) by {
                assert(until_failure(steps)[i] == taken[i]);
                if i == taken.len() - 1 {
                    assert(taken.last() == taken[i]);
                }
            }
        }
    }
}

} // verus!
