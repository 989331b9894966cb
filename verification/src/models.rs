//! What the models tell of the values that they stand for: all that the values hold.
use crate::action::{Action, ActionModel, Change, Query};
use crate::failures::{Failure, FailureModel};
use crate::manifests::Manifests;
use crate::message::{Message, Piece, PieceModel};
use crate::package::{DeclaredDependency, Package};
use crate::session::{Event, EventModel, Options};
use crate::upgrades::{Dependency, UpgradeMetadata};
use vstd::prelude::*;

verus! {

/// An optional text is told by the text.
pub open spec fn tells_text(model: Option<Seq<char>>, text: Option<String>) -> bool {
    match text {
        Some(t) => model == Some(t@),
        None => model is None,
    }
}

/// The options are told as they were given.
pub proof fn law_options_are_told(options: Options)
    ensures
        ({
            let model = options.deep_view();
            &&& model.dependency.len() == options.dependency@.len()
            &&& forall|i: int|
                0 <= i < options.dependency@.len() ==> (#[trigger] model.dependency[i])
                    == options.dependency@[i]@
            &&& tells_text(model.pkgid, options.pkgid)
            &&& model.all == options.all
            &&& model.workspace == options.workspace
            &&& model.allow_prerelease == options.allow_prerelease
            &&& model.dry_run == options.dry_run
            &&& model.skip_compatible == options.skip_compatible
            &&& model.offline == options.offline
            &&& model.is_test == options.is_test
        }),
{
}

/// A declared dependency is told as its manifest has it.
pub proof fn law_declarations_are_told(dependency: DeclaredDependency)
    ensures
        ({
            let model = dependency.deep_view();
            &&& model.name == dependency.name@
            &&& tells_text(model.source, dependency.source)
            &&& model.req == dependency.req.deep_view()
            &&& tells_text(model.rename, dependency.rename)
            &&& tells_text(model.registry, dependency.registry)
        }),
{
}

/// A package is told with all its dependencies, in order.
pub proof fn law_packages_are_told(package: Package)
    ensures
        ({
            let model = package.deep_view();
            &&& model.name == package.name@
            &&& model.manifest_path == package.manifest_path@
            &&& model.dependencies.len() == package.dependencies@.len()
            &&& forall|i: int|
                0 <= i < package.dependencies@.len() ==> (#[trigger] model.dependencies[i])
                    == package.dependencies@[i].deep_view()
        }),
{
}

/// The packages of manifests are told one by one.
pub proof fn law_manifests_are_told(manifests: Manifests)
    ensures
        manifests.packages().len() == manifests.0@.len(),
        forall|i: int|
            0 <= i < manifests.0@.len() ==> (#[trigger] manifests.packages()[i])
                == manifests.0@[i].deep_view(),
{
}

/// A dependency is told by both its names.
pub proof fn law_dependencies_are_told(dependency: Dependency)
    ensures
        dependency.deep_view().name == dependency.name@,
        tells_text(dependency.deep_view().rename, dependency.rename),
{
}

/// What is known of a dependency is told.
pub proof fn law_metadata_is_told(metadata: UpgradeMetadata)
    ensures
        ({
            let model = metadata.deep_view();
            &&& tells_text(model.registry, metadata.registry)
            &&& model.versionreq == metadata.versionreq.deep_view()
            &&& tells_text(model.version, metadata.version)
            &&& model.is_prerelease == metadata.is_prerelease
        }),
{
}

/// A question is told as it is asked.
pub proof fn law_queries_are_told(query: Query)
    ensures
        ({
            let model = query.deep_view();
            &&& model.name == query.name@
            &&& model.versionreq == query.versionreq.deep_view()
            &&& model.allow_prerelease == query.allow_prerelease
            &&& tells_text(model.registry, query.registry)
        }),
{
}

/// A change is told as it is made.
pub proof fn law_changes_are_told(change: Change)
    ensures
        ({
            let model = change.deep_view();
            &&& model.manifest == change.manifest
            &&& model.name == change.name@
            &&& model.version == change.version@
            &&& tells_text(model.rename, change.rename)
            &&& model.dry_run == change.dry_run
            &&& model.skip_compatible == change.skip_compatible
        }),
{
}

/// A failure is told with what it names.
pub proof fn law_failures_are_told(failure: Failure)
    ensures
        match failure {
            Failure::CrateSpec(spec) => failure.deep_view() == FailureModel::CrateSpec(spec@),
            Failure::InvalidCargoConfig => failure.deep_view() is InvalidCargoConfig,
            Failure::VirtualManifest => failure.deep_view() is VirtualManifest,
        },
{
}

/// A message is told with all its pieces, in order.
pub proof fn law_messages_are_told(message: Message)
    ensures
        ({
            let model = message.deep_view();
            &&& model.stream == message.stream
            &&& model.pieces.len() == message.pieces@.len()
            &&& forall|i: int|
                0 <= i < message.pieces@.len() ==> match message.pieces@[i] {
                    Piece::SetColour(colour) => (#[trigger] model.pieces[i])
                        == PieceModel::SetColour(colour),
                    Piece::ClearColour => model.pieces[i] is ClearColour,
                    Piece::Text(text) => model.pieces[i] == PieceModel::Text(text@),
                }
        }),
{
}

/// A step is told as what it is, with what it is about.
pub proof fn law_actions_are_told(action: Action)
    ensures
        match action {
            Action::Show(message) => action.deep_view() == ActionModel::Show(message.deep_view()),
            Action::UpdateDefaultIndex => action.deep_view() is UpdateDefaultIndex,
            Action::ReadWorkspace => action.deep_view() is ReadWorkspace,
            Action::ReadPackage(pkgid) => action.deep_view() == ActionModel::ReadPackage(pkgid@),
            Action::ReadLocal => action.deep_view() is ReadLocal,
            Action::OpenManifest(number) => action.deep_view() == ActionModel::OpenManifest(
                number as int,
            ),
            Action::UpdateIndex(url) => action.deep_view() == ActionModel::UpdateIndex(url@),
            Action::LocateManifest => action.deep_view() is LocateManifest,
            Action::FindMinimal(query) => action.deep_view() == ActionModel::FindMinimal(
                query.deep_view(),
            ),
            Action::Heading(text) => action.deep_view() == ActionModel::Heading(text@),
            Action::Upgrade(change) => action.deep_view() == ActionModel::Upgrade(
                change.deep_view(),
            ),
            Action::Finish => action.deep_view() is Finish,
            Action::Fail(failure) => action.deep_view() == ActionModel::Fail(failure.deep_view()),
        },
{
}

/// An event is told with all that came of the step.
pub proof fn law_events_are_told(event: Event)
    ensures
        match event {
            Event::Done => event.deep_view() is Done,
            Event::Packages(packages) => event.deep_view() == EventModel::Packages(
                Manifests(packages).packages(),
            ),
            Event::Local(path, packages) => event.deep_view() == EventModel::Local(
                path@,
                Manifests(packages).packages(),
            ),
            Event::Version(version) => event.deep_view() == EventModel::Version(version@),
        },
{
}

} // verus!
