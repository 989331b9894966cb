//! A run: what the user asked for is carried out step by step.
//!
//! The session decides each step; the steps themselves are taken outside, and what came of a step
//! is handed back as an event. A step that fails outside ends the run.
use crate::action::{fails, Action, ActionModel};
use crate::failures::{Failure, FailureModel};
use crate::manifests::{desired, package_at, upgrade_steps, Manifests};
use crate::message::{deprecated_message, deprecation};
use crate::package::{Package, PackageModel};
use crate::selection::requested;
use crate::upgrades::{
    index_updates, lemma_lookups_count, lookups, settled, unsettled, DependencyModel,
    DesiredUpgrades, UpgradeModel,
};
use vstd::prelude::*;

verus! {

/// What the user asked for.
#[derive(Debug)]
pub struct Options {
    /// Crate specifiers: the dependencies to work on. Without any, all are worked on.
    pub dependency: Vec<String>,
    /// The id of the package to work on.
    pub pkgid: Option<String>,
    /// The deprecated name of `workspace`.
    pub all: bool,
    /// Whether to work on all packages of the workspace.
    pub workspace: bool,
    /// Whether prereleases count.
    pub allow_prerelease: bool,
    /// Whether changes are only shown.
    pub dry_run: bool,
    /// Whether a version that the old requirement admits is passed over.
    pub skip_compatible: bool,
    /// Whether the network is left alone.
    pub offline: bool,
    /// Whether the run is part of a test, which leaves the network alone too.
    pub is_test: bool,
}

/// An `Options` as its texts.
#[verifier::ext_equal]
pub struct OptionsModel {
    pub dependency: Seq<Seq<char>>,
    pub pkgid: Option<Seq<char>>,
    pub all: bool,
    pub workspace: bool,
    pub allow_prerelease: bool,
    pub dry_run: bool,
    pub skip_compatible: bool,
    pub offline: bool,
    pub is_test: bool,
}

impl DeepView for Options {
    type V = OptionsModel;

    open spec fn deep_view(&self) -> OptionsModel {
        OptionsModel {
            dependency: self.dependency.deep_view(),
            pkgid: self.pkgid.deep_view(),
            all: self.all,
            workspace: self.workspace,
            allow_prerelease: self.allow_prerelease,
            dry_run: self.dry_run,
            skip_compatible: self.skip_compatible,
            offline: self.offline,
            is_test: self.is_test,
        }
    }
}

impl OptionsModel {
    /// Whether indices are brought up to date.
    pub open spec fn updates_indices(self) -> bool {
        !self.offline && !self.is_test
    }

    /// The step that reads the packages to work on.
    pub open spec fn reading(self) -> ActionModel {
        if self.workspace || self.all {
            ActionModel::ReadWorkspace
        } else {
            match self.pkgid {
                Some(pkgid) => ActionModel::ReadPackage(pkgid),
                None => ActionModel::ReadLocal,
            }
        }
    }

    /// The warning about `--all`, if it was given.
    pub open spec fn warning(self) -> Seq<ActionModel> {
        if self.all {
            seq![
                ActionModel::Show(
                    deprecation("The flag `--all` has been deprecated in favor of `--workspace`"@),
                ),
            ]
        } else {
            Seq::empty()
        }
    }

    /// The update of the default index, unless the network is left alone.
    pub open spec fn default_index_update(self) -> Seq<ActionModel> {
        if self.updates_indices() {
            seq![ActionModel::UpdateDefaultIndex]
        } else {
            Seq::empty()
        }
    }

    /// The steps up to the reading of the packages.
    pub open spec fn loading_steps(self) -> Seq<ActionModel> {
        (self.warning() + self.default_index_update()).push(self.reading())
    }

    /// The steps before the lookups: the indices are brought up to date, unless the network is left
    /// alone, and the manifest is found.
    pub open spec fn updating_steps(
        self,
        desired: Seq<(DependencyModel, UpgradeModel)>,
    ) -> Seq<ActionModel> {
        let updates = if self.updates_indices() {
            index_updates(desired)
        } else {
            Seq::empty()
        };
        if fails(updates) {
            updates
        } else {
            updates.push(ActionModel::LocateManifest)
        }
    }

    /// The steps that carry out the upgrades.
    pub open spec fn upgrading_steps(
        self,
        packages: Seq<PackageModel>,
        desired: Seq<(DependencyModel, UpgradeModel)>,
        found: Seq<Seq<char>>,
    ) -> Seq<ActionModel> {
        upgrade_steps(
            packages,
            settled(desired, found),
            self.dry_run,
            self.skip_compatible,
        ).push(ActionModel::Finish)
    }
}

/// The steps that open the manifests of `n` packages.
pub open spec fn opening_steps(n: nat) -> Seq<ActionModel> {
    Seq::new(n, |i: int| ActionModel::OpenManifest(i))
}

impl Options {
    /// The steps up to the reading of the packages.
    fn loading_steps(&self) -> (res: Vec<Action>)
        ensures
            res.deep_view() == self.deep_view().loading_steps(),
    {
        let mut steps: Vec<Action> = Vec::new();
        if self.all {
            steps.push(
                Action::Show(
                    deprecated_message(
                        "The flag `--all` has been deprecated in favor of `--workspace`",
                    ),
                ),
            );
        }
        if !self.offline && !self.is_test {
            steps.push(Action::UpdateDefaultIndex);
        }
        let reading = if self.workspace || self.all {
            Action::ReadWorkspace
        } else {
            match &self.pkgid {
                Some(pkgid) => Action::ReadPackage(pkgid.clone()),
                None => Action::ReadLocal,
            }
        };
        steps.push(reading);
        assert(steps.deep_view() =~= self.deep_view().loading_steps());
        steps
    }

    /// The steps before the lookups.
    fn updating_steps(&self, upgrades: &DesiredUpgrades) -> (res: Vec<Action>)
        ensures
            res.deep_view() == self.deep_view().updating_steps(upgrades.0.pairs()),
    {
        let mut steps: Vec<Action> = if !self.offline && !self.is_test {
            upgrades.index_updates()
        } else {
            Vec::new()
        };
        let ghost updates = steps.deep_view();
        assert(!self.deep_view().updates_indices() ==> updates =~= Seq::empty());
        let failed = steps.len() > 0 && matches!(steps[steps.len() - 1], Action::Fail(_));
        assert(steps.len() > 0 ==> updates.last() == steps@.last().deep_view());
        if !failed {
            steps.push(Action::LocateManifest);
            assert(steps.deep_view() =~= updates.push(ActionModel::LocateManifest));
        }
        steps
    }
}

/// What came of the last step.
#[derive(Debug)]
pub enum Event {
    /// It was taken.
    Done,
    /// These packages were read.
    Packages(Vec<Package>),
    /// The manifest at this path was opened, and these packages of its workspace were read.
    Local(String, Vec<Package>),
    /// This version was found.
    Version(String),
}

/// An `Event` as its texts.
pub enum EventModel {
    Done,
    Packages(Seq<PackageModel>),
    Local(Seq<char>, Seq<PackageModel>),
    Version(Seq<char>),
}

impl DeepView for Event {
    type V = EventModel;

    open spec fn deep_view(&self) -> EventModel {
        match self {
            Event::Done => EventModel::Done,
            Event::Packages(packages) => EventModel::Packages(packages.deep_view()),
            Event::Local(path, packages) => EventModel::Local(path@, packages.deep_view()),
            Event::Version(version) => EventModel::Version(version@),
        }
    }
}

/// How far a run has come.
#[derive(Debug)]
enum Stage {
    /// The packages are not known.
    Loading,
    /// Their manifests are being opened.
    Opening(Manifests),
    /// The indices are being brought up to date.
    Updating(Manifests, DesiredUpgrades),
    /// The versions are being looked up; these were found.
    Resolving(Manifests, DesiredUpgrades, Vec<String>),
    /// The manifests are being changed.
    Upgrading,
    /// The run is over.
    Stopped,
}

/// How far a run has come.
pub enum StageModel {
    Loading,
    Opening(Seq<PackageModel>),
    Updating(Seq<PackageModel>, Seq<(DependencyModel, UpgradeModel)>),
    Resolving(Seq<PackageModel>, Seq<(DependencyModel, UpgradeModel)>, Seq<Seq<char>>),
    Upgrading,
    Stopped,
}

impl Stage {
    spec fn model(self) -> StageModel {
        match self {
            Stage::Loading => StageModel::Loading,
            Stage::Opening(manifests) => StageModel::Opening(manifests.packages()),
            Stage::Updating(manifests, upgrades) => StageModel::Updating(
                manifests.packages(),
                upgrades.0.pairs(),
            ),
            Stage::Resolving(manifests, upgrades, found) => StageModel::Resolving(
                manifests.packages(),
                upgrades.0.pairs(),
                found.deep_view(),
            ),
            Stage::Upgrading => StageModel::Upgrading,
            Stage::Stopped => StageModel::Stopped,
        }
    }
}

/// A run, as it stands: what was asked for, how far it has come, and which steps of the stage are
/// still to be taken.
#[verifier::ext_equal]
pub struct SessionModel {
    pub options: OptionsModel,
    pub stage: StageModel,
    pub agenda: Seq<ActionModel>,
}

/// A run that is given up.
pub open spec fn giving_up(options: OptionsModel, failure: FailureModel) -> SessionModel {
    SessionModel { options, stage: StageModel::Stopped, agenda: seq![ActionModel::Fail(failure)] }
}

/// A run that knows the new versions.
pub open spec fn upgrading(
    options: OptionsModel,
    packages: Seq<PackageModel>,
    desired: Seq<(DependencyModel, UpgradeModel)>,
    found: Seq<Seq<char>>,
) -> SessionModel {
    SessionModel {
        options,
        stage: StageModel::Upgrading,
        agenda: options.upgrading_steps(packages, desired, found),
    }
}

/// A run that can look up the new versions.
pub open spec fn resolving(
    options: OptionsModel,
    packages: Seq<PackageModel>,
    desired: Seq<(DependencyModel, UpgradeModel)>,
) -> SessionModel {
    let steps = lookups(desired, options.allow_prerelease);
    if steps.len() == 0 {
        upgrading(options, packages, desired, Seq::empty())
    } else {
        SessionModel {
            options,
            stage: StageModel::Resolving(packages, desired, Seq::empty()),
            agenda: steps,
        }
    }
}

/// A run that has opened the manifests of these packages.
pub open spec fn opened(options: OptionsModel, packages: Seq<PackageModel>) -> SessionModel {
    match requested(options.dependency) {
        Err(failure) => giving_up(options, failure),
        Ok(selection) => {
            let desired = desired(packages, selection);
            SessionModel {
                options,
                stage: StageModel::Updating(packages, desired),
                agenda: options.updating_steps(desired),
            }
        },
    }
}

/// A run that knows the packages.
pub open spec fn loaded(options: OptionsModel, packages: Seq<PackageModel>) -> SessionModel {
    if packages.len() == 0 {
        opened(options, packages)
    } else {
        SessionModel {
            options,
            stage: StageModel::Opening(packages),
            agenda: opening_steps(packages.len()),
        }
    }
}

/// Whether an event can come of the last step.
pub open spec fn expected(s: SessionModel, event: EventModel) -> bool {
    match s.stage {
        StageModel::Loading => if s.agenda.len() > 0 {
            event is Done
        } else if s.options.reading() is ReadLocal {
            event is Local
        } else {
            event is Packages
        },
        StageModel::Resolving(..) => event is Version,
        StageModel::Stopped => false,
        _ => event is Done,
    }
}

/// How the run stands after an event, before the next step.
pub open spec fn after(s: SessionModel, event: EventModel) -> SessionModel {
    match event {
        EventModel::Packages(packages) => loaded(s.options, packages),
        EventModel::Local(path, packages) => match package_at(path, packages) {
            Some(package) => opened(s.options, seq![package]),
            None => giving_up(s.options, FailureModel::VirtualManifest),
        },
        EventModel::Version(version) => match s.stage {
            StageModel::Resolving(packages, desired, found) => if s.agenda.len() > 0 {
                SessionModel {
                    stage: StageModel::Resolving(packages, desired, found.push(version)),
                    ..s
                }
            } else {
                upgrading(s.options, packages, desired, found.push(version))
            },
            _ => s,
        },
        EventModel::Done => if s.agenda.len() > 0 {
            s
        } else {
            match s.stage {
                StageModel::Opening(packages) => opened(s.options, packages),
                StageModel::Updating(packages, desired) => resolving(s.options, packages, desired),
                _ => s,
            }
        },
    }
}

/// The next step, and how the run stands while it is taken. The run is over with `Finish` and with
/// `Fail`.
pub open spec fn issue(s: SessionModel) -> (SessionModel, ActionModel) {
    let action = s.agenda.first();
    (
        SessionModel {
            options: s.options,
            stage: if action is Finish || action is Fail {
                StageModel::Stopped
            } else {
                s.stage
            },
            agenda: s.agenda.drop_first(),
        },
        action,
    )
}

/// A run before its first step.
pub open spec fn start(options: OptionsModel) -> SessionModel {
    SessionModel { options, stage: StageModel::Loading, agenda: options.loading_steps() }
}

/// How the run stands after an event, and its next step.
pub open spec fn next(s: SessionModel, event: EventModel) -> (SessionModel, ActionModel) {
    issue(after(s, event))
}

/// Whether `agenda` is what is left of `steps` when the first of them, and maybe more, have been
/// taken, and the last one taken was no failure.
pub open spec fn is_rest(agenda: Seq<ActionModel>, steps: Seq<ActionModel>) -> bool {
    &&& agenda.len() < steps.len()
    &&& agenda == steps.skip(steps.len() - agenda.len())
    &&& !(steps[steps.len() - agenda.len() - 1] is Fail)
}

/// What holds of a run between its steps.
pub open spec fn coherent(s: SessionModel) -> bool {
    match s.stage {
        StageModel::Loading => is_rest(s.agenda, s.options.loading_steps()),
        StageModel::Opening(packages) => is_rest(s.agenda, opening_steps(packages.len())),
        StageModel::Updating(packages, desired) => is_rest(
            s.agenda,
            s.options.updating_steps(desired),
        ),
        StageModel::Resolving(packages, desired, found) => {
            let steps = lookups(desired, s.options.allow_prerelease);
            &&& is_rest(s.agenda, steps)
            &&& found.len() + s.agenda.len() + 1 == steps.len()
        },
        StageModel::Upgrading => s.agenda.len() > 0 && s.agenda.last() is Finish,
        StageModel::Stopped => true,
    }
}

/// The agenda of a run whose first step is about to be taken, while the rest of `steps` is left.
proof fn lemma_first_of(steps: Seq<ActionModel>)
    requires
        steps.len() > 0,
        !(steps.first() is Fail),
    ensures
        is_rest(steps.drop_first(), steps),
{
    assert(steps.drop_first() =~= steps.skip(1));
}

/// What is left of the steps, when one more of them is taken.
proof fn lemma_next_of(agenda: Seq<ActionModel>, steps: Seq<ActionModel>)
    requires
        is_rest(agenda, steps),
        agenda.len() > 0,
        !(agenda.first() is Fail),
    ensures
        is_rest(agenda.drop_first(), steps),
{
    assert(agenda.drop_first() =~= steps.skip(steps.len() - agenda.len() + 1));
}

/// A run is coherent while its first step is taken.
pub proof fn lemma_start_coherent(options: OptionsModel)
    ensures
        options.loading_steps().len() > 0,
        coherent(issue(start(options)).0),
{
    lemma_first_of(options.loading_steps());
}

/// A run that has opened its manifests goes on coherently.
proof fn lemma_opened(options: OptionsModel, packages: Seq<PackageModel>)
    ensures
        opened(options, packages).agenda.len() > 0,
        coherent(issue(opened(options, packages)).0),
{
    let s = opened(options, packages);
    if let StageModel::Updating(_, desired) = s.stage {
        let steps = options.updating_steps(desired);
        if !(steps.first() is Fail) {
            lemma_first_of(steps);
        }
    }
}

/// An event that can come keeps a run coherent, and there is a next step.
pub proof fn lemma_next_coherent(s: SessionModel, event: EventModel)
    requires
        coherent(s),
        expected(s, event),
    ensures
        after(s, event).agenda.len() > 0,
        coherent(next(s, event).0),
{
    match event {
        EventModel::Packages(packages) => {
            if packages.len() == 0 {
                lemma_opened(s.options, packages);
            } else {
                lemma_first_of(opening_steps(packages.len()));
            }
        },
        EventModel::Local(path, packages) => {
            if let Some(package) = package_at(path, packages) {
                lemma_opened(s.options, seq![package]);
            }
        },
        EventModel::Version(_) => {
            if let StageModel::Resolving(_, desired, _) = s.stage {
                let steps = lookups(desired, s.options.allow_prerelease);
                if s.agenda.len() > 0 && !(s.agenda.first() is Fail) {
                    lemma_next_of(s.agenda, steps);
                }
            }
        },
        EventModel::Done => {
            if s.agenda.len() > 0 {
                if !(s.agenda.first() is Fail) {
                    match s.stage {
                        StageModel::Loading => {
                            lemma_next_of(s.agenda, s.options.loading_steps());
                        },
                        StageModel::Opening(packages) => {
                            lemma_next_of(s.agenda, opening_steps(packages.len()));
                        },
                        StageModel::Updating(_, desired) => {
                            lemma_next_of(s.agenda, s.options.updating_steps(desired));
                        },
                        _ => {},
                    }
                }
            } else {
                match s.stage {
                    StageModel::Opening(packages) => {
                        lemma_opened(s.options, packages);
                    },
                    StageModel::Updating(packages, desired) => {
                        let steps = lookups(desired, s.options.allow_prerelease);
                        if steps.len() > 0 && !(steps.first() is Fail) {
                            lemma_first_of(steps);
                        }
                    },
                    _ => {},
                }
            }
        },
    }
}

/// A run.
#[derive(Debug)]
pub struct Session {
    options: Options,
    stage: Stage,
    agenda: Vec<Action>,
}

impl DeepView for Session {
    type V = SessionModel;

    closed spec fn deep_view(&self) -> SessionModel {
        SessionModel {
            options: self.options.deep_view(),
            stage: self.stage.model(),
            agenda: self.agenda.deep_view(),
        }
    }
}

impl Session {
    /// The dependencies that the run works on are distinct.
    closed spec fn has_distinct_upgrades(self) -> bool {
        match self.stage {
            Stage::Updating(_, upgrades) => upgrades.0.wf(),
            Stage::Resolving(_, upgrades, _) => upgrades.0.wf(),
            _ => true,
        }
    }

    /// What holds of a run between its steps.
    pub closed spec fn wf(self) -> bool {
        coherent(self.deep_view()) && self.has_distinct_upgrades()
    }

    /// The next step.
    fn issue(self) -> (res: (Session, Action))
        requires
            self.deep_view().agenda.len() > 0,
            self.has_distinct_upgrades(),
        ensures
            (res.0.deep_view(), res.1.deep_view()) == issue(self.deep_view()),
            res.0.has_distinct_upgrades(),
    {
        let ghost before = self.deep_view();
        let mut agenda = self.agenda;
        let action = agenda.remove(0);
        assert(agenda.deep_view() =~= before.agenda.drop_first());
        let stage = if matches!(action, Action::Finish | Action::Fail(_)) {
            Stage::Stopped
        } else {
            self.stage
        };
        (Session { options: self.options, stage, agenda }, action)
    }

    /// A run that is given up.
    fn giving_up(options: Options, failure: Failure) -> (res: Session)
        ensures
            res.deep_view() == giving_up(options.deep_view(), failure.deep_view()),
            res.has_distinct_upgrades(),
    {
        let ghost model = giving_up(options.deep_view(), failure.deep_view());
        let res = Session { options, stage: Stage::Stopped, agenda: vec![Action::Fail(failure)] };
        assert(res.deep_view().agenda =~= model.agenda);
        res
    }

    /// A run that knows the new versions.
    fn upgrading(
        options: Options,
        manifests: Manifests,
        upgrades: DesiredUpgrades,
        found: Vec<String>,
    ) -> (res: Session)
        requires
            upgrades.0.wf(),
            found.len() == unsettled(upgrades.0.pairs()),
        ensures
            res.deep_view() == upgrading(
                options.deep_view(),
                manifests.packages(),
                upgrades.0.pairs(),
                found.deep_view(),
            ),
            res.has_distinct_upgrades(),
    {
        let actual = upgrades.get_upgraded(&found);
        let mut agenda = manifests.upgrade(&actual, options.dry_run, options.skip_compatible);
        let ghost steps = agenda.deep_view();
        agenda.push(Action::Finish);
        assert(agenda.deep_view() =~= steps.push(ActionModel::Finish));
        Session { options, stage: Stage::Upgrading, agenda }
    }

    /// A run that can look up the new versions.
    fn resolving(options: Options, manifests: Manifests, upgrades: DesiredUpgrades) -> (res: Session)
        requires
            upgrades.0.wf(),
        ensures
            res.deep_view() == resolving(
                options.deep_view(),
                manifests.packages(),
                upgrades.0.pairs(),
            ),
            res.has_distinct_upgrades(),
    {
        let agenda = upgrades.lookups(options.allow_prerelease);
        let found: Vec<String> = Vec::new();
        assert(found.deep_view() =~= Seq::empty());
        if agenda.len() == 0 {
            proof {
                lemma_lookups_count(upgrades.0.pairs(), options.allow_prerelease);
            }
            Session::upgrading(options, manifests, upgrades, found)
        } else {
            Session { options, stage: Stage::Resolving(manifests, upgrades, found), agenda }
        }
    }

    /// A run that has opened the manifests of its packages.
    fn opened(options: Options, manifests: Manifests) -> (res: Session)
        ensures
            res.deep_view() == opened(options.deep_view(), manifests.packages()),
            res.has_distinct_upgrades(),
    {
        match manifests.get_dependencies(&options.dependency) {
            Err(failure) => Session::giving_up(options, failure),
            Ok(upgrades) => {
                let agenda = options.updating_steps(&upgrades);
                Session { options, stage: Stage::Updating(manifests, upgrades), agenda }
            },
        }
    }

    /// A run that knows its packages.
    fn loaded(options: Options, packages: Vec<Package>) -> (res: Session)
        ensures
            res.deep_view() == loaded(options.deep_view(), packages.deep_view()),
            res.has_distinct_upgrades(),
    {
        let manifests = Manifests(packages);
        let n: usize = manifests.0.len();
        if n == 0 {
            return Session::opened(options, manifests);
        }
        let mut agenda: Vec<Action> = Vec::new();
        let mut i: usize = 0;
        assert(agenda.deep_view() =~= opening_steps(n as nat).take(0));
        while i < n
            invariant
                i <= n,
                agenda.deep_view() == opening_steps(n as nat).take(i as int),
            decreases n - i,
        {
            let ghost earlier = agenda.deep_view();
            agenda.push(Action::OpenManifest(i));
            proof {
                let steps = opening_steps(n as nat);
                assert(agenda.deep_view() =~= earlier.push(ActionModel::OpenManifest(i as int)));
                assert(steps.take(i + 1) =~= steps.take(i as int).push(steps[i as int]));
            }
            i = i + 1;
        }
        assert(opening_steps(n as nat).take(n as int) =~= opening_steps(n as nat));
        Session { options, stage: Stage::Opening(manifests), agenda }
    }

    /// Begins a run. The action is its first step.
    pub fn begin(options: Options) -> (res: (Session, Action))
        ensures
            res.0.wf(),
            (res.0.deep_view(), res.1.deep_view()) == issue(start(options.deep_view())),
    {
        proof {
            lemma_start_coherent(options.deep_view());
        }
        let agenda = options.loading_steps();
        Session { options, stage: Stage::Loading, agenda }.issue()
    }

    /// Whether an event can come of the last step.
    pub fn expects(&self, event: &Event) -> (res: bool)
        ensures
            res == expected(self.deep_view(), event.deep_view()),
    {
        match &self.stage {
            Stage::Loading => if self.agenda.len() > 0 {
                matches!(event, Event::Done)
            } else if !self.options.workspace && !self.options.all && self.options.pkgid.is_none() {
                matches!(event, Event::Local(..))
            } else {
                matches!(event, Event::Packages(_))
            },
            Stage::Resolving(..) => matches!(event, Event::Version(_)),
            Stage::Stopped => false,
            _ => matches!(event, Event::Done),
        }
    }

    /// Goes on with what came of the last step. The action is the next step.
    pub fn step(self, event: Event) -> (res: (Session, Action))
        requires
            self.wf(),
            expected(self.deep_view(), event.deep_view()),
        ensures
            res.0.wf(),
            (res.0.deep_view(), res.1.deep_view()) == next(self.deep_view(), event.deep_view()),
    {
        proof {
            lemma_next_coherent(self.deep_view(), event.deep_view());
        }
        let session = match event {
            Event::Packages(packages) => Session::loaded(self.options, packages),
            Event::Local(path, packages) => match Manifests::get_local_one(&path, packages) {
                Ok(manifests) => Session::opened(self.options, manifests),
                Err(failure) => Session::giving_up(self.options, failure),
            },
            Event::Version(version) => self.found(version),
            Event::Done => self.proceed(),
        };
        session.issue()
    }

    /// How the run stands when a version was found.
    fn found(self, version: String) -> (res: Session)
        requires
            self.wf(),
            expected(self.deep_view(), EventModel::Version(version@)),
        ensures
            res.deep_view() == after(self.deep_view(), EventModel::Version(version@)),
            res.has_distinct_upgrades(),
    {
        match self.stage {
            Stage::Resolving(manifests, upgrades, found) => {
                let ghost earlier = found.deep_view();
                let ghost text = version@;
                let mut found = found;
                found.push(version);
                assert(found.deep_view() =~= earlier.push(text));
                if self.agenda.len() > 0 {
                    Session {
                        options: self.options,
                        stage: Stage::Resolving(manifests, upgrades, found),
                        agenda: self.agenda,
                    }
                } else {
                    proof {
                        lemma_lookups_count(
                            upgrades.0.pairs(),
                            self.options.allow_prerelease,
                        );
                    }
                    Session::upgrading(self.options, manifests, upgrades, found)
                }
            },
            stage => Session { options: self.options, stage, agenda: self.agenda },
        }
    }

    /// How the run stands when a step was taken.
    fn proceed(self) -> (res: Session)
        requires
            self.wf(),
            expected(self.deep_view(), EventModel::Done),
        ensures
            res.deep_view() == after(self.deep_view(), EventModel::Done),
            res.has_distinct_upgrades(),
    {
        if self.agenda.len() > 0 {
            return self;
        }
        match self.stage {
            Stage::Opening(manifests) => Session::opened(self.options, manifests),
            Stage::Updating(manifests, upgrades) => Session::resolving(
                self.options,
                manifests,
                upgrades,
            ),
            stage => Session { options: self.options, stage, agenda: self.agenda },
        }
    }
}

} // verus!
