//! What holds of a run from its first step to its last.
use crate::action::{fails, ActionModel};
use crate::failures::FailureModel;
use crate::laws::{
    law_changes_follow_the_run, law_first_bad_specifier_is_named, law_index_updates, law_lookups,
};
use crate::manifests::{all_manifest_steps, desired, package_at, upgrade_steps};
use crate::package::PackageModel;
use crate::selection::requested;
use crate::session::{
    after, coherent, expected, giving_up, issue, lemma_next_coherent, lemma_start_coherent, loaded,
    next, opened, opening_steps, resolving, start, upgrading, EventModel, OptionsModel,
    SessionModel, StageModel,
};
use crate::upgrades::{lookups, settled, DependencyModel, UpgradeModel};
use vstd::prelude::*;

verus! {

/// The steps that a run takes on these events.
pub open spec fn run(s: SessionModel, events: Seq<EventModel>) -> Seq<ActionModel>
    decreases events.len(),
{
    if events.len() == 0 {
        Seq::empty()
    } else {
        seq![next(s, events.first()).1] + run(next(s, events.first()).0, events.drop_first())
    }
}

/// Whether each of the events can come when it comes.
pub open spec fn all_expected(s: SessionModel, events: Seq<EventModel>) -> bool
    decreases events.len(),
{
    events.len() > 0 ==> {
        &&& expected(s, events.first())
        &&& all_expected(next(s, events.first()).0, events.drop_first())
    }
}

/// The steps that a run takes when it issues the next of its agenda, and then these events come.
pub open spec fn steps_of(s: SessionModel, events: Seq<EventModel>) -> Seq<ActionModel> {
    seq![issue(s).1] + run(issue(s).0, events)
}

/// Whether each of the events can come, when the run has issued the next step of its agenda.
pub open spec fn can_come(s: SessionModel, events: Seq<EventModel>) -> bool {
    all_expected(issue(s).0, events)
}

/// Steps that were taken, `n` times.
pub open spec fn done(n: int) -> Seq<EventModel> {
    Seq::new(n as nat, |i: int| EventModel::Done)
}

/// The versions that were found, one after another.
pub open spec fn found_versions(versions: Seq<Seq<char>>) -> Seq<EventModel> {
    Seq::new(versions.len(), |i: int| EventModel::Version(versions[i]))
}

/// Whether a run goes on after a step.
pub open spec fn goes_on(step: ActionModel) -> bool {
    !(step is Finish) && !(step is Fail)
}

/// Whether a run goes on after each of the steps, but for the last one maybe.
pub open spec fn goes_on_to_last(steps: Seq<ActionModel>) -> bool {
    forall|i: int| 0 <= i < steps.len() - 1 ==> goes_on(#[trigger] steps[i])
}

/// One event more: the step that it leads to, and what follows.
proof fn lemma_one_event(s: SessionModel, event: EventModel, rest: Seq<EventModel>)
    ensures
        steps_of(s, seq![event] + rest) == seq![issue(s).1] + steps_of(
            after(issue(s).0, event),
            rest,
        ),
        can_come(s, seq![event] + rest) <==> expected(issue(s).0, event) && can_come(
            after(issue(s).0, event),
            rest,
        ),
{
    let events = seq![event] + rest;
    assert(events.first() == event);
    assert(events.drop_first() =~= rest);
}

/// A stage is worked off step by step. Then the closing event leads to the next stage.
proof fn lemma_stage(s: SessionModel, closing: EventModel, rest: Seq<EventModel>)
    requires
        s.agenda.len() > 0,
        goes_on_to_last(s.agenda),
        goes_on(s.agenda.last()),
        s.stage is Loading || s.stage is Opening || s.stage is Updating,
        expected(SessionModel { agenda: Seq::empty(), ..s }, closing),
    ensures
        steps_of(s, done(s.agenda.len() - 1) + seq![closing] + rest) == s.agenda + steps_of(
            after(SessionModel { agenda: Seq::empty(), ..s }, closing),
            rest,
        ),
        can_come(s, done(s.agenda.len() - 1) + seq![closing] + rest) <==> can_come(
            after(SessionModel { agenda: Seq::empty(), ..s }, closing),
            rest,
        ),
    decreases s.agenda.len(),
{
    let n = s.agenda.len() as int;
    let empty = SessionModel { agenda: Seq::empty(), ..s };
    let t = SessionModel { agenda: s.agenda.drop_first(), ..s };
    let events = done(n - 1) + seq![closing] + rest;
    if n == 1 {
        assert(goes_on(s.agenda.first()));
        assert(t.agenda =~= empty.agenda);
        assert(events =~= seq![closing] + rest);
        lemma_one_event(s, closing, rest);
        assert(s.agenda =~= seq![s.agenda.first()]);
    } else {
        assert(goes_on(s.agenda[0]));
        let fewer = done(n - 2) + seq![closing] + rest;
        assert(events =~= seq![EventModel::Done] + fewer);
        lemma_one_event(s, EventModel::Done, fewer);
        assert forall|i: int| 0 <= i < t.agenda.len() - 1 implies goes_on(#[trigger] t.agenda[i]) by {
            assert(t.agenda[i] == s.agenda[i + 1]);
        }
        assert(after(t, EventModel::Done) == t);
        lemma_stage(t, closing, rest);
        assert(seq![s.agenda.first()] + t.agenda =~= s.agenda);
        let following = steps_of(after(empty, closing), rest);
        assert(seq![s.agenda.first()] + (t.agenda + following) =~= s.agenda + following);
    }
}

/// The last stage is worked off step by step.
proof fn lemma_last_stage(s: SessionModel)
    requires
        s.agenda.len() > 0,
        goes_on_to_last(s.agenda),
        s.stage is Loading || s.stage is Opening || s.stage is Updating || s.stage is Upgrading
            || s.agenda.len() == 1,
    ensures
        steps_of(s, done(s.agenda.len() - 1)) == s.agenda,
        can_come(s, done(s.agenda.len() - 1)),
    decreases s.agenda.len(),
{
    let n = s.agenda.len() as int;
    let t = SessionModel { agenda: s.agenda.drop_first(), ..s };
    if n == 1 {
        assert(done(0) =~= Seq::empty());
        assert(steps_of(s, done(0)) =~= s.agenda);
    } else {
        assert(goes_on(s.agenda[0]));
        assert(done(n - 1) =~= seq![EventModel::Done] + done(n - 2));
        lemma_one_event(s, EventModel::Done, done(n - 2));
        assert forall|i: int| 0 <= i < t.agenda.len() - 1 implies goes_on(#[trigger] t.agenda[i]) by {
            assert(t.agenda[i] == s.agenda[i + 1]);
        }
        assert(after(t, EventModel::Done) == t);
        lemma_last_stage(t);
        assert(seq![s.agenda.first()] + t.agenda =~= s.agenda);
    }
}

/// The lookups are worked off: each gets its version. Then the upgrades are carried out.
proof fn lemma_lookup_stage(s: SessionModel, versions: Seq<Seq<char>>, rest: Seq<EventModel>)
    requires
        s.agenda.len() > 0,
        goes_on_to_last(s.agenda),
        goes_on(s.agenda.last()),
        s.stage is Resolving,
        versions.len() == s.agenda.len(),
    ensures
        ({
            let upgrades = upgrading(
                s.options,
                s.stage->Resolving_0,
                s.stage->Resolving_1,
                s.stage->Resolving_2 + versions,
            );
            &&& steps_of(s, found_versions(versions) + rest) == s.agenda + steps_of(upgrades, rest)
            &&& can_come(s, found_versions(versions) + rest) <==> can_come(upgrades, rest)
        }),
    decreases s.agenda.len(),
{
    let packages = s.stage->Resolving_0;
    let desired = s.stage->Resolving_1;
    let found = s.stage->Resolving_2;
    let n = s.agenda.len() as int;
    let v = versions.first();
    let others = versions.drop_first();
    let fewer = found_versions(others) + rest;
    assert(found_versions(versions) + rest =~= seq![EventModel::Version(v)] + fewer);
    lemma_one_event(s, EventModel::Version(v), fewer);
    assert((found.push(v)) + others =~= found + versions);
    if n == 1 {
        assert(goes_on(s.agenda.first()));
        assert(fewer =~= rest);
        assert(others =~= Seq::empty());
        assert(found.push(v) =~= found + versions);
        assert(s.agenda =~= seq![s.agenda.first()]);
    } else {
        assert(goes_on(s.agenda[0]));
        let t = SessionModel {
            agenda: s.agenda.drop_first(),
            stage: StageModel::Resolving(packages, desired, found.push(v)),
            ..s
        };
        assert forall|i: int| 0 <= i < t.agenda.len() - 1 implies goes_on(#[trigger] t.agenda[i]) by {
            assert(t.agenda[i] == s.agenda[i + 1]);
        }
        assert(after(issue(s).0, EventModel::Version(v)) == t);
        lemma_lookup_stage(t, others, rest);
        let following = steps_of(
            upgrading(s.options, packages, desired, found + versions),
            rest,
        );
        assert(seq![s.agenda.first()] + (t.agenda + following) =~= s.agenda + following);
    }
}

/// The lookups are worked off up to one that fails.
proof fn lemma_failing_lookup_stage(s: SessionModel, versions: Seq<Seq<char>>)
    requires
        s.agenda.len() > 0,
        goes_on_to_last(s.agenda),
        s.stage is Resolving,
        versions.len() == s.agenda.len() - 1,
    ensures
        steps_of(s, found_versions(versions)) == s.agenda,
        can_come(s, found_versions(versions)),
    decreases s.agenda.len(),
{
    let packages = s.stage->Resolving_0;
    let desired = s.stage->Resolving_1;
    let found = s.stage->Resolving_2;
    let n = s.agenda.len() as int;
    if n == 1 {
        assert(found_versions(versions) =~= Seq::empty());
        assert(steps_of(s, found_versions(versions)) =~= s.agenda);
    } else {
        assert(goes_on(s.agenda[0]));
        let v = versions.first();
        let others = versions.drop_first();
        assert(found_versions(versions) =~= seq![EventModel::Version(v)] + found_versions(others));
        lemma_one_event(s, EventModel::Version(v), found_versions(others));
        let t = SessionModel {
            agenda: s.agenda.drop_first(),
            stage: StageModel::Resolving(packages, desired, found.push(v)),
            ..s
        };
        assert forall|i: int| 0 <= i < t.agenda.len() - 1 implies goes_on(#[trigger] t.agenda[i]) by {
            assert(t.agenda[i] == s.agenda[i + 1]);
        }
        assert(after(issue(s).0, EventModel::Version(v)) == t);
        lemma_failing_lookup_stage(t, others);
        assert(seq![s.agenda.first()] + t.agenda =~= s.agenda);
    }
}

/// The steps before the lookups are updates of indices and the search for the manifest. Only the
/// last can be a failure.
pub proof fn lemma_updating_steps(options: OptionsModel, desired: Seq<(DependencyModel, UpgradeModel)>)
    ensures
        options.updating_steps(desired).len() > 0,
        goes_on_to_last(options.updating_steps(desired)),
        !fails(options.updating_steps(desired)) ==> goes_on(options.updating_steps(desired).last()),
        forall|i: int|
            0 <= i < options.updating_steps(desired).len() ==> match #[trigger] options.updating_steps(
                desired,
            )[i] {
                ActionModel::UpdateIndex(_) => options.updates_indices(),
                ActionModel::LocateManifest => true,
                ActionModel::Fail(failure) => failure == FailureModel::InvalidCargoConfig,
                _ => false,
            },
{
    law_index_updates(desired);
}

/// The lookups are questions. Only the last can be a failure.
pub proof fn lemma_lookups(desired: Seq<(DependencyModel, UpgradeModel)>, allow_prerelease: bool)
    ensures
        goes_on_to_last(lookups(desired, allow_prerelease)),
        lookups(desired, allow_prerelease).len() > 0 && !fails(lookups(desired, allow_prerelease))
            ==> goes_on(lookups(desired, allow_prerelease).last()),
        forall|i: int|
            0 <= i < lookups(desired, allow_prerelease).len() ==> match #[trigger] lookups(
                desired,
                allow_prerelease,
            )[i] {
                ActionModel::FindMinimal(_) => true,
                ActionModel::Fail(failure) => failure == FailureModel::InvalidCargoConfig,
                _ => false,
            },
{
    let steps = lookups(desired, allow_prerelease);
    assert forall|i: int| 0 <= i < steps.len() implies match #[trigger] steps[i] {
        ActionModel::FindMinimal(_) => true,
        ActionModel::Fail(failure) => {
            &&& failure == FailureModel::InvalidCargoConfig
            &&& i == steps.len() - 1
        },
        _ => false,
    } by {
        law_lookups(desired, allow_prerelease, i);
    }
    if steps.len() > 0 {
        assert(steps.last() == steps[steps.len() - 1]);
    }
}

/// The steps that carry out the upgrades show, name and change. Only the last ends the run.
pub proof fn lemma_upgrading_steps(
    options: OptionsModel,
    packages: Seq<PackageModel>,
    desired: Seq<(DependencyModel, UpgradeModel)>,
    found: Seq<Seq<char>>,
)
    ensures
        options.upgrading_steps(packages, desired, found).len() > 0,
        goes_on_to_last(options.upgrading_steps(packages, desired, found)),
        forall|i: int|
            0 <= i < options.upgrading_steps(packages, desired, found).len()
                ==> match #[trigger] options.upgrading_steps(packages, desired, found)[i] {
                ActionModel::Show(_) => true,
                ActionModel::Heading(_) => true,
                ActionModel::Upgrade(change) => {
                    &&& change.dry_run == options.dry_run
                    &&& change.skip_compatible == options.skip_compatible
                },
                ActionModel::Finish => i == options.upgrading_steps(packages, desired, found).len()
                    - 1,
                _ => false,
            },
{
    let upgrades = settled(desired, found);
    let steps = upgrade_steps(packages, upgrades, options.dry_run, options.skip_compatible);
    let changes = all_manifest_steps(packages, upgrades, options.dry_run, options.skip_compatible);
    law_changes_follow_the_run(packages, upgrades, options.dry_run, options.skip_compatible);
    assert forall|i: int| 0 <= i < steps.len() implies match #[trigger] steps[i] {
        ActionModel::Show(_) => true,
        ActionModel::Heading(_) => true,
        ActionModel::Upgrade(change) => {
            &&& change.dry_run == options.dry_run
            &&& change.skip_compatible == options.skip_compatible
        },
        _ => false,
    } by {
        let shift = steps.len() - changes.len();
        if i >= shift {
            assert(steps[i] == changes[i - shift]);
        }
    }
}

/// How many versions are looked up for these packages.
pub open spec fn questions(options: OptionsModel, packages: Seq<PackageModel>) -> nat {
    match requested(options.dependency) {
        Err(_) => 0,
        Ok(selection) => {
            let upgrades = desired(packages, selection);
            let asked = lookups(upgrades, options.allow_prerelease);
            if fails(options.updating_steps(upgrades)) {
                0
            } else if fails(asked) {
                (asked.len() - 1) as nat
            } else {
                asked.len()
            }
        },
    }
}

/// The steps from where the manifests are open, when these versions are found: the indices are
/// brought up to date, the versions are looked up and the manifests are changed, up to the first
/// failure.
pub open spec fn work_steps(
    options: OptionsModel,
    packages: Seq<PackageModel>,
    versions: Seq<Seq<char>>,
) -> Seq<ActionModel> {
    match requested(options.dependency) {
        Err(failure) => seq![ActionModel::Fail(failure)],
        Ok(selection) => {
            let upgrades = desired(packages, selection);
            let updates = options.updating_steps(upgrades);
            let asked = lookups(upgrades, options.allow_prerelease);
            if fails(updates) {
                updates
            } else if fails(asked) {
                updates + asked
            } else {
                updates + asked + options.upgrading_steps(packages, upgrades, versions)
            }
        },
    }
}

/// What comes of those steps.
pub open spec fn work_events(
    options: OptionsModel,
    packages: Seq<PackageModel>,
    versions: Seq<Seq<char>>,
) -> Seq<EventModel> {
    match requested(options.dependency) {
        Err(failure) => Seq::empty(),
        Ok(selection) => {
            let upgrades = desired(packages, selection);
            let updates = options.updating_steps(upgrades);
            let asked = lookups(upgrades, options.allow_prerelease);
            if fails(updates) {
                done(updates.len() - 1)
            } else if fails(asked) {
                done(updates.len() as int) + found_versions(versions)
            } else {
                done(updates.len() as int) + found_versions(versions) + done(
                    options.upgrading_steps(packages, upgrades, versions).len() - 1,
                )
            }
        },
    }
}

/// From where the manifests are open, a run takes just the steps that it should.
proof fn lemma_work(options: OptionsModel, packages: Seq<PackageModel>, versions: Seq<Seq<char>>)
    requires
        versions.len() == questions(options, packages),
    ensures
        steps_of(opened(options, packages), work_events(options, packages, versions)) == work_steps(
            options,
            packages,
            versions,
        ),
        can_come(opened(options, packages), work_events(options, packages, versions)),
{
    let s = opened(options, packages);
    let events = work_events(options, packages, versions);
    match requested(options.dependency) {
        Err(failure) => {
            assert(steps_of(s, events) =~= seq![ActionModel::Fail(failure)]);
        },
        Ok(selection) => {
            let upgrades = desired(packages, selection);
            let updates = options.updating_steps(upgrades);
            let asked = lookups(upgrades, options.allow_prerelease);
            lemma_updating_steps(options, upgrades);
            lemma_lookups(upgrades, options.allow_prerelease);
            lemma_upgrading_steps(options, packages, upgrades, versions);
            if fails(updates) {
                lemma_last_stage(s);
            } else {
                let asking = resolving(options, packages, upgrades);
                let changing = upgrading(options, packages, upgrades, versions);
                let rest = if fails(asked) {
                    found_versions(versions)
                } else {
                    found_versions(versions) + done(changing.agenda.len() - 1)
                };
                assert(events =~= done(updates.len() - 1) + seq![EventModel::Done] + rest);
                lemma_stage(s, EventModel::Done, rest);
                assert(steps_of(s, events) == updates + steps_of(asking, rest));
                if fails(asked) {
                    lemma_failing_lookup_stage(asking, versions);
                } else {
                    lemma_last_stage(changing);
                    if asked.len() == 0 {
                        assert(versions =~= Seq::empty());
                        assert(rest =~= done(changing.agenda.len() - 1));
                        assert(updates + asked + changing.agenda =~= updates + changing.agenda);
                    } else {
                        lemma_lookup_stage(asking, versions, done(changing.agenda.len() - 1));
                        assert(Seq::<Seq<char>>::empty() + versions =~= versions);
                        assert(updates + (asked + changing.agenda) =~= updates + asked
                            + changing.agenda);
                    }
                }
            }
        },
    }
}

/// A run over the workspace, or over a package with a given id, warns about a deprecated flag,
/// updates the default index, reads the packages, opens the manifest of each, and then updates,
/// looks up and changes, in this order and up to the first failure. It takes these steps and no
/// others.
pub proof fn law_run_over_packages(
    options: OptionsModel,
    packages: Seq<PackageModel>,
    versions: Seq<Seq<char>>,
)
    requires
        !(options.reading() is ReadLocal),
        versions.len() == questions(options, packages),
    ensures
        ({
            let events = done(options.loading_steps().len() - 1) + seq![
                EventModel::Packages(packages),
            ] + (done(packages.len() as int) + work_events(options, packages, versions));
            &&& can_come(start(options), events)
            &&& steps_of(start(options), events) == options.loading_steps() + opening_steps(
                packages.len(),
            ) + work_steps(options, packages, versions)
        }),
{
    let s = start(options);
    let opening = opening_steps(packages.len());
    let work = work_events(options, packages, versions);
    let closing = EventModel::Packages(packages);
    let rest = done(packages.len() as int) + work;
    lemma_stage(s, closing, rest);
    lemma_work(options, packages, versions);
    if packages.len() == 0 {
        assert(rest =~= work);
        assert(options.loading_steps() + opening =~= options.loading_steps());
    } else {
        let t = loaded(options, packages);
        assert(rest =~= done(t.agenda.len() - 1) + seq![EventModel::Done] + work);
        lemma_stage(t, EventModel::Done, work);
        assert(options.loading_steps() + (opening + work_steps(options, packages, versions))
            =~= options.loading_steps() + opening + work_steps(options, packages, versions));
    }
}

/// A run over the local manifest warns about a deprecated flag, updates the default index, reads
/// the manifest and the packages of its workspace, and then updates, looks up and changes for the
/// package of the manifest. Where there is none, the run fails. It takes these steps and no others.
pub proof fn law_run_over_local_manifest(
    options: OptionsModel,
    path: Seq<char>,
    packages: Seq<PackageModel>,
    versions: Seq<Seq<char>>,
)
    requires
        options.reading() is ReadLocal,
        package_at(path, packages) matches Some(package) ==> versions.len() == questions(
            options,
            seq![package],
        ),
    ensures
        ({
            let loading = done(options.loading_steps().len() - 1) + seq![
                EventModel::Local(path, packages),
            ];
            match package_at(path, packages) {
                Some(package) => {
                    let events = loading + work_events(options, seq![package], versions);
                    &&& can_come(start(options), events)
                    &&& steps_of(start(options), events) == options.loading_steps() + work_steps(
                        options,
                        seq![package],
                        versions,
                    )
                },
                None => {
                    &&& can_come(start(options), loading)
                    &&& steps_of(start(options), loading) == options.loading_steps().push(
                        ActionModel::Fail(FailureModel::VirtualManifest),
                    )
                },
            }
        }),
{
    let s = start(options);
    let closing = EventModel::Local(path, packages);
    match package_at(path, packages) {
        Some(package) => {
            lemma_stage(s, closing, work_events(options, seq![package], versions));
            lemma_work(options, seq![package], versions);
        },
        None => {
            let none = Seq::<EventModel>::empty();
            lemma_stage(s, closing, none);
            assert(done(options.loading_steps().len() - 1) + seq![closing] + none =~= done(
                options.loading_steps().len() - 1,
            ) + seq![closing]);
            let failure = giving_up(options, FailureModel::VirtualManifest);
            assert(steps_of(failure, none) =~= failure.agenda);
            assert(options.loading_steps() + failure.agenda =~= options.loading_steps().push(
                ActionModel::Fail(FailureModel::VirtualManifest),
            ));
        },
    }
}

/// Whether a step respects what the user asked for: indices are left alone where the network is, a
/// change is made as the run is, and only a run over the local manifest asks that it belong to a
/// package.
pub open spec fn respects(step: ActionModel, options: OptionsModel) -> bool {
    match step {
        ActionModel::UpdateDefaultIndex => options.updates_indices(),
        ActionModel::UpdateIndex(_) => options.updates_indices(),
        ActionModel::Upgrade(change) => {
            &&& change.dry_run == options.dry_run
            &&& change.skip_compatible == options.skip_compatible
        },
        ActionModel::Fail(FailureModel::VirtualManifest) => options.reading() is ReadLocal,
        _ => true,
    }
}

/// Whether each step that is still to be taken respects what the user asked for.
pub open spec fn respectful(s: SessionModel) -> bool {
    forall|i: int| 0 <= i < s.agenda.len() ==> respects(#[trigger] s.agenda[i], s.options)
}

/// A run that has opened its manifests respects what the user asked for.
proof fn lemma_opened_respects(options: OptionsModel, packages: Seq<PackageModel>)
    ensures
        opened(options, packages).options == options,
        respectful(opened(options, packages)),
{
    law_first_bad_specifier_is_named(options.dependency);
    if let StageModel::Updating(_, desired) = opened(options, packages).stage {
        lemma_updating_steps(options, desired);
    }
}

/// An event leaves a run respectful.
proof fn lemma_after_respects(s: SessionModel, event: EventModel)
    requires
        respectful(s),
        expected(s, event),
    ensures
        after(s, event).options == s.options,
        respectful(after(s, event)),
{
    match event {
        EventModel::Packages(packages) => {
            lemma_opened_respects(s.options, packages);
        },
        EventModel::Local(path, packages) => {
            if let Some(package) = package_at(path, packages) {
                lemma_opened_respects(s.options, seq![package]);
            }
        },
        EventModel::Version(version) => {
            if let StageModel::Resolving(packages, desired, found) = s.stage {
                lemma_upgrading_steps(s.options, packages, desired, found.push(version));
            }
        },
        EventModel::Done => {
            match s.stage {
                StageModel::Opening(packages) => {
                    lemma_opened_respects(s.options, packages);
                },
                StageModel::Updating(packages, desired) => {
                    lemma_lookups(desired, s.options.allow_prerelease);
                    lemma_upgrading_steps(s.options, packages, desired, Seq::empty());
                },
                _ => {},
            }
        },
    }
}

/// The steps of a respectful run are respectful.
proof fn lemma_run_respects(s: SessionModel, events: Seq<EventModel>, i: int)
    requires
        coherent(s),
        respectful(s),
        all_expected(s, events),
        0 <= i < run(s, events).len(),
    ensures
        respects(run(s, events)[i], s.options),
    decreases events.len(),
{
    if events.len() > 0 {
        let event = events.first();
        let t = after(s, event);
        lemma_next_coherent(s, event);
        lemma_after_respects(s, event);
        assert(respects(t.agenda[0], s.options));
        let u = next(s, event).0;
        assert forall|j: int| 0 <= j < u.agenda.len() implies respects(
            #[trigger] u.agenda[j],
            u.options,
        ) by {
            assert(u.agenda[j] == t.agenda[j + 1]);
        }
        if i > 0 {
            lemma_run_respects(u, events.drop_first(), i - 1);
        }
    }
}

/// Whatever comes of its steps, a run leaves all indices alone where the network is to be left
/// alone, and it makes its changes as the user asked: in a dry run each is only shown. A run over
/// the workspace, or over a package with a given id, is not given up because the manifest belongs
/// to no package.
pub proof fn law_runs_respect_options(options: OptionsModel, events: Seq<EventModel>, i: int)
    requires
        can_come(start(options), events),
        0 <= i < steps_of(start(options), events).len(),
    ensures
        respects(steps_of(start(options), events)[i], options),
{
    let s = start(options);
    lemma_start_coherent(options);
    assert(respectful(s));
    assert(respects(s.agenda[0], options));
    let t = issue(s).0;
    assert forall|j: int| 0 <= j < t.agenda.len() implies respects(
        #[trigger] t.agenda[j],
        t.options,
    ) by {
        assert(t.agenda[j] == s.agenda[j + 1]);
    }
    if i > 0 {
        lemma_run_respects(t, events, i - 1);
    }
}

/// How far a stage is from the end.
pub open spec fn distance(stage: StageModel) -> int {
    match stage {
        StageModel::Loading => 5,
        StageModel::Opening(_) => 4,
        StageModel::Updating(..) => 3,
        StageModel::Resolving(..) => 2,
        StageModel::Upgrading => 1,
        StageModel::Stopped => 0,
    }
}

/// Each event brings a run nearer to its end: to a later stage, or to a shorter agenda.
pub proof fn law_each_event_makes_progress(s: SessionModel, event: EventModel)
    requires
        coherent(s),
        expected(s, event),
    ensures
        ({
            let t = next(s, event).0;
            ||| distance(t.stage) < distance(s.stage)
            ||| distance(t.stage) == distance(s.stage) && t.agenda.len() < s.agenda.len()
        }),
{
    lemma_next_coherent(s, event);
}

/// After its last step a run expects nothing more.
pub proof fn law_nothing_follows_the_end(s: SessionModel, event: EventModel)
    requires
        issue(s).1 is Finish || issue(s).1 is Fail,
    ensures
        !expected(issue(s).0, event),
{
}

/// The options with `--workspace` in place of the deprecated `--all`.
pub open spec fn renamed_flag(options: OptionsModel) -> OptionsModel {
    OptionsModel { all: false, workspace: true, ..options }
}

/// Whether two runs stand alike, but for the flag that they were given.
pub open spec fn alike(s: SessionModel, t: SessionModel) -> bool {
    &&& s.stage == t.stage
    &&& s.agenda == t.agenda
    &&& t.options == renamed_flag(s.options)
    &&& s.options.all
}

/// Runs that stand alike go on alike.
proof fn lemma_alike(s: SessionModel, t: SessionModel, events: Seq<EventModel>)
    requires
        alike(s, t),
    ensures
        run(s, events) == run(t, events),
        all_expected(s, events) <==> all_expected(t, events),
    decreases events.len(),
{
    if events.len() > 0 {
        let event = events.first();
        assert(alike(after(s, event), after(t, event)));
        lemma_alike(next(s, event).0, next(t, event).0, events.drop_first());
    }
}

/// `--all` does what `--workspace` does, once its warning has been shown.
pub proof fn law_all_means_workspace(options: OptionsModel, events: Seq<EventModel>)
    requires
        options.all,
    ensures
        steps_of(start(options), seq![EventModel::Done] + events) == options.warning() + steps_of(
            start(renamed_flag(options)),
            events,
        ),
        can_come(start(options), seq![EventModel::Done] + events) <==> can_come(
            start(renamed_flag(options)),
            events,
        ),
{
    let s = start(options);
    let t = start(renamed_flag(options));
    lemma_one_event(s, EventModel::Done, events);
    let u = issue(s).0;
    assert(u.agenda =~= t.agenda);
    assert(after(u, EventModel::Done) == u);
    assert(alike(u, t));
    lemma_alike(issue(u).0, issue(t).0, events);
    assert(options.warning() =~= seq![issue(s).1]);
}

} // verus!
