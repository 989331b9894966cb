//! What a run does, said of its steps and of the events that came of them.
use crate::action::{fails, ActionModel};
use crate::failures::FailureModel;
use crate::manifests::{desired, package_at, upgrade_steps};
use crate::message::deprecation;
use crate::package::{DeclaredModel, PackageModel};
use crate::runs::{
    all_expected, can_come, goes_on, lemma_lookups, lemma_updating_steps, lemma_upgrading_steps,
    run, steps_of,
};
use crate::outside::url_text;
use crate::results::{
    is_concerned, is_last_declaration, is_question_for, known_as,
    law_all_missing_versions_are_looked_up, law_each_upgrade_reaches_each_manifest,
    law_every_concerned_dependency_is_upgraded, law_indices_of_all_registries,
    law_local_package_has_the_path, law_upgrades_carry_the_declared_requirement,
    law_versions_are_settled_in_turn,
};
use crate::selection::{crate_spec, requested};
use crate::session::{
    after, coherent, expected, issue, lemma_next_coherent, lemma_start_coherent, next, start,
    EventModel, OptionsModel, SessionModel, StageModel,
};
use crate::upgrades::{index_updates, lookups, settled, DependencyModel, UpgradeModel};
use vstd::prelude::*;

verus! {

/// Whether a run may use the network for indices.
pub open spec fn has_network(options: OptionsModel) -> bool {
    !options.offline && !options.is_test
}

/// The steps of a run up to the reading of the packages: a warning where the deprecated flag was
/// given, an update of the default index where there is a network, and the reading itself. All
/// packages are read with either flag, else the one with the given id, else the local one.
pub open spec fn first_steps(options: OptionsModel) -> Seq<ActionModel> {
    (if options.all {
        seq![
            ActionModel::Show(
                deprecation("The flag `--all` has been deprecated in favor of `--workspace`"@),
            ),
        ]
    } else {
        Seq::empty()
    }) + (if has_network(options) {
        seq![ActionModel::UpdateDefaultIndex]
    } else {
        Seq::empty()
    }) + seq![
        if options.all || options.workspace {
            ActionModel::ReadWorkspace
        } else if options.pkgid is Some {
            ActionModel::ReadPackage(options.pkgid.unwrap())
        } else {
            ActionModel::ReadLocal
        },
    ]
}

/// The event that came of the reading of the packages.
pub open spec fn reading_event(options: OptionsModel, events: Seq<EventModel>) -> EventModel {
    events[first_steps(options).len() - 1]
}

/// The packages that a run works on, given what was read.
pub open spec fn worked_on(event: EventModel) -> Option<Seq<PackageModel>> {
    match event {
        EventModel::Packages(packages) => Some(packages),
        EventModel::Local(path, packages) => match package_at(path, packages) {
            Some(package) => Some(seq![package]),
            None => None,
        },
        _ => None,
    }
}

/// The steps that open the manifests of the packages that were read, where they are not open yet.
pub open spec fn manifests_opened(event: EventModel) -> Seq<ActionModel> {
    match event {
        EventModel::Packages(packages) => Seq::new(
            packages.len(),
            |i: int| ActionModel::OpenManifest(i),
        ),
        _ => Seq::empty(),
    }
}

/// The steps that bring indices up to date, where there is a network.
pub open spec fn indices_updated(
    options: OptionsModel,
    upgrades: Seq<(DependencyModel, UpgradeModel)>,
) -> Seq<ActionModel> {
    if has_network(options) {
        index_updates(upgrades)
    } else {
        Seq::empty()
    }
}

/// The steps of a run until its manifests are open.
pub open spec fn steps_to_manifests(options: OptionsModel, event: EventModel) -> Seq<ActionModel> {
    first_steps(options) + manifests_opened(event)
}

/// The steps of a run until its lookups, where none fails.
pub open spec fn steps_to_lookups(
    options: OptionsModel,
    event: EventModel,
    upgrades: Seq<(DependencyModel, UpgradeModel)>,
) -> Seq<ActionModel> {
    (steps_to_manifests(options, event) + indices_updated(options, upgrades)).push(
        ActionModel::LocateManifest,
    )
}

/// The upgrades that a run finds in what was read.
pub open spec fn run_upgrades(options: OptionsModel, event: EventModel) -> Seq<
    (DependencyModel, UpgradeModel),
> {
    desired(worked_on(event).unwrap(), requested(options.dependency)->Ok_0)
}

/// The versions that came of the lookups, which follow `n` steps.
pub open spec fn versions_found(events: Seq<EventModel>, n: int, count: nat) -> Seq<Seq<char>> {
    Seq::new(count, |q: int| events[n + q]->Version_0)
}

/// How a run stands after these events.
spec fn stand(s: SessionModel, events: Seq<EventModel>) -> SessionModel
    decreases events.len(),
{
    if events.len() == 0 {
        s
    } else {
        next(stand(s, events.drop_last()), events.last()).0
    }
}

/// How a run stands after these events is how it stands after the later ones, from where the first
/// has led.
proof fn lemma_stand(s: SessionModel, events: Seq<EventModel>)
    requires
        events.len() > 0,
    ensures
        stand(s, events) == stand(next(s, events.first()).0, events.drop_first()),
    decreases events.len(),
{
    if events.len() > 1 {
        let front = events.drop_last();
        lemma_stand(s, front);
        assert(front.drop_first() =~= events.drop_first().drop_last());
    } else {
        reveal_with_fuel(stand, 2);
        assert(events.drop_last() =~= Seq::empty());
        assert(events.drop_first() =~= Seq::empty());
        assert(events.first() == events.last());
    }
}

/// One event more at the end.
proof fn lemma_last_event(s: SessionModel, events: Seq<EventModel>, event: EventModel)
    ensures
        run(s, events.push(event)) == run(s, events).push(next(stand(s, events), event).1),
        all_expected(s, events.push(event)) <==> all_expected(s, events) && expected(
            stand(s, events),
            event,
        ),
    decreases events.len(),
{
    let more = events.push(event);
    if events.len() == 0 {
        reveal_with_fuel(run, 2);
        reveal_with_fuel(all_expected, 2);
        assert(more.drop_first() =~= Seq::empty());
        assert(more.first() == event);
        assert(run(s, more) =~= run(s, events).push(next(stand(s, events), event).1));
    } else {
        let rest = events.drop_first();
        assert(more.drop_first() =~= rest.push(event));
        assert(more.first() == events.first());
        lemma_last_event(next(s, events.first()).0, rest, event);
        lemma_stand(s, events);
        assert(run(s, more) =~= run(s, events).push(next(stand(s, events), event).1));
    }
}

/// What a run has come to know.
struct Story {
    packages: Seq<PackageModel>,
    upgrades: Seq<(DependencyModel, UpgradeModel)>,
    found: Seq<Seq<char>>,
}

/// Whether the run works on these packages and upgrades.
spec fn knows(options: OptionsModel, events: Seq<EventModel>, story: Story) -> bool {
    let event = reading_event(options, events);
    &&& events.len() >= first_steps(options).len()
    &&& worked_on(event) == Some(story.packages)
    &&& requested(options.dependency) is Ok
    &&& story.upgrades == run_upgrades(options, event)
}

/// Whether the lookups up to now have led to what was found.
spec fn has_found(options: OptionsModel, events: Seq<EventModel>, story: Story) -> bool {
    let n = steps_to_lookups(
        options,
        reading_event(options, events),
        story.upgrades,
    ).len() as int;
    &&& n + story.found.len() <= events.len()
    &&& forall|q: int|
        0 <= q < story.found.len() ==> #[trigger] events[n + q] == EventModel::Version(
            story.found[q],
        )
}

/// The steps of a run that ends well.
spec fn all_steps(options: OptionsModel, events: Seq<EventModel>, story: Story) -> Seq<
    ActionModel,
> {
    steps_to_lookups(options, reading_event(options, events), story.upgrades) + lookups(
        story.upgrades,
        options.allow_prerelease,
    ) + upgrade_steps(
        story.packages,
        settled(story.upgrades, story.found),
        options.dry_run,
        options.skip_compatible,
    ).push(ActionModel::Finish)
}

/// How a run has ended.
spec fn has_ended(
    options: OptionsModel,
    events: Seq<EventModel>,
    plan: Seq<ActionModel>,
    story: Story,
) -> bool {
    let event = reading_event(options, events);
    let updated = indices_updated(options, story.upgrades);
    let asked = lookups(story.upgrades, options.allow_prerelease);
    &&& events.len() >= first_steps(options).len()
    &&& {
        ||| {
            &&& event is Local
            &&& worked_on(event) is None
            &&& plan == first_steps(options).push(ActionModel::Fail(FailureModel::VirtualManifest))
        }
        ||| {
            &&& worked_on(event) is Some
            &&& requested(options.dependency) is Err
            &&& plan == steps_to_manifests(options, event).push(
                ActionModel::Fail(requested(options.dependency)->Err_0),
            )
        }
        ||| {
            &&& knows(options, events, story)
            &&& fails(updated)
            &&& plan == steps_to_manifests(options, event) + updated
        }
        ||| {
            &&& knows(options, events, story)
            &&& !fails(updated)
            &&& fails(asked)
            &&& has_found(options, events, story)
            &&& story.found.len() + 1 == asked.len()
            &&& plan == steps_to_lookups(options, event, story.upgrades) + asked
        }
        ||| {
            &&& knows(options, events, story)
            &&& !fails(updated)
            &&& !fails(asked)
            &&& has_found(options, events, story)
            &&& story.found.len() == asked.len()
            &&& plan == all_steps(options, events, story)
        }
    }
}

/// How the steps taken and the steps ahead fit the stage of a run.
spec fn fits(
    options: OptionsModel,
    events: Seq<EventModel>,
    plan: Seq<ActionModel>,
    stage: StageModel,
    story: Story,
) -> bool {
    let event = reading_event(options, events);
    let updated = indices_updated(options, story.upgrades);
    let asked = lookups(story.upgrades, options.allow_prerelease);
    match stage {
        StageModel::Loading => {
            &&& events.len() < first_steps(options).len()
            &&& plan == first_steps(options)
        },
        StageModel::Opening(packages) => {
            &&& events.len() >= first_steps(options).len()
            &&& event == EventModel::Packages(packages)
            &&& plan == steps_to_manifests(options, event)
        },
        StageModel::Updating(packages, upgrades) => {
            &&& knows(options, events, story)
            &&& packages == story.packages
            &&& upgrades == story.upgrades
            &&& plan == if fails(updated) {
                steps_to_manifests(options, event) + updated
            } else {
                steps_to_lookups(options, event, upgrades)
            }
        },
        StageModel::Resolving(packages, upgrades, found) => {
            &&& knows(options, events, story)
            &&& packages == story.packages
            &&& upgrades == story.upgrades
            &&& found == story.found
            &&& !fails(updated)
            &&& has_found(options, events, story)
            &&& events.len() == steps_to_lookups(options, event, upgrades).len() + found.len()
            &&& plan == steps_to_lookups(options, event, upgrades) + asked
        },
        StageModel::Upgrading => {
            &&& knows(options, events, story)
            &&& !fails(updated)
            &&& !fails(asked)
            &&& has_found(options, events, story)
            &&& story.found.len() == asked.len()
            &&& plan == all_steps(options, events, story)
        },
        StageModel::Stopped => has_ended(options, events, plan, story),
    }
}

/// What a run has done and will do, told from its events.
spec fn is_told(
    options: OptionsModel,
    events: Seq<EventModel>,
    s: SessionModel,
    story: Story,
) -> bool {
    let steps = steps_of(start(options), events);
    &&& s.options == options
    &&& coherent(s)
    &&& steps.len() == events.len() + 1
    &&& fits(options, events, steps + s.agenda, s.stage, story)
    &&& s.stage is Stopped ==> s.agenda.len() == 0
}

/// A run does not end before its manifests are open.
proof fn lemma_first_steps(options: OptionsModel, event: EventModel)
    ensures
        options.loading_steps() == first_steps(options),
        first_steps(options).len() > 0,
        forall|i: int|
            0 <= i < steps_to_manifests(options, event).len() ==> goes_on(
                #[trigger] steps_to_manifests(options, event)[i],
            ),
{
    assert(options.loading_steps() =~= first_steps(options));
}

/// Where the steps fit a stage, one that ends the run is the last, and it ends the run as it should.
proof fn lemma_end(
    options: OptionsModel,
    events: Seq<EventModel>,
    plan: Seq<ActionModel>,
    stage: StageModel,
    story: Story,
)
    requires
        fits(options, events, plan, stage, story),
        !(stage is Stopped),
        events.len() < plan.len(),
        !goes_on(plan[events.len() as int]),
    ensures
        events.len() == plan.len() - 1,
        has_ended(options, events, plan, story),
{
    let n = events.len() as int;
    let event = reading_event(options, events);
    lemma_first_steps(options, event);
    lemma_updating_steps(options, story.upgrades);
    lemma_lookups(story.upgrades, options.allow_prerelease);
    lemma_upgrading_steps(options, story.packages, story.upgrades, story.found);
    let base = steps_to_manifests(options, event);
    let updated = indices_updated(options, story.upgrades);
    let asked = lookups(story.upgrades, options.allow_prerelease);
    match stage {
        StageModel::Loading => {
            assert(plan[n] == base[n]);
        },
        StageModel::Opening(_) => {},
        _ => {
            if n < base.len() {
                assert(plan[n] == base[n]);
            } else {
                let ahead = options.updating_steps(story.upgrades);
                if n < base.len() + ahead.len() {
                    assert(plan[n] == ahead[n - base.len()]);
                    assert(fails(updated));
                } else if n < base.len() + ahead.len() + asked.len() {
                    assert(plan[n] == asked[n - base.len() - ahead.len()]);
                    assert(asked.last() == asked[asked.len() - 1]);
                    assert(fails(asked));
                } else {
                    let last = options.upgrading_steps(
                        story.packages,
                        story.upgrades,
                        story.found,
                    );
                    assert(plan[n] == last[n - base.len() - ahead.len() - asked.len()]);
                }
            }
        },
    }
}

/// A next step, when the steps before it fit.
proof fn lemma_issue_told(
    options: OptionsModel,
    events: Seq<EventModel>,
    s: SessionModel,
    story: Story,
    steps: Seq<ActionModel>,
)
    requires
        s.options == options,
        s.agenda.len() > 0,
        steps.len() == events.len(),
        fits(options, events, steps + s.agenda, s.stage, story),
        s.stage is Stopped ==> s.agenda.len() == 1,
    ensures
        ({
            let (t, action) = issue(s);
            &&& fits(options, events, steps.push(action) + t.agenda, t.stage, story)
            &&& t.stage is Stopped ==> t.agenda.len() == 0
        }),
{
    let (t, action) = issue(s);
    let plan = steps + s.agenda;
    assert(steps.push(action) + t.agenda =~= plan);
    assert(plan[events.len() as int] == action);
    if !goes_on(action) && !(s.stage is Stopped) {
        lemma_end(options, events, plan, s.stage, story);
    }
}

/// A run whose manifests are open fits.
proof fn lemma_opened_told(
    options: OptionsModel,
    events: Seq<EventModel>,
    packages: Seq<PackageModel>,
) -> (story: Story)
    requires
        events.len() >= first_steps(options).len(),
        worked_on(reading_event(options, events)) == Some(packages),
    ensures
        ({
            let s = crate::session::opened(options, packages);
            let plan = steps_to_manifests(options, reading_event(options, events)) + s.agenda;
            &&& fits(options, events, plan, s.stage, story)
            &&& s.stage is Stopped ==> s.agenda.len() == 1
        }),
{
    let s = crate::session::opened(options, packages);
    let event = reading_event(options, events);
    let plan = steps_to_manifests(options, event) + s.agenda;
    let upgrades = run_upgrades(options, event);
    let story = Story { packages, upgrades, found: Seq::empty() };
    match requested(options.dependency) {
        Err(failure) => {
            assert(plan =~= steps_to_manifests(options, event).push(ActionModel::Fail(failure)));
        },
        Ok(selection) => {
            let updated = indices_updated(options, upgrades);
            if !fails(updated) {
                assert(plan =~= steps_to_lookups(options, event, upgrades));
            }
        },
    }
    story
}

/// An event leaves what is told of a run true.
proof fn lemma_event_told(
    options: OptionsModel,
    events: Seq<EventModel>,
    s: SessionModel,
    story: Story,
    event: EventModel,
) -> (later: Story)
    requires
        is_told(options, events, s, story),
        expected(s, event),
    ensures
        ({
            let t = after(s, event);
            let steps = steps_of(start(options), events);
            &&& t.options == options
            &&& t.agenda.len() > 0
            &&& fits(options, events.push(event), steps + t.agenda, t.stage, later)
            &&& t.stage is Stopped ==> t.agenda.len() == 1
        }),
{
    let t = after(s, event);
    let steps = steps_of(start(options), events);
    let plan = steps + s.agenda;
    let more = events.push(event);
    let first = first_steps(options);
    lemma_next_coherent(s, event);
    lemma_first_steps(options, reading_event(options, more));
    if events.len() >= first.len() {
        assert(reading_event(options, more) == reading_event(options, events));
    }
    if s.agenda.len() == 0 {
        assert(plan =~= steps);
    }
    match s.stage {
        StageModel::Loading => {
            if s.agenda.len() > 0 {
                story
            } else {
                assert(events.len() == first.len() - 1);
                assert(reading_event(options, more) == event);
                match event {
                    EventModel::Packages(packages) => {
                        if packages.len() == 0 {
                            let later = lemma_opened_told(options, more, packages);
                            assert(steps + t.agenda =~= steps_to_manifests(options, event)
                                + t.agenda);
                            later
                        } else {
                            assert(t.agenda =~= manifests_opened(event));
                            story
                        }
                    },
                    EventModel::Local(path, packages) => {
                        match package_at(path, packages) {
                            Some(package) => {
                                let later = lemma_opened_told(options, more, seq![package]);
                                assert(steps + t.agenda =~= steps_to_manifests(options, event)
                                    + t.agenda);
                                later
                            },
                            None => {
                                assert(steps + t.agenda =~= first.push(
                                    ActionModel::Fail(FailureModel::VirtualManifest),
                                ));
                                story
                            },
                        }
                    },
                    _ => story,
                }
            }
        },
        StageModel::Opening(packages) => {
            if s.agenda.len() > 0 {
                story
            } else {
                lemma_opened_told(options, more, packages)
            }
        },
        StageModel::Updating(packages, upgrades) => {
            if s.agenda.len() > 0 {
                story
            } else {
                let updated = indices_updated(options, upgrades);
                let asked = lookups(upgrades, options.allow_prerelease);
                assert(!fails(updated));
                let later = Story { packages, upgrades, found: Seq::empty() };
                if asked.len() == 0 {
                    assert(steps + t.agenda =~= all_steps(options, more, later));
                }
                later
            }
        },
        StageModel::Resolving(packages, upgrades, found) => {
            let asked = lookups(upgrades, options.allow_prerelease);
            let version = event->Version_0;
            let later = Story { packages, upgrades, found: found.push(version) };
            let n = steps_to_lookups(options, reading_event(options, events), upgrades).len();
            assert forall|q: int| 0 <= q < later.found.len() implies #[trigger] more[n + q]
                == EventModel::Version(later.found[q]) by {
                if q < found.len() {
                    assert(more[n + q] == events[n + q]);
                }
            }
            if s.agenda.len() == 0 {
                assert(!fails(asked));
                assert(steps + t.agenda =~= all_steps(options, more, later));
            }
            later
        },
        StageModel::Upgrading => {
            let n = steps_to_lookups(options, reading_event(options, events), story.upgrades).len();
            assert forall|q: int| 0 <= q < story.found.len() implies #[trigger] more[n + q]
                == EventModel::Version(story.found[q]) by {
                assert(more[n + q] == events[n + q]);
            }
            story
        },
        StageModel::Stopped => story,
    }
}

/// What is told of a run is true after any events that can come.
proof fn lemma_told(options: OptionsModel, events: Seq<EventModel>) -> (story: Story)
    requires
        can_come(start(options), events),
    ensures
        is_told(options, events, stand(issue(start(options)).0, events), story),
    decreases events.len(),
{
    let s = issue(start(options)).0;
    if events.len() == 0 {
        let story = Story { packages: Seq::empty(), upgrades: Seq::empty(), found: Seq::empty() };
        lemma_start_coherent(options);
        lemma_first_steps(options, EventModel::Done);
        assert(goes_on(steps_to_manifests(options, EventModel::Done)[0]));
        assert(steps_of(start(options), events) + s.agenda =~= first_steps(options));
        story
    } else {
        let front = events.drop_last();
        let event = events.last();
        assert(front.push(event) =~= events);
        lemma_last_event(s, front, event);
        let story = lemma_told(options, front);
        let t = stand(s, front);
        let later = lemma_event_told(options, front, t, story, event);
        lemma_next_coherent(t, event);
        lemma_issue_told(
            options,
            events,
            after(t, event),
            later,
            steps_of(start(options), front),
        );
        assert(steps_of(start(options), events) =~= steps_of(start(options), front).push(
            next(t, event).1,
        ));
        later
    }
}

/// Whether an event is what can come of a step: packages of a reading, a version of a lookup, and of
/// any other step that it was taken. Nothing comes of the end.
pub open spec fn answers(step: ActionModel, event: EventModel) -> bool {
    match step {
        ActionModel::ReadWorkspace => event is Packages,
        ActionModel::ReadPackage(_) => event is Packages,
        ActionModel::ReadLocal => event is Local,
        ActionModel::FindMinimal(_) => event is Version,
        ActionModel::Finish => false,
        ActionModel::Fail(_) => false,
        _ => event is Done,
    }
}

/// The events that can come before the lookups.
proof fn lemma_early_answers(
    options: OptionsModel,
    events: Seq<EventModel>,
    s: SessionModel,
    story: Story,
    event: EventModel,
)
    requires
        is_told(options, events, s, story),
        s.stage is Loading || s.stage is Opening || s.stage is Updating,
    ensures
        expected(s, event) <==> answers(steps_of(start(options), events).last(), event),
{
    let steps = steps_of(start(options), events);
    let plan = steps + s.agenda;
    let n = events.len() as int;
    let read = reading_event(options, events);
    let first = first_steps(options);
    let base = steps_to_manifests(options, read);
    assert(steps.last() == plan[n]);
    lemma_first_steps(options, read);
    match s.stage {
        StageModel::Loading => {
            assert(s.agenda.len() == first.len() - 1 - n);
            if s.agenda.len() == 0 {
                assert(plan[n] == first.last());
                assert(first.last() == options.reading());
            } else {
                assert(plan[n] == first[n]);
            }
        },
        StageModel::Opening(_) => {
            assert(plan[n] == base[n]);
        },
        _ => {
            let ahead = options.updating_steps(story.upgrades);
            lemma_updating_steps(options, story.upgrades);
            assert(plan =~= base + ahead);
            if n >= base.len() {
                assert(plan[n] == ahead[n - base.len()]);
                assert(n - base.len() == ahead.len() - s.agenda.len() - 1);
            } else {
                assert(plan[n] == base[n]);
            }
        },
    }
}

/// The events that can come from the lookups on.
proof fn lemma_late_answers(
    options: OptionsModel,
    events: Seq<EventModel>,
    s: SessionModel,
    story: Story,
    event: EventModel,
)
    requires
        is_told(options, events, s, story),
        s.stage is Resolving || s.stage is Upgrading,
    ensures
        expected(s, event) <==> answers(steps_of(start(options), events).last(), event),
{
    let steps = steps_of(start(options), events);
    let plan = steps + s.agenda;
    let n = events.len() as int;
    let before = steps_to_lookups(options, reading_event(options, events), story.upgrades);
    let asked = lookups(story.upgrades, options.allow_prerelease);
    assert(steps.last() == plan[n]);
    if s.stage is Resolving {
        lemma_lookups(story.upgrades, options.allow_prerelease);
        assert(plan[n] == asked[n - before.len()]);
    } else {
        let last = options.upgrading_steps(story.packages, story.upgrades, story.found);
        lemma_upgrading_steps(options, story.packages, story.upgrades, story.found);
        assert(plan =~= before + asked + last);
        assert(plan[n] == last[n - before.len() - asked.len()]);
    }
}

/// Nothing comes of the end.
proof fn lemma_no_answers(
    options: OptionsModel,
    events: Seq<EventModel>,
    s: SessionModel,
    story: Story,
)
    requires
        is_told(options, events, s, story),
        s.stage is Stopped,
    ensures
        !goes_on(steps_of(start(options), events).last()),
{
    let steps = steps_of(start(options), events);
    let plan = steps + s.agenda;
    assert(plan =~= steps);
}

/// A run goes on with just those events that answer its last step.
pub proof fn law_events_answer_steps(
    options: OptionsModel,
    events: Seq<EventModel>,
    event: EventModel,
)
    requires
        can_come(start(options), events),
    ensures
        steps_of(start(options), events).len() == events.len() + 1,
        can_come(start(options), events.push(event)) <==> answers(
            steps_of(start(options), events).last(),
            event,
        ),
{
    let begun = issue(start(options)).0;
    let s = stand(begun, events);
    let story = lemma_told(options, events);
    lemma_last_event(begun, events, event);
    match s.stage {
        StageModel::Stopped => lemma_no_answers(options, events, s, story),
        StageModel::Resolving(..) => lemma_late_answers(options, events, s, story, event),
        StageModel::Upgrading => lemma_late_answers(options, events, s, story, event),
        _ => lemma_early_answers(options, events, s, story, event),
    }
}

/// A run begins with the steps that lead to the reading of the packages.
pub proof fn law_run_begins(options: OptionsModel, events: Seq<EventModel>, i: int)
    requires
        can_come(start(options), events),
        0 <= i <= events.len(),
        i < first_steps(options).len(),
    ensures
        steps_of(start(options), events)[i] == first_steps(options)[i],
{
    let story = lemma_told(options, events);
    let s = stand(issue(start(options)).0, events);
    let steps = steps_of(start(options), events);
    let plan = steps + s.agenda;
    assert(plan[i] == steps[i]);
    assert(plan[i] == first_steps(options)[i]);
}

/// A run that ends well has read packages, all specifiers were in order, and each registry that was
/// needed had a URL that can be read. It has taken just these steps, in this order: those up to the
/// reading; the opening of each manifest; the update of each index, where there is a network; the
/// search for the manifest; the lookups; and the upgrades, with the versions that came of the lookups.
pub proof fn law_finished_run(options: OptionsModel, events: Seq<EventModel>)
    requires
        can_come(start(options), events),
        steps_of(start(options), events).last() is Finish,
    ensures
        ({
            let event = reading_event(options, events);
            let packages = worked_on(event).unwrap();
            let upgrades = desired(packages, requested(options.dependency)->Ok_0);
            let before = first_steps(options) + manifests_opened(event) + (if !options.offline
                && !options.is_test {
                index_updates(upgrades)
            } else {
                Seq::empty()
            }) + seq![ActionModel::LocateManifest];
            let asked = lookups(upgrades, options.allow_prerelease);
            let found = versions_found(events, before.len() as int, asked.len());
            &&& first_steps(options).len() <= events.len()
            &&& worked_on(event) is Some
            &&& requested(options.dependency) is Ok
            &&& before.len() + asked.len() <= events.len()
            &&& forall|q: int|
                #![trigger asked[q]]
                0 <= q < asked.len() ==> events[before.len() + q] is Version
            &&& steps_of(start(options), events) == before + asked + upgrade_steps(
                packages,
                settled(upgrades, found),
                options.dry_run,
                options.skip_compatible,
            ) + seq![ActionModel::Finish]
            &&& asked.len() > 0 ==> !(asked.last() is Fail)
        }),
{
    let story = lemma_told(options, events);
    let s = stand(issue(start(options)).0, events);
    let steps = steps_of(start(options), events);
    let plan = steps + s.agenda;
    let event = reading_event(options, events);
    let asked = lookups(story.upgrades, options.allow_prerelease);
    lemma_first_steps(options, event);
    lemma_updating_steps(options, story.upgrades);
    lemma_lookups(story.upgrades, options.allow_prerelease);
    lemma_upgrading_steps(options, story.packages, story.upgrades, story.found);
    lemma_finish_stops(options, events, story);
    assert(plan =~= steps);
    assert(asked.len() > 0 ==> asked.last() == asked[asked.len() - 1]);
    let upgrades = desired(worked_on(event).unwrap(), requested(options.dependency)->Ok_0);
    assert(upgrades == story.upgrades);
    let before = first_steps(options) + manifests_opened(event) + (if !options.offline
        && !options.is_test {
        index_updates(upgrades)
    } else {
        Seq::empty()
    }) + seq![ActionModel::LocateManifest];
    assert(before =~= steps_to_lookups(options, event, upgrades));
    let found = versions_found(events, before.len() as int, asked.len());
    assert(found =~= story.found);
    assert(steps =~= before + asked + upgrade_steps(
        story.packages,
        settled(upgrades, found),
        options.dry_run,
        options.skip_compatible,
    ) + seq![ActionModel::Finish]);
}

/// Where the last step ends a run, nothing is ahead of it.
proof fn lemma_finish_stops(options: OptionsModel, events: Seq<EventModel>, story: Story)
    requires
        can_come(start(options), events),
        is_told(options, events, stand(issue(start(options)).0, events), story),
        !goes_on(steps_of(start(options), events).last()),
    ensures
        stand(issue(start(options)).0, events).stage is Stopped,
{
    if events.len() > 0 {
        assert(events.drop_last().push(events.last()) =~= events);
        lemma_last_event(issue(start(options)).0, events.drop_last(), events.last());
    } else {
        assert(steps_of(start(options), events).last() == issue(start(options)).1);
    }
}

/// The specifier that is refused is among those given, and nothing can be read from it.
proof fn lemma_refused_specifier(specs: Seq<Seq<char>>)
    requires
        requested(specs) is Err,
    ensures
        requested(specs)->Err_0 matches FailureModel::CrateSpec(spec) && specs.contains(spec)
            && crate_spec(spec) is None,
    decreases specs.len(),
{
    if specs.len() > 0 {
        let front = specs.drop_last();
        if requested(front) is Err {
            lemma_refused_specifier(front);
            let spec = requested(front)->Err_0->CrateSpec_0;
            let i = choose|i: int| 0 <= i < front.len() && front[i] == spec;
            assert(specs[i] == spec);
        } else {
            assert(specs[specs.len() - 1] == specs.last());
        }
    }
}

/// A run that fails has a reason: a specifier from which nothing can be read, a registry whose URL
/// cannot be read, or a local manifest that belongs to no package. It has changed nothing.
pub proof fn law_failed_run(options: OptionsModel, events: Seq<EventModel>)
    requires
        can_come(start(options), events),
        steps_of(start(options), events).last() is Fail,
    ensures
        ({
            let steps = steps_of(start(options), events);
            let event = reading_event(options, events);
            let packages = worked_on(event).unwrap();
            let upgrades = desired(packages, requested(options.dependency)->Ok_0);
            let opened = first_steps(options) + manifests_opened(event);
            let updated = if !options.offline && !options.is_test {
                index_updates(upgrades)
            } else {
                Seq::empty()
            };
            let asked = lookups(upgrades, options.allow_prerelease);
            &&& first_steps(options).len() <= events.len()
            &&& forall|i: int|
                0 <= i < steps.len() ==> !((#[trigger] steps[i]) is Upgrade) && !(
                steps[i] is Heading)
            &&& match steps.last()->Fail_0 {
                FailureModel::VirtualManifest => {
                    &&& event matches EventModel::Local(path, all) && forall|i: int|
                        0 <= i < all.len() ==> (#[trigger] all[i]).manifest_path != path
                    &&& steps.drop_last() == first_steps(options)
                },
                FailureModel::CrateSpec(spec) => {
                    &&& worked_on(event) is Some
                    &&& options.dependency.contains(spec)
                    &&& crate_spec(spec) is None
                    &&& steps.drop_last() == opened
                },
                FailureModel::InvalidCargoConfig => {
                    &&& worked_on(event) is Some
                    &&& requested(options.dependency) is Ok
                    &&& exists|i: int|
                        0 <= i < upgrades.len() && (#[trigger] upgrades[i]).1.registry is Some
                            && url_text(upgrades[i].1.registry.unwrap()) is None
                    &&& {
                        ||| updated.len() > 0 && updated.last() is Fail && steps == opened + updated
                        ||| {
                            &&& updated.len() > 0 ==> !(updated.last() is Fail)
                            &&& steps == opened + updated + seq![ActionModel::LocateManifest]
                                + asked
                        }
                    }
                },
            }
        }),
{
    let story = lemma_told(options, events);
    let s = stand(issue(start(options)).0, events);
    let steps = steps_of(start(options), events);
    let plan = steps + s.agenda;
    let event = reading_event(options, events);
    let opened = steps_to_manifests(options, event);
    lemma_first_steps(options, event);
    lemma_updating_steps(options, story.upgrades);
    lemma_lookups(story.upgrades, options.allow_prerelease);
    lemma_finish_stops(options, events, story);
    assert(plan =~= steps);
    assert forall|i: int| 0 <= i < opened.len() implies !((#[trigger] opened[i]) is Upgrade) && !(
    opened[i] is Heading) by {}
    if event is Local && worked_on(event) is None {
        law_local_package_has_the_path(event->Local_0, event->Local_1);
        assert(steps.drop_last() =~= first_steps(options));
        assert forall|i: int| 0 <= i < steps.len() implies !((#[trigger] steps[i]) is Upgrade) && !(
        steps[i] is Heading) by {
            if i < first_steps(options).len() {
                assert(steps[i] == opened[i]);
            }
        }
    } else if requested(options.dependency) is Err {
        lemma_refused_specifier(options.dependency);
        assert(steps.drop_last() =~= opened);
        assert forall|i: int| 0 <= i < steps.len() implies !((#[trigger] steps[i]) is Upgrade) && !(
        steps[i] is Heading) by {
            if i < opened.len() {
                assert(steps[i] == opened[i]);
            }
        }
    } else {
        let upgrades = story.upgrades;
        let updated = indices_updated(options, upgrades);
        let ahead = options.updating_steps(upgrades);
        let asked = lookups(upgrades, options.allow_prerelease);
        law_indices_of_all_registries(upgrades);
        law_all_missing_versions_are_looked_up(upgrades, options.allow_prerelease);
        if fails(updated) {
            assert(steps =~= opened + ahead);
            assert(steps.last() == updated.last());
            assert(updated.last() == updated[updated.len() - 1]);
        } else {
            assert(all_steps(options, events, story).last() is Finish);
            assert(steps =~= opened + ahead + asked);
            assert(steps =~= opened + updated + seq![ActionModel::LocateManifest] + asked);
            assert(steps.last() == asked.last());
            let i = choose|i: int|
                0 <= i < upgrades.len() && (#[trigger] upgrades[i]).1.version is None
                    && upgrades[i].1.registry is Some && url_text(
                    upgrades[i].1.registry.unwrap(),
                ) is None;
            assert(upgrades[i].1.registry is Some);
        }
        assert forall|i: int| 0 <= i < steps.len() implies !((#[trigger] steps[i]) is Upgrade) && !(
        steps[i] is Heading) by {
            if i < opened.len() {
                assert(steps[i] == opened[i]);
            } else if i < opened.len() + ahead.len() {
                assert(steps[i] == ahead[i - opened.len()]);
            } else {
                assert(steps[i] == asked[i - opened.len() - ahead.len()]);
            }
        }
    }
}

/// Whether a step gives a dependency this version in a manifest, as the user asked for it to be done.
/// The manifest gets the version without build metadata.
pub open spec fn gives(
    step: ActionModel,
    options: OptionsModel,
    manifest: int,
    dependency: DependencyModel,
    version: Seq<char>,
) -> bool {
    &&& step matches ActionModel::Upgrade(change)
    &&& change.manifest == manifest
    &&& change.name == dependency.name
    &&& change.rename == dependency.rename
    &&& change.dry_run == options.dry_run
    &&& change.skip_compatible == options.skip_compatible
    &&& !change.version.contains('+')
    &&& change.version == version || change.version.push('+').is_prefix_of(version)
}

/// Whether a version came of a lookup for what a declaration says: its crate, its requirement and its
/// registry. Prereleases count where the user allows them or the requirement speaks of one.
pub open spec fn came_of_lookup(
    step: ActionModel,
    event: EventModel,
    options: OptionsModel,
    declaration: DeclaredModel,
    version: Seq<char>,
) -> bool {
    &&& event == EventModel::Version(version)
    &&& step matches ActionModel::FindMinimal(query)
    &&& query.name == declaration.name
    &&& query.versionreq == declaration.req
    &&& query.allow_prerelease == (options.allow_prerelease || declaration.req.contains('-'))
    &&& match declaration.registry {
        Some(registry) => url_text(registry) is Some && query.registry == url_text(registry),
        None => query.registry is None,
    }
}

/// Whether a run had cause to give a dependency this version: it is what the user asked for, or,
/// where the user asked for none, what came of a lookup for the last of its declarations.
pub open spec fn has_cause(
    options: OptionsModel,
    events: Seq<EventModel>,
    packages: Seq<PackageModel>,
    selection: Map<Seq<char>, Option<Seq<char>>>,
    dependency: DependencyModel,
    version: Seq<char>,
) -> bool {
    if selection.dom().contains(dependency.name) && selection[dependency.name] is Some {
        selection[dependency.name] == Some(version)
    } else {
        exists|j: int, p: int, d: int|
            0 <= j < events.len() && #[trigger] is_last_declaration(packages, selection, p, d)
                && known_as(packages[p].dependencies[d], selection) == dependency
                && came_of_lookup(
                steps_of(start(options), events)[j],
                #[trigger] events[j],
                options,
                packages[p].dependencies[d],
                version,
            )
    }
}

/// Where a kept element stands among those that are kept.
proof fn lemma_kept_at<A>(s: Seq<A>, keep: spec_fn(A) -> bool, i: int)
    requires
        0 <= i < s.len(),
        keep(s[i]),
    ensures
        s.take(i).filter(keep).len() < s.filter(keep).len(),
        s.filter(keep)[s.take(i).filter(keep).len() as int] == s[i],
    decreases s.len(),
{
    reveal(Seq::filter);
    let front = s.drop_last();
    if i < front.len() {
        lemma_kept_at(front, keep, i);
        assert(front.take(i) =~= s.take(i));
    } else {
        assert(s.take(i) =~= front);
    }
}

/// A run that ends well has worked on all that it should: each dependency of each package that comes
/// from a registry, and that the user named where any were named, has got a version in each manifest,
/// and the run had cause to give it that version.
pub proof fn law_finished_run_upgrades_everything(
    options: OptionsModel,
    events: Seq<EventModel>,
    p: int,
    d: int,
    manifest: int,
)
    requires
        can_come(start(options), events),
        steps_of(start(options), events).last() is Finish,
        ({
            let packages = worked_on(reading_event(options, events)).unwrap();
            &&& 0 <= manifest < packages.len()
            &&& 0 <= p < packages.len()
            &&& 0 <= d < packages[p].dependencies.len()
            &&& is_concerned(
                packages[p].dependencies[d],
                requested(options.dependency)->Ok_0,
            )
        }),
    ensures
        ({
            let steps = steps_of(start(options), events);
            let packages = worked_on(reading_event(options, events)).unwrap();
            let selection = requested(options.dependency)->Ok_0;
            let dependency = known_as(packages[p].dependencies[d], selection);
            exists|i: int, version: Seq<char>|
                0 <= i < steps.len() && #[trigger] gives(
                    steps[i],
                    options,
                    manifest,
                    dependency,
                    version,
                ) && has_cause(options, events, packages, selection, dependency, version)
        }),
{
    let steps = steps_of(start(options), events);
    let event = reading_event(options, events);
    let packages = worked_on(event).unwrap();
    let selection = requested(options.dependency)->Ok_0;
    let declaration = packages[p].dependencies[d];
    let dependency = known_as(declaration, selection);
    law_finished_run(options, events);
    let upgrades = desired(packages, selection);
    let before = first_steps(options) + manifests_opened(event) + (if !options.offline
        && !options.is_test {
        index_updates(upgrades)
    } else {
        Seq::empty()
    }) + seq![ActionModel::LocateManifest];
    let asked = lookups(upgrades, options.allow_prerelease);
    let found = versions_found(events, before.len() as int, asked.len());
    let changes = upgrade_steps(
        packages,
        settled(upgrades, found),
        options.dry_run,
        options.skip_compatible,
    );
    law_every_concerned_dependency_is_upgraded(packages, selection);
    let k = choose|k: int| 0 <= k < upgrades.len() && (#[trigger] upgrades[k]).0 == dependency;
    law_upgrades_carry_the_declared_requirement(packages, selection, k);
    let (a, b) = choose|a: int, b: int| #[trigger]
        is_last_declaration(packages, selection, a, b) && ({
            let dependency = packages[a].dependencies[b];
            let (key, metadata) = upgrades[k];
            &&& key.name == dependency.name
            &&& key.rename == (if selection.dom() == Set::<Seq<char>>::empty() {
                dependency.rename
            } else {
                None
            })
            &&& metadata.versionreq == dependency.req
            &&& metadata.registry == dependency.registry
            &&& metadata.is_prerelease == dependency.req.contains('-')
            &&& metadata.version == (if selection.dom() == Set::<Seq<char>>::empty() {
                None
            } else {
                selection[dependency.name]
            })
        });
    law_versions_are_settled_in_turn(upgrades, found);
    let version = settled(upgrades, found)[k].1;
    assert(settled(upgrades, found)[k].0 == dependency);
    law_each_upgrade_reaches_each_manifest(
        packages,
        settled(upgrades, found),
        options.dry_run,
        options.skip_compatible,
        manifest,
        k,
    );
    let at = (if options.dry_run {
        1int
    } else {
        0
    }) + manifest * (upgrades.len() + 1) + 1 + k;
    let i = before.len() + asked.len() + at;
    assert(steps[i] == changes[at]);
    assert(gives(steps[i], options, manifest, dependency, version));
    if upgrades[k].1.version is None {
        let missing = |entry: (DependencyModel, UpgradeModel)| entry.1.version is None;
        lemma_kept_at(upgrades, missing, k);
        law_all_missing_versions_are_looked_up(upgrades, options.allow_prerelease);
        let q = upgrades.take(k).filter(missing).len() as int;
        let j = before.len() + q;
        assert(is_question_for(asked[q], upgrades[k].0, upgrades[k].1, options.allow_prerelease));
        assert(steps[j] == asked[q]);
        assert(events[j] is Version);
        assert(found[q] == events[j]->Version_0);
        assert(known_as(packages[a].dependencies[b], selection) == dependency);
        assert(came_of_lookup(
            steps[j],
            events[j],
            options,
            packages[a].dependencies[b],
            version,
        ));
    }
    assert(has_cause(options, events, packages, selection, dependency, version));
}

} // verus!
