//! What holds of the upgrades, whatever the packages and whatever the user asked for.
use crate::action::{fails, lemma_until_failure, ActionModel, ChangeModel};
use crate::failures::FailureModel;
use crate::manifests::{
    all_manifest_steps, candidate, candidates, desired, manifest_steps, upgrade_steps,
};
use crate::message::dry_run_notice;
use crate::outside::{url_text, version_req_text};
use crate::package::{declared, DeclaredModel, PackageModel};
use crate::selection::{crate_spec, requested};
use crate::table::{
    collected, distinct_keys, has_key, is_last_of_key, lemma_collected_distinct,
    lemma_collected_keys, lemma_last_decides, lemma_upserted, upserted,
};
use crate::text::{before, lemma_split};
use crate::upgrades::{
    all_lookups, index_update, index_updates, lemma_all_lookups_count, lemma_lookups_count, lookup,
    lookups, registries, settled, unsettled, DependencyModel, UpgradeModel,
};
use vstd::prelude::*;

verus! {

/// A name, `@` and a version ask for that crate in that version, without build metadata, just when
/// the version is a version requirement.
pub proof fn law_specifier_with_version(name: Seq<char>, version: Seq<char>)
    requires
        !name.contains('@'),
    ensures
        crate_spec(name.push('@') + version) == if version_req_text(version) is Some {
            Some((name, Some(before(version, '+'))))
        } else {
            None
        },
{
    lemma_split(name, '@', version);
}

/// A name alone asks for that crate, in no version of its own.
pub proof fn law_specifier_without_version(name: Seq<char>)
    requires
        !name.contains('@'),
    ensures
        crate_spec(name) == Some((name, None::<Seq<char>>)),
{
}

/// Of the specifiers for one crate the last decides.
pub proof fn law_last_request_decides(specs: Seq<Seq<char>>, i: int)
    requires
        0 <= i < specs.len(),
        requested(specs) is Ok,
        forall|j: int|
            i < j < specs.len() ==> crate_spec(#[trigger] specs[j]).unwrap().0 != crate_spec(
                specs[i],
            ).unwrap().0,
    ensures
        crate_spec(specs[i]) is Some,
        requested(specs)->Ok_0.contains_key(crate_spec(specs[i]).unwrap().0),
        requested(specs)->Ok_0[crate_spec(specs[i]).unwrap().0] == crate_spec(specs[i]).unwrap().1,
    decreases specs.len(),
{
    let front = specs.drop_last();
    if i < front.len() {
        assert(front[i] == specs[i]);
        assert forall|j: int| i < j < front.len() implies crate_spec(#[trigger] front[j]).unwrap().0
            != crate_spec(front[i]).unwrap().0 by {
            assert(front[j] == specs[j]);
        }
        law_last_request_decides(front, i);
        assert(crate_spec(specs[specs.len() - 1]).unwrap().0 != crate_spec(specs[i]).unwrap().0);
    }
}

/// Each crate that is asked for is named by a specifier.
pub proof fn law_requests_come_from_specifiers(specs: Seq<Seq<char>>, name: Seq<char>)
    requires
        requested(specs) is Ok,
        requested(specs)->Ok_0.contains_key(name),
    ensures
        exists|i: int|
            0 <= i < specs.len() && crate_spec(#[trigger] specs[i]) == Some(
                (name, requested(specs)->Ok_0[name]),
            ),
    decreases specs.len(),
{
    if specs.len() > 0 {
        let front = specs.drop_last();
        let (last_name, last_version) = crate_spec(specs.last())->0;
        if name == last_name {
            assert(crate_spec(specs[specs.len() - 1]) == Some(
                (name, requested(specs)->Ok_0[name]),
            ));
        } else {
            law_requests_come_from_specifiers(front, name);
            let i = choose|i: int|
                0 <= i < front.len() && crate_spec(#[trigger] front[i]) == Some(
                    (name, requested(front)->Ok_0[name]),
                );
            assert(front[i] == specs[i]);
        }
    }
}

/// The specifiers are refused just when one of them asks for nothing, and the first such is named.
pub proof fn law_first_bad_specifier_is_named(specs: Seq<Seq<char>>)
    ensures
        requested(specs) matches Err(failure) ==> failure is CrateSpec,
        requested(specs) is Ok <==> forall|i: int|
            0 <= i < specs.len() ==> crate_spec(#[trigger] specs[i]) is Some,
        forall|i: int|
            #![trigger specs[i]]
            0 <= i < specs.len() && crate_spec(specs[i]) is None && (forall|j: int|
                0 <= j < i ==> crate_spec(#[trigger] specs[j]) is Some) ==> requested(specs)
                == Err::<Map<Seq<char>, Option<Seq<char>>>, FailureModel>(
                FailureModel::CrateSpec(specs[i]),
            ),
    decreases specs.len(),
{
    if specs.len() > 0 {
        let front = specs.drop_last();
        law_first_bad_specifier_is_named(front);
        assert(forall|i: int| 0 <= i < front.len() ==> #[trigger] front[i] == specs[i]);
        if requested(front) is Ok {
            assert forall|i: int| 0 <= i < front.len() implies crate_spec(#[trigger] specs[i]) is
                Some by {
                assert(front[i] == specs[i]);
            }
        } else {
            let i = choose|i: int|
                0 <= i < front.len() && !(crate_spec(#[trigger] front[i]) is Some);
            assert(!(crate_spec(specs[i]) is Some));
        }
        assert forall|i: int|
            #![trigger specs[i]]
            0 <= i < specs.len() && crate_spec(specs[i]) is None && (forall|j: int|
                0 <= j < i ==> crate_spec(#[trigger] specs[j]) is Some) implies requested(specs)
            == Err::<Map<Seq<char>, Option<Seq<char>>>, FailureModel>(
            FailureModel::CrateSpec(specs[i]),
        ) by {
            if i < front.len() {
                assert(front[i] == specs[i]);
                assert forall|j: int| 0 <= j < i implies crate_spec(#[trigger] front[j]) is Some by {
                    assert(front[j] == specs[j]);
                }
            }
        }
    }
}

/// Something is asked for just when there are specifiers.
pub proof fn law_no_specifiers_ask_for_nothing(specs: Seq<Seq<char>>)
    requires
        requested(specs) is Ok,
    ensures
        requested(specs)->Ok_0 == Map::<Seq<char>, Option<Seq<char>>>::empty() <==> specs.len()
            == 0,
{
    if specs.len() > 0 {
        let name = crate_spec(specs.last()).unwrap().0;
        assert(requested(specs)->Ok_0.contains_key(name));
    }
}

/// Each candidate comes from a declared dependency, and each declared dependency that makes one is
/// among them.
proof fn lemma_candidates(
    dependencies: Seq<DeclaredModel>,
    selection: Map<Seq<char>, Option<Seq<char>>>,
)
    ensures
        forall|k: int|
            0 <= k < candidates(dependencies, selection).len() ==> exists|i: int|
                0 <= i < dependencies.len() && candidate(#[trigger] dependencies[i], selection)
                    == Some(#[trigger] candidates(dependencies, selection)[k]),
        forall|i: int|
            0 <= i < dependencies.len() && candidate(#[trigger] dependencies[i], selection) is Some
                ==> exists|k: int|
                0 <= k < candidates(dependencies, selection).len() && Some(
                    #[trigger] candidates(dependencies, selection)[k],
                ) == candidate(dependencies[i], selection),
    decreases dependencies.len(),
{
    if dependencies.len() > 0 {
        let front = dependencies.drop_last();
        let all = candidates(dependencies, selection);
        let most = candidates(front, selection);
        lemma_candidates(front, selection);
        assert forall|k: int| 0 <= k < all.len() implies exists|i: int|
            0 <= i < dependencies.len() && candidate(#[trigger] dependencies[i], selection) == Some(
                #[trigger] all[k],
            ) by {
            if k < most.len() {
                assert(all[k] == most[k]);
                let i = choose|i: int|
                    0 <= i < front.len() && candidate(#[trigger] front[i], selection) == Some(
                        most[k],
                    );
                assert(front[i] == dependencies[i]);
            } else {
                assert(candidate(dependencies[dependencies.len() - 1], selection) == Some(all[k]));
            }
        }
        assert forall|i: int|
            0 <= i < dependencies.len() && candidate(
                #[trigger] dependencies[i],
                selection,
            ) is Some implies exists|k: int|
            0 <= k < all.len() && Some(#[trigger] all[k]) == candidate(
                dependencies[i],
                selection,
            ) by {
            if i < front.len() {
                assert(front[i] == dependencies[i]);
                let k = choose|k: int|
                    0 <= k < most.len() && Some(#[trigger] most[k]) == candidate(
                        front[i],
                        selection,
                    );
                assert(all[k] == most[k]);
            } else {
                assert(all[all.len() - 1] == candidate(dependencies[i], selection)->0);
            }
        }
    }
}

/// The keys of the pairs that remain are the keys of the pairs inserted, and each pair that remains
/// was inserted.
proof fn lemma_upserted_members<K, V>(pairs: Seq<(K, V)>)
    ensures
        forall|key: K| #[trigger] has_key(upserted(pairs), key) <==> has_key(pairs, key),
        forall|k: int|
            0 <= k < upserted(pairs).len() ==> pairs.contains(#[trigger] upserted(pairs)[k]),
    decreases pairs.len(),
{
    lemma_upserted(pairs);
    assert forall|key: K| #[trigger] has_key(upserted(pairs), key) <==> has_key(pairs, key) by {
        lemma_collected_keys(upserted(pairs), key);
        lemma_collected_keys(pairs, key);
    }
    if pairs.len() > 0 {
        let front = pairs.drop_last();
        lemma_upserted_members(front);
        assert forall|k: int| 0 <= k < upserted(pairs).len() implies pairs.contains(
            #[trigger] upserted(pairs)[k],
        ) by {
            let entry = upserted(pairs)[k];
            if entry == pairs.last() {
                assert(pairs[pairs.len() - 1] == entry);
            } else {
                assert(entry == upserted(front)[k]);
                assert(front.contains(entry));
                let i = choose|i: int| 0 <= i < front.len() && front[i] == entry;
                assert(pairs[i] == entry);
            }
        }
    }
}

/// Each upgrade is what a declared dependency contributes.
pub proof fn law_upgrades_are_declared(
    packages: Seq<PackageModel>,
    selection: Map<Seq<char>, Option<Seq<char>>>,
    k: int,
)
    requires
        0 <= k < desired(packages, selection).len(),
    ensures
        exists|i: int|
            0 <= i < declared(packages).len() && candidate(
                #[trigger] declared(packages)[i],
                selection,
            ) == Some(desired(packages, selection)[k]),
{
    let all = candidates(declared(packages), selection);
    lemma_upserted_members(all);
    lemma_candidates(declared(packages), selection);
    assert(all.contains(upserted(all)[k]));
    let c = choose|c: int| 0 <= c < all.len() && all[c] == upserted(all)[k];
    assert(all[c] == desired(packages, selection)[k]);
}

/// Only dependencies from a registry are upgraded: git and path dependencies are ignored.
pub proof fn law_only_registry_dependencies(
    packages: Seq<PackageModel>,
    selection: Map<Seq<char>, Option<Seq<char>>>,
    k: int,
)
    requires
        0 <= k < desired(packages, selection).len(),
    ensures
        exists|i: int|
            0 <= i < declared(packages).len() && (#[trigger] declared(packages)[i]).is_version_dep()
                && declared(packages)[i].name == desired(packages, selection)[k].0.name,
{
    law_upgrades_are_declared(packages, selection, k);
    let i = choose|i: int|
        0 <= i < declared(packages).len() && candidate(#[trigger] declared(packages)[i], selection)
            == Some(desired(packages, selection)[k]);
    assert(declared(packages)[i].is_version_dep());
}

/// Each dependency that contributes to the upgrades is upgraded.
proof fn lemma_contributors_are_upgraded(
    packages: Seq<PackageModel>,
    selection: Map<Seq<char>, Option<Seq<char>>>,
    i: int,
)
    requires
        0 <= i < declared(packages).len(),
        candidate(declared(packages)[i], selection) is Some,
    ensures
        has_key(desired(packages, selection), candidate(declared(packages)[i], selection).unwrap().0),
{
    let all = candidates(declared(packages), selection);
    lemma_upserted_members(all);
    lemma_candidates(declared(packages), selection);
    let k = choose|k: int|
        0 <= k < all.len() && Some(#[trigger] all[k]) == candidate(
            declared(packages)[i],
            selection,
        );
    assert(has_key(all, all[k].0));
}

/// Where the user names no dependencies, all dependencies from registries are upgraded, under the
/// names that the manifests use, and none has its version fixed.
pub proof fn law_without_specifiers_all_are_upgraded(packages: Seq<PackageModel>)
    ensures
        forall|i: int|
            0 <= i < declared(packages).len() && (
            #[trigger] declared(packages)[i]).is_version_dep() ==> has_key(
                desired(packages, Map::empty()),
                DependencyModel {
                    name: declared(packages)[i].name,
                    rename: declared(packages)[i].rename,
                },
            ),
        forall|k: int|
            0 <= k < desired(packages, Map::empty()).len() ==> (#[trigger] desired(
                packages,
                Map::empty(),
            )[k]).1.version is None,
{
    let none = Map::<Seq<char>, Option<Seq<char>>>::empty();
    assert forall|i: int|
        0 <= i < declared(packages).len() && (
        #[trigger] declared(packages)[i]).is_version_dep() implies has_key(
        desired(packages, none),
        DependencyModel { name: declared(packages)[i].name, rename: declared(packages)[i].rename },
    ) by {
        lemma_contributors_are_upgraded(packages, none, i);
    }
    assert forall|k: int| 0 <= k < desired(packages, none).len() implies (#[trigger] desired(
        packages,
        none,
    )[k]).1.version is None by {
        law_upgrades_are_declared(packages, none, k);
    }
}

/// Where the user names dependencies, just those are upgraded that come from a registry, each in
/// the version asked for.
pub proof fn law_only_named_dependencies_are_upgraded(
    packages: Seq<PackageModel>,
    selection: Map<Seq<char>, Option<Seq<char>>>,
)
    requires
        selection != Map::<Seq<char>, Option<Seq<char>>>::empty(),
    ensures
        forall|k: int|
            0 <= k < desired(packages, selection).len() ==> {
                let (dependency, metadata) = #[trigger] desired(packages, selection)[k];
                &&& selection.contains_key(dependency.name)
                &&& dependency.rename is None
                &&& metadata.version == selection[dependency.name]
            },
        forall|i: int|
            0 <= i < declared(packages).len() && (
            #[trigger] declared(packages)[i]).is_version_dep() && selection.contains_key(
                declared(packages)[i].name,
            ) ==> has_key(
                desired(packages, selection),
                DependencyModel { name: declared(packages)[i].name, rename: None },
            ),
{
    assert forall|k: int| 0 <= k < desired(packages, selection).len() implies {
        let (dependency, metadata) = #[trigger] desired(packages, selection)[k];
        &&& selection.contains_key(dependency.name)
        &&& dependency.rename is None
        &&& metadata.version == selection[dependency.name]
    } by {
        law_upgrades_are_declared(packages, selection, k);
    }
    assert forall|i: int|
        0 <= i < declared(packages).len() && (#[trigger] declared(packages)[i]).is_version_dep()
            && selection.contains_key(declared(packages)[i].name) implies has_key(
        desired(packages, selection),
        DependencyModel { name: declared(packages)[i].name, rename: None },
    ) by {
        lemma_contributors_are_upgraded(packages, selection, i);
    }
}

/// Each dependency is upgraded once, and of the declarations that count as one the last decides.
pub proof fn law_one_upgrade_per_dependency(
    packages: Seq<PackageModel>,
    selection: Map<Seq<char>, Option<Seq<char>>>,
)
    ensures
        distinct_keys(desired(packages, selection)),
        collected(desired(packages, selection)) == collected(
            candidates(declared(packages), selection),
        ),
        forall|c: int|
            #[trigger] is_last_of_key(candidates(declared(packages), selection), c)
                ==> desired(packages, selection).contains(
                candidates(declared(packages), selection)[c],
            ),
{
    let all = candidates(declared(packages), selection);
    let kept = desired(packages, selection);
    lemma_upserted(all);
    assert forall|c: int| #[trigger] is_last_of_key(all, c) implies kept.contains(all[c]) by {
        lemma_last_decides(all, c);
        lemma_collected_keys(kept, all[c].0);
        let k = choose|k: int| 0 <= k < kept.len() && #[trigger] kept[k].0 == all[c].0;
        lemma_collected_distinct(kept, k);
        assert(kept[k] == all[c]);
    }
}

/// The upgrades concern just the dependencies whose versions were to change, in the same order.
pub proof fn law_same_dependencies_are_settled(
    desired: Seq<(DependencyModel, UpgradeModel)>,
    found: Seq<Seq<char>>,
)
    ensures
        settled(desired, found).len() == desired.len(),
        forall|i: int|
            0 <= i < desired.len() ==> (#[trigger] settled(desired, found)[i]).0 == desired[i].0,
        distinct_keys(desired) ==> distinct_keys(settled(desired, found)),
{
    if distinct_keys(desired) {
        let all = settled(desired, found);
        assert forall|i: int, j: int| 0 <= i < j < all.len() implies #[trigger] all[i].0
            != #[trigger] all[j].0 by {
            assert(desired[i].0 != desired[j].0);
        }
    }
}

/// Each lookup is for a dependency that the user asked no version for.
proof fn lemma_all_lookups_members(
    desired: Seq<(DependencyModel, UpgradeModel)>,
    allow_prerelease: bool,
)
    ensures
        forall|k: int|
            0 <= k < all_lookups(desired, allow_prerelease).len() ==> exists|i: int|
                0 <= i < desired.len() && lookup(
                    (#[trigger] desired[i]).0,
                    desired[i].1,
                    allow_prerelease,
                ) == Some(#[trigger] all_lookups(desired, allow_prerelease)[k]),
    decreases desired.len(),
{
    if desired.len() > 0 {
        let front = desired.drop_last();
        let all = all_lookups(desired, allow_prerelease);
        let most = all_lookups(front, allow_prerelease);
        lemma_all_lookups_members(front, allow_prerelease);
        assert forall|k: int| 0 <= k < all.len() implies exists|i: int|
            0 <= i < desired.len() && lookup(
                (#[trigger] desired[i]).0,
                desired[i].1,
                allow_prerelease,
            ) == Some(#[trigger] all[k]) by {
            if k < most.len() {
                assert(all[k] == most[k]);
                let i = choose|i: int|
                    0 <= i < front.len() && lookup(
                        (#[trigger] front[i]).0,
                        front[i].1,
                        allow_prerelease,
                    ) == Some(most[k]);
                assert(front[i] == desired[i]);
            } else {
                assert(lookup(
                    desired[desired.len() - 1].0,
                    desired[desired.len() - 1].1,
                    allow_prerelease,
                ) == Some(all[k]));
            }
        }
    }
}

/// A lookup is a question or a failure. A question is for a dependency that the user asked no
/// version for, with its requirement and in its registry, and prereleases count in it just when the
/// user allows them or the requirement speaks of one.
pub proof fn law_lookups(
    desired: Seq<(DependencyModel, UpgradeModel)>,
    allow_prerelease: bool,
    k: int,
)
    requires
        0 <= k < lookups(desired, allow_prerelease).len(),
    ensures
        match lookups(desired, allow_prerelease)[k] {
            ActionModel::FindMinimal(query) => exists|i: int|
                0 <= i < desired.len() && (#[trigger] desired[i]).1.version is None
                    && query.name == desired[i].0.name && query.versionreq
                    == desired[i].1.versionreq && query.allow_prerelease == (allow_prerelease
                    || desired[i].1.is_prerelease) && query.registry == (
                match desired[i].1.registry {
                    Some(registry) => url_text(registry),
                    None => None,
                }),
            ActionModel::Fail(failure) => {
                &&& failure == FailureModel::InvalidCargoConfig
                &&& k == lookups(desired, allow_prerelease).len() - 1
            },
            _ => false,
        },
{
    let all = all_lookups(desired, allow_prerelease);
    lemma_until_failure(all);
    lemma_all_lookups_members(desired, allow_prerelease);
    assert(lookups(desired, allow_prerelease)[k] == all[k]);
    let i = choose|i: int|
        0 <= i < desired.len() && lookup((#[trigger] desired[i]).0, desired[i].1, allow_prerelease)
            == Some(all[k]);
    assert(desired[i].1.version is None);
}

/// Each dependency that the user asked no version for has its own lookup, behind those of the
/// dependencies before it.
proof fn lemma_own_lookup(
    desired: Seq<(DependencyModel, UpgradeModel)>,
    allow_prerelease: bool,
    i: int,
)
    requires
        0 <= i < desired.len(),
        desired[i].1.version is None,
    ensures
        unsettled(desired.take(i)) < all_lookups(desired, allow_prerelease).len(),
        lookup(desired[i].0, desired[i].1, allow_prerelease) == Some(
            all_lookups(desired, allow_prerelease)[unsettled(desired.take(i)) as int],
        ),
    decreases desired.len(),
{
    let front = desired.drop_last();
    lemma_all_lookups_count(front, allow_prerelease);
    if i < front.len() {
        lemma_own_lookup(front, allow_prerelease, i);
        assert(front[i] == desired[i]);
        assert(front.take(i) =~= desired.take(i));
    } else {
        assert(desired.take(i) =~= front);
    }
}

/// Where no lookup fails, each dependency that the user asked no version for gets the version that
/// was found by its own lookup.
pub proof fn law_found_version_goes_to_its_dependency(
    desired: Seq<(DependencyModel, UpgradeModel)>,
    found: Seq<Seq<char>>,
    allow_prerelease: bool,
    i: int,
)
    requires
        0 <= i < desired.len(),
        desired[i].1.version is None,
        !fails(lookups(desired, allow_prerelease)),
        found.len() == lookups(desired, allow_prerelease).len(),
    ensures
        ({
            let q = unsettled(desired.take(i)) as int;
            &&& 0 <= q < found.len()
            &&& lookup(desired[i].0, desired[i].1, allow_prerelease) == Some(
                lookups(desired, allow_prerelease)[q],
            )
            &&& settled(desired, found)[i] == (desired[i].0, found[q])
        }),
{
    lemma_lookups_count(desired, allow_prerelease);
    lemma_own_lookup(desired, allow_prerelease, i);
}

/// A version that the user asks for is the version that the dependency gets in all packages,
/// whatever is found for others, and it is not looked up.
pub proof fn law_requested_version_is_used(
    packages: Seq<PackageModel>,
    selection: Map<Seq<char>, Option<Seq<char>>>,
    name: Seq<char>,
    found: Seq<Seq<char>>,
    allow_prerelease: bool,
)
    requires
        selection.contains_key(name),
        selection[name] is Some,
    ensures
        forall|k: int|
            #![trigger settled(desired(packages, selection), found)[k]]
            0 <= k < desired(packages, selection).len() && desired(packages, selection)[k].0.name
                == name ==> settled(desired(packages, selection), found)[k] == (
                DependencyModel { name, rename: None },
                selection[name]->0,
            ),
        forall|k: int|
            0 <= k < lookups(desired(packages, selection), allow_prerelease).len() ==> match (
            #[trigger] lookups(desired(packages, selection), allow_prerelease)[k]) {
                ActionModel::FindMinimal(query) => query.name != name,
                _ => true,
            },
{
    let upgrades = desired(packages, selection);
    law_only_named_dependencies_are_upgraded(packages, selection);
    assert forall|k: int|
        #![trigger settled(upgrades, found)[k]]
        0 <= k < upgrades.len() && upgrades[k].0.name == name implies settled(upgrades, found)[k]
        == (DependencyModel { name, rename: None }, selection[name]->0) by {
        let (dependency, metadata) = upgrades[k];
        assert(dependency == DependencyModel { name, rename: None });
        assert(metadata.version == selection[name]);
    }
    assert forall|k: int| 0 <= k < lookups(upgrades, allow_prerelease).len() implies match (
    #[trigger] lookups(upgrades, allow_prerelease)[k]) {
        ActionModel::FindMinimal(query) => query.name != name,
        _ => true,
    } by {
        law_lookups(upgrades, allow_prerelease, k);
        if let ActionModel::FindMinimal(query) = lookups(upgrades, allow_prerelease)[k] {
            let i = choose|i: int|
                0 <= i < upgrades.len() && (#[trigger] upgrades[i]).1.version is None && query.name
                    == upgrades[i].0.name;
            let (dependency, metadata) = upgrades[i];
            assert(metadata.version == selection[dependency.name]);
        }
    }
}

/// Prereleases count for a dependency just when the user allows them or its own requirement speaks
/// of one.
pub proof fn law_prereleases(
    packages: Seq<PackageModel>,
    selection: Map<Seq<char>, Option<Seq<char>>>,
    allow_prerelease: bool,
    k: int,
)
    requires
        0 <= k < lookups(desired(packages, selection), allow_prerelease).len(),
    ensures
        match lookups(desired(packages, selection), allow_prerelease)[k] {
            ActionModel::FindMinimal(query) => query.allow_prerelease == (allow_prerelease
                || query.versionreq.contains('-')),
            _ => true,
        },
{
    let upgrades = desired(packages, selection);
    law_lookups(upgrades, allow_prerelease, k);
    if let ActionModel::FindMinimal(query) = lookups(upgrades, allow_prerelease)[k] {
        let i = choose|i: int|
            0 <= i < upgrades.len() && (#[trigger] upgrades[i]).1.version is None && query.name
                == upgrades[i].0.name && query.versionreq == upgrades[i].1.versionreq
                && query.allow_prerelease == (allow_prerelease || upgrades[i].1.is_prerelease);
        law_upgrades_are_declared(packages, selection, i);
    }
}

/// Each registry that a dependency comes from is listed, once, and no other.
pub proof fn law_registries(desired: Seq<(DependencyModel, UpgradeModel)>)
    ensures
        registries(desired).no_duplicates(),
        forall|r: Seq<char>| #[trigger]
            registries(desired).contains(r) <==> exists|i: int|
                0 <= i < desired.len() && (#[trigger] desired[i]).1.registry == Some(r),
    decreases desired.len(),
{
    if desired.len() > 0 {
        let front = desired.drop_last();
        let all = registries(desired);
        let most = registries(front);
        law_registries(front);
        assert forall|r: Seq<char>| #[trigger] all.contains(r) <==> exists|i: int|
            0 <= i < desired.len() && (#[trigger] desired[i]).1.registry == Some(r) by {
            if all.contains(r) {
                if most.contains(r) {
                    let i = choose|i: int|
                        0 <= i < front.len() && (#[trigger] front[i]).1.registry == Some(r);
                    assert(front[i] == desired[i]);
                } else {
                    assert(desired[desired.len() - 1].1.registry == Some(r));
                }
            }
            if exists|i: int|
                0 <= i < desired.len() && (#[trigger] desired[i]).1.registry == Some(r) {
                let i = choose|i: int|
                    0 <= i < desired.len() && (#[trigger] desired[i]).1.registry == Some(r);
                if i < front.len() {
                    assert(front[i] == desired[i]);
                    assert(most.contains(r));
                    let j = choose|j: int| 0 <= j < most.len() && most[j] == r;
                    assert(all[j] == r);
                } else if !most.contains(r) {
                    assert(all[all.len() - 1] == r);
                }
            }
        }
        if all != most {
            assert forall|i: int, j: int|
                0 <= i < all.len() && 0 <= j < all.len() && i != j implies all[i] != all[j] by {
                if i == most.len() {
                    assert(most.contains(most[j]));
                } else if j == most.len() {
                    assert(most.contains(most[i]));
                }
            }
        }
    }
}

/// The index of each registry is brought up to date, in order, up to the first registry whose URL
/// cannot be read, where the updates fail.
pub proof fn law_index_updates(desired: Seq<(DependencyModel, UpgradeModel)>)
    ensures
        index_updates(desired).len() <= registries(desired).len(),
        forall|k: int|
            0 <= k < index_updates(desired).len() ==> #[trigger] index_updates(desired)[k]
                == index_update(registries(desired)[k]),
        !fails(index_updates(desired)) ==> index_updates(desired).len() == registries(
            desired,
        ).len(),
        forall|k: int|
            0 <= k < index_updates(desired).len() - 1 ==> #[trigger] index_updates(desired)[k] is
                UpdateIndex,
{
    let names = registries(desired);
    let all = Seq::new(names.len(), |i: int| index_update(names[i]));
    lemma_until_failure(all);
    assert forall|k: int| 0 <= k < index_updates(desired).len() implies #[trigger] index_updates(
        desired,
    )[k] == index_update(names[k]) by {
        assert(index_updates(desired)[k] == all[k]);
    }
}

/// Each manifest gets each upgrade, in order: the steps for the manifests are as many blocks as
/// there are packages, and each block names its package and then makes each change.
pub proof fn law_every_manifest_gets_every_upgrade(
    packages: Seq<PackageModel>,
    upgrades: Seq<(DependencyModel, Seq<char>)>,
    dry_run: bool,
    skip_compatible: bool,
    p: int,
)
    requires
        0 <= p < packages.len(),
    ensures
        ({
            let steps = all_manifest_steps(packages, upgrades, dry_run, skip_compatible);
            let first = p * (upgrades.len() + 1);
            &&& steps.len() == packages.len() * (upgrades.len() + 1)
            &&& first + upgrades.len() < steps.len()
            &&& steps[first] == ActionModel::Heading(packages[p].name.push(':'))
            &&& forall|j: int|
                #![trigger upgrades[j]]
                0 <= j < upgrades.len() ==> steps[first + 1 + j] == ActionModel::Upgrade(
                    ChangeModel {
                        manifest: p,
                        name: upgrades[j].0.name,
                        version: before(upgrades[j].1, '+'),
                        rename: upgrades[j].0.rename,
                        dry_run,
                        skip_compatible,
                    },
                )
        }),
    decreases packages.len(),
{
    let front = packages.drop_last();
    let size = upgrades.len() + 1;
    let last = packages.len() - 1;
    let steps = all_manifest_steps(packages, upgrades, dry_run, skip_compatible);
    let most = all_manifest_steps(front, upgrades, dry_run, skip_compatible);
    let own = manifest_steps(last, packages.last().name, upgrades, dry_run, skip_compatible);
    lemma_manifest_steps_len(front, upgrades, dry_run, skip_compatible);
    assert(packages.len() * size == last * size + size) by (nonlinear_arith)
        requires
            last == packages.len() - 1,
    ;
    assert(steps == most + own);
    if p < last {
        law_every_manifest_gets_every_upgrade(front, upgrades, dry_run, skip_compatible, p);
        assert(front[p] == packages[p]);
        let first = p * size;
        assert forall|j: int|
            #![trigger upgrades[j]]
            0 <= j < upgrades.len() implies steps[first + 1 + j] == ActionModel::Upgrade(
            ChangeModel {
                manifest: p,
                name: upgrades[j].0.name,
                version: before(upgrades[j].1, '+'),
                rename: upgrades[j].0.rename,
                dry_run,
                skip_compatible,
            },
        ) by {
            assert(steps[first + 1 + j] == most[first + 1 + j]);
        }
    } else {
        let first = p * size;
        assert(first == most.len());
        assert forall|j: int|
            #![trigger upgrades[j]]
            0 <= j < upgrades.len() implies steps[first + 1 + j] == ActionModel::Upgrade(
            ChangeModel {
                manifest: p,
                name: upgrades[j].0.name,
                version: before(upgrades[j].1, '+'),
                rename: upgrades[j].0.rename,
                dry_run,
                skip_compatible,
            },
        ) by {
            assert(steps[first + 1 + j] == own[1 + j]);
        }
    }
}

/// How many steps there are for the manifests.
proof fn lemma_manifest_steps_len(
    packages: Seq<PackageModel>,
    upgrades: Seq<(DependencyModel, Seq<char>)>,
    dry_run: bool,
    skip_compatible: bool,
)
    ensures
        all_manifest_steps(packages, upgrades, dry_run, skip_compatible).len() == packages.len() * (
        upgrades.len() + 1),
    decreases packages.len(),
{
    if packages.len() > 0 {
        lemma_manifest_steps_len(packages.drop_last(), upgrades, dry_run, skip_compatible);
        assert(packages.len() * (upgrades.len() + 1) == (packages.len() - 1) * (upgrades.len() + 1)
            + (upgrades.len() + 1)) by (nonlinear_arith)
            requires
                packages.len() > 0,
        ;
    } else {
        assert(0 * (upgrades.len() + 1) == 0);
    }
}

/// The steps for the manifests name packages and make changes, and nothing else. Each change is
/// made as the run is: a dry run only shows it.
pub proof fn law_changes_follow_the_run(
    packages: Seq<PackageModel>,
    upgrades: Seq<(DependencyModel, Seq<char>)>,
    dry_run: bool,
    skip_compatible: bool,
)
    ensures
        forall|k: int|
            0 <= k < all_manifest_steps(packages, upgrades, dry_run, skip_compatible).len()
                ==> match #[trigger] all_manifest_steps(
                packages,
                upgrades,
                dry_run,
                skip_compatible,
            )[k] {
                ActionModel::Heading(_) => true,
                ActionModel::Upgrade(change) => {
                    &&& change.dry_run == dry_run
                    &&& change.skip_compatible == skip_compatible
                    &&& 0 <= change.manifest < packages.len()
                },
                _ => false,
            },
    decreases packages.len(),
{
    if packages.len() > 0 {
        let front = packages.drop_last();
        let most = all_manifest_steps(front, upgrades, dry_run, skip_compatible);
        law_changes_follow_the_run(front, upgrades, dry_run, skip_compatible);
        assert forall|k: int|
            0 <= k < all_manifest_steps(
                packages,
                upgrades,
                dry_run,
                skip_compatible,
            ).len() implies match #[trigger] all_manifest_steps(
            packages,
            upgrades,
            dry_run,
            skip_compatible,
        )[k] {
            ActionModel::Heading(_) => true,
            ActionModel::Upgrade(change) => {
                &&& change.dry_run == dry_run
                &&& change.skip_compatible == skip_compatible
                &&& 0 <= change.manifest < packages.len()
            },
            _ => false,
        } by {
            if k < most.len() {
                assert(all_manifest_steps(packages, upgrades, dry_run, skip_compatible)[k]
                    == most[k]);
            }
        }
    }
}

/// A dry run is announced before anything else that concerns the manifests, and only a dry run is.
pub proof fn law_dry_run_is_announced_first(
    packages: Seq<PackageModel>,
    upgrades: Seq<(DependencyModel, Seq<char>)>,
    dry_run: bool,
    skip_compatible: bool,
)
    ensures
        dry_run ==> upgrade_steps(packages, upgrades, dry_run, skip_compatible).len() > 0
            && upgrade_steps(packages, upgrades, dry_run, skip_compatible).first()
            == ActionModel::Show(dry_run_notice()),
        !dry_run ==> forall|k: int|
            0 <= k < upgrade_steps(packages, upgrades, dry_run, skip_compatible).len() ==> !(
            #[trigger] upgrade_steps(packages, upgrades, dry_run, skip_compatible)[k] is Show),
{
    law_changes_follow_the_run(packages, upgrades, dry_run, skip_compatible);
    if !dry_run {
        assert(upgrade_steps(packages, upgrades, dry_run, skip_compatible) =~= all_manifest_steps(
            packages,
            upgrades,
            dry_run,
            skip_compatible,
        ));
    }
}

} // verus!
