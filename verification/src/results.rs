//! What the operations are for, said of what goes in and what comes out.
use crate::action::{fails, lemma_until_failure, ActionModel};
use crate::failures::FailureModel;
use crate::laws::{law_every_manifest_gets_every_upgrade, law_registries};
use crate::manifests::{
    all_manifest_steps, candidate, candidates, desired, package_at, upgrade_steps,
};
use crate::message::{deprecation, dry_run_notice, Colour, PieceModel, Stream};
use crate::outside::{url_text, version_req_text};
use crate::package::{declared, DeclaredModel, PackageModel};
use crate::selection::crate_spec;
use crate::table::{collected, lemma_collected_keys, lemma_last_decides, upsert, upserted};
use crate::text::{after, before, lemma_offset_of, lemma_split};
use crate::upgrades::{
    all_lookups, index_update, index_updates, lookups, registries, settled, unsettled,
    DependencyModel, UpgradeModel,
};
use vstd::prelude::*;

verus! {

/// Text is cut at the first occurrence of a character: what stands before it does not hold the
/// character, and the two parts around the character make up the text. Text without the character is
/// not cut.
pub proof fn law_text_is_cut_at_the_first(s: Seq<char>, c: char)
    ensures
        !before(s, c).contains(c),
        s.contains(c) ==> before(s, c).push(c) + after(s, c) == s,
        !s.contains(c) ==> before(s, c) == s,
{
    lemma_offset_of(s, c);
    if s.contains(c) {
        assert(before(s, c).push(c) + after(s, c) =~= s);
    } else {
        assert(before(s, c) =~= s);
    }
}

/// A specifier is read back as what it was put together from: the crate and its version. Build
/// metadata behind the version counts for whether the version can be read, and is left out.
pub proof fn law_specifier_is_taken_apart(name: Seq<char>, version: Seq<char>, build: Seq<char>)
    requires
        !name.contains('@'),
        !version.contains('+'),
    ensures
        crate_spec(name) == Some((name, None::<Seq<char>>)),
        crate_spec(name.push('@') + version) == if version_req_text(version) is Some {
            Some((name, Some(version)))
        } else {
            None
        },
        crate_spec(name.push('@') + (version.push('+') + build)) == if version_req_text(
            version.push('+') + build,
        ) is Some {
            Some((name, Some(version)))
        } else {
            None
        },
{
    lemma_split(name, '@', version);
    lemma_split(name, '@', version.push('+') + build);
    lemma_split(version, '+', build);
    law_text_is_cut_at_the_first(version, '+');
}

/// Whether a source names a registry: it is `registry`, or `registry+` and a URL.
pub open spec fn comes_from_registry(source: Option<Seq<char>>) -> bool {
    source matches Some(text) && (text == "registry"@ || "registry+"@.is_prefix_of(text))
}

/// A dependency is chosen by its version just when its source names a registry. So no source that
/// starts with `git+` will do, and no path dependency, which has no source.
pub proof fn law_only_registries_are_sources(dependency: DeclaredModel)
    ensures
        dependency.is_version_dep() <==> comes_from_registry(dependency.source),
        dependency.source is None ==> !dependency.is_version_dep(),
        dependency.source matches Some(text) && "git+"@.is_prefix_of(text)
            ==> !dependency.is_version_dep(),
{
    reveal_strlit("registry");
    reveal_strlit("registry+");
    reveal_strlit("git+");
    if let Some(text) = dependency.source {
        law_text_is_cut_at_the_first(text, '+');
        let kind = "registry"@;
        assert("registry+"@ =~= kind.push('+'));
        if before(text, '+') == kind {
            if text.contains('+') {
                assert("registry+"@ =~= text.subrange(0, 9));
            }
        }
        if "registry+"@.is_prefix_of(text) {
            let rest = text.skip(9);
            assert(text =~= kind.push('+') + rest);
            lemma_split(kind, '+', rest);
        }
        if "git+"@.is_prefix_of(text) {
            assert(text[0] == "git+"@[0]);
            if text == kind {
                assert(text[0] == kind[0]);
            }
            if "registry+"@.is_prefix_of(text) {
                assert(text[0] == "registry+"@[0]);
            }
        }
    }
}

/// Where the dependencies of the package at `p` begin among those of all packages.
spec fn first_of(packages: Seq<PackageModel>, p: int) -> int {
    declared(packages.take(p)).len() as int
}

/// The dependencies of a package follow those of the package before it.
proof fn lemma_next_first(packages: Seq<PackageModel>, p: int)
    requires
        0 <= p < packages.len(),
    ensures
        first_of(packages, p + 1) == first_of(packages, p) + packages[p].dependencies.len(),
{
    assert(packages.take(p + 1).drop_last() =~= packages.take(p));
}

/// The dependencies of a later package do not begin earlier.
proof fn lemma_first_is_monotone(packages: Seq<PackageModel>, p: int, q: int)
    requires
        0 <= p <= q <= packages.len(),
    ensures
        first_of(packages, p) <= first_of(packages, q),
    decreases q - p,
{
    if p < q {
        lemma_first_is_monotone(packages, p, q - 1);
        lemma_next_first(packages, q - 1);
    }
}

/// Each dependency of each package is declared, in its place.
proof fn lemma_declared_at(packages: Seq<PackageModel>, p: int, d: int)
    requires
        0 <= p < packages.len(),
        0 <= d < packages[p].dependencies.len(),
    ensures
        0 <= first_of(packages, p) + d < declared(packages).len(),
        declared(packages)[first_of(packages, p) + d] == packages[p].dependencies[d],
    decreases packages.len(),
{
    let front = packages.drop_last();
    if p < front.len() {
        lemma_declared_at(front, p, d);
        assert(front.take(p) =~= packages.take(p));
        assert(front[p] == packages[p]);
    } else {
        assert(packages.take(p) =~= front);
    }
}

/// Whatever is declared is a dependency of a package.
proof fn lemma_declared_from(packages: Seq<PackageModel>, i: int) -> (at: (int, int))
    requires
        0 <= i < declared(packages).len(),
    ensures
        0 <= at.0 < packages.len(),
        0 <= at.1 < packages[at.0].dependencies.len(),
        i == first_of(packages, at.0) + at.1,
        declared(packages)[i] == packages[at.0].dependencies[at.1],
    decreases packages.len(),
{
    let front = packages.drop_last();
    if i < declared(front).len() {
        let at = lemma_declared_from(front, i);
        assert(front.take(at.0) =~= packages.take(at.0));
        assert(front[at.0] == packages[at.0]);
        at
    } else {
        let last = packages.len() - 1;
        assert(packages.take(last) =~= front);
        (last, i - declared(front).len())
    }
}

/// All dependencies of all packages are declared, and no others: there are as many as the packages
/// have together.
pub proof fn law_all_packages_are_declared(packages: Seq<PackageModel>)
    ensures
        forall|p: int, d: int|
            0 <= p < packages.len() && 0 <= d < packages[p].dependencies.len() ==> declared(
                packages,
            ).contains(#[trigger] packages[p].dependencies[d]),
        declared(packages).len() == packages.map_values(
            |package: PackageModel| package.dependencies.len() as int,
        ).fold_left(0, |sum: int, n: int| sum + n),
    decreases packages.len(),
{
    assert forall|p: int, d: int|
        0 <= p < packages.len() && 0 <= d < packages[p].dependencies.len() implies declared(
        packages,
    ).contains(#[trigger] packages[p].dependencies[d]) by {
        lemma_declared_at(packages, p, d);
    }
    let count = |package: PackageModel| package.dependencies.len() as int;
    if packages.len() > 0 {
        law_all_packages_are_declared(packages.drop_last());
        assert(packages.map_values(count).drop_last() =~= packages.drop_last().map_values(count));
    }
}

/// Whether the user's wishes concern a declared dependency: it comes from a registry, and the user
/// named it or named none.
pub open spec fn is_concerned(
    dependency: DeclaredModel,
    selection: Map<Seq<char>, Option<Seq<char>>>,
) -> bool {
    &&& comes_from_registry(dependency.source)
    &&& selection.dom() == Set::<Seq<char>>::empty() || selection.dom().contains(dependency.name)
}

/// What a declared dependency is known as among the upgrades: by the name that its manifest uses
/// where the user named none, else by its own.
pub open spec fn known_as(
    dependency: DeclaredModel,
    selection: Map<Seq<char>, Option<Seq<char>>>,
) -> DependencyModel {
    DependencyModel {
        name: dependency.name,
        rename: if selection.dom() == Set::<Seq<char>>::empty() {
            dependency.rename
        } else {
            None
        },
    }
}

/// Whether the declaration at `d` in the package at `p` is the last of those that are known as one.
pub open spec fn is_last_declaration(
    packages: Seq<PackageModel>,
    selection: Map<Seq<char>, Option<Seq<char>>>,
    p: int,
    d: int,
) -> bool {
    &&& 0 <= p < packages.len()
    &&& 0 <= d < packages[p].dependencies.len()
    &&& is_concerned(packages[p].dependencies[d], selection)
    &&& forall|q: int, e: int|
        p <= q < packages.len() && 0 <= e < packages[q].dependencies.len() && (p < q || d < e)
            && is_concerned(#[trigger] packages[q].dependencies[e], selection) ==> known_as(
            packages[q].dependencies[e],
            selection,
        ) != known_as(packages[p].dependencies[d], selection)
}

/// What a dependency contributes, in terms of what it declares.
proof fn lemma_candidate(
    dependency: DeclaredModel,
    selection: Map<Seq<char>, Option<Seq<char>>>,
)
    ensures
        match candidate(dependency, selection) {
            Some((key, metadata)) => {
                &&& is_concerned(dependency, selection)
                &&& key == known_as(dependency, selection)
                &&& metadata.versionreq == dependency.req
                &&& metadata.registry == dependency.registry
                &&& metadata.is_prerelease == dependency.req.contains('-')
                &&& metadata.version == if selection.dom() == Set::<Seq<char>>::empty() {
                    None
                } else {
                    selection[dependency.name]
                }
            },
            None => !is_concerned(dependency, selection),
        },
{
    law_only_registries_are_sources(dependency);
    if selection.dom() == Set::<Seq<char>>::empty() {
        assert(selection =~= Map::empty());
    }
}

/// Each upgrade is what the last of its contributors contributes.
proof fn lemma_last_contributor(
    dependencies: Seq<DeclaredModel>,
    selection: Map<Seq<char>, Option<Seq<char>>>,
    k: int,
) -> (i: int)
    requires
        0 <= k < upserted(candidates(dependencies, selection)).len(),
    ensures
        0 <= i < dependencies.len(),
        candidate(dependencies[i], selection) == Some(
            upserted(candidates(dependencies, selection))[k],
        ),
        forall|j: int|
            i < j < dependencies.len() && candidate(#[trigger] dependencies[j], selection) is Some
                ==> candidate(dependencies[j], selection).unwrap().0 != candidate(
                dependencies[i],
                selection,
            ).unwrap().0,
    decreases dependencies.len(),
{
    let front = dependencies.drop_last();
    let last = dependencies.len() - 1;
    let all = candidates(dependencies, selection);
    let most = candidates(front, selection);
    let kept = upserted(all);
    match candidate(dependencies.last(), selection) {
        Some((key, metadata)) => {
            assert(all.drop_last() =~= most);
            assert(kept == upsert(upserted(most), key, metadata));
            if kept[k].0 == key {
                assert(kept[k] == (key, metadata));
                last
            } else {
                let i = lemma_last_contributor(front, selection, k);
                assert(front[i] == dependencies[i]);
                assert forall|j: int|
                    i < j < dependencies.len() && candidate(
                        #[trigger] dependencies[j],
                        selection,
                    ) is Some implies candidate(dependencies[j], selection).unwrap().0 != candidate(
                    dependencies[i],
                    selection,
                ).unwrap().0 by {
                    if j < last {
                        assert(front[j] == dependencies[j]);
                    }
                }
                i
            }
        },
        None => {
            let i = lemma_last_contributor(front, selection, k);
            assert(front[i] == dependencies[i]);
            assert forall|j: int|
                i < j < dependencies.len() && candidate(
                    #[trigger] dependencies[j],
                    selection,
                ) is Some implies candidate(dependencies[j], selection).unwrap().0 != candidate(
                dependencies[i],
                selection,
            ).unwrap().0 by {
                assert(front[j] == dependencies[j]);
            }
            i
        },
    }
}

/// Each contributor has an upgrade.
proof fn lemma_contributor_is_kept(
    dependencies: Seq<DeclaredModel>,
    selection: Map<Seq<char>, Option<Seq<char>>>,
    i: int,
) -> (k: int)
    requires
        0 <= i < dependencies.len(),
        candidate(dependencies[i], selection) is Some,
    ensures
        0 <= k < upserted(candidates(dependencies, selection)).len(),
        upserted(candidates(dependencies, selection))[k].0 == candidate(
            dependencies[i],
            selection,
        ).unwrap().0,
    decreases dependencies.len(),
{
    let front = dependencies.drop_last();
    let all = candidates(dependencies, selection);
    let most = candidates(front, selection);
    let kept = upserted(all);
    let earlier = upserted(most);
    if i == dependencies.len() - 1 {
        let (key, metadata) = candidate(dependencies[i], selection).unwrap();
        assert(all.drop_last() =~= most);
        assert(kept == upsert(earlier, key, metadata));
        if exists|k: int| 0 <= k < earlier.len() && #[trigger] earlier[k].0 == key {
            let k = choose|k: int| 0 <= k < earlier.len() && #[trigger] earlier[k].0 == key;
            assert(kept[k].0 == key);
            k
        } else {
            assert(kept[kept.len() - 1].0 == key);
            kept.len() - 1
        }
    } else {
        assert(front[i] == dependencies[i]);
        let k = lemma_contributor_is_kept(front, selection, i);
        match candidate(dependencies.last(), selection) {
            Some((key, metadata)) => {
                assert(all.drop_last() =~= most);
                assert(kept == upsert(earlier, key, metadata));
                assert(kept[k].0 == earlier[k].0);
            },
            None => {},
        }
        k
    }
}

/// No two upgrades have one key.
proof fn lemma_kept_once<K, V>(pairs: Seq<(K, V)>)
    ensures
        forall|i: int, j: int|
            0 <= i < j < upserted(pairs).len() ==> #[trigger] upserted(pairs)[i].0
                != #[trigger] upserted(pairs)[j].0,
    decreases pairs.len(),
{
    if pairs.len() > 0 {
        let earlier = upserted(pairs.drop_last());
        let kept = upserted(pairs);
        lemma_kept_once(pairs.drop_last());
        assert forall|i: int, j: int| 0 <= i < j < kept.len() implies #[trigger] kept[i].0
            != #[trigger] kept[j].0 by {
            if j < earlier.len() {
                assert(earlier[i].0 != earlier[j].0);
                assert(kept[i].0 == earlier[i].0);
                assert(kept[j].0 == earlier[j].0);
            } else {
                assert(kept[i] == earlier[i]);
            }
        }
    }
}

/// Each upgrade carries what a package declares for that crate: the requirement, the registry, and
/// whether the requirement speaks of a prerelease, all from one declaration that comes from a
/// registry. It is the last of those that are known as one. The version is the one that the user
/// asked for, if any.
pub proof fn law_upgrades_carry_the_declared_requirement(
    packages: Seq<PackageModel>,
    selection: Map<Seq<char>, Option<Seq<char>>>,
    k: int,
)
    requires
        0 <= k < desired(packages, selection).len(),
    ensures
        exists|p: int, d: int| #[trigger]
            is_last_declaration(packages, selection, p, d) && ({
                let dependency = packages[p].dependencies[d];
                let (key, metadata) = desired(packages, selection)[k];
                &&& key.name == dependency.name
                &&& key.rename == (if selection.dom() == Set::<Seq<char>>::empty() {
                    dependency.rename
                } else {
                    None
                })
                &&& metadata.versionreq == dependency.req
                &&& metadata.registry == dependency.registry
                &&& metadata.is_prerelease == dependency.req.contains('-')
                &&& metadata.version == (if selection.dom() == Set::<Seq<char>>::empty() {
                    None
                } else {
                    selection[dependency.name]
                })
            }),
{
    let all = declared(packages);
    let i = lemma_last_contributor(all, selection, k);
    let (p, d) = lemma_declared_from(packages, i);
    lemma_candidate(all[i], selection);
    assert forall|q: int, e: int|
        p <= q < packages.len() && 0 <= e < packages[q].dependencies.len() && (p < q || d < e)
            && is_concerned(#[trigger] packages[q].dependencies[e], selection) implies known_as(
        packages[q].dependencies[e],
        selection,
    ) != known_as(packages[p].dependencies[d], selection) by {
        let j = first_of(packages, q) + e;
        lemma_declared_at(packages, q, e);
        if p < q {
            lemma_next_first(packages, p);
            lemma_first_is_monotone(packages, p + 1, q);
        }
        assert(i < j);
        lemma_candidate(all[j], selection);
    }
    assert(is_last_declaration(packages, selection, p, d));
}

/// Each dependency of each package that comes from a registry has an upgrade, if the user named it
/// or named none. No two upgrades are known as one.
pub proof fn law_every_concerned_dependency_is_upgraded(
    packages: Seq<PackageModel>,
    selection: Map<Seq<char>, Option<Seq<char>>>,
)
    ensures
        forall|p: int, d: int|
            0 <= p < packages.len() && 0 <= d < packages[p].dependencies.len() && is_concerned(
                #[trigger] packages[p].dependencies[d],
                selection,
            ) ==> exists|k: int|
                0 <= k < desired(packages, selection).len() && (#[trigger] desired(
                    packages,
                    selection,
                )[k]).0 == known_as(packages[p].dependencies[d], selection),
        forall|i: int, j: int|
            0 <= i < j < desired(packages, selection).len() ==> (#[trigger] desired(
                packages,
                selection,
            )[i]).0 != (#[trigger] desired(packages, selection)[j]).0,
{
    let all = declared(packages);
    assert forall|p: int, d: int|
        0 <= p < packages.len() && 0 <= d < packages[p].dependencies.len() && is_concerned(
            #[trigger] packages[p].dependencies[d],
            selection,
        ) implies exists|k: int|
        0 <= k < desired(packages, selection).len() && (#[trigger] desired(
            packages,
            selection,
        )[k]).0 == known_as(packages[p].dependencies[d], selection) by {
        lemma_declared_at(packages, p, d);
        let i = first_of(packages, p) + d;
        lemma_candidate(all[i], selection);
        let k = lemma_contributor_is_kept(all, selection, i);
        assert(desired(packages, selection)[k].0 == known_as(
            packages[p].dependencies[d],
            selection,
        ));
    }
    lemma_kept_once(candidates(all, selection));
}

/// The local package is the first whose manifest has just this path. There is none just when no
/// manifest has it.
pub proof fn law_local_package_has_the_path(path: Seq<char>, packages: Seq<PackageModel>)
    ensures
        package_at(path, packages) is None <==> forall|i: int|
            0 <= i < packages.len() ==> (#[trigger] packages[i]).manifest_path != path,
        package_at(path, packages) matches Some(package) ==> {
            &&& package.manifest_path == path
            &&& exists|i: int|
                0 <= i < packages.len() && #[trigger] packages[i] == package && forall|j: int|
                    0 <= j < i ==> (#[trigger] packages[j]).manifest_path != path
        },
    decreases packages.len(),
{
    if packages.len() > 0 && packages.first().manifest_path != path {
        let rest = packages.drop_first();
        law_local_package_has_the_path(path, rest);
        match package_at(path, rest) {
            Some(package) => {
                let i = choose|i: int|
                    0 <= i < rest.len() && #[trigger] rest[i] == package && forall|j: int|
                        0 <= j < i ==> (#[trigger] rest[j]).manifest_path != path;
                assert(packages[i + 1] == package);
                assert forall|j: int| 0 <= j < i + 1 implies (
                #[trigger] packages[j]).manifest_path != path by {
                    if j > 0 {
                        assert(rest[j - 1] == packages[j]);
                    }
                }
            },
            None => {
                assert forall|i: int| 0 <= i < packages.len() implies (
                #[trigger] packages[i]).manifest_path != path by {
                    if i > 0 {
                        assert(rest[i - 1] == packages[i]);
                    }
                }
            },
        }
    } else if packages.len() > 0 {
        assert(packages[0].manifest_path == path);
    }
}

/// The changes of a run: a dry run is announced, then each package is named, and there is one change
/// for each package and each upgrade. There are no other steps.
pub proof fn law_upgrades_are_counted(
    packages: Seq<PackageModel>,
    upgrades: Seq<(DependencyModel, Seq<char>)>,
    dry_run: bool,
    skip_compatible: bool,
)
    ensures
        ({
            let steps = upgrade_steps(packages, upgrades, dry_run, skip_compatible);
            let shift: int = if dry_run {
                1
            } else {
                0
            };
            &&& steps.len() == packages.len() * (upgrades.len() + 1) + shift
            &&& dry_run ==> steps[0] == ActionModel::Show(dry_run_notice())
            &&& forall|p: int|
                0 <= p < packages.len() ==> steps[shift + p * (upgrades.len() + 1)]
                    == ActionModel::Heading((#[trigger] packages[p]).name.push(':'))
        }),
{
    let steps = upgrade_steps(packages, upgrades, dry_run, skip_compatible);
    let own = all_manifest_steps(packages, upgrades, dry_run, skip_compatible);
    let shift: int = if dry_run {
        1
    } else {
        0
    };
    if packages.len() > 0 {
        law_every_manifest_gets_every_upgrade(packages, upgrades, dry_run, skip_compatible, 0);
    } else {
        assert(packages.len() * (upgrades.len() + 1) == 0) by (nonlinear_arith)
            requires
                packages.len() == 0,
        ;
    }
    assert(steps.len() == own.len() + shift);
    assert forall|p: int| 0 <= p < packages.len() implies steps[shift + p * (upgrades.len() + 1)]
        == ActionModel::Heading((#[trigger] packages[p]).name.push(':')) by {
        law_every_manifest_gets_every_upgrade(packages, upgrades, dry_run, skip_compatible, p);
        assert(0 <= p * (upgrades.len() + 1)) by (nonlinear_arith)
            requires
                0 <= p,
        ;
        assert(steps[shift + p * (upgrades.len() + 1)] == own[p * (upgrades.len() + 1)]);
    }
}

/// Each manifest gets each upgrade, behind the name of its package and in the order of the upgrades.
/// The version is what stands in it before the first `+`.
pub proof fn law_each_upgrade_reaches_each_manifest(
    packages: Seq<PackageModel>,
    upgrades: Seq<(DependencyModel, Seq<char>)>,
    dry_run: bool,
    skip_compatible: bool,
    p: int,
    j: int,
)
    requires
        0 <= p < packages.len(),
        0 <= j < upgrades.len(),
    ensures
        ({
            let steps = upgrade_steps(packages, upgrades, dry_run, skip_compatible);
            let at = (if dry_run {
                1int
            } else {
                0
            }) + p * (upgrades.len() + 1) + 1 + j;
            &&& 0 <= at < steps.len()
            &&& steps[at] matches ActionModel::Upgrade(change)
            &&& change.manifest == p
            &&& change.name == upgrades[j].0.name
            &&& change.rename == upgrades[j].0.rename
            &&& change.dry_run == dry_run
            &&& change.skip_compatible == skip_compatible
            &&& !change.version.contains('+')
            &&& change.version == upgrades[j].1 || change.version.push('+').is_prefix_of(
                upgrades[j].1,
            )
        }),
{
    let steps = upgrade_steps(packages, upgrades, dry_run, skip_compatible);
    let own = all_manifest_steps(packages, upgrades, dry_run, skip_compatible);
    let shift: int = if dry_run {
        1
    } else {
        0
    };
    let first = p * (upgrades.len() + 1);
    law_every_manifest_gets_every_upgrade(packages, upgrades, dry_run, skip_compatible, p);
    assert(upgrades[j] == upgrades[j]);
    assert(0 <= first) by (nonlinear_arith)
        requires
            0 <= p,
            first == p * (upgrades.len() + 1),
    ;
    assert(steps[shift + first + 1 + j] == own[first + 1 + j]);
    let version = upgrades[j].1;
    law_text_is_cut_at_the_first(version, '+');
    if version.contains('+') {
        let core = before(version, '+');
        assert(core.push('+') =~= version.subrange(0, core.len() as int + 1));
    }
}

/// The index of each registry is brought up to date, and of nothing else. The registries are taken in
/// order, each once. Where the URL of one cannot be read, that is where the updates fail, and only
/// there.
pub proof fn law_indices_of_all_registries(desired: Seq<(DependencyModel, UpgradeModel)>)
    ensures
        ({
            let steps = index_updates(desired);
            let failed = steps.len() > 0 && steps.last() is Fail;
            &&& steps.len() <= registries(desired).len()
            &&& !failed ==> steps.len() == registries(desired).len()
            &&& forall|k: int|
                0 <= k < steps.len() ==> (#[trigger] steps[k]) == match url_text(
                    registries(desired)[k],
                ) {
                    Some(url) => ActionModel::UpdateIndex(url),
                    None => ActionModel::Fail(FailureModel::InvalidCargoConfig),
                }
            &&& forall|k: int| 0 <= k < steps.len() - 1 ==> (#[trigger] steps[k]) is UpdateIndex
            &&& failed <==> exists|i: int|
                0 <= i < desired.len() && (#[trigger] desired[i]).1.registry is Some && url_text(
                    desired[i].1.registry.unwrap(),
                ) is None
            &&& !failed ==> forall|i: int|
                0 <= i < desired.len() && (#[trigger] desired[i]).1.registry is Some
                    ==> steps.contains(
                    ActionModel::UpdateIndex(url_text(desired[i].1.registry.unwrap()).unwrap()),
                )
            &&& forall|k: int|
                0 <= k < steps.len() ==> exists|i: int|
                    0 <= i < desired.len() && (#[trigger] desired[i]).1.registry is Some
                        && #[trigger] steps[k] == match url_text(desired[i].1.registry.unwrap()) {
                        Some(url) => ActionModel::UpdateIndex(url),
                        None => ActionModel::Fail(FailureModel::InvalidCargoConfig),
                    }
        }),
{
    let names = registries(desired);
    let all = Seq::new(names.len(), |i: int| index_update(names[i]));
    let steps = index_updates(desired);
    let failed = steps.len() > 0 && steps.last() is Fail;
    lemma_until_failure(all);
    law_registries(desired);
    assert forall|k: int| 0 <= k < steps.len() implies (#[trigger] steps[k]) == match url_text(
        names[k],
    ) {
        Some(url) => ActionModel::UpdateIndex(url),
        None => ActionModel::Fail(FailureModel::InvalidCargoConfig),
    } by {
        assert(steps[k] == all[k]);
    }
    assert forall|k: int| 0 <= k < steps.len() implies exists|i: int|
        0 <= i < desired.len() && (#[trigger] desired[i]).1.registry is Some && #[trigger] steps[k]
            == match url_text(desired[i].1.registry.unwrap()) {
            Some(url) => ActionModel::UpdateIndex(url),
            None => ActionModel::Fail(FailureModel::InvalidCargoConfig),
        } by {
        assert(names.contains(names[k]));
        let i = choose|i: int|
            0 <= i < desired.len() && (#[trigger] desired[i]).1.registry == Some(names[k]);
        assert(desired[i].1.registry is Some);
    }
    if failed {
        let k = steps.len() - 1;
        assert(steps[k] is Fail);
    } else {
        assert forall|i: int| 0 <= i < desired.len() && (#[trigger] desired[i]).1.registry is Some
            implies url_text(desired[i].1.registry.unwrap()) is Some && steps.contains(
            ActionModel::UpdateIndex(url_text(desired[i].1.registry.unwrap()).unwrap()),
        ) by {
            let registry = desired[i].1.registry.unwrap();
            assert(names.contains(registry));
            let k = choose|k: int| 0 <= k < names.len() && names[k] == registry;
            assert(steps[k] is UpdateIndex) by {
                if k == steps.len() - 1 {
                    assert(steps.last() == steps[k]);
                }
            }
        }
    }
}

/// The question that is asked for a dependency that the user asked no version for: about its own
/// crate, with its own requirement, and in its own registry. Prereleases count where the user allows
/// them or the requirement speaks of one.
pub open spec fn is_question_for(
    step: ActionModel,
    dependency: DependencyModel,
    metadata: UpgradeModel,
    allow_prerelease: bool,
) -> bool {
    &&& step matches ActionModel::FindMinimal(query)
    &&& query.name == dependency.name
    &&& query.versionreq == metadata.versionreq
    &&& query.allow_prerelease == (allow_prerelease || metadata.is_prerelease)
    &&& match metadata.registry {
        Some(registry) => url_text(registry) is Some && query.registry == url_text(registry),
        None => query.registry is None,
    }
}

/// The lookups of more dependencies begin with the lookups of fewer, unless these fail.
proof fn lemma_lookups_step(desired: Seq<(DependencyModel, UpgradeModel)>, allow_prerelease: bool)
    requires
        desired.len() > 0,
    ensures
        ({
            let front = lookups(desired.drop_last(), allow_prerelease);
            let steps = lookups(desired, allow_prerelease);
            let (dependency, metadata) = desired.last();
            if fails(front) || metadata.version is Some {
                steps == front
            } else {
                &&& steps.len() == front.len() + 1
                &&& steps.drop_last() == front
                &&& match steps.last() {
                    ActionModel::Fail(failure) => {
                        &&& failure == FailureModel::InvalidCargoConfig
                        &&& metadata.registry matches Some(registry) && url_text(registry) is None
                    },
                    step => is_question_for(step, dependency, metadata, allow_prerelease),
                }
            }
        }),
{
    let front = all_lookups(desired.drop_last(), allow_prerelease);
    let all = all_lookups(desired, allow_prerelease);
    if desired.last().1.version is None {
        assert(all.drop_last() =~= front);
        if !fails(lookups(desired.drop_last(), allow_prerelease)) {
            assert(lookups(desired, allow_prerelease).drop_last() =~= lookups(
                desired.drop_last(),
                allow_prerelease,
            ));
        }
    }
}

/// A version is asked for each dependency that the user asked none for, and for no other: there are
/// as many questions as such dependencies. The lookups fail just where one of these has a registry
/// whose URL cannot be read.
pub proof fn law_all_missing_versions_are_looked_up(
    desired: Seq<(DependencyModel, UpgradeModel)>,
    allow_prerelease: bool,
)
    ensures
        ({
            let steps = lookups(desired, allow_prerelease);
            let failed = steps.len() > 0 && steps.last() is Fail;
            let missing = desired.filter(
                |entry: (DependencyModel, UpgradeModel)| entry.1.version is None,
            );
            &&& !failed ==> steps.len() == missing.len()
            &&& !failed ==> forall|q: int|
                0 <= q < steps.len() ==> is_question_for(
                    #[trigger] steps[q],
                    missing[q].0,
                    missing[q].1,
                    allow_prerelease,
                )
            &&& failed ==> steps.last() == ActionModel::Fail(FailureModel::InvalidCargoConfig)
            &&& forall|q: int| 0 <= q < steps.len() - 1 ==> (#[trigger] steps[q]) is FindMinimal
            &&& failed <==> exists|i: int|
                0 <= i < desired.len() && (#[trigger] desired[i]).1.version is None
                    && desired[i].1.registry is Some && url_text(
                    desired[i].1.registry.unwrap(),
                ) is None
        }),
    decreases desired.len(),
{
    reveal(Seq::filter);
    let steps = lookups(desired, allow_prerelease);
    let failed = steps.len() > 0 && steps.last() is Fail;
    if desired.len() > 0 {
        let most = desired.drop_last();
        let front = lookups(most, allow_prerelease);
        law_all_missing_versions_are_looked_up(most, allow_prerelease);
        lemma_lookups_step(desired, allow_prerelease);
        assert forall|i: int| 0 <= i < most.len() implies #[trigger] most[i] == desired[i] by {}
        if fails(front) {
            let i = choose|i: int|
                0 <= i < most.len() && (#[trigger] most[i]).1.version is None
                    && most[i].1.registry is Some && url_text(most[i].1.registry.unwrap()) is None;
            assert(desired[i].1.version is None);
        } else if failed {
            assert(desired[desired.len() - 1].1.version is None);
        } else {
            assert forall|i: int|
                0 <= i < desired.len() && (#[trigger] desired[i]).1.version is None
                    && desired[i].1.registry is Some implies url_text(
                desired[i].1.registry.unwrap(),
            ) is Some by {
                if i < most.len() {
                    assert(most[i] == desired[i]);
                }
            }
        }
        assert forall|q: int| 0 <= q < steps.len() - 1 implies (#[trigger] steps[q]) is FindMinimal
            by {
            if steps != front {
                assert(steps[q] == steps.drop_last()[q]);
                if q == front.len() - 1 {
                    assert(front.last() == front[q]);
                }
            }
        }
        if !failed && steps != front {
            assert forall|q: int| 0 <= q < front.len() implies #[trigger] steps[q] == front[q] by {
                assert(steps[q] == steps.drop_last()[q]);
            }
        }
    }
}

/// The dependencies keep their places when their versions are settled. One that the user asked a
/// version for gets it; the others get the versions that were found, in turn.
pub proof fn law_versions_are_settled_in_turn(
    desired: Seq<(DependencyModel, UpgradeModel)>,
    found: Seq<Seq<char>>,
)
    ensures
        settled(desired, found).len() == desired.len(),
        forall|i: int|
            0 <= i < desired.len() ==> (#[trigger] settled(desired, found)[i]).0 == desired[i].0,
        forall|i: int|
            0 <= i < desired.len() && desired[i].1.version is Some ==> (#[trigger] settled(
                desired,
                found,
            )[i]).1 == desired[i].1.version.unwrap(),
        forall|i: int|
            0 <= i < desired.len() && desired[i].1.version is None ==> (#[trigger] settled(
                desired,
                found,
            )[i]).1 == found[desired.take(i).filter(
                |entry: (DependencyModel, UpgradeModel)| entry.1.version is None,
            ).len() as int],
{
    assert forall|i: int| 0 <= i < desired.len() implies unsettled(
        #[trigger] desired.take(i),
    ) == desired.take(i).filter(
        |entry: (DependencyModel, UpgradeModel)| entry.1.version is None,
    ).len() by {
        lemma_unsettled_is_count(desired.take(i));
    }
}

/// The dependencies that the user asked no version for are counted.
proof fn lemma_unsettled_is_count(desired: Seq<(DependencyModel, UpgradeModel)>)
    ensures
        unsettled(desired) == desired.filter(
            |entry: (DependencyModel, UpgradeModel)| entry.1.version is None,
        ).len(),
    decreases desired.len(),
{
    reveal(Seq::filter);
    if desired.len() > 0 {
        lemma_unsettled_is_count(desired.drop_last());
    }
}

/// An insertion puts the value at its key and leaves all other pairs as and where they are. There is
/// one pair more just when the key is new.
pub proof fn law_insertion_changes_one_pair<K, V>(pairs: Seq<(K, V)>, key: K, value: V)
    ensures
        ({
            let next = upsert(pairs, key, value);
            let known = exists|i: int| 0 <= i < pairs.len() && (#[trigger] pairs[i]).0 == key;
            &&& next.len() == pairs.len() + if known {
                0int
            } else {
                1
            }
            &&& next.contains((key, value))
            &&& forall|i: int|
                0 <= i < pairs.len() ==> (#[trigger] next[i]) == if pairs[i].0 == key {
                    (key, value)
                } else {
                    pairs[i]
                }
        }),
{
    let next = upsert(pairs, key, value);
    if exists|i: int| 0 <= i < pairs.len() && (#[trigger] pairs[i]).0 == key {
        let i = choose|i: int| 0 <= i < pairs.len() && (#[trigger] pairs[i]).0 == key;
        assert(next[i] == (key, value));
    } else {
        assert(next[pairs.len() as int] == (key, value));
    }
}

/// Pairs stand for a map from each of their keys to the value that comes last with it.
pub proof fn law_pairs_stand_for_a_map<K, V>(pairs: Seq<(K, V)>)
    ensures
        forall|key: K| #[trigger]
            collected(pairs).dom().contains(key) <==> exists|i: int|
                0 <= i < pairs.len() && (#[trigger] pairs[i]).0 == key,
        forall|i: int|
            0 <= i < pairs.len() && (forall|j: int|
                i < j < pairs.len() ==> (#[trigger] pairs[j]).0 != pairs[i].0) ==> collected(
                pairs,
            )[(#[trigger] pairs[i]).0] == pairs[i].1,
{
    assert forall|key: K| #[trigger] collected(pairs).dom().contains(key) <==> exists|i: int|
        0 <= i < pairs.len() && (#[trigger] pairs[i]).0 == key by {
        lemma_collected_keys(pairs, key);
    }
    assert forall|i: int|
        0 <= i < pairs.len() && (forall|j: int|
            i < j < pairs.len() ==> (#[trigger] pairs[j]).0 != pairs[i].0) implies collected(
        pairs,
    )[(#[trigger] pairs[i]).0] == pairs[i].1 by {
        lemma_last_decides(pairs, i);
    }
}

/// The text that a message shows, without its colours.
pub open spec fn shown_text(pieces: Seq<PieceModel>) -> Seq<char>
    decreases pieces.len(),
{
    if pieces.len() == 0 {
        Seq::empty()
    } else {
        shown_text(pieces.drop_last()) + match pieces.last() {
            PieceModel::Text(text) => text,
            _ => Seq::empty(),
        }
    }
}

/// A warning shows its whole text as a line of its own, on the error stream. It is red from its start
/// on, and what follows it is plain.
pub proof fn law_warning_shows_its_text(text: Seq<char>)
    ensures
        deprecation(text).stream == Stream::Stderr,
        shown_text(deprecation(text).pieces) == text.push('\n'),
        deprecation(text).pieces.first() == PieceModel::SetColour(Colour::Red),
        deprecation(text).pieces.last() is ClearColour,
        forall|i: int|
            0 < i < deprecation(text).pieces.len() - 1 ==> (#[trigger] deprecation(text).pieces[i])
                is Text,
{
    let pieces = deprecation(text).pieces;
    reveal_with_fuel(shown_text, 4);
    assert(pieces.drop_last().last() == PieceModel::Text(text.push('\n')));
    assert(shown_text(pieces) =~= text.push('\n'));
}

/// A dry run is announced on the standard stream, in two sentences of one line. The first of them is
/// in colour.
pub proof fn law_dry_run_notice_is_one_line()
    ensures
        dry_run_notice().stream == Stream::Stdout,
        shown_text(dry_run_notice().pieces) == "Starting dry run. Changes will not be saved.\n"@,
        dry_run_notice().pieces.first() == PieceModel::SetColour(Colour::Cyan),
{
    let pieces = dry_run_notice().pieces;
    reveal_strlit("Starting dry run. ");
    reveal_strlit("Changes will not be saved.\n");
    reveal_strlit("Starting dry run. Changes will not be saved.\n");
    reveal_with_fuel(shown_text, 5);
    assert(pieces.drop_last().drop_last().drop_last().last() == pieces[0]);
    assert(pieces.drop_last().drop_last().last() == pieces[1]);
    assert(pieces.drop_last().last() == pieces[2]);
    assert(shown_text(pieces) =~= "Starting dry run. Changes will not be saved.\n"@);
}

/// What the user is told of a bad specifier is the same for all of them, and is told of nothing else.
pub proof fn law_bad_specifiers_are_reported_alike(a: Seq<char>, b: Seq<char>)
    ensures
        FailureModel::CrateSpec(a).message() == FailureModel::CrateSpec(b).message(),
        FailureModel::CrateSpec(a).message() != FailureModel::InvalidCargoConfig.message(),
        FailureModel::CrateSpec(a).message() != FailureModel::VirtualManifest.message(),
        FailureModel::InvalidCargoConfig.message() != FailureModel::VirtualManifest.message(),
{
    reveal_strlit("Invalid crate version requirement");
    reveal_strlit("Invalid cargo config");
    reveal_strlit(
        "Found virtual manifest, but this command requires running against an actual package in this workspace. Try adding `--workspace`.",
    );
    assert("Invalid crate version requirement"@.len() != "Invalid cargo config"@.len());
}

} // verus!
