//! The dependencies whose versions change.
use crate::action::{
    fails, lemma_until_failure, lemma_until_failure_stops, until_failure, Action, ActionModel, Query,
    QueryModel,
};
use crate::failures::{Failure, FailureModel};
use crate::outside::{parse_url, url_text};
use crate::package::{copy_text, VersionRequirement};
use crate::table::{distinct_keys, has_key, Key, Table};
use vstd::prelude::*;

verus! {

/// A dependency of the workspace.
#[derive(Debug)]
pub struct Dependency {
    /// The name of the crate.
    pub name: String,
    /// The name that the manifests use for the crate, where it is another.
    pub rename: Option<String>,
}

/// A `Dependency` as its texts.
pub struct DependencyModel {
    pub name: Seq<char>,
    pub rename: Option<Seq<char>>,
}

impl DeepView for Dependency {
    type V = DependencyModel;

    open spec fn deep_view(&self) -> DependencyModel {
        DependencyModel { name: self.name@, rename: self.rename.deep_view() }
    }
}

impl Key for Dependency {
    fn same_key(&self, other: &Dependency) -> (same: bool) {
        self.name == other.name && match (&self.rename, &other.rename) {
            (Some(a), Some(b)) => *a == *b,
            (None, None) => true,
            _ => false,
        }
    }
}

/// What is known of a dependency whose version is to change.
#[derive(Debug)]
pub struct UpgradeMetadata {
    /// The URL of the index of the registry, where it is not crates.io.
    pub registry: Option<String>,
    /// The versions that will do.
    pub versionreq: VersionRequirement,
    /// The version that the user asked for.
    pub version: Option<String>,
    /// Whether the requirement speaks of a prerelease.
    pub is_prerelease: bool,
}

/// An `UpgradeMetadata` as its texts.
pub struct UpgradeModel {
    pub registry: Option<Seq<char>>,
    pub versionreq: Seq<char>,
    pub version: Option<Seq<char>>,
    pub is_prerelease: bool,
}

impl DeepView for UpgradeMetadata {
    type V = UpgradeModel;

    open spec fn deep_view(&self) -> UpgradeModel {
        UpgradeModel {
            registry: self.registry.deep_view(),
            versionreq: self.versionreq.deep_view(),
            version: self.version.deep_view(),
            is_prerelease: self.is_prerelease,
        }
    }
}

/// The registries that the dependencies come from, other than crates.io: each once, in the order in
/// which they are mentioned first.
pub open spec fn registries(desired: Seq<(DependencyModel, UpgradeModel)>) -> Seq<Seq<char>>
    decreases desired.len(),
{
    if desired.len() == 0 {
        Seq::empty()
    } else {
        let front = registries(desired.drop_last());
        match desired.last().1.registry {
            Some(registry) => if front.contains(registry) {
                front
            } else {
                front.push(registry)
            },
            None => front,
        }
    }
}

/// The step that brings the index of a registry up to date. It fails where the URL cannot be read.
pub open spec fn index_update(registry: Seq<char>) -> ActionModel {
    match url_text(registry) {
        Some(url) => ActionModel::UpdateIndex(url),
        None => ActionModel::Fail(FailureModel::InvalidCargoConfig),
    }
}

/// The steps that bring the indices of the registries up to date.
pub open spec fn index_updates(desired: Seq<(DependencyModel, UpgradeModel)>) -> Seq<ActionModel> {
    let all = registries(desired);
    until_failure(Seq::new(all.len(), |i: int| index_update(all[i])))
}

/// The step that looks up the new version of a dependency. It fails where the URL of the registry
/// cannot be read. There is none where the user has asked for a version.
pub open spec fn lookup(
    dependency: DependencyModel,
    metadata: UpgradeModel,
    allow_prerelease: bool,
) -> Option<ActionModel> {
    let query = QueryModel {
        name: dependency.name,
        versionreq: metadata.versionreq,
        allow_prerelease: allow_prerelease || metadata.is_prerelease,
        registry: None,
    };
    if metadata.version is Some {
        None
    } else {
        match metadata.registry {
            None => Some(ActionModel::FindMinimal(query)),
            Some(registry) => match url_text(registry) {
                Some(url) => Some(
                    ActionModel::FindMinimal(QueryModel { registry: Some(url), ..query }),
                ),
                None => Some(ActionModel::Fail(FailureModel::InvalidCargoConfig)),
            },
        }
    }
}

/// The steps that look up the new versions of the dependencies, one after another, as if none
/// failed.
pub open spec fn all_lookups(
    desired: Seq<(DependencyModel, UpgradeModel)>,
    allow_prerelease: bool,
) -> Seq<ActionModel>
    decreases desired.len(),
{
    if desired.len() == 0 {
        Seq::empty()
    } else {
        let front = all_lookups(desired.drop_last(), allow_prerelease);
        match lookup(desired.last().0, desired.last().1, allow_prerelease) {
            Some(step) => front.push(step),
            None => front,
        }
    }
}

/// The steps that look up the new versions of the dependencies.
pub open spec fn lookups(
    desired: Seq<(DependencyModel, UpgradeModel)>,
    allow_prerelease: bool,
) -> Seq<ActionModel> {
    until_failure(all_lookups(desired, allow_prerelease))
}

/// For how many of the dependencies the user has asked for no version.
pub open spec fn unsettled(desired: Seq<(DependencyModel, UpgradeModel)>) -> nat
    decreases desired.len(),
{
    if desired.len() == 0 {
        0
    } else {
        unsettled(desired.drop_last()) + if desired.last().1.version is None {
            1nat
        } else {
            0
        }
    }
}

/// The new version of the dependency at `i`: the one that the user asked for, or else the one that
/// was found for it, where `found` holds the versions for those that the user asked no version for.
pub open spec fn new_version(
    desired: Seq<(DependencyModel, UpgradeModel)>,
    found: Seq<Seq<char>>,
    i: int,
) -> Seq<char> {
    match desired[i].1.version {
        Some(version) => version,
        None => found[unsettled(desired.take(i)) as int],
    }
}

/// The dependencies with their new versions.
pub open spec fn settled(
    desired: Seq<(DependencyModel, UpgradeModel)>,
    found: Seq<Seq<char>>,
) -> Seq<(DependencyModel, Seq<char>)> {
    Seq::new(desired.len(), |i: int| (desired[i].0, new_version(desired, found, i)))
}

/// A part of the dependencies has no more unsettled ones than all of them.
pub proof fn lemma_unsettled_take(desired: Seq<(DependencyModel, UpgradeModel)>, i: int)
    requires
        0 <= i < desired.len(),
    ensures
        unsettled(desired.take(i)) <= unsettled(desired),
        desired[i].1.version is None ==> unsettled(desired.take(i)) < unsettled(desired),
        unsettled(desired.take(i + 1)) == unsettled(desired.take(i)) + if desired[i].1.version is None {
            1nat
        } else {
            0
        },
    decreases desired.len(),
{
    assert(desired.take(i + 1).drop_last() =~= desired.take(i));
    if i == desired.len() - 1 {
        assert(desired.take(i + 1) =~= desired);
    } else {
        let front = desired.drop_last();
        lemma_unsettled_take(front, i);
        assert(front.take(i) =~= desired.take(i));
        assert(front.take(i + 1) =~= desired.take(i + 1));
    }
}

/// The step that brings an index up to date, given what was read of the URL of its registry.
pub fn index_update_step(url: Result<String, url::ParseError>) -> (res: Action)
    ensures
        match url {
            Ok(url) => res == Action::UpdateIndex(url),
            Err(_) => res == Action::Fail(Failure::InvalidCargoConfig),
        },
{
    match url {
        Ok(url) => Action::UpdateIndex(url),
        Err(_) => Action::Fail(Failure::InvalidCargoConfig),
    }
}

/// The step that looks up the new version of a dependency, given what was read of the URL of its
/// registry, if it has one.
pub fn lookup_step(
    dependency: &Dependency,
    metadata: &UpgradeMetadata,
    allow_prerelease: bool,
    url: Option<Result<String, url::ParseError>>,
) -> (res: Action)
    ensures
        match url {
            Some(Err(_)) => res == Action::Fail(Failure::InvalidCargoConfig),
            _ => {
                &&& res matches Action::FindMinimal(query)
                &&& query.deep_view() == (QueryModel {
                    name: dependency.name@,
                    versionreq: metadata.versionreq.deep_view(),
                    allow_prerelease: allow_prerelease || metadata.is_prerelease,
                    registry: match url {
                        Some(Ok(text)) => Some(text@),
                        _ => None,
                    },
                })
            },
        },
{
    let registry = match url {
        Some(Ok(text)) => Some(text),
        Some(Err(_)) => {
            return Action::Fail(Failure::InvalidCargoConfig);
        },
        None => None,
    };
    Action::FindMinimal(
        Query {
            name: dependency.name.clone(),
            versionreq: metadata.versionreq.clone(),
            allow_prerelease: allow_prerelease || metadata.is_prerelease,
            registry,
        },
    )
}

/// Whether a text is among others.
fn is_among(text: &String, others: &Vec<String>) -> (res: bool)
    ensures
        res == others.deep_view().contains(text@),
{
    let mut i: usize = 0;
    while i < others.len()
        invariant
            i <= others.len(),
            forall|j: int| 0 <= j < i ==> #[trigger] others.deep_view()[j] != text@,
        decreases others.len() - i,
    {
        if others[i] == *text {
            assert(others.deep_view()[i as int] == text@);
            return true;
        }
        i = i + 1;
    }
    false
}

/// The dependencies whose versions are to change.
#[derive(Debug)]
pub struct DesiredUpgrades(pub Table<Dependency, UpgradeMetadata>);

/// The dependencies whose versions change, each with its new version.
#[derive(Debug)]
pub struct ActualUpgrades(pub Table<Dependency, String>);

impl DesiredUpgrades {
    /// The registries that the dependencies come from, other than crates.io.
    pub fn registries(&self) -> (res: Vec<String>)
        ensures
            res.deep_view() == registries(self.0.pairs()),
    {
        let ghost desired = self.0.pairs();
        let mut res: Vec<String> = Vec::new();
        let mut i: usize = 0;
        assert(desired.take(0) =~= Seq::empty());
        assert(res.deep_view() =~= Seq::empty());
        while i < self.0.len()
            invariant
                i <= desired.len(),
                desired == self.0.pairs(),
                res.deep_view() == registries(desired.take(i as int)),
            decreases desired.len() - i,
        {
            let ghost earlier = res.deep_view();
            proof {
                assert(desired.take(i + 1).drop_last() =~= desired.take(i as int));
            }
            if let Some(registry) = &self.0.value(i).registry {
                if !is_among(registry, &res) {
                    res.push(registry.clone());
                    assert(res.deep_view() =~= earlier.push(registry@));
                }
            }
            i = i + 1;
        }
        assert(desired.take(i as int) =~= desired);
        res
    }

    /// The steps that bring the indices of the registries up to date.
    pub fn index_updates(&self) -> (res: Vec<Action>)
        ensures
            res.deep_view() == index_updates(self.0.pairs()),
    {
        let registries = self.registries();
        let ghost names = registries.deep_view();
        let ghost all = Seq::new(names.len(), |i: int| index_update(names[i]));
        let mut steps: Vec<Action> = Vec::new();
        let mut i: usize = 0;
        assert(all.take(0) =~= Seq::empty());
        assert(steps.deep_view() =~= Seq::empty());
        while i < registries.len()
            invariant
                i <= registries.len(),
                names == registries.deep_view(),
                names == crate::upgrades::registries(self.0.pairs()),
                all == Seq::new(names.len(), |i: int| index_update(names[i])),
                steps.deep_view() == until_failure(all.take(i as int)),
                !fails(steps.deep_view()),
            decreases registries.len() - i,
        {
            let ghost earlier = steps.deep_view();
            let step = index_update_step(parse_url(registries[i].as_str()));
            let failed = matches!(step, Action::Fail(_));
            steps.push(step);
            proof {
                assert(all.take(i + 1).drop_last() =~= all.take(i as int));
                assert(steps.deep_view() =~= earlier.push(all[i as int]));
            }
            if failed {
                proof {
                    lemma_until_failure_stops(all, i + 1);
                }
                return steps;
            }
            i = i + 1;
        }
        assert(all.take(i as int) =~= all);
        steps
    }

    /// The steps that look up the new versions.
    pub fn lookups(&self, allow_prerelease: bool) -> (res: Vec<Action>)
        ensures
            res.deep_view() == lookups(self.0.pairs(), allow_prerelease),
    {
        let ghost desired = self.0.pairs();
        let mut steps: Vec<Action> = Vec::new();
        let mut i: usize = 0;
        assert(desired.take(0) =~= Seq::empty());
        assert(steps.deep_view() =~= Seq::empty());
        while i < self.0.len()
            invariant
                i <= desired.len(),
                desired == self.0.pairs(),
                steps.deep_view() == lookups(desired.take(i as int), allow_prerelease),
                !fails(steps.deep_view()),
            decreases desired.len() - i,
        {
            let ghost earlier = steps.deep_view();
            proof {
                assert(desired.take(i + 1).drop_last() =~= desired.take(i as int));
            }
            let dependency = self.0.key(i);
            let metadata = self.0.value(i);
            if metadata.version.is_none() {
                let url = match &metadata.registry {
                    Some(registry) => Some(parse_url(registry.as_str())),
                    None => None,
                };
                let step = lookup_step(dependency, metadata, allow_prerelease, url);
                let failed = matches!(step, Action::Fail(_));
                steps.push(step);
                proof {
                    let front = all_lookups(desired.take(i as int), allow_prerelease);
                    let all = all_lookups(desired.take(i + 1), allow_prerelease);
                    assert(all.drop_last() =~= front);
                    assert(steps.deep_view() =~= earlier.push(all.last()));
                }
                if failed {
                    proof {
                        lemma_lookups_stop(desired, allow_prerelease, i + 1);
                    }
                    return steps;
                }
            }
            i = i + 1;
        }
        assert(desired.take(i as int) =~= desired);
        steps
    }

    /// The dependencies with their new versions: the version that the user asked for, or else the
    /// next of those that were found.
    pub fn get_upgraded(&self, found: &Vec<String>) -> (res: ActualUpgrades)
        requires
            self.0.wf(),
            found.len() == unsettled(self.0.pairs()),
        ensures
            res.0.wf(),
            res.0.pairs() == settled(self.0.pairs(), found.deep_view()),
    {
        let ghost desired = self.0.pairs();
        let ghost versions = found.deep_view();
        let mut table: Table<Dependency, String> = Table::new();
        let mut next: usize = 0;
        let mut i: usize = 0;
        assert(desired.take(0) =~= Seq::empty());
        assert(settled(desired, versions).take(0) =~= Seq::empty());
        while i < self.0.len()
            invariant
                i <= desired.len(),
                desired == self.0.pairs(),
                distinct_keys(desired),
                versions == found.deep_view(),
                versions.len() == unsettled(desired),
                next == unsettled(desired.take(i as int)),
                table.wf(),
                table.pairs() == settled(desired, versions).take(i as int),
            decreases desired.len() - i,
        {
            proof {
                lemma_unsettled_take(desired, i as int);
            }
            let dependency = self.0.key(i);
            let key = Dependency {
                name: dependency.name.clone(),
                rename: copy_text(&dependency.rename),
            };
            let ghost earlier = table.pairs();
            proof {
                if has_key(earlier, key.deep_view()) {
                    let j = choose|j: int|
                        0 <= j < earlier.len() && #[trigger] earlier[j].0 == key.deep_view();
                    assert(desired[j].0 != desired[i as int].0);
                }
            }
            match &self.0.value(i).version {
                Some(version) => table.insert(key, version.clone()),
                None => {
                    assert(next < found.len());
                    table.insert(key, found[next].clone());
                    next = next + 1;
                },
            }
            proof {
                assert(settled(desired, versions).take(i + 1) =~= earlier.push(
                    settled(desired, versions)[i as int],
                ));
            }
            i = i + 1;
        }
        assert(settled(desired, versions).take(i as int) =~= settled(desired, versions));
        ActualUpgrades(table)
    }
}

/// The lookups end with the first that fails.
pub proof fn lemma_lookups_stop(
    desired: Seq<(DependencyModel, UpgradeModel)>,
    allow_prerelease: bool,
    n: int,
)
    requires
        0 <= n <= desired.len(),
        fails(lookups(desired.take(n), allow_prerelease)),
    ensures
        lookups(desired, allow_prerelease) == lookups(desired.take(n), allow_prerelease),
    decreases desired.len() - n,
{
    if n < desired.len() {
        assert(desired.take(n + 1).drop_last() =~= desired.take(n));
        let front = all_lookups(desired.take(n), allow_prerelease);
        let all = all_lookups(desired.take(n + 1), allow_prerelease);
        if all != front {
            assert(all.drop_last() =~= front);
        }
        lemma_lookups_stop(desired, allow_prerelease, n + 1);
    } else {
        assert(desired.take(n) =~= desired);
    }
}

/// There are as many lookups as dependencies that the user asked no version for.
pub proof fn lemma_all_lookups_count(
    desired: Seq<(DependencyModel, UpgradeModel)>,
    allow_prerelease: bool,
)
    ensures
        all_lookups(desired, allow_prerelease).len() == unsettled(desired),
    decreases desired.len(),
{
    if desired.len() > 0 {
        lemma_all_lookups_count(desired.drop_last(), allow_prerelease);
    }
}

/// Where no lookup fails, there are as many as dependencies that the user asked no version for.
pub proof fn lemma_lookups_count(
    desired: Seq<(DependencyModel, UpgradeModel)>,
    allow_prerelease: bool,
)
    requires
        !fails(lookups(desired, allow_prerelease)),
    ensures
        lookups(desired, allow_prerelease) == all_lookups(desired, allow_prerelease),
        lookups(desired, allow_prerelease).len() == unsettled(desired),
{
    lemma_until_failure(all_lookups(desired, allow_prerelease));
    lemma_all_lookups_count(desired, allow_prerelease);
}

} // verus!
