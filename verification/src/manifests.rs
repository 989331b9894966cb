//! The manifests that are worked on.
use crate::action::{Action, ActionModel, Change, ChangeModel};
use crate::failures::Failure;
use crate::message::{dry_run_message, dry_run_notice};
use crate::outside::dependency_version;
use crate::package::{
    copy_text, declared, is_version_dep, DeclaredDependency, DeclaredModel, Package, PackageModel,
};
use crate::selection::{parse_crate_specs, requested, Selection};
use crate::table::{upserted, Table};
use crate::text::before;
use crate::upgrades::{
    ActualUpgrades, Dependency, DependencyModel, DesiredUpgrades, UpgradeMetadata, UpgradeModel,
};
use vstd::prelude::*;

verus! {

/// What a declared dependency contributes to the upgrades. A dependency that comes from no registry
/// is passed over. Where the user asked for nothing, each dependency counts, under the name that
/// the manifest uses. Else those count that the user asked for, with the version asked for.
pub open spec fn candidate(
    dependency: DeclaredModel,
    selection: Map<Seq<char>, Option<Seq<char>>>,
) -> Option<(DependencyModel, UpgradeModel)> {
    if !dependency.is_version_dep() {
        None
    } else if selection == Map::<Seq<char>, Option<Seq<char>>>::empty() {
        Some(
            (
                DependencyModel { name: dependency.name, rename: dependency.rename },
                UpgradeModel {
                    registry: dependency.registry,
                    versionreq: dependency.req,
                    version: None,
                    is_prerelease: dependency.req.contains('-'),
                },
            ),
        )
    } else if selection.contains_key(dependency.name) {
        Some(
            (
                DependencyModel { name: dependency.name, rename: None },
                UpgradeModel {
                    registry: dependency.registry,
                    versionreq: dependency.req,
                    version: selection[dependency.name],
                    is_prerelease: dependency.req.contains('-'),
                },
            ),
        )
    } else {
        None
    }
}

/// What the declared dependencies contribute, one after another.
pub open spec fn candidates(
    dependencies: Seq<DeclaredModel>,
    selection: Map<Seq<char>, Option<Seq<char>>>,
) -> Seq<(DependencyModel, UpgradeModel)>
    decreases dependencies.len(),
{
    if dependencies.len() == 0 {
        Seq::empty()
    } else {
        let front = candidates(dependencies.drop_last(), selection);
        match candidate(dependencies.last(), selection) {
            Some(entry) => front.push(entry),
            None => front,
        }
    }
}

/// The upgrades that the packages need: of the dependencies that count as one, the last declared
/// decides.
pub open spec fn desired(
    packages: Seq<PackageModel>,
    selection: Map<Seq<char>, Option<Seq<char>>>,
) -> Seq<(DependencyModel, UpgradeModel)> {
    upserted(candidates(declared(packages), selection))
}

/// The first package whose manifest has this path.
pub open spec fn package_at(path: Seq<char>, packages: Seq<PackageModel>) -> Option<PackageModel>
    decreases packages.len(),
{
    if packages.len() == 0 {
        None
    } else if packages.first().manifest_path == path {
        Some(packages.first())
    } else {
        package_at(path, packages.drop_first())
    }
}

/// What is done to one manifest: its package is named, then each dependency gets its version,
/// without build metadata.
pub open spec fn manifest_steps(
    manifest: int,
    name: Seq<char>,
    upgrades: Seq<(DependencyModel, Seq<char>)>,
    dry_run: bool,
    skip_compatible: bool,
) -> Seq<ActionModel> {
    seq![ActionModel::Heading(name.push(':'))] + Seq::new(
        upgrades.len(),
        |i: int|
            ActionModel::Upgrade(
                ChangeModel {
                    manifest,
                    name: upgrades[i].0.name,
                    version: before(upgrades[i].1, '+'),
                    rename: upgrades[i].0.rename,
                    dry_run,
                    skip_compatible,
                },
            ),
    )
}

/// What is done to the manifests of the packages, one after another.
pub open spec fn all_manifest_steps(
    packages: Seq<PackageModel>,
    upgrades: Seq<(DependencyModel, Seq<char>)>,
    dry_run: bool,
    skip_compatible: bool,
) -> Seq<ActionModel>
    decreases packages.len(),
{
    if packages.len() == 0 {
        Seq::empty()
    } else {
        all_manifest_steps(packages.drop_last(), upgrades, dry_run, skip_compatible)
            + manifest_steps(
            packages.len() - 1,
            packages.last().name,
            upgrades,
            dry_run,
            skip_compatible,
        )
    }
}

/// The announcement of a dry run, if it is one.
pub open spec fn announcement(dry_run: bool) -> Seq<ActionModel> {
    if dry_run {
        seq![ActionModel::Show(dry_run_notice())]
    } else {
        Seq::empty()
    }
}

/// What is done to carry out the upgrades.
pub open spec fn upgrade_steps(
    packages: Seq<PackageModel>,
    upgrades: Seq<(DependencyModel, Seq<char>)>,
    dry_run: bool,
    skip_compatible: bool,
) -> Seq<ActionModel> {
    announcement(dry_run) + all_manifest_steps(packages, upgrades, dry_run, skip_compatible)
}

/// What a declared dependency contributes to the upgrades.
fn find_candidate(dependency: &DeclaredDependency, selection: &Selection) -> (res: Option<
    (Dependency, UpgradeMetadata),
>)
    requires
        selection.wf(),
    ensures
        res.deep_view() == candidate(dependency.deep_view(), selection@),
{
    if !is_version_dep(dependency) {
        return None;
    }
    let is_prerelease = dependency.req.is_prerelease();
    if selection.is_empty() {
        Some(
            (
                Dependency {
                    name: dependency.name.clone(),
                    rename: copy_text(&dependency.rename),
                },
                UpgradeMetadata {
                    registry: copy_text(&dependency.registry),
                    versionreq: dependency.req.clone(),
                    version: None,
                    is_prerelease,
                },
            ),
        )
    } else {
        match selection.get(&dependency.name) {
            Some(version) => Some(
                (
                    Dependency { name: dependency.name.clone(), rename: None },
                    UpgradeMetadata {
                        registry: copy_text(&dependency.registry),
                        versionreq: dependency.req.clone(),
                        version: copy_text(version),
                        is_prerelease,
                    },
                ),
            ),
            None => None,
        }
    }
}

/// The packages whose manifests are worked on.
#[derive(Debug)]
pub struct Manifests(pub Vec<Package>);

impl Manifests {
    /// The packages of the manifests.
    pub open spec fn packages(self) -> Seq<PackageModel> {
        self.0.deep_view()
    }

    /// The manifest at `path`, out of the packages of its workspace. Where none of them is there,
    /// the manifest belongs to no package.
    pub fn get_local_one(path: &String, packages: Vec<Package>) -> (res: Result<Manifests, Failure>)
        ensures
            match res {
                Ok(manifests) => {
                    &&& package_at(path@, packages.deep_view()) is Some
                    &&& manifests.packages() == seq![
                        package_at(path@, packages.deep_view())->0,
                    ]
                },
                Err(failure) => {
                    &&& package_at(path@, packages.deep_view()) is None
                    &&& failure == Failure::VirtualManifest
                },
            },
    {
        let ghost all = packages.deep_view();
        let mut found = packages;
        let mut i: usize = 0;
        assert(all.skip(0) =~= all);
        while i < found.len()
            invariant
                i <= found.len(),
                all == packages.deep_view(),
                all == found.deep_view(),
                package_at(path@, all) == package_at(path@, all.skip(i as int)),
            decreases found.len() - i,
        {
            assert(all.skip(i as int).drop_first() =~= all.skip(i + 1));
            assert(all.skip(i as int).first() == found[i as int].deep_view());
            if found[i].manifest_path == *path {
                let manifests = Manifests(vec![found.remove(i)]);
                assert(manifests.packages() =~= seq![all[i as int]]);
                return Ok(manifests);
            }
            i = i + 1;
        }
        Err(Failure::VirtualManifest)
    }

    /// The upgrades that the packages need, given what the user asked for.
    pub fn select_dependencies(&self, selection: &Selection) -> (res: DesiredUpgrades)
        requires
            selection.wf(),
        ensures
            res.0.wf(),
            res.0.pairs() == desired(self.packages(), selection@),
    {
        let ghost packages = self.packages();
        let mut table: Table<Dependency, UpgradeMetadata> = Table::new();
        let mut p: usize = 0;
        assert(packages.take(0) =~= Seq::empty());
        while p < self.0.len()
            invariant
                p <= self.0.len(),
                packages == self.packages(),
                selection.wf(),
                table.wf(),
                table.pairs() == desired(packages.take(p as int), selection@),
            decreases self.0.len() - p,
        {
            let package = &self.0[p];
            let ghost earlier = declared(packages.take(p as int));
            let ghost own = package.dependencies.deep_view();
            let mut d: usize = 0;
            assert(earlier + own.take(0) =~= earlier);
            while d < package.dependencies.len()
                invariant
                    d <= package.dependencies.len(),
                    own == package.dependencies.deep_view(),
                    selection.wf(),
                    table.wf(),
                    table.pairs() == upserted(candidates(earlier + own.take(d as int), selection@)),
                decreases package.dependencies.len() - d,
            {
                let ghost seen = earlier + own.take(d as int);
                let ghost next = earlier + own.take(d + 1);
                proof {
                    assert(next.drop_last() =~= seen);
                    assert(next.last() == package.dependencies[d as int].deep_view());
                }
                if let Some((dependency, metadata)) = find_candidate(
                    &package.dependencies[d],
                    selection,
                ) {
                    proof {
                        assert(candidates(next, selection@).drop_last() =~= candidates(
                            seen,
                            selection@,
                        ));
                    }
                    table.insert(dependency, metadata);
                }
                d = d + 1;
            }
            proof {
                assert(own.take(d as int) =~= own);
                assert(packages.take(p + 1).drop_last() =~= packages.take(p as int));
                assert(packages.take(p + 1).last() == package.deep_view());
            }
            p = p + 1;
        }
        assert(packages.take(p as int) =~= packages);
        DesiredUpgrades(table)
    }

    /// The upgrades that the packages need. Without crate specifiers all dependencies count, else
    /// those that are named, each in the version that its specifier asks for.
    pub fn get_dependencies(&self, only_update: &Vec<String>) -> (res: Result<
        DesiredUpgrades,
        Failure,
    >)
        ensures
            match requested(only_update.deep_view()) {
                Ok(selection) => {
                    &&& res matches Ok(upgrades)
                    &&& upgrades.0.wf()
                    &&& upgrades.0.pairs() == desired(self.packages(), selection)
                },
                Err(failure) => res matches Err(f) && f.deep_view() == failure,
            },
    {
        match parse_crate_specs(only_update) {
            Ok(selection) => Ok(self.select_dependencies(&selection)),
            Err(failure) => Err(failure),
        }
    }

    /// What is done to carry out the upgrades in the manifests.
    pub fn upgrade(
        &self,
        upgraded_deps: &ActualUpgrades,
        dry_run: bool,
        skip_compatible: bool,
    ) -> (res: Vec<Action>)
        ensures
            res.deep_view() == upgrade_steps(
                self.packages(),
                upgraded_deps.0.pairs(),
                dry_run,
                skip_compatible,
            ),
    {
        let ghost packages = self.packages();
        let ghost upgrades = upgraded_deps.0.pairs();
        let mut steps: Vec<Action> = Vec::new();
        if dry_run {
            steps.push(Action::Show(dry_run_message()));
        }
        assert(steps.deep_view() =~= announcement(dry_run));
        let mut p: usize = 0;
        assert(packages.take(0) =~= Seq::empty());
        assert(steps.deep_view() =~= announcement(dry_run) + Seq::<ActionModel>::empty());
        while p < self.0.len()
            invariant
                p <= self.0.len(),
                packages == self.packages(),
                upgrades == upgraded_deps.0.pairs(),
                steps.deep_view() == announcement(dry_run) + all_manifest_steps(
                    packages.take(p as int),
                    upgrades,
                    dry_run,
                    skip_compatible,
                ),
            decreases self.0.len() - p,
        {
            let ghost earlier = steps.deep_view();
            let ghost name = self.0[p as int].name@;
            let ghost own = manifest_steps(p as int, name, upgrades, dry_run, skip_compatible);
            steps.push(Action::Heading(self.0[p].name.clone().concat(":")));
            proof {
                reveal_strlit(":");
                assert(name + ":"@ =~= name.push(':'));
                assert(steps.deep_view() =~= earlier + own.take(1));
            }
            let mut d: usize = 0;
            while d < upgraded_deps.0.len()
                invariant
                    d <= upgrades.len(),
                    upgrades == upgraded_deps.0.pairs(),
                    own == manifest_steps(p as int, name, upgrades, dry_run, skip_compatible),
                    steps.deep_view() == earlier + own.take(d + 1),
                decreases upgrades.len() - d,
            {
                let ghost prior = steps.deep_view();
                let dependency = upgraded_deps.0.key(d);
                let version = dependency_version(
                    dependency.name.as_str(),
                    upgraded_deps.0.value(d).as_str(),
                );
                steps.push(
                    Action::Upgrade(
                        Change {
                            manifest: p,
                            name: dependency.name.clone(),
                            version: version.unwrap(),
                            rename: copy_text(&dependency.rename),
                            dry_run,
                            skip_compatible,
                        },
                    ),
                );
                proof {
                    assert(steps.deep_view() =~= prior.push(steps.deep_view().last()));
                    assert(steps.deep_view().last() == own[d + 1]);
                    assert(own.take(d + 2) =~= own.take(d + 1).push(own[d + 1]));
                    assert(steps.deep_view() =~= earlier + own.take(d + 2));
                }
                d = d + 1;
            }
            proof {
                assert(own.take(d + 1) =~= own);
                assert(packages.take(p + 1).drop_last() =~= packages.take(p as int));
                assert(packages.take(p + 1).last() == self.0[p as int].deep_view());
                assert(steps.deep_view() =~= announcement(dry_run) + all_manifest_steps(
                    packages.take(p + 1),
                    upgrades,
                    dry_run,
                    skip_compatible,
                ));
            }
            p = p + 1;
        }
        assert(packages.take(p as int) =~= packages);
        steps
    }
}

} // verus!
