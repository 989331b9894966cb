//! The dependencies that the user asked for.
use crate::failures::{Failure, FailureModel};
use crate::outside::{parse_as_version, version_req_text};
use crate::table::{lemma_collected_keys, Table};
use crate::text::{after, before};
use vstd::prelude::*;

verus! {

/// What a crate specifier asks for: a crate, by name, and the version it is to have. `docopt` asks
/// for no version; `docopt@0.8` asks for version `0.8`, and build metadata in the version (from the
/// first `+` on) is left out. There is nothing to ask for where the version is no version
/// requirement.
pub open spec fn crate_spec(spec: Seq<char>) -> Option<(Seq<char>, Option<Seq<char>>)> {
    if !spec.contains('@') {
        Some((spec, None))
    } else if version_req_text(after(spec, '@')) is Some {
        Some((before(spec, '@'), Some(before(after(spec, '@'), '+'))))
    } else {
        None
    }
}

/// The versions that the specifiers ask for, by the names of the crates: the last specifier for a
/// crate decides. The first specifier that asks for nothing is the error.
pub open spec fn requested(specs: Seq<Seq<char>>) -> Result<
    Map<Seq<char>, Option<Seq<char>>>,
    FailureModel,
>
    decreases specs.len(),
{
    if specs.len() == 0 {
        Ok(Map::empty())
    } else {
        match requested(specs.drop_last()) {
            Err(error) => Err(error),
            Ok(versions) => match crate_spec(specs.last()) {
                Some((name, version)) => Ok(versions.insert(name, version)),
                None => Err(FailureModel::CrateSpec(specs.last())),
            },
        }
    }
}

/// The names of the crates that the user asked for, each with the version it is to have, if the
/// user named one.
#[derive(Debug)]
pub struct Selection {
    versions: Table<String, Option<String>>,
}

impl View for Selection {
    type V = Map<Seq<char>, Option<Seq<char>>>;

    closed spec fn view(&self) -> Map<Seq<char>, Option<Seq<char>>> {
        self.versions@
    }
}

impl Selection {
    /// Each name has one version.
    pub closed spec fn wf(self) -> bool {
        self.versions.wf()
    }

    /// Nothing was asked for.
    pub fn new() -> (res: Selection)
        ensures
            res.wf(),
            res@ == Map::<Seq<char>, Option<Seq<char>>>::empty(),
    {
        Selection { versions: Table::new() }
    }

    /// Asks for `name` in `version`, in place of what was asked for `name` before.
    pub fn insert(&mut self, name: String, version: Option<String>)
        requires
            old(self).wf(),
        ensures
            final(self).wf(),
            final(self)@ == old(self)@.insert(name@, version.deep_view()),
    {
        self.versions.insert(name, version);
    }

    /// What was asked for `name`.
    pub fn get(&self, name: &String) -> (res: Option<&Option<String>>)
        requires
            self.wf(),
        ensures
            match res {
                Some(version) => self@.contains_key(name@) && self@[name@] == version.deep_view(),
                None => !self@.contains_key(name@),
            },
    {
        self.versions.get(name)
    }

    /// Whether nothing was asked for.
    pub fn is_empty(&self) -> (res: bool)
        ensures
            res == (self@ == Map::<Seq<char>, Option<Seq<char>>>::empty()),
    {
        let ghost pairs = self.versions.pairs();
        proof {
            if pairs.len() > 0 {
                lemma_collected_keys(pairs, pairs[0].0);
            }
        }
        self.versions.len() == 0
    }
}

/// Makes of a crate specifier, and of what was found in it, what it asks for.
pub fn crate_spec_entry(
    spec: String,
    found: Result<Option<(String, Option<String>)>, cargo_edit::Error>,
) -> (res: Result<(String, Option<String>), Failure>)
    ensures
        match found {
            Ok(Some(entry)) => res == Ok::<(String, Option<String>), Failure>(entry),
            Ok(None) => res == Ok::<(String, Option<String>), Failure>((spec, None)),
            Err(_) => res == Err::<(String, Option<String>), Failure>(Failure::CrateSpec(spec)),
        },
{
    match found {
        Ok(Some(entry)) => Ok(entry),
        Ok(None) => Ok((spec, None)),
        Err(_) => Err(Failure::CrateSpec(spec)),
    }
}

/// Reads a crate specifier.
pub fn parse_crate_spec(spec: String) -> (res: Result<(String, Option<String>), Failure>)
    ensures
        match res {
            Ok((name, version)) => crate_spec(spec@) == Some((name@, version.deep_view())),
            Err(error) => {
                &&& crate_spec(spec@) is None
                &&& error.deep_view() == FailureModel::CrateSpec(spec@)
            },
        },
{
    let found = parse_as_version(spec.as_str());
    crate_spec_entry(spec, found)
}

/// Reads the crate specifiers that the user gave.
pub fn parse_crate_specs(specs: &Vec<String>) -> (res: Result<Selection, Failure>)
    ensures
        match res {
            Ok(selection) => {
                &&& selection.wf()
                &&& requested(specs.deep_view()) == Ok::<_, FailureModel>(selection@)
            },
            Err(error) => requested(specs.deep_view()) == Err::<
                Map<Seq<char>, Option<Seq<char>>>,
                _,
            >(error.deep_view()),
        },
{
    let ghost all = specs.deep_view();
    let mut selection = Selection::new();
    let mut i: usize = 0;
    assert(all.take(0) =~= Seq::empty());
    while i < specs.len()
        invariant
            i <= specs.len(),
            all == specs.deep_view(),
            selection.wf(),
            requested(all.take(i as int)) == Ok::<_, FailureModel>(selection@),
        decreases specs.len() - i,
    {
        proof {
            assert(all.take(i + 1).drop_last() =~= all.take(i as int));
            assert(all.take(i + 1).last() == specs[i as int]@);
        }
        match parse_crate_spec(specs[i].clone()) {
            Ok((name, version)) => selection.insert(name, version),
            Err(error) => {
                proof {
                    lemma_requested_error(all, i + 1);
                }
                return Err(error);
            },
        }
        i = i + 1;
    }
    assert(all.take(i as int) =~= all);
    Ok(selection)
}

/// The error of the first specifiers is the error of all of them.
pub proof fn lemma_requested_error(specs: Seq<Seq<char>>, n: int)
    requires
        0 <= n <= specs.len(),
        requested(specs.take(n)) is Err,
    ensures
        requested(specs) == requested(specs.take(n)),
    decreases specs.len() - n,
{
    if n < specs.len() {
        assert(specs.take(n + 1).drop_last() =~= specs.take(n));
        lemma_requested_error(specs, n + 1);
    } else {
        assert(specs.take(n) =~= specs);
    }
}

} // verus!
