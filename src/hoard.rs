//! Hoards as they are declared, and their resolution against the current
//! environments into the piles that apply here.
use vstd::prelude::*;

use crate::pile_config::{is_layered, option_config, PileConfig};
use crate::resolver::{first_rejected, is_tie, none_holds, outcome_of_resolve, resolve, ResolveError};

verus! {

/// Errors that may occur while resolving a hoard.
#[derive(Debug, PartialEq, Eq)]
pub enum Error {
    /// Building or evaluating a pile's conditions failed.
    EnvTrie(ResolveError),
    /// Building or evaluating the conditions of the named member pile of a
    /// group failed.
    Member(String, ResolveError),
    /// Two member piles of a group have the same name; carries that name.
    DuplicateMember(String),
    /// Expanding environment variables in a resolved path failed; raised by
    /// the expansion step that follows resolution.
    ExpandEnv(String),
}

/// A single pile as declared: optional settings and its conditional paths
/// (condition key, path template).
#[derive(Debug, PartialEq, Eq)]
pub struct Pile {
    pub config: Option<PileConfig>,
    pub items: Vec<(String, String)>,
}

/// A set of named piles that share settings.
#[derive(Debug, PartialEq, Eq)]
pub struct MultipleEntries {
    pub config: Option<PileConfig>,
    pub items: Vec<(String, Pile)>,
}

/// A declared hoard: one anonymous pile or several named ones.
#[derive(Debug, PartialEq, Eq)]
pub enum Hoard {
    /// A single anonymous [`Pile`].
    Single(Pile),
    /// Multiple named [`Pile`]s.
    Multiple(MultipleEntries),
}

/// A pile resolved for the current environments: its settings and the path
/// template that applies here, if any.
#[derive(Debug, PartialEq, Eq)]
pub struct ResolvedPile {
    pub config: Option<PileConfig>,
    pub path: Option<String>,
}

/// Named piles resolved for the current environments.
#[derive(Debug, PartialEq, Eq)]
pub struct ResolvedMultiple {
    pub piles: Vec<(String, ResolvedPile)>,
}

/// A resolved hoard, of the same shape as the declared one.
#[derive(Debug, PartialEq, Eq)]
pub enum ResolvedHoard {
    Anonymous(ResolvedPile),
    Named(ResolvedMultiple),
}

/// Whether resolving the conditional paths `items` fails.
pub open spec fn resolution_fails(
    items: Seq<(String, String)>,
    groups: Seq<Vec<String>>,
    envs: Seq<(String, bool)>,
) -> bool {
    (exists|i: int| first_rejected(items, groups, i)) || (!none_holds(items, envs) && is_tie(
        items,
        envs,
    ))
}

/// The path (or the error) that resolving `items` gives, as [`outcome_of_resolve`] states it.
pub open spec fn path_outcome(
    items: Seq<(String, String)>,
    groups: Seq<Vec<String>>,
    envs: Seq<(String, bool)>,
    r: Result<ResolvedPile, Error>,
) -> bool {
    match r {
        Ok(p) => outcome_of_resolve(items, groups, envs, Ok(p.path)),
        Err(Error::EnvTrie(e)) => outcome_of_resolve(items, groups, envs, Err(e)),
        _ => false,
    }
}

/// What processing the pile `p` gives: its own settings, unchanged, and the
/// resolved path.
pub open spec fn pile_outcome(
    p: Pile,
    groups: Seq<Vec<String>>,
    envs: Seq<(String, bool)>,
    r: Result<ResolvedPile, Error>,
) -> bool {
    &&& path_outcome(p.items@, groups, envs, r)
    &&& r matches Ok(rp) ==> rp.config == p.config
}

/// What processing the member `p` of a group with settings `group` gives:
/// the group's settings layered under the member's, and the resolved path.
pub open spec fn member_outcome(
    p: Pile,
    group: Option<PileConfig>,
    groups: Seq<Vec<String>>,
    envs: Seq<(String, bool)>,
    r: Result<ResolvedPile, Error>,
) -> bool {
    &&& path_outcome(p.items@, groups, envs, r)
    &&& r matches Ok(rp) ==> is_layered(p.config, group, rp.config)
}

/// Whether member `i` of a group has the name of an earlier member.
pub open spec fn repeats_member_name(items: Seq<(String, Pile)>, i: int) -> bool {
    exists|j: int| 0 <= j < i && items[j].0@ == items[i].0@
}

/// Whether member `i` of a group is rejected: its name repeats an earlier
/// one, or resolving its paths fails.
pub open spec fn member_rejected(
    items: Seq<(String, Pile)>,
    groups: Seq<Vec<String>>,
    envs: Seq<(String, bool)>,
    i: int,
) -> bool {
    repeats_member_name(items, i) || resolution_fails(items[i].1.items@, groups, envs)
}

/// What processing the group `m` gives: every member resolved, in order and
/// under its name, or the error of the first rejected member: a repeated
/// name, or the member's name with its resolution error.
pub open spec fn group_outcome(
    m: MultipleEntries,
    groups: Seq<Vec<String>>,
    envs: Seq<(String, bool)>,
    r: Result<ResolvedMultiple, Error>,
) -> bool {
    let items = m.items@;
    match r {
        Ok(rm) => {
            &&& forall|i: int| 0 <= i < items.len() ==> !member_rejected(items, groups, envs, i)
            &&& rm.piles@.len() == items.len()
            &&& forall|i: int|
                0 <= i < items.len() ==> (#[trigger] rm.piles@[i]).0 == items[i].0
                    && member_outcome(items[i].1, m.config, groups, envs, Ok(rm.piles@[i].1))
        },
        Err(e) => exists|i: int|
            0 <= i < items.len() && member_rejected(items, groups, envs, i) && (forall|j: int|
                0 <= j < i ==> !member_rejected(items, groups, envs, j)) && if repeats_member_name(
                items,
                i,
            ) {
                e == Error::DuplicateMember(items[i].0)
            } else {
                e matches Error::Member(name, re) && name == items[i].0 && outcome_of_resolve(
                    items[i].1.items@,
                    groups,
                    envs,
                    Err(re),
                )
            },
    }
}

/// What processing the hoard `h` gives, of the same shape as `h`.
pub open spec fn hoard_outcome(
    h: Hoard,
    groups: Seq<Vec<String>>,
    envs: Seq<(String, bool)>,
    r: Result<ResolvedHoard, Error>,
) -> bool {
    match h {
        Hoard::Single(p) => match r {
            Ok(ResolvedHoard::Anonymous(rp)) => pile_outcome(p, groups, envs, Ok(rp)),
            Ok(ResolvedHoard::Named(_)) => false,
            Err(e) => pile_outcome(p, groups, envs, Err(e)),
        },
        Hoard::Multiple(m) => match r {
            Ok(ResolvedHoard::Named(rm)) => group_outcome(m, groups, envs, Ok(rm)),
            Ok(ResolvedHoard::Anonymous(_)) => false,
            Err(e) => group_outcome(m, groups, envs, Err(e)),
        },
    }
}

/// Resolving fails exactly when [`resolution_fails`] says so.
proof fn lemma_resolve_fails(
    items: Seq<(String, String)>,
    groups: Seq<Vec<String>>,
    envs: Seq<(String, bool)>,
    r: Result<Option<String>, ResolveError>,
)
    requires
        outcome_of_resolve(items, groups, envs, r),
    ensures
        r is Err <==> resolution_fails(items, groups, envs),
{
}

impl Pile {
    /// Resolves the path of this pile under the truth map `envs`, after
    /// checking its conditions against the exclusivity groups.
    pub fn process_with(self, envs: &Vec<(String, bool)>, exclusivity: &Vec<Vec<String>>) -> (r:
        Result<ResolvedPile, Error>)
        ensures
            pile_outcome(self, exclusivity@, envs@, r),
    {
        match resolve(&self.items, exclusivity, envs) {
            Ok(path) => Ok(ResolvedPile { config: self.config, path }),
            Err(e) => Err(Error::EnvTrie(e)),
        }
    }

    /// Layers the inherited settings `config` under this pile's own.
    pub fn layer_config(&mut self, config: Option<&PileConfig>)
        ensures
            is_layered(old(self).config, option_config(config), final(self).config),
            final(self).items == old(self).items,
    {
        PileConfig::layer_options(&mut self.config, config);
    }
}

/// Whether member `i` has the name of an earlier member.
fn name_repeats(items: &Vec<(String, Pile)>, i: usize) -> (r: bool)
    requires
        i < items@.len(),
    ensures
        r == repeats_member_name(items@, i as int),
{
    let mut j: usize = 0;
    while j < i
        invariant
            j <= i < items@.len(),
            forall|k: int| 0 <= k < j ==> items@[k].0@ != items@[i as int].0@,
        decreases i - j,
    {
        if items[j].0.eq(&items[i].0) {
            return true;
        }
        j = j + 1;
    }
    false
}

impl MultipleEntries {
    /// Resolves every member pile, each with the group's settings layered
    /// under its own; stops at the first member that repeats an earlier
    /// member's name or fails to resolve.
    pub fn process_with(self, envs: &Vec<(String, bool)>, exclusivity: &Vec<Vec<String>>) -> (r:
        Result<ResolvedMultiple, Error>)
        ensures
            group_outcome(self, exclusivity@, envs@, r),
    {
        let ghost items = self.items@;
        let mut piles: Vec<(String, ResolvedPile)> = Vec::new();
        let mut i: usize = 0;
        while i < self.items.len()
            invariant
                i <= items.len(),
                items == self.items@,
                piles@.len() == i,
                forall|j: int| 0 <= j < i ==> !member_rejected(items, exclusivity@, envs@, j),
                forall|j: int|
                    0 <= j < i ==> (#[trigger] piles@[j]).0 == items[j].0 && member_outcome(
                        items[j].1,
                        self.config,
                        exclusivity@,
                        envs@,
                        Ok(piles@[j].1),
                    ),
            decreases items.len() - i,
        {
            if name_repeats(&self.items, i) {
                proof {
                    assert(member_rejected(items, exclusivity@, envs@, i as int));
                }
                return Err(Error::DuplicateMember(self.items[i].0.clone()));
            }
            let mut config = PileConfig::duplicate_options(&self.items[i].1.config);
            PileConfig::layer_options(&mut config, self.config.as_ref());
            let out = resolve(&self.items[i].1.items, exclusivity, envs);
            proof {
                lemma_resolve_fails(items[i as int].1.items@, exclusivity@, envs@, out);
            }
            match out {
                Ok(path) => {
                    piles.push((self.items[i].0.clone(), ResolvedPile { config, path }));
                },
                Err(e) => {
                    proof {
                        assert(member_rejected(items, exclusivity@, envs@, i as int));
                    }
                    return Err(Error::Member(self.items[i].0.clone(), e));
                },
            }
            i = i + 1;
        }
        Ok(ResolvedMultiple { piles })
    }

    /// Layers the inherited settings `config` under this group's own.
    pub fn layer_config(&mut self, config: Option<&PileConfig>)
        ensures
            is_layered(old(self).config, option_config(config), final(self).config),
            final(self).items == old(self).items,
    {
        PileConfig::layer_options(&mut self.config, config);
    }
}

impl Hoard {
    /// Resolves the path(s) to use for this hoard: the anonymous pile, or
    /// each named pile with the group's settings layered under its own.
    pub fn process_with(self, envs: &Vec<(String, bool)>, exclusivity: &Vec<Vec<String>>) -> (r:
        Result<ResolvedHoard, Error>)
        ensures
            hoard_outcome(self, exclusivity@, envs@, r),
    {
        match self {
            Hoard::Single(single) => match single.process_with(envs, exclusivity) {
                Ok(p) => Ok(ResolvedHoard::Anonymous(p)),
                Err(e) => Err(e),
            },
            Hoard::Multiple(multiple) => match multiple.process_with(envs, exclusivity) {
                Ok(m) => Ok(ResolvedHoard::Named(m)),
                Err(e) => Err(e),
            },
        }
    }

    /// Layers the inherited settings `config` under this hoard's own.
    pub fn layer_config(&mut self, config: Option<&PileConfig>)
        ensures
            match (*old(self), *final(self)) {
                (Hoard::Single(a), Hoard::Single(b)) => is_layered(
                    a.config,
                    option_config(config),
                    b.config,
                ) && a.items == b.items,
                (Hoard::Multiple(a), Hoard::Multiple(b)) => is_layered(
                    a.config,
                    option_config(config),
                    b.config,
                ) && a.items == b.items,
                _ => false,
            },
    {
        match self {
            Hoard::Single(pile) => pile.layer_config(config),
            Hoard::Multiple(multi) => multi.layer_config(config),
        }
    }
}

} // verus!
