//! The specificity resolver: picks, among a pile's conditional paths, the one
//! whose condition is the most specific match for the active environments.
use vstd::prelude::*;
use vstd::utf8::encode_utf8;

use vstd::slice::{slice_subrange, slice_to_vec};

use crate::bytes::{bytes_eq, SEPARATOR};

verus! {

/// `key[a..b]` is one of the `|`-separated segments of `key`.
pub open spec fn is_segment(key: Seq<u8>, a: int, b: int) -> bool {
    &&& 0 <= a <= b <= key.len()
    &&& (a == 0 || key[a - 1] == SEPARATOR)
    &&& (b == key.len() || key[b] == SEPARATOR)
    &&& forall|k: int| a <= k < b ==> key[k] != SEPARATOR
}

/// The set of environment names that a condition key (as UTF-8 bytes) lists.
pub open spec fn names_of(key: Seq<u8>) -> Set<Seq<u8>> {
    Set::new(
        |n: Seq<u8>|
            exists|a: int, b: int| is_segment(key, a, b) && key.subrange(a, b) == n,
    )
}

/// Whether a condition key has an empty segment (`""`, `"a|"`, `"a||b"`).
pub open spec fn has_empty_name(key: Seq<u8>) -> bool {
    exists|a: int| is_segment(key, a, a)
}

/// The names of an exclusivity group, as UTF-8 bytes.
pub open spec fn group_names(group: Seq<String>) -> Set<Seq<u8>> {
    Set::new(|n: Seq<u8>| exists|i: int| 0 <= i < group.len() && encode_utf8(group[i]@) == n)
}

/// Whether two distinct names of `names` belong to `group`.
pub open spec fn conflicts_with(names: Set<Seq<u8>>, group: Set<Seq<u8>>) -> bool {
    exists|x: Seq<u8>, y: Seq<u8>|
        x != y && names.contains(x) && names.contains(y) && group.contains(x) && group.contains(y)
}

/// A condition that names two environments of one exclusivity group can never hold.
pub open spec fn is_unreachable(names: Set<Seq<u8>>, groups: Seq<Vec<String>>) -> bool {
    exists|g: int| 0 <= g < groups.len() && conflicts_with(names, group_names(groups[g]@))
}

/// Whether the condition key `key` is rejected when building a resolver.
pub open spec fn key_rejected(key: Seq<char>, groups: Seq<Vec<String>>) -> bool {
    has_empty_name(encode_utf8(key)) || is_unreachable(names_of(encode_utf8(key)), groups)
}

/// Whether the environment `name` is marked active in the truth map.
/// Names missing from the map are inactive.
pub open spec fn is_active(envs: Seq<(String, bool)>, name: Seq<u8>) -> bool {
    exists|i: int| 0 <= i < envs.len() && envs[i].1 && encode_utf8(envs[i].0@) == name
}

/// The set of active environment names of a truth map.
pub open spec fn active_names(envs: Seq<(String, bool)>) -> Set<Seq<u8>> {
    Set::new(|n: Seq<u8>| is_active(envs, n))
}

/// A condition matches when every name in it is active.
pub open spec fn condition_holds(names: Set<Seq<u8>>, envs: Seq<(String, bool)>) -> bool {
    names.subset_of(active_names(envs))
}

/// Why building or evaluating a resolver failed.
#[derive(Debug, PartialEq, Eq)]
pub enum ResolveError {
    /// The condition key has an empty environment name.
    EmptyCondition(String),
    /// The condition key names two environments of one exclusivity group.
    UnreachableCondition(String),
    /// Two matching conditions are equally specific and no other is more specific.
    AmbiguousMatch(String, String),
}

/// One parsed condition with the path it guards.
pub struct Condition {
    pub key: String,
    pub names: Vec<Vec<u8>>,
    pub path: String,
}

/// The names of a parsed condition, as byte sequences.
pub open spec fn names_view(names: Seq<Vec<u8>>) -> Seq<Seq<u8>> {
    names.map_values(|v: Vec<u8>| v@)
}

impl Condition {
    pub open spec fn name_set(&self) -> Set<Seq<u8>> {
        names_of(encode_utf8(self.key@))
    }

    /// Specificity: the number of distinct names.
    pub open spec fn size(&self) -> nat {
        self.name_set().len()
    }

    pub open spec fn wf(&self) -> bool {
        &&& names_view(self.names@).no_duplicates()
        &&& names_view(self.names@).to_set() == self.name_set()
    }
}

/// A resolver built from one pile's conditional paths.
pub struct Resolver {
    pub conditions: Vec<Condition>,
}

/// The names of the condition of entry `i` of `items` (condition key, path).
pub open spec fn entry_names(items: Seq<(String, String)>, i: int) -> Set<Seq<u8>> {
    names_of(encode_utf8(items[i].0@))
}

/// Whether the condition of entry `i` holds under `envs`.
pub open spec fn entry_holds(items: Seq<(String, String)>, envs: Seq<(String, bool)>, i: int) -> bool {
    condition_holds(entry_names(items, i), envs)
}

/// Whether entry `i` is a match of the greatest specificity among `items`.
pub open spec fn is_best(items: Seq<(String, String)>, envs: Seq<(String, bool)>, i: int) -> bool {
    &&& 0 <= i < items.len()
    &&& entry_holds(items, envs, i)
    &&& forall|j: int|
        0 <= j < items.len() && entry_holds(items, envs, j) ==> entry_names(items, j).len()
            <= entry_names(items, i).len()
}

/// Whether entry `i` is the only match of the greatest specificity.
pub open spec fn is_sole_best(items: Seq<(String, String)>, envs: Seq<(String, bool)>, i: int) -> bool {
    &&& is_best(items, envs, i)
    &&& forall|j: int|
        0 <= j < items.len() && j != i && entry_holds(items, envs, j) ==> entry_names(items, j).len()
            < entry_names(items, i).len()
}

/// Whether no entry of `items` matches.
pub open spec fn none_holds(items: Seq<(String, String)>, envs: Seq<(String, bool)>) -> bool {
    forall|i: int| 0 <= i < items.len() ==> !entry_holds(items, envs, i)
}

/// Whether two distinct entries tie for the greatest specificity.
pub open spec fn is_tie(items: Seq<(String, String)>, envs: Seq<(String, bool)>) -> bool {
    exists|i: int, j: int| i != j && is_best(items, envs, i) && is_best(items, envs, j)
}

/// Appends `x` to `names` unless it is there already.
fn push_unique(names: &mut Vec<Vec<u8>>, x: Vec<u8>)
    requires
        names_view(old(names)@).no_duplicates(),
    ensures
        names_view(final(names)@).no_duplicates(),
        names_view(final(names)@).to_set() == names_view(old(names)@).to_set().insert(x@),
{
    broadcast use vstd::seq_lib::group_seq_properties;

    let ghost before = names_view(names@);
    let mut i: usize = 0;
    while i < names.len()
        invariant
            i <= names@.len(),
            names_view(names@) == before,
            before.no_duplicates(),
            forall|k: int| 0 <= k < i ==> names@[k]@ != x@,
        decreases names@.len() - i,
    {
        if bytes_eq(names[i].as_slice(), x.as_slice()) {
            assert(before[i as int] == x@);
            assert(before.to_set() =~= before.to_set().insert(x@));
            return;
        }
        i = i + 1;
    }
    names.push(x);
    proof {
        let after = names_view(names@);
        assert(after =~= before.push(x@));
        assert(!before.contains(x@)) by {
            if before.contains(x@) {
                let k = choose|k: int| 0 <= k < before.len() && before[k] == x@;
                assert(names@[k]@ == x@);
            }
        }
        assert(after.to_set() =~= before.to_set().insert(x@));
    }
}

/// A run without separators that starts after a separator (or at 0) and
/// stops at a separator (or at the end) is a segment, and the only one
/// ending within it.
proof fn lemma_segment_closed(key: Seq<u8>, start: int, e: int)
    requires
        0 <= start <= e <= key.len(),
        start == 0 || key[start - 1] == SEPARATOR,
        e == key.len() || key[e] == SEPARATOR,
        forall|k: int| start <= k < e ==> key[k] != SEPARATOR,
    ensures
        is_segment(key, start, e),
        forall|a: int, b: int| is_segment(key, a, b) && start <= b <= e ==> a == start && b == e,
{
    assert forall|a: int, b: int| is_segment(key, a, b) && start <= b <= e implies a == start
        && b == e by {
        if b < e {
            assert(key[b] == SEPARATOR);
        }
        if a < start {
            assert(key[start - 1] != SEPARATOR);
        }
        if a > start {
            assert(key[a - 1] == SEPARATOR);
        }
    }
}

/// Splits a condition key into its distinct names; `None` when a name is empty.
fn parse_names(key: &[u8]) -> (r: Option<Vec<Vec<u8>>>)
    ensures
        r is None <==> has_empty_name(key@),
        r matches Some(names) ==> names_view(names@).no_duplicates() && names_view(names@).to_set()
            == names_of(key@),
{
    let mut names: Vec<Vec<u8>> = Vec::new();
    let mut start: usize = 0;
    let mut i: usize = 0;
    proof {
        assert(names_view(names@) =~= Seq::<Seq<u8>>::empty());
    }
    while i < key.len()
        invariant
            start <= i <= key@.len(),
            start == 0 || key@[start - 1] == SEPARATOR,
            forall|k: int| start <= k < i ==> key@[k] != SEPARATOR,
            forall|a: int, b: int| is_segment(key@, a, b) && b < start ==> a < b,
            names_view(names@).no_duplicates(),
            forall|n: Seq<u8>|
                names_view(names@).to_set().contains(n) <==> (exists|a: int, b: int|
                    is_segment(key@, a, b) && b < start && key@.subrange(a, b) == n),
        decreases key@.len() - i,
    {
        if key[i] == SEPARATOR {
            proof {
                lemma_segment_closed(key@, start as int, i as int);
            }
            if i == start {
                return None;
            }
            let seg = slice_to_vec(slice_subrange(key, start, i));
            let ghost before = names_view(names@).to_set();
            push_unique(&mut names, seg);
            proof {
                assert forall|n: Seq<u8>|
                    names_view(names@).to_set().contains(n) <==> (exists|a: int, b: int|
                        is_segment(key@, a, b) && b < i + 1 && key@.subrange(a, b) == n) by {
                    if names_view(names@).to_set().contains(n) && !before.contains(n) {
                        assert(is_segment(key@, start as int, i as int));
                    }
                }
            }
            start = i + 1;
        }
        i = i + 1;
    }
    proof {
        lemma_segment_closed(key@, start as int, key@.len() as int);
    }
    if start == key.len() {
        return None;
    }
    let seg = slice_to_vec(slice_subrange(key, start, key.len()));
    let ghost before = names_view(names@).to_set();
    push_unique(&mut names, seg);
    proof {
        assert forall|n: Seq<u8>|
            names_view(names@).to_set().contains(n) <==> names_of(key@).contains(n) by {
            if names_view(names@).to_set().contains(n) && !before.contains(n) {
                assert(is_segment(key@, start as int, key@.len() as int));
            }
        }
        assert(names_view(names@).to_set() =~= names_of(key@));
    }
    Some(names)
}

/// Whether `name` is one of the names of `group`.
fn in_group(name: &[u8], group: &Vec<String>) -> (r: bool)
    ensures
        r == group_names(group@).contains(name@),
{
    let mut i: usize = 0;
    while i < group.len()
        invariant
            i <= group@.len(),
            forall|k: int| 0 <= k < i ==> encode_utf8(group@[k]@) != name@,
        decreases group@.len() - i,
    {
        if bytes_eq(group[i].as_str().as_bytes(), name) {
            return true;
        }
        i = i + 1;
    }
    false
}

/// Whether two distinct names of a parsed condition belong to `group`.
fn conflicts(names: &Vec<Vec<u8>>, group: &Vec<String>) -> (r: bool)
    requires
        names_view(names@).no_duplicates(),
    ensures
        r == conflicts_with(names_view(names@).to_set(), group_names(group@)),
{
    let ghost nv = names_view(names@);
    let ghost gs = group_names(group@);
    let mut found: Option<usize> = None;
    let mut i: usize = 0;
    while i < names.len()
        invariant
            i <= names@.len(),
            nv == names_view(names@),
            nv.no_duplicates(),
            gs == group_names(group@),
            found is None ==> forall|k: int| 0 <= k < i ==> !gs.contains(nv[k]),
            found matches Some(f) ==> f < i && gs.contains(nv[f as int]) && forall|k: int|
                0 <= k < i && k != f ==> !gs.contains(nv[k]),
        decreases names@.len() - i,
    {
        if in_group(names[i].as_slice(), group) {
            match found {
                Some(f) => {
                    proof {
                        assert(nv[f as int] != nv[i as int]);
                        assert(nv.to_set().contains(nv[f as int]));
                        assert(nv.to_set().contains(nv[i as int]));
                    }
                    return true;
                },
                None => {
                    found = Some(i);
                },
            }
        }
        i = i + 1;
    }
    proof {
        if conflicts_with(nv.to_set(), gs) {
            let (x, y) = choose|x: Seq<u8>, y: Seq<u8>|
                x != y && nv.to_set().contains(x) && nv.to_set().contains(y) && gs.contains(x)
                    && gs.contains(y);
            let kx = choose|k: int| 0 <= k < nv.len() && nv[k] == x;
            let ky = choose|k: int| 0 <= k < nv.len() && nv[k] == y;
            assert(nv.contains(x));
            assert(nv.contains(y));
        }
    }
    false
}

/// Whether condition `names` names two environments of one exclusivity group.
fn unreachable(names: &Vec<Vec<u8>>, groups: &Vec<Vec<String>>) -> (r: bool)
    requires
        names_view(names@).no_duplicates(),
    ensures
        r == is_unreachable(names_view(names@).to_set(), groups@),
{
    let mut g: usize = 0;
    while g < groups.len()
        invariant
            g <= groups@.len(),
            names_view(names@).no_duplicates(),
            forall|k: int|
                0 <= k < g ==> !conflicts_with(names_view(names@).to_set(), group_names(groups@[k]@)),
        decreases groups@.len() - g,
    {
        if conflicts(names, &groups[g]) {
            return true;
        }
        g = g + 1;
    }
    false
}

/// Whether `name` is marked active in `envs`.
fn active(name: &[u8], envs: &Vec<(String, bool)>) -> (r: bool)
    ensures
        r == is_active(envs@, name@),
{
    let mut i: usize = 0;
    while i < envs.len()
        invariant
            i <= envs@.len(),
            forall|k: int| 0 <= k < i ==> !(envs@[k].1 && encode_utf8(envs@[k].0@) == name@),
        decreases envs@.len() - i,
    {
        if envs[i].1 && bytes_eq(envs[i].0.as_str().as_bytes(), name) {
            return true;
        }
        i = i + 1;
    }
    false
}

impl Condition {
    /// Whether every name of this condition is active.
    fn holds(&self, envs: &Vec<(String, bool)>) -> (r: bool)
        requires
            self.wf(),
        ensures
            r == condition_holds(self.name_set(), envs@),
    {
        let ghost nv = names_view(self.names@);
        let mut i: usize = 0;
        while i < self.names.len()
            invariant
                i <= self.names@.len(),
                nv == names_view(self.names@),
                self.wf(),
                forall|k: int| 0 <= k < i ==> is_active(envs@, nv[k]),
            decreases self.names@.len() - i,
        {
            if !active(self.names[i].as_slice(), envs) {
                proof {
                    assert(nv[i as int] == self.names@[i as int]@);
                    assert(nv.to_set().contains(nv[i as int]));
                    assert(self.name_set().contains(nv[i as int]));
                    assert(!active_names(envs@).contains(nv[i as int]));
                }
                return false;
            }
            i = i + 1;
        }
        proof {
            assert forall|n: Seq<u8>| self.name_set().contains(n) implies active_names(
                envs@,
            ).contains(n) by {
                assert(nv.contains(n));
            }
        }
        true
    }

    /// The number of distinct names of this condition.
    fn specificity(&self) -> (r: usize)
        requires
            self.wf(),
        ensures
            r == self.size(),
    {
        proof {
            names_view(self.names@).unique_seq_to_set();
        }
        self.names.len()
    }
}

/// Entry `j` is the first entry before entry `i` with the same set of names.
pub open spec fn first_repeated(items: Seq<(String, String)>, i: int, j: int) -> bool {
    &&& 0 <= j < i
    &&& entry_names(items, j) == entry_names(items, i)
    &&& forall|m: int| 0 <= m < j ==> entry_names(items, m) != entry_names(items, i)
}

/// Whether entry `i` has the same set of names as an earlier entry (two
/// spellings of one condition, or one key given twice).
pub open spec fn repeats_earlier(items: Seq<(String, String)>, i: int) -> bool {
    exists|j: int| 0 <= j < i && entry_names(items, j) == entry_names(items, i)
}

/// Whether entry `i` is rejected when building a resolver: its key has an
/// empty name, names two exclusive environments, or repeats the names of an
/// earlier entry.
pub open spec fn entry_rejected(items: Seq<(String, String)>, groups: Seq<Vec<String>>, i: int) -> bool {
    key_rejected(items[i].0@, groups) || repeats_earlier(items, i)
}

/// What building a resolver reports for the rejected entry `i`.
pub open spec fn rejection_of(
    e: ResolveError,
    items: Seq<(String, String)>,
    groups: Seq<Vec<String>>,
    i: int,
) -> bool {
    let key = items[i].0@;
    match e {
        ResolveError::EmptyCondition(k) => k@ == key && has_empty_name(encode_utf8(key)),
        ResolveError::UnreachableCondition(k) => k@ == key && !has_empty_name(encode_utf8(key))
            && is_unreachable(names_of(encode_utf8(key)), groups),
        ResolveError::AmbiguousMatch(k1, k2) => !key_rejected(key, groups) && k2 == items[i].0
            && exists|j: int| first_repeated(items, i, j) && k1 == items[j].0,
    }
}

/// Whether `x` is one of `names`.
fn contains_name(names: &Vec<Vec<u8>>, x: &[u8]) -> (r: bool)
    ensures
        r == names_view(names@).contains(x@),
{
    let mut i: usize = 0;
    while i < names.len()
        invariant
            i <= names@.len(),
            forall|k: int| 0 <= k < i ==> names@[k]@ != x@,
        decreases names@.len() - i,
    {
        if bytes_eq(names[i].as_slice(), x) {
            assert(names_view(names@)[i as int] == x@);
            return true;
        }
        i = i + 1;
    }
    proof {
        if names_view(names@).contains(x@) {
            let k = choose|k: int| 0 <= k < names@.len() && names_view(names@)[k] == x@;
            assert(names@[k]@ == x@);
        }
    }
    false
}

/// Whether every name of `a` is one of `b`.
fn names_within(a: &Vec<Vec<u8>>, b: &Vec<Vec<u8>>) -> (r: bool)
    ensures
        r == names_view(a@).to_set().subset_of(names_view(b@).to_set()),
{
    let mut i: usize = 0;
    while i < a.len()
        invariant
            i <= a@.len(),
            forall|k: int| 0 <= k < i ==> names_view(b@).contains(#[trigger] names_view(a@)[k]),
        decreases a@.len() - i,
    {
        assert(names_view(a@)[i as int] == a@[i as int]@);
        if !contains_name(b, a[i].as_slice()) {
            assert(names_view(a@).to_set().contains(names_view(a@)[i as int]));
            return false;
        }
        i = i + 1;
    }
    proof {
        assert forall|x: Seq<u8>| names_view(a@).to_set().contains(x) implies names_view(
            b@,
        ).to_set().contains(x) by {
            let k = choose|k: int| 0 <= k < names_view(a@).len() && names_view(a@)[k] == x;
        }
    }
    true
}

/// Whether `a` and `b` hold the same names.
fn same_names(a: &Vec<Vec<u8>>, b: &Vec<Vec<u8>>) -> (r: bool)
    ensures
        r == (names_view(a@).to_set() == names_view(b@).to_set()),
{
    let r = names_within(a, b) && names_within(b, a);
    proof {
        if r {
            assert(names_view(a@).to_set() =~= names_view(b@).to_set());
        }
    }
    r
}

/// The entries (condition key, path) of a list of parsed conditions.
pub open spec fn entries_of(conds: Seq<Condition>) -> Seq<(String, String)> {
    conds.map_values(|c: Condition| (c.key, c.path))
}

impl Resolver {
    pub open spec fn wf(&self) -> bool {
        forall|i: int| 0 <= i < self.conditions@.len() ==> #[trigger] self.conditions@[i].wf()
    }

    /// The (condition key, path) entries this resolver was built from.
    pub open spec fn entries(&self) -> Seq<(String, String)> {
        entries_of(self.conditions@)
    }

    /// Parses every condition key of `items` and checks it against the
    /// exclusivity groups. Fails on the first entry, in order, whose key has
    /// an empty name, names two environments of one group, or lists the same
    /// names as an earlier key (reported as an `AmbiguousMatch` of the two).
    pub fn new(items: &Vec<(String, String)>, exclusivity: &Vec<Vec<String>>) -> (r: Result<
        Resolver,
        ResolveError,
    >)
        ensures
            r is Ok <==> forall|i: int|
                0 <= i < items@.len() ==> !entry_rejected(items@, exclusivity@, i),
            r matches Ok(res) ==> res.wf() && res.entries() == items@,
            r matches Err(e) ==> exists|i: int|
                first_rejected(items@, exclusivity@, i) && rejection_of(e, items@, exclusivity@, i),
    {
        let mut conditions: Vec<Condition> = Vec::new();
        let mut i: usize = 0;
        while i < items.len()
            invariant
                i <= items@.len(),
                conditions@.len() == i,
                forall|j: int| 0 <= j < i ==> !entry_rejected(items@, exclusivity@, j),
                forall|j: int| 0 <= j < i ==> (#[trigger] conditions@[j]).wf(),
                entries_of(conditions@) == items@.subrange(0, i as int),
            decreases items@.len() - i,
        {
            let key = &items[i].0;
            match parse_names(key.as_str().as_bytes()) {
                None => {
                    proof {
                        assert(key_rejected(items@[i as int].0@, exclusivity@));
                        assert(first_rejected(items@, exclusivity@, i as int));
                    }
                    return Err(ResolveError::EmptyCondition(key.clone()));
                },
                Some(names) => {
                    if unreachable(&names, exclusivity) {
                        proof {
                            assert(key_rejected(items@[i as int].0@, exclusivity@));
                            assert(first_rejected(items@, exclusivity@, i as int));
                        }
                        return Err(ResolveError::UnreachableCondition(key.clone()));
                    }
                    assert(!key_rejected(items@[i as int].0@, exclusivity@));
                    let ghost here = entry_names(items@, i as int);
                    let mut j: usize = 0;
                    while j < conditions.len()
                        invariant
                            j <= conditions@.len(),
                            conditions@.len() == i,
                            i < items@.len(),
                            here == entry_names(items@, i as int),
                            names_view(names@).to_set() == here,
                            forall|m: int| 0 <= m < i ==> (#[trigger] conditions@[m]).wf(),
                            entries_of(conditions@) == items@.subrange(0, i as int),
                            forall|m: int| 0 <= m < j ==> entry_names(items@, m) != here,
                            forall|m: int| 0 <= m < i ==> !entry_rejected(items@, exclusivity@, m),
                            !key_rejected(items@[i as int].0@, exclusivity@),
                            *key == items@[i as int].0,
                        decreases conditions@.len() - j,
                    {
                        assert(entries_of(conditions@)[j as int] == items@[j as int]);
                        assert(conditions@[j as int].wf());
                        if same_names(&conditions[j].names, &names) {
                            proof {
                                assert(first_repeated(items@, i as int, j as int));
                                assert(repeats_earlier(items@, i as int));
                                assert(first_rejected(items@, exclusivity@, i as int));
                            }
                            let earlier = conditions[j].key.clone();
                            let this = key.clone();
                            proof {
                                assert(earlier == items@[j as int].0);
                                assert(this == items@[i as int].0);
                                assert(rejection_of(
                                    ResolveError::AmbiguousMatch(earlier, this),
                                    items@,
                                    exclusivity@,
                                    i as int,
                                ));
                            }
                            return Err(ResolveError::AmbiguousMatch(earlier, this));
                        }
                        j = j + 1;
                    }
                    let c = Condition { key: key.clone(), names, path: items[i].1.clone() };
                    let ghost prev = conditions@;
                    conditions.push(c);
                    proof {
                        assert(entries_of(conditions@) =~= entries_of(prev).push(items@[i as int]));
                        assert(items@.subrange(0, i + 1) =~= items@.subrange(0, i as int).push(
                            items@[i as int],
                        ));
                    }
                },
            }
            i = i + 1;
        }
        assert(items@.subrange(0, items@.len() as int) =~= items@);
        Ok(Resolver { conditions })
    }

    /// The path of the most specific condition that holds under `envs`:
    /// `None` when none holds, an error when two tie for most specific.
    pub fn get_path(&self, envs: &Vec<(String, bool)>) -> (r: Result<Option<String>, ResolveError>)
        requires
            self.wf(),
        ensures
            outcome_of_match(self.entries(), envs@, r),
    {
        let ghost cs = self.conditions@;
        let ghost es = self.entries();
        let mut best: Option<usize> = None;
        let mut tie: Option<usize> = None;
        let mut best_size: usize = 0;
        let mut i: usize = 0;
        while i < self.conditions.len()
            invariant
                i <= cs.len(),
                cs == self.conditions@,
                es == entries_of(cs),
                self.wf(),
                best is None ==> tie is None && forall|k: int|
                    0 <= k < i ==> !entry_holds(es, envs@, k),
                best matches Some(b) ==> {
                    &&& b < i
                    &&& best_size == entry_names(es, b as int).len()
                    &&& entry_holds(es, envs@, b as int)
                    &&& forall|k: int|
                        0 <= k < i && entry_holds(es, envs@, k) ==> entry_names(es, k).len()
                            <= best_size
                    &&& forall|k: int|
                        0 <= k < b && entry_holds(es, envs@, k) ==> entry_names(es, k).len()
                            < best_size
                },
                tie matches Some(t) ==> best matches Some(b) && t < i && b < t && entry_holds(
                    es,
                    envs@,
                    t as int,
                ) && entry_names(es, t as int).len() == best_size && forall|k: int|
                    t < k < i && entry_holds(es, envs@, k) ==> entry_names(es, k).len()
                        < best_size,
                tie is None ==> (best matches Some(b) ==> forall|k: int|
                    0 <= k < i && k != b && entry_holds(es, envs@, k) ==> entry_names(es, k).len()
                        < best_size),
            decreases cs.len() - i,
        {
            let c = &self.conditions[i];
            assert(es[i as int] == (c.key, c.path));
            if c.holds(envs) {
                let size = c.specificity();
                match best {
                    None => {
                        best = Some(i);
                        best_size = size;
                    },
                    Some(_) => {
                        if size > best_size {
                            best = Some(i);
                            best_size = size;
                            tie = None;
                        } else if size == best_size {
                            tie = Some(i);
                        }
                    },
                }
            }
            i = i + 1;
        }
        match best {
            None => Ok(None),
            Some(b) => {
                assert(es[b as int] == (cs[b as int].key, cs[b as int].path));
                match tie {
                    Some(t) => {
                        assert(es[t as int] == (cs[t as int].key, cs[t as int].path));
                        proof {
                            assert(is_best(es, envs@, b as int));
                            assert(is_best(es, envs@, t as int));
                            assert(first_best(es, envs@, b as int));
                            assert(last_best(es, envs@, t as int));
                        }
                        Err(
                            ResolveError::AmbiguousMatch(
                                self.conditions[b].key.clone(),
                                self.conditions[t].key.clone(),
                            ),
                        )
                    },
                    None => {
                        proof {
                            assert(is_sole_best(es, envs@, b as int));
                            assert(!none_holds(es, envs@));
                            if is_tie(es, envs@) {
                                let (x, y) = choose|x: int, y: int|
                                    x != y && is_best(es, envs@, x) && is_best(es, envs@, y);
                            }
                        }
                        Ok(Some(self.conditions[b].path.clone()))
                    },
                }
            },
        }
    }
}

/// Entry `i` is the first match of the greatest specificity.
pub open spec fn first_best(items: Seq<(String, String)>, envs: Seq<(String, bool)>, i: int) -> bool {
    is_best(items, envs, i) && forall|k: int| 0 <= k < i ==> !is_best(items, envs, k)
}

/// Entry `j` is the last match of the greatest specificity.
pub open spec fn last_best(items: Seq<(String, String)>, envs: Seq<(String, bool)>, j: int) -> bool {
    is_best(items, envs, j) && forall|k: int| j < k < items.len() ==> !is_best(items, envs, k)
}

/// What evaluating a resolver built from `items` gives under `envs`:
/// `None` when no condition holds, an `AmbiguousMatch` naming the first and
/// the last of the conditions that tie for the greatest specificity, and
/// otherwise the path of the single most specific condition that holds.
pub open spec fn outcome_of_match(
    items: Seq<(String, String)>,
    envs: Seq<(String, bool)>,
    r: Result<Option<String>, ResolveError>,
) -> bool {
    if none_holds(items, envs) {
        r == Ok::<Option<String>, ResolveError>(None)
    } else if is_tie(items, envs) {
        r matches Err(e) && exists|i: int, j: int|
            first_best(items, envs, i) && last_best(items, envs, j) && i < j && e
                == ResolveError::AmbiguousMatch(items[i].0, items[j].0)
    } else {
        r matches Ok(Some(p)) && exists|i: int| is_sole_best(items, envs, i) && p == items[i].1
    }
}

/// Entry `i` is the first rejected entry.
pub open spec fn first_rejected(items: Seq<(String, String)>, groups: Seq<Vec<String>>, i: int) -> bool {
    &&& 0 <= i < items.len()
    &&& entry_rejected(items, groups, i)
    &&& forall|j: int| 0 <= j < i ==> !entry_rejected(items, groups, j)
}

/// What resolving `items` under the exclusivity `groups` and the truth map
/// `envs` gives: the error of the first rejected entry, else the outcome of
/// the match.
pub open spec fn outcome_of_resolve(
    items: Seq<(String, String)>,
    groups: Seq<Vec<String>>,
    envs: Seq<(String, bool)>,
    r: Result<Option<String>, ResolveError>,
) -> bool {
    if exists|i: int| first_rejected(items, groups, i) {
        r matches Err(e) && exists|i: int|
            first_rejected(items, groups, i) && rejection_of(e, items, groups, i)
    } else {
        outcome_of_match(items, envs, r)
    }
}

/// Builds a resolver from `items` and evaluates it under `envs`.
pub fn resolve(
    items: &Vec<(String, String)>,
    exclusivity: &Vec<Vec<String>>,
    envs: &Vec<(String, bool)>,
) -> (r: Result<Option<String>, ResolveError>)
    ensures
        outcome_of_resolve(items@, exclusivity@, envs@, r),
{
    match Resolver::new(items, exclusivity) {
        Err(e) => {
            Err(e)
        },
        Ok(res) => {
            proof {
                if exists|i: int| first_rejected(items@, exclusivity@, i) {
                    let i = choose|i: int| first_rejected(items@, exclusivity@, i);
                    assert(!entry_rejected(items@, exclusivity@, i));
                }
            }
            res.get_path(envs)
        },
    }
}

/// Resolution gives `None` exactly when no condition's names are all among
/// the active names of the truth map.
pub proof fn lemma_none_iff_no_condition_holds(
    items: Seq<(String, String)>,
    envs: Seq<(String, bool)>,
    r: Result<Option<String>, ResolveError>,
)
    requires
        outcome_of_match(items, envs, r),
    ensures
        r == Ok::<Option<String>, ResolveError>(None) <==> forall|i: int|
            0 <= i < items.len() ==> !entry_names(items, i).subset_of(active_names(envs)),
{
    if !none_holds(items, envs) {
        let i = choose|i: int| 0 <= i < items.len() && entry_holds(items, envs, i);
        assert(entry_names(items, i).subset_of(active_names(envs)));
    } else {
        assert forall|i: int| 0 <= i < items.len() implies !entry_names(items, i).subset_of(
            active_names(envs),
        ) by {
            assert(!entry_holds(items, envs, i));
        }
    }
}

/// Two distinct matching conditions that share the greatest specificity
/// make resolution fail with `AmbiguousMatch`.
pub proof fn lemma_tie_is_ambiguous(
    items: Seq<(String, String)>,
    envs: Seq<(String, bool)>,
    r: Result<Option<String>, ResolveError>,
    i: int,
    j: int,
)
    requires
        outcome_of_match(items, envs, r),
        i != j,
        is_best(items, envs, i),
        is_best(items, envs, j),
    ensures
        r matches Err(ResolveError::AmbiguousMatch(_, _)),
{
}

/// A single matching condition of the greatest specificity wins: resolution
/// gives exactly its path.
pub proof fn lemma_sole_best_wins(
    items: Seq<(String, String)>,
    envs: Seq<(String, bool)>,
    r: Result<Option<String>, ResolveError>,
    i: int,
)
    requires
        outcome_of_match(items, envs, r),
        is_sole_best(items, envs, i),
    ensures
        r == Ok::<Option<String>, ResolveError>(Some(items[i].1)),
{
    if is_tie(items, envs) {
        let (x, y) = choose|x: int, y: int|
            x != y && is_best(items, envs, x) && is_best(items, envs, y);
        if x != i {
            assert(entry_names(items, x).len() < entry_names(items, i).len());
        } else {
            assert(entry_names(items, y).len() < entry_names(items, i).len());
        }
    }
    let k = choose|k: int| is_sole_best(items, envs, k) && r->Ok_0 == Some(items[k].1);
    if k != i {
        assert(entry_names(items, k).len() < entry_names(items, i).len());
    }
}

/// Some rejected entry has a first rejected entry at or before it.
proof fn lemma_first_rejected_exists(items: Seq<(String, String)>, groups: Seq<Vec<String>>, i: int)
    requires
        0 <= i < items.len(),
        entry_rejected(items, groups, i),
    ensures
        exists|k: int| first_rejected(items, groups, k),
    decreases i,
{
    if exists|j: int| 0 <= j < i && entry_rejected(items, groups, j) {
        let j = choose|j: int| 0 <= j < i && entry_rejected(items, groups, j);
        lemma_first_rejected_exists(items, groups, j);
    } else {
        assert(first_rejected(items, groups, i));
    }
}

/// A condition naming two environments of one exclusivity group makes
/// resolution fail, whatever the other conditions are.
pub proof fn lemma_exclusive_names_rejected(
    items: Seq<(String, String)>,
    groups: Seq<Vec<String>>,
    envs: Seq<(String, bool)>,
    r: Result<Option<String>, ResolveError>,
    i: int,
    g: int,
    x: Seq<u8>,
    y: Seq<u8>,
)
    requires
        outcome_of_resolve(items, groups, envs, r),
        0 <= i < items.len(),
        0 <= g < groups.len(),
        x != y,
        entry_names(items, i).contains(x),
        entry_names(items, i).contains(y),
        group_names(groups[g]@).contains(x),
        group_names(groups[g]@).contains(y),
    ensures
        r is Err,
{
    assert(conflicts_with(entry_names(items, i), group_names(groups[g]@)));
    assert(key_rejected(items[i].0@, groups));
    lemma_first_rejected_exists(items, groups, i);
}

/// Two entries whose keys list the same names (two spellings such as `a|b`
/// and `b|a`, or one key given twice) make resolution fail, whatever the
/// truth map is.
pub proof fn lemma_same_names_rejected(
    items: Seq<(String, String)>,
    groups: Seq<Vec<String>>,
    envs: Seq<(String, bool)>,
    r: Result<Option<String>, ResolveError>,
    i: int,
    j: int,
)
    requires
        outcome_of_resolve(items, groups, envs, r),
        0 <= i < j < items.len(),
        entry_names(items, i) == entry_names(items, j),
    ensures
        r is Err,
{
    assert(repeats_earlier(items, j));
    lemma_first_rejected_exists(items, groups, j);
}

} // verus!
