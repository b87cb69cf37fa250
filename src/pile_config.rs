//! Per-pile settings and how a pile's own settings are layered over the
//! settings it inherits from its group.
use vstd::prelude::*;
use vstd::utf8::{encode_utf8, encode_utf8_decode_utf8};

use crate::bytes::{bytes_lt, compare_bytes, lemma_bytes_lt_asymmetric, lemma_bytes_lt_transitive};

verus! {

/// How a pile's content is encrypted.
#[derive(Debug, PartialEq, Eq)]
pub enum Encryption {
    /// Symmetric encryption with a passphrase.
    Symmetric(String),
    /// Asymmetric encryption to a public key.
    Asymmetric(String),
}

/// The settings of one pile: its encryption and the glob patterns of paths to ignore.
#[derive(Debug, PartialEq, Eq)]
pub struct PileConfig {
    pub encryption: Option<Encryption>,
    pub ignore: Vec<String>,
}

/// The texts of a list of patterns.
pub open spec fn pattern_views(ps: Seq<String>) -> Seq<Seq<char>> {
    ps.map_values(|p: String| p@)
}

/// Patterns strictly increasing by the byte order of their UTF-8 text
/// (so without duplicates).
pub open spec fn sorted_patterns(vs: Seq<Seq<char>>) -> bool {
    forall|i: int, j: int|
        0 <= i < j < vs.len() ==> bytes_lt(encode_utf8(#[trigger] vs[i]), encode_utf8(#[trigger] vs[j]))
}

/// `m` is the sorted, duplicate-free union of the pattern lists `s` and `g`.
pub open spec fn is_merged_ignore(m: Seq<Seq<char>>, s: Seq<Seq<char>>, g: Seq<Seq<char>>) -> bool {
    sorted_patterns(m) && m.to_set() == s.to_set() + g.to_set()
}

/// The encryption of layered settings: the specific one when it has one.
pub open spec fn layered_encryption(s: Option<Encryption>, g: Option<Encryption>) -> Option<
    Encryption,
> {
    if s is Some {
        s
    } else {
        g
    }
}

/// Two settings with the same encryption and the same ignore patterns.
pub open spec fn same_config(a: PileConfig, b: PileConfig) -> bool {
    a.encryption == b.encryption && a.ignore@ == b.ignore@
}

/// Two optional settings that are both absent or both present and the same.
pub open spec fn same_options(a: Option<PileConfig>, b: Option<PileConfig>) -> bool {
    match (a, b) {
        (None, None) => true,
        (Some(x), Some(y)) => same_config(x, y),
        _ => false,
    }
}

/// The settings behind an optional reference.
pub open spec fn option_config(c: Option<&PileConfig>) -> Option<PileConfig> {
    match c {
        Some(x) => Some(*x),
        None => None,
    }
}

/// `r` is what layering the inherited settings `g` under `s` gives.
pub open spec fn is_layered(s: Option<PileConfig>, g: Option<PileConfig>, r: Option<PileConfig>) -> bool {
    match g {
        None => same_options(r, s),
        Some(gc) => match s {
            None => same_options(r, Some(gc)),
            Some(sc) => r matches Some(c) && c.encryption == layered_encryption(
                sc.encryption,
                gc.encryption,
            ) && is_merged_ignore(
                pattern_views(c.ignore@),
                pattern_views(sc.ignore@),
                pattern_views(gc.ignore@),
            ),
        },
    }
}

impl Encryption {
    /// A copy of this encryption setting.
    pub fn duplicate(&self) -> (r: Encryption)
        ensures
            r == *self,
    {
        match self {
            Encryption::Symmetric(p) => Encryption::Symmetric(p.clone()),
            Encryption::Asymmetric(k) => Encryption::Asymmetric(k.clone()),
        }
    }
}

fn duplicate_encryption(e: &Option<Encryption>) -> (r: Option<Encryption>)
    ensures
        r == *e,
{
    match e {
        Some(x) => Some(x.duplicate()),
        None => None,
    }
}

fn duplicate_patterns(ps: &Vec<String>) -> (r: Vec<String>)
    ensures
        r@ == ps@,
{
    let mut r: Vec<String> = Vec::new();
    let mut i: usize = 0;
    while i < ps.len()
        invariant
            i <= ps@.len(),
            r@ == ps@.subrange(0, i as int),
        decreases ps@.len() - i,
    {
        r.push(ps[i].clone());
        i = i + 1;
        assert(r@ =~= ps@.subrange(0, i as int));
    }
    assert(r@ =~= ps@);
    r
}

/// Inserts `p` at its place in the sorted list `v`, unless it is there already.
fn insert_pattern(v: &mut Vec<String>, p: &String)
    requires
        sorted_patterns(pattern_views(old(v)@)),
    ensures
        sorted_patterns(pattern_views(final(v)@)),
        pattern_views(final(v)@).to_set() == pattern_views(old(v)@).to_set().insert(p@),
{
    broadcast use vstd::seq_lib::group_seq_properties;

    let ghost before = pattern_views(v@);
    let ghost key = encode_utf8(p@);
    let mut pos: usize = 0;
    let mut stop = false;
    while !stop && pos < v.len()
        invariant
            pos <= v@.len(),
            pattern_views(v@) == before,
            key == encode_utf8(p@),
            sorted_patterns(before),
            forall|k: int| 0 <= k < pos ==> bytes_lt(encode_utf8(#[trigger] before[k]), key),
            stop ==> pos < v@.len() && bytes_lt(key, encode_utf8(before[pos as int])),
        decreases v@.len() - pos + (if stop {
            0int
        } else {
            1int
        }),
    {
        assert(before[pos as int] == v@[pos as int]@);
        let c = compare_bytes(v[pos].as_str().as_bytes(), p.as_str().as_bytes());
        if c == 0 {
            proof {
                encode_utf8_decode_utf8(before[pos as int]);
                encode_utf8_decode_utf8(p@);
                assert(before[pos as int] == p@);
                assert(before.to_set() =~= before.to_set().insert(p@));
            }
            return;
        }
        if c > 0 {
            stop = true;
        } else {
            pos = pos + 1;
        }
    }
    v.insert(pos, p.clone());
    proof {
        let after = pattern_views(v@);
        assert(after =~= before.insert(pos as int, p@));
        assert forall|i: int, j: int| 0 <= i < j < after.len() implies bytes_lt(
            encode_utf8(#[trigger] after[i]),
            encode_utf8(#[trigger] after[j]),
        ) by {
            if j < pos {
                assert(after[i] == before[i]);
                assert(after[j] == before[j]);
            } else if i < pos && j == pos {
                assert(after[i] == before[i]);
            } else if i < pos && j > pos {
                assert(after[i] == before[i]);
                assert(after[j] == before[j - 1]);
            } else if i == pos && j > pos {
                assert(after[j] == before[j - 1]);
                if j - 1 > pos {
                    lemma_bytes_lt_transitive(
                        key,
                        encode_utf8(before[pos as int]),
                        encode_utf8(before[j - 1]),
                    );
                }
            } else {
                assert(after[i] == before[i - 1]);
                assert(after[j] == before[j - 1]);
            }
        }
        assert(after.to_set() =~= before.to_set().insert(p@));
    }
}

/// The sorted, duplicate-free union of two pattern lists.
fn merge_patterns(s: &Vec<String>, g: &Vec<String>) -> (r: Vec<String>)
    ensures
        is_merged_ignore(pattern_views(r@), pattern_views(s@), pattern_views(g@)),
{
    broadcast use vstd::seq_lib::group_seq_properties;

    let mut r: Vec<String> = Vec::new();
    let mut i: usize = 0;
    assert(pattern_views(r@).to_set() =~= Set::<Seq<char>>::empty());
    while i < s.len()
        invariant
            i <= s@.len(),
            sorted_patterns(pattern_views(r@)),
            pattern_views(r@).to_set() == pattern_views(s@.subrange(0, i as int)).to_set(),
        decreases s@.len() - i,
    {
        insert_pattern(&mut r, &s[i]);
        proof {
            assert(pattern_views(s@.subrange(0, i + 1)) =~= pattern_views(
                s@.subrange(0, i as int),
            ).push(s@[i as int]@));
            pattern_views(s@.subrange(0, i as int)).lemma_push_to_set_commute(s@[i as int]@);
        }
        i = i + 1;
    }
    assert(s@.subrange(0, s@.len() as int) =~= s@);
    let mut j: usize = 0;
    while j < g.len()
        invariant
            j <= g@.len(),
            sorted_patterns(pattern_views(r@)),
            pattern_views(r@).to_set() == pattern_views(s@).to_set() + pattern_views(
                g@.subrange(0, j as int),
            ).to_set(),
        decreases g@.len() - j,
    {
        insert_pattern(&mut r, &g[j]);
        proof {
            assert(pattern_views(g@.subrange(0, j + 1)) =~= pattern_views(
                g@.subrange(0, j as int),
            ).push(g@[j as int]@));
            pattern_views(g@.subrange(0, j as int)).lemma_push_to_set_commute(g@[j as int]@);
            assert(pattern_views(r@).to_set() =~= pattern_views(s@).to_set() + pattern_views(
                g@.subrange(0, j + 1),
            ).to_set());
        }
        j = j + 1;
    }
    assert(g@.subrange(0, g@.len() as int) =~= g@);
    r
}

/// Two sorted pattern lists that hold the same patterns are the same list.
pub proof fn lemma_sorted_patterns_unique(a: Seq<Seq<char>>, b: Seq<Seq<char>>)
    requires
        sorted_patterns(a),
        sorted_patterns(b),
        a.to_set() == b.to_set(),
    ensures
        a == b,
    decreases a.len(),
{
    if a.len() == 0 {
        if b.len() > 0 {
            assert(b.to_set().contains(b[0]));
        }
        assert(a =~= b);
    } else {
        assert(a.to_set().contains(a[0]));
        assert(b.contains(a[0]));
        let j = choose|j: int| 0 <= j < b.len() && b[j] == a[0];
        assert(b.to_set().contains(b[0]));
        assert(a.contains(b[0]));
        let i = choose|i: int| 0 <= i < a.len() && a[i] == b[0];
        if i > 0 && j > 0 {
            lemma_bytes_lt_asymmetric(encode_utf8(a[0]), encode_utf8(b[0]));
        } else if i > 0 {
            lemma_bytes_lt_asymmetric(encode_utf8(a[0]), encode_utf8(a[i]));
        } else if j > 0 {
            lemma_bytes_lt_asymmetric(encode_utf8(b[0]), encode_utf8(b[j]));
        }
        assert(a[0] == b[0]);
        let ra = a.drop_first();
        let rb = b.drop_first();
        assert forall|x: Seq<char>| ra.to_set().contains(x) implies rb.to_set().contains(x) by {
            let k = choose|k: int| 0 <= k < ra.len() && ra[k] == x;
            assert(a[k + 1] == x);
            assert(a.to_set().contains(x));
            let m = choose|m: int| 0 <= m < b.len() && b[m] == x;
            if m == 0 {
                lemma_bytes_lt_asymmetric(encode_utf8(a[0]), encode_utf8(a[k + 1]));
            }
            assert(rb[m - 1] == x);
        }
        assert forall|x: Seq<char>| rb.to_set().contains(x) implies ra.to_set().contains(x) by {
            let k = choose|k: int| 0 <= k < rb.len() && rb[k] == x;
            assert(b[k + 1] == x);
            assert(b.to_set().contains(x));
            let m = choose|m: int| 0 <= m < a.len() && a[m] == x;
            if m == 0 {
                lemma_bytes_lt_asymmetric(encode_utf8(b[0]), encode_utf8(b[k + 1]));
            }
            assert(ra[m - 1] == x);
        }
        assert(ra.to_set() =~= rb.to_set());
        assert(sorted_patterns(ra)) by {
            assert forall|x: int, y: int| 0 <= x < y < ra.len() implies bytes_lt(
                encode_utf8(#[trigger] ra[x]),
                encode_utf8(#[trigger] ra[y]),
            ) by {
                assert(ra[x] == a[x + 1] && ra[y] == a[y + 1]);
            }
        }
        assert(sorted_patterns(rb)) by {
            assert forall|x: int, y: int| 0 <= x < y < rb.len() implies bytes_lt(
                encode_utf8(#[trigger] rb[x]),
                encode_utf8(#[trigger] rb[y]),
            ) by {
                assert(rb[x] == b[x + 1] && rb[y] == b[y + 1]);
            }
        }
        lemma_sorted_patterns_unique(ra, rb);
        assert(a.len() == b.len());
        assert forall|k: int| 0 <= k < a.len() implies a[k] == b[k] by {
            if k > 0 {
                assert(a[k] == ra[k - 1]);
                assert(b[k] == rb[k - 1]);
            }
        }
        assert(a =~= b);
    }
}

/// Merging ignore lists does not depend on which side is the specific one:
/// the merged list of `s` over `g` is the merged list of `g` over `s`.
pub proof fn lemma_merged_ignore_commutes(
    m1: Seq<Seq<char>>,
    m2: Seq<Seq<char>>,
    s: Seq<Seq<char>>,
    g: Seq<Seq<char>>,
)
    requires
        is_merged_ignore(m1, s, g),
        is_merged_ignore(m2, g, s),
    ensures
        m1 == m2,
{
    assert(s.to_set() + g.to_set() =~= g.to_set() + s.to_set());
    lemma_sorted_patterns_unique(m1, m2);
}

impl PileConfig {
    /// A copy of these settings.
    pub fn duplicate(&self) -> (r: PileConfig)
        ensures
            r.encryption == self.encryption,
            r.ignore@ == self.ignore@,
    {
        PileConfig {
            encryption: duplicate_encryption(&self.encryption),
            ignore: duplicate_patterns(&self.ignore),
        }
    }

    /// A copy of optional settings.
    pub fn duplicate_options(c: &Option<PileConfig>) -> (r: Option<PileConfig>)
        ensures
            same_options(r, *c),
    {
        match c {
            Some(x) => Some(x.duplicate()),
            None => None,
        }
    }

    /// Layers the inherited settings `general` under `specific`.
    ///
    /// Without `general`, `specific` stays as it is; without `specific`, it
    /// becomes a copy of `general`. With both, the specific encryption wins
    /// when there is one, and the ignore patterns of both are merged into one
    /// sorted list without duplicates.
    pub fn layer_options(specific: &mut Option<PileConfig>, general: Option<&PileConfig>)
        ensures
            general is None ==> *final(specific) == *old(specific),
            is_layered(*old(specific), option_config(general), *final(specific)),
            *old(specific) is None && general is Some ==> (*final(specific) matches Some(c)
                && c.encryption == general.unwrap().encryption && c.ignore@
                == general.unwrap().ignore@),
            *old(specific) is Some && general is Some ==> (*final(specific) matches Some(c)
                && c.encryption == layered_encryption(
                (*old(specific)).unwrap().encryption,
                general.unwrap().encryption,
            ) && is_merged_ignore(
                pattern_views(c.ignore@),
                pattern_views((*old(specific)).unwrap().ignore@),
                pattern_views(general.unwrap().ignore@),
            )),
    {
        match general {
            None => {},
            Some(g) => {
                match specific.take() {
                    None => {
                        *specific = Some(g.duplicate());
                    },
                    Some(s) => {
                        let encryption = if s.encryption.is_some() {
                            s.encryption
                        } else {
                            duplicate_encryption(&g.encryption)
                        };
                        let ignore = merge_patterns(&s.ignore, &g.ignore);
                        *specific = Some(PileConfig { encryption, ignore });
                    },
                }
            },
        }
    }
}

} // verus!
