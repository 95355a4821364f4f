//! The grammar kinds at which a pattern can match, as a bit set.

use vstd::prelude::*;
use crate::match_tree::match_node;
use crate::meta_var::EnvModel;
use crate::pattern::{pattern_kind, Pattern};
use crate::rule::{sub_matchers, Matcher};
use crate::tree::SyntaxTree;

verus! {

#[verifier::external_type_specification]
#[verifier::external_body]
#[verifier::reject_recursive_types(B)]
pub struct ExBitSet<B>(bit_set::BitSet<B>);

/// The values that a bit set holds.
pub uninterp spec fn bitset_contents(s: bit_set::BitSet) -> Set<nat>;

/// Relies on `bit_set::BitSet::new`: an empty set.
#[verifier::external_body]
fn bitset_new() -> (r: bit_set::BitSet)
    ensures
        bitset_contents(r) == Set::<nat>::empty(),
{
    bit_set::BitSet::new()
}

/// Relies on `bit_set::BitSet::insert`: adds `v`, growing the set as needed.
#[verifier::external_body]
fn bitset_insert(s: &mut bit_set::BitSet, v: usize)
    requires
        v < 65536,
    ensures
        bitset_contents(*final(s)) == bitset_contents(*old(s)).insert(v as nat),
{
    s.insert(v);
}

/// Relies on `bit_set::BitSet::union_with`: adds the values of `other`.
#[verifier::external_body]
fn bitset_union(s: &mut bit_set::BitSet, other: &bit_set::BitSet)
    ensures
        bitset_contents(*final(s)) == bitset_contents(*old(s)).union(bitset_contents(*other)),
{
    s.union_with(other);
}

/// Relies on `bit_set::BitSet::intersect_with`: keeps the values that
/// `other` holds too.
#[verifier::external_body]
fn bitset_intersect(s: &mut bit_set::BitSet, other: &bit_set::BitSet)
    ensures
        bitset_contents(*final(s)) == bitset_contents(*old(s)).intersect(bitset_contents(*other)),
{
    s.intersect_with(other);
}

/// The potential kinds of a rule matcher: those of a pattern or a kind; for
/// `All` what every member with kinds allows (any kind where none has
/// kinds); for `Any` what some member allows (any kind where a member allows
/// any); any kind for `Not`.
pub open spec fn kinds_spec(m: Matcher) -> Option<Set<nat>>
    decreases m, 1int, 0int,
{
    match m {
        Matcher::Pattern(p) => match pattern_kind(p) {
            Some(k) => Some(set![k as nat]),
            None => None,
        },
        Matcher::Kind(k) => Some(set![k as nat]),
        Matcher::All(ms) => all_kinds(m, ms@.len()),
        Matcher::Any(ms) => any_kinds(m, ms@.len()),
        _ => None,
    }
}

pub open spec fn all_kinds(m: Matcher, k: nat) -> Option<Set<nat>>
    decreases m, 0int, k,
{
    let ms = sub_matchers(m);
    if k == 0 || k > ms.len() {
        None
    } else {
        let prev = all_kinds(m, (k - 1) as nat);
        match kinds_spec(ms[k - 1]) {
            None => prev,
            Some(s) => match prev {
                None => Some(s),
                Some(p) => Some(p.intersect(s)),
            },
        }
    }
}

pub open spec fn any_kinds(m: Matcher, k: nat) -> Option<Set<nat>>
    decreases m, 0int, k,
{
    let ms = sub_matchers(m);
    if k == 0 || k > ms.len() {
        Some(Set::empty())
    } else {
        match (any_kinds(m, (k - 1) as nat), kinds_spec(ms[k - 1])) {
            (Some(p), Some(s)) => Some(p.union(s)),
            _ => None,
        }
    }
}

impl Matcher {
    /// The kinds of node that the matcher can match, as `kinds_spec` says;
    /// `None` for any kind.
    pub fn potential_kinds(&self) -> (r: Option<bit_set::BitSet>)
        ensures
            match kinds_spec(*self) {
                None => r is None,
                Some(s) => r matches Some(b) && bitset_contents(b) == s,
            },
        decreases self, 1int, 0int,
    {
        match self {
            Matcher::Pattern(p) => p.potential_kinds(),
            Matcher::Kind(k) => {
                let mut kinds = bitset_new();
                bitset_insert(&mut kinds, *k as usize);
                assert(Set::<nat>::empty().insert(*k as nat) =~= set![*k as nat]);
                Some(kinds)
            },
            Matcher::All(ms) => {
                let mut acc: Option<bit_set::BitSet> = None;
                let mut i: usize = 0;
                while i < ms.len()
                    invariant
                        sub_matchers(*self) == ms@,
                        *self matches Matcher::All(v) && v == ms,
                        i <= ms@.len(),
                        match all_kinds(*self, i as nat) {
                            None => acc is None,
                            Some(s) => acc matches Some(b) && bitset_contents(b) == s,
                        },
                    decreases ms@.len() - i,
                {
                    match ms[i].potential_kinds() {
                        None => {},
                        Some(s) => {
                            acc = match acc {
                                None => Some(s),
                                Some(mut a) => {
                                    bitset_intersect(&mut a, &s);
                                    Some(a)
                                },
                            };
                        },
                    }
                    i = i + 1;
                }
                acc
            },
            Matcher::Any(ms) => {
                let mut acc = bitset_new();
                let mut i: usize = 0;
                while i < ms.len()
                    invariant
                        sub_matchers(*self) == ms@,
                        *self matches Matcher::Any(v) && v == ms,
                        i <= ms@.len(),
                        all_some_kinds(*self, i as nat),
                        any_kinds(*self, i as nat) == Some(bitset_contents(acc)),
                    decreases ms@.len() - i,
                {
                    match ms[i].potential_kinds() {
                        None => {
                            proof {
                                lemma_any_kinds_none(*self, (i + 1) as nat, ms@.len());
                            }
                            return None;
                        },
                        Some(s) => {
                            bitset_union(&mut acc, &s);
                        },
                    }
                    i = i + 1;
                }
                Some(acc)
            },
            _ => None,
        }
    }
}

/// The first `k` members of an `Any` all have kinds.
pub open spec fn all_some_kinds(m: Matcher, k: nat) -> bool {
    any_kinds(m, k) is Some
}

pub proof fn lemma_any_kinds_none(m: Matcher, k: nat, len: nat)
    requires
        any_kinds(m, k) is None,
        k <= len,
        len == sub_matchers(m).len(),
    ensures
        any_kinds(m, len) is None,
    decreases len - k,
{
    if k < len {
        lemma_any_kinds_none(m, k + 1, len);
    }
}

impl Pattern {
    /// The kinds of node that the pattern can match: the kind of its root, or
    /// any kind (`None`) for a placeholder without one.
    pub fn potential_kinds(&self) -> (r: Option<bit_set::BitSet>)
        ensures
            match pattern_kind(*self) {
                None => r is None,
                Some(k) => r matches Some(s) && bitset_contents(s) == set![k as nat],
            },
    {
        let kind: u16 = match self {
            Pattern::Terminal { kind_id, .. } => *kind_id,
            Pattern::Internal { kind_id, .. } => *kind_id,
            Pattern::MetaVar { kind, .. } => match kind {
                Some(k) => *k,
                None => return None,
            },
        };
        let mut kinds = bitset_new();
        bitset_insert(&mut kinds, kind as usize);
        assert(Set::<nat>::empty().insert(kind as nat) =~= set![kind as nat]);
        Some(kinds)
    }
}

/// A pattern with a kind matches only nodes of that kind: every node where
/// it matches is among its potential kinds.
pub proof fn lemma_potential_kinds_sound(p: Pattern, t: SyntaxTree, n: nat, env: EnvModel)
    requires
        match_node(p, t, n, env) is Some,
    ensures
        pattern_kind(p) matches Some(k) ==> t.kind_of(n as int) == k,
        n < t.len(),
{
}

} // verus!
