//! Rules: matchers composed of patterns and kinds, constraints on what the
//! placeholders captured, transformations, a message, labels and fixes.

use vstd::prelude::*;
use crate::fixer::{expand, expand_parts, lex, Fixer};
use crate::language::Lang;
use crate::match_tree::{empty_env, last_desc, lemma_last_desc, match_node, match_node_exec, NodeMatch};
use crate::meta_var::{lemma_extends_refl, lemma_extends_trans, lemma_lookup_member, lookup, nat_seq, EnvModel, MetaVarEnv};
use crate::pattern::Pattern;
use crate::print::{node_range, title_view};
use crate::transform::{transform_step, transformed_view, Transformation};
use crate::tree::{parent_of, sibling_of, SyntaxTree};

verus! {

/// What a rule matches.
pub enum Matcher {
    Pattern(Pattern),
    /// Any node of the grammar kind.
    Kind(u16),
    /// Every matcher, one after the other, bindings carried along.
    All(Vec<Matcher>),
    /// The first matcher that matches.
    Any(Vec<Matcher>),
    /// Matches where the inner matcher does not, binding nothing.
    Not(Box<Matcher>),
    /// The parent matches the inner matcher.
    Inside(Box<Matcher>),
    /// A child matches the inner matcher (the first such child binds).
    Has(Box<Matcher>),
    /// The sibling right before matches the inner matcher.
    Follows(Box<Matcher>),
    /// The sibling right after matches the inner matcher.
    Precedes(Box<Matcher>),
    /// The node's text has a match of the regular expression.
    Regex(String),
    /// The utility rule of this id, from the rule's utility rules.
    Reference(String),
}

/// Utility rules by id, each with a rank: a rule refers only to rules of
/// lower rank, so following references always ends.
pub struct GlobalRules {
    pub rules: Vec<(String, Matcher)>,
    pub rank: Vec<usize>,
}

/// Why a set of utility rules was refused.
pub enum RuleError {
    /// Two utility rules have this id.
    DuplicateRuleId(String),
    /// A reference names no utility rule.
    UnknownRuleReference(String),
    /// The utility rule of this id cannot be ranked: it lies on, or leads
    /// only into, a cycle of references.
    CyclicRuleReference(String),
}

/// The first position from `i` on of a rule with id `id`.
pub open spec fn util_index(rules: Seq<(String, Matcher)>, id: Seq<char>, i: int) -> Option<int>
    decreases rules.len() - i,
{
    if i < 0 || i >= rules.len() {
        None
    } else if rules[i].0@ == id {
        Some(i)
    } else {
        util_index(rules, id, i + 1)
    }
}

pub proof fn lemma_util_index_range(rules: Seq<(String, Matcher)>, id: Seq<char>, i: int)
    requires
        0 <= i,
    ensures
        util_index(rules, id, i) matches Some(k) ==> i <= k < rules.len() && rules[k].0@ == id,
    decreases rules.len() - i,
{
    if i < rules.len() && rules[i].0@ != id {
        lemma_util_index_range(rules, id, i + 1);
    }
}

/// The position of the utility rule with id `id`, as `util_index` says.
pub fn find_util(rules: &Vec<(String, Matcher)>, id: &str) -> (r: Option<usize>)
    ensures
        match util_index(rules@, id@, 0) {
            Some(k) => r matches Some(x) && x as int == k,
            None => r is None,
        },
        r matches Some(x) ==> x < rules@.len(),
{
    let mut i: usize = 0;
    while i < rules.len()
        invariant
            i <= rules@.len(),
            util_index(rules@, id@, 0) == util_index(rules@, id@, i as int),
        decreases rules@.len() - i,
    {
        if crate::meta_var::str_equal(rules[i].0.as_str(), id) {
            return Some(i);
        }
        i = i + 1;
    }
    None
}

/// Every reference in `m` names a rule of `rules` whose rank, in `rank`, is
/// below `r` (`None` ranks: not ranked yet).
pub open spec fn refs_below(m: Matcher, rules: Seq<(String, Matcher)>, rank: Seq<Option<usize>>, r: nat) -> bool
    decreases m, 1int,
{
    match m {
        Matcher::Reference(id) => match util_index(rules, id@, 0) {
            Some(k) => k < rank.len() && (rank[k] matches Some(x) && (x as nat) < r),
            None => false,
        },
        Matcher::All(ms) => all_refs_below(m, ms@.len() as int, rules, rank, r),
        Matcher::Any(ms) => all_refs_below(m, ms@.len() as int, rules, rank, r),
        Matcher::Not(inner) => refs_below(*inner, rules, rank, r),
        Matcher::Inside(inner) => refs_below(*inner, rules, rank, r),
        Matcher::Has(inner) => refs_below(*inner, rules, rank, r),
        Matcher::Follows(inner) => refs_below(*inner, rules, rank, r),
        Matcher::Precedes(inner) => refs_below(*inner, rules, rank, r),
        _ => true,
    }
}

pub open spec fn all_refs_below(
    m: Matcher,
    k: int,
    rules: Seq<(String, Matcher)>,
    rank: Seq<Option<usize>>,
    r: nat,
) -> bool
    decreases m, 0int, k,
{
    if k <= 0 || k > sub_matchers(m).len() {
        true
    } else {
        all_refs_below(m, k - 1, rules, rank, r) && refs_below(sub_matchers(m)[k - 1], rules, rank, r)
    }
}

/// Every reference in `m` names a rule of `rules`.
pub open spec fn refs_known(m: Matcher, rules: Seq<(String, Matcher)>) -> bool
    decreases m, 1int,
{
    match m {
        Matcher::Reference(id) => util_index(rules, id@, 0) is Some,
        Matcher::All(ms) => all_refs_known(m, ms@.len() as int, rules),
        Matcher::Any(ms) => all_refs_known(m, ms@.len() as int, rules),
        Matcher::Not(inner) => refs_known(*inner, rules),
        Matcher::Inside(inner) => refs_known(*inner, rules),
        Matcher::Has(inner) => refs_known(*inner, rules),
        Matcher::Follows(inner) => refs_known(*inner, rules),
        Matcher::Precedes(inner) => refs_known(*inner, rules),
        _ => true,
    }
}

pub open spec fn all_refs_known(m: Matcher, k: int, rules: Seq<(String, Matcher)>) -> bool
    decreases m, 0int, k,
{
    if k <= 0 || k > sub_matchers(m).len() {
        true
    } else {
        all_refs_known(m, k - 1, rules) && refs_known(sub_matchers(m)[k - 1], rules)
    }
}

/// No two rules share an id.
pub open spec fn ids_unique(rules: Seq<(String, Matcher)>) -> bool {
    forall|i: int, j: int| 0 <= i < j < rules.len() ==> (#[trigger] rules[i]).0@ != (#[trigger] rules[j]).0@
}

/// The ranks order the rules: each rule refers only to rules of lower rank,
/// and every rank is below the number of rules.
pub open spec fn ranked(rules: Seq<(String, Matcher)>, rank: Seq<usize>) -> bool {
    &&& rank.len() == rules.len()
    &&& forall|j: int|
        0 <= j < rules.len() ==> (#[trigger] rank[j]) < rules.len() && refs_below(
            rules[j].1,
            rules,
            rank.map_values(|x: usize| Some(x)),
            rank[j] as nat,
        )
}

/// The references among the rules have no cycle: some ranking orders them.
pub open spec fn acyclic(rules: Seq<(String, Matcher)>) -> bool {
    exists|rank: Seq<usize>| ranked(rules, rank)
}

pub proof fn lemma_refs_below_mono(
    m: Matcher,
    rules: Seq<(String, Matcher)>,
    r1: Seq<Option<usize>>,
    r2: Seq<Option<usize>>,
    r: nat,
)
    requires
        r1.len() == r2.len(),
        forall|k: int| 0 <= k < r1.len() && (#[trigger] r1[k]) is Some ==> r2[k] == r1[k],
        refs_below(m, rules, r1, r),
    ensures
        refs_below(m, rules, r2, r),
    decreases m, 1int,
{
    match m {
        Matcher::All(ms) => {
            assert(refs_below(m, rules, r1, r) == all_refs_below(m, ms@.len() as int, rules, r1, r));
            lemma_all_refs_below_mono(m, ms@.len() as int, rules, r1, r2, r);
            assert(refs_below(m, rules, r2, r) == all_refs_below(m, ms@.len() as int, rules, r2, r));
        },
        Matcher::Any(ms) => {
            assert(refs_below(m, rules, r1, r) == all_refs_below(m, ms@.len() as int, rules, r1, r));
            lemma_all_refs_below_mono(m, ms@.len() as int, rules, r1, r2, r);
            assert(refs_below(m, rules, r2, r) == all_refs_below(m, ms@.len() as int, rules, r2, r));
        },
        Matcher::Not(inner) => lemma_refs_below_mono(*inner, rules, r1, r2, r),
        Matcher::Inside(inner) => lemma_refs_below_mono(*inner, rules, r1, r2, r),
        Matcher::Has(inner) => lemma_refs_below_mono(*inner, rules, r1, r2, r),
        Matcher::Follows(inner) => lemma_refs_below_mono(*inner, rules, r1, r2, r),
        Matcher::Precedes(inner) => lemma_refs_below_mono(*inner, rules, r1, r2, r),
        Matcher::Reference(id) => {
            lemma_util_index_range(rules, id@, 0);
            if let Some(k) = util_index(rules, id@, 0) {
                assert(r1[k] is Some);
            }
        },
        _ => {},
    }
}

pub proof fn lemma_all_refs_below_mono(
    m: Matcher,
    k: int,
    rules: Seq<(String, Matcher)>,
    r1: Seq<Option<usize>>,
    r2: Seq<Option<usize>>,
    r: nat,
)
    requires
        r1.len() == r2.len(),
        forall|q: int| 0 <= q < r1.len() && (#[trigger] r1[q]) is Some ==> r2[q] == r1[q],
        all_refs_below(m, k, rules, r1, r),
    ensures
        all_refs_below(m, k, rules, r2, r),
    decreases m, 0int, k,
{
    if 0 < k <= sub_matchers(m).len() {
        lemma_all_refs_below_mono(m, k - 1, rules, r1, r2, r);
        lemma_refs_below_mono(sub_matchers(m)[k - 1], rules, r1, r2, r);
    }
}

/// Whether every reference in `m` names a rule ranked below `r`, as
/// `refs_below` says.
fn refs_below_exec(m: &Matcher, rules: &Vec<(String, Matcher)>, rank: &Vec<Option<usize>>, r: usize) -> (b: bool)
    ensures
        b == refs_below(*m, rules@, rank@, r as nat),
    decreases m, 1int,
{
    match m {
        Matcher::Reference(id) => match find_util(rules, id.as_str()) {
            Some(k) => {
                if k < rank.len() {
                    match rank[k] {
                        Some(x) => x < r,
                        None => false,
                    }
                } else {
                    false
                }
            },
            None => false,
        },
        Matcher::All(ms) | Matcher::Any(ms) => {
            let mut i: usize = 0;
            while i < ms.len()
                invariant
                    sub_matchers(*m) == ms@,
                    i <= ms@.len(),
                    all_refs_below(*m, i as int, rules@, rank@, r as nat),
                decreases ms@.len() - i,
            {
                if !refs_below_exec(&ms[i], rules, rank, r) {
                    proof {
                        lemma_all_refs_below_false(*m, i as int + 1, ms@.len() as int, rules@, rank@, r as nat);
                    }
                    return false;
                }
                i = i + 1;
            }
            true
        },
        Matcher::Not(inner) | Matcher::Inside(inner) | Matcher::Has(inner) | Matcher::Follows(inner)
        | Matcher::Precedes(inner) => refs_below_exec(inner, rules, rank, r),
        _ => true,
    }
}

pub proof fn lemma_all_refs_below_false(
    m: Matcher,
    k: int,
    len: int,
    rules: Seq<(String, Matcher)>,
    rank: Seq<Option<usize>>,
    r: nat,
)
    requires
        !all_refs_below(m, k, rules, rank, r),
        0 < k <= len,
        len == sub_matchers(m).len(),
    ensures
        !all_refs_below(m, len, rules, rank, r),
    decreases len - k,
{
    if k < len {
        lemma_all_refs_below_false(m, k + 1, len, rules, rank, r);
    }
}

pub proof fn lemma_all_refs_known_false(m: Matcher, k: int, len: int, rules: Seq<(String, Matcher)>)
    requires
        !all_refs_known(m, k, rules),
        0 < k <= len,
        len == sub_matchers(m).len(),
    ensures
        !all_refs_known(m, len, rules),
    decreases len - k,
{
    if k < len {
        lemma_all_refs_known_false(m, k + 1, len, rules);
    }
}

/// The first reference of `m` that names no rule of `rules`.
fn first_unknown_ref(m: &Matcher, rules: &Vec<(String, Matcher)>) -> (r: Option<String>)
    ensures
        r is None <==> refs_known(*m, rules@),
        r matches Some(id) ==> util_index(rules@, id@, 0) is None,
    decreases m, 1int,
{
    match m {
        Matcher::Reference(id) => {
            if find_util(rules, id.as_str()).is_some() {
                None
            } else {
                Some(id.clone())
            }
        },
        Matcher::All(ms) | Matcher::Any(ms) => {
            let mut i: usize = 0;
            while i < ms.len()
                invariant
                    sub_matchers(*m) == ms@,
                    i <= ms@.len(),
                    all_refs_known(*m, i as int, rules@),
                decreases ms@.len() - i,
            {
                let bad = first_unknown_ref(&ms[i], rules);
                if bad.is_some() {
                    proof {
                        lemma_all_refs_known_false(*m, i as int + 1, ms@.len() as int, rules@);
                    }
                    return bad;
                }
                i = i + 1;
            }
            None
        },
        Matcher::Not(inner) | Matcher::Inside(inner) | Matcher::Has(inner) | Matcher::Follows(inner)
        | Matcher::Precedes(inner) => first_unknown_ref(inner, rules),
        _ => None,
    }
}

/// How many entries are ranked.
pub open spec fn count_ranked(rank: Seq<Option<usize>>) -> nat
    decreases rank.len(),
{
    if rank.len() == 0 {
        0
    } else {
        count_ranked(rank.drop_last()) + if rank.last() is Some { 1nat } else { 0nat }
    }
}

pub proof fn lemma_count_ranked_update(rank: Seq<Option<usize>>, j: int, x: usize)
    requires
        0 <= j < rank.len(),
        rank[j] is None,
    ensures
        count_ranked(rank.update(j, Some(x))) == count_ranked(rank) + 1,
    decreases rank.len(),
{
    let u = rank.update(j, Some(x));
    if j < rank.len() - 1 {
        assert(u.drop_last() =~= rank.drop_last().update(j, Some(x)));
        lemma_count_ranked_update(rank.drop_last(), j, x);
    } else {
        assert(u.drop_last() =~= rank.drop_last());
    }
}

pub proof fn lemma_count_ranked_bound(rank: Seq<Option<usize>>)
    ensures
        count_ranked(rank) <= rank.len(),
        count_ranked(rank) == rank.len() ==> forall|k: int| 0 <= k < rank.len() ==> (#[trigger] rank[k]) is Some,
    decreases rank.len(),
{
    if rank.len() > 0 {
        lemma_count_ranked_bound(rank.drop_last());
        if count_ranked(rank) == rank.len() {
            assert forall|k: int| 0 <= k < rank.len() implies (#[trigger] rank[k]) is Some by {
                if k < rank.len() - 1 {
                    assert(rank.drop_last()[k] == rank[k]);
                }
            }
        }
    }
}

impl GlobalRules {
    /// No utility rules.
    pub fn empty() -> (r: GlobalRules)
        ensures
            r.rules@.len() == 0,
            r.rank@.len() == 0,
    {
        GlobalRules { rules: Vec::new(), rank: Vec::new() }
    }

    pub open spec fn wf(&self) -> bool {
        ranked(self.rules@, self.rank@)
    }
}

/// Checks utility rules and ranks them: ids must be unique, every reference
/// must name a rule, and the references must have no cycle.
pub fn parse_global_utils(utils: Vec<(String, Matcher)>) -> (r: Result<GlobalRules, RuleError>)
    ensures
        r is Ok <==> ids_unique(utils@) && (forall|j: int|
            0 <= j < utils@.len() ==> refs_known((#[trigger] utils@[j]).1, utils@)) && acyclic(utils@),
        r matches Ok(g) ==> g.rules@ == utils@ && g.wf() && ids_unique(utils@) && acyclic(utils@)
            && forall|j: int| 0 <= j < utils@.len() ==> refs_known((#[trigger] utils@[j]).1, utils@),
        r matches Err(RuleError::DuplicateRuleId(id)) ==> !ids_unique(utils@) && exists|j: int|
            0 <= j < utils@.len() && (#[trigger] utils@[j]).0@ == id@,
        r matches Err(RuleError::UnknownRuleReference(id)) ==> ids_unique(utils@) && util_index(utils@, id@, 0) is None,
        r matches Err(RuleError::CyclicRuleReference(id)) ==> ids_unique(utils@) && (forall|j: int|
            0 <= j < utils@.len() ==> refs_known((#[trigger] utils@[j]).1, utils@)) && !acyclic(utils@)
            && exists|j: int| 0 <= j < utils@.len() && (#[trigger] utils@[j]).0@ == id@,
{
    let n = utils.len();
    let mut i: usize = 0;
    while i < n
        invariant
            n == utils@.len(),
            i <= n,
            forall|a: int, b: int| 0 <= a < b < i ==> (#[trigger] utils@[a]).0@ != (#[trigger] utils@[b]).0@,
        decreases n - i,
    {
        let mut j: usize = 0;
        while j < i
            invariant
                n == utils@.len(),
                j <= i < n,
                forall|a: int, b: int| 0 <= a < b < i ==> (#[trigger] utils@[a]).0@ != (#[trigger] utils@[b]).0@,
                forall|a: int| 0 <= a < j ==> (#[trigger] utils@[a]).0@ != utils@[i as int].0@,
            decreases i - j,
        {
            if crate::meta_var::str_equal(utils[j].0.as_str(), utils[i].0.as_str()) {
                return Err(RuleError::DuplicateRuleId(utils[i].0.clone()));
            }
            j = j + 1;
        }
        i = i + 1;
    }
    let mut i: usize = 0;
    while i < n
        invariant
            n == utils@.len(),
            i <= n,
            ids_unique(utils@),
            forall|q: int| 0 <= q < i ==> refs_known((#[trigger] utils@[q]).1, utils@),
        decreases n - i,
    {
        match first_unknown_ref(&utils[i].1, &utils) {
            Some(id) => {
                return Err(RuleError::UnknownRuleReference(id));
            },
            None => {},
        }
        i = i + 1;
    }
    let mut rank: Vec<Option<usize>> = Vec::new();
    let mut i: usize = 0;
    while i < n
        invariant
            i <= n,
            rank@.len() == i,
            forall|q: int| 0 <= q < i ==> (#[trigger] rank@[q]) is None,
        decreases n - i,
    {
        rank.push(None);
        i = i + 1;
    }
    proof {
        assert(count_ranked(rank@) == 0) by {
            lemma_count_zero(rank@);
        }
    }
    let mut assigned: usize = 0;
    let mut round: usize = 0;
    while assigned < n
        invariant
            n == utils@.len(),
            ids_unique(utils@),
            forall|q: int| 0 <= q < n ==> refs_known((#[trigger] utils@[q]).1, utils@),
            rank@.len() == n,
            assigned == count_ranked(rank@),
            round <= assigned,
            forall|q: int|
                0 <= q < n ==> ((#[trigger] rank@[q]) matches Some(x) ==> x < round && refs_below(
                    utils@[q].1,
                    utils@,
                    rank@,
                    x as nat,
                )),
        decreases n - assigned,
    {
        proof {
            lemma_count_ranked_bound(rank@);
        }
        let before = assigned;
        let ghost start = rank@;
        let mut j: usize = 0;
        while j < n
            invariant
                assigned == before ==> rank@ == start,
                assigned == before ==> forall|q: int|
                    0 <= q < j && (#[trigger] start[q]) is None ==> !refs_below(utils@[q].1, utils@, start, round as nat),
                forall|q: int| 0 <= q < n ==> ((#[trigger] start[q]) matches Some(x) ==> x < round),
                start.len() == n,
                n == utils@.len(),
                rank@.len() == n,
                j <= n,
                before < n,
                before <= assigned,
                assigned == count_ranked(rank@),
                round <= before,
                forall|q: int|
                    0 <= q < n ==> ((#[trigger] rank@[q]) matches Some(x) ==> x <= round && refs_below(
                        utils@[q].1,
                        utils@,
                        rank@,
                        x as nat,
                    )),
            decreases n - j,
        {
            if rank[j].is_none() && refs_below_exec(&utils[j].1, &utils, &rank, round) {
                let ghost old_rank = rank@;
                proof {
                    lemma_count_ranked_update(rank@, j as int, round);
                    lemma_count_ranked_bound(rank@.update(j as int, Some(round)));
                }
                rank.set(j, Some(round));
                proof {
                    assert forall|q: int| 0 <= q < n implies ((#[trigger] rank@[q]) matches Some(x) ==> x <= round
                        && refs_below(utils@[q].1, utils@, rank@, x as nat)) by {
                        if let Some(x) = old_rank[q] {
                            lemma_refs_below_mono(utils@[q].1, utils@, old_rank, rank@, x as nat);
                        } else if q == j {
                            lemma_refs_below_mono(utils@[q].1, utils@, old_rank, rank@, round as nat);
                        }
                    }
                }
                assigned = assigned + 1;
            }
            j = j + 1;
        }
        if assigned == before {
            proof {
                lemma_count_all_some(rank@);
                assert forall|rr: Seq<usize>| !ranked(utils@, rr) by {
                    if ranked(utils@, rr) {
                        let u = choose|q: int| 0 <= q < n && (#[trigger] rank@[q]) is None;
                        lemma_ranks_grow(utils@, rank@, round as nat, rr, (rr[u] + 1) as nat);
                    }
                }
                assert(!acyclic(utils@));
            }
            let mut k: usize = 0;
            while k < n
                invariant
                    n == utils@.len(),
                    ids_unique(utils@),
                    !acyclic(utils@),
                    forall|q: int| 0 <= q < n ==> refs_known((#[trigger] utils@[q]).1, utils@),
                    rank@.len() == n,
                    k <= n,
                    exists|q: int| k <= q < n && (#[trigger] rank@[q]) is None,
                decreases n - k,
            {
                if rank[k].is_none() {
                    return Err(RuleError::CyclicRuleReference(utils[k].0.clone()));
                }
                k = k + 1;
            }
            assert(false);
            return Err(RuleError::CyclicRuleReference(String::new()));
        }
        proof {
            lemma_count_ranked_bound(rank@);
            assert forall|q: int| 0 <= q < n implies ((#[trigger] rank@[q]) matches Some(x) ==> x < round + 1
                && refs_below(utils@[q].1, utils@, rank@, x as nat)) by {}
        }
        round = round + 1;
    }
    proof {
        lemma_count_ranked_bound(rank@);
    }
    let mut fin: Vec<usize> = Vec::new();
    let mut i: usize = 0;
    while i < n
        invariant
            n == utils@.len(),
            rank@.len() == n,
            i <= n,
            round <= n,
            fin@.len() == i,
            forall|q: int| 0 <= q < n ==> (#[trigger] rank@[q]) is Some,
            forall|q: int| 0 <= q < i ==> rank@[q] == Some(#[trigger] fin@[q]),
        decreases n - i,
    {
        match rank[i] {
            Some(x) => fin.push(x),
            None => {
                assert(false);
                fin.push(0);
            },
        }
        i = i + 1;
    }
    proof {
        assert(fin@.map_values(|x: usize| Some(x)) =~= rank@);
        assert(ranked(utils@, fin@));
    }
    Ok(GlobalRules { rules: utils, rank: fin })
}

/// Where a matcher's references are all below `a` in ranking `ra` but not
/// all below `b` in ranking `rb`, one of its references names a rule ranked
/// below `a` in `ra` and not ranked below `b` in `rb`.
pub proof fn lemma_ref_witness(
    m: Matcher,
    rules: Seq<(String, Matcher)>,
    ra: Seq<Option<usize>>,
    a: nat,
    rb: Seq<Option<usize>>,
    b: nat,
) -> (k: int)
    requires
        ra.len() == rb.len(),
        refs_below(m, rules, ra, a),
        !refs_below(m, rules, rb, b),
    ensures
        0 <= k < rb.len(),
        ra[k] matches Some(x) && (x as nat) < a,
        !(rb[k] matches Some(y) && (y as nat) < b),
    decreases m, 1int,
{
    match m {
        Matcher::Reference(id) => {
            lemma_util_index_range(rules, id@, 0);
            util_index(rules, id@, 0)->0
        },
        Matcher::All(ms) => lemma_all_ref_witness(m, ms@.len() as int, rules, ra, a, rb, b),
        Matcher::Any(ms) => lemma_all_ref_witness(m, ms@.len() as int, rules, ra, a, rb, b),
        Matcher::Not(inner) => lemma_ref_witness(*inner, rules, ra, a, rb, b),
        Matcher::Inside(inner) => lemma_ref_witness(*inner, rules, ra, a, rb, b),
        Matcher::Has(inner) => lemma_ref_witness(*inner, rules, ra, a, rb, b),
        Matcher::Follows(inner) => lemma_ref_witness(*inner, rules, ra, a, rb, b),
        Matcher::Precedes(inner) => lemma_ref_witness(*inner, rules, ra, a, rb, b),
        _ => 0,
    }
}

pub proof fn lemma_all_ref_witness(
    m: Matcher,
    k: int,
    rules: Seq<(String, Matcher)>,
    ra: Seq<Option<usize>>,
    a: nat,
    rb: Seq<Option<usize>>,
    b: nat,
) -> (w: int)
    requires
        ra.len() == rb.len(),
        all_refs_below(m, k, rules, ra, a),
        !all_refs_below(m, k, rules, rb, b),
    ensures
        0 <= w < rb.len(),
        ra[w] matches Some(x) && (x as nat) < a,
        !(rb[w] matches Some(y) && (y as nat) < b),
    decreases m, 0int, k,
{
    if !all_refs_below(m, k - 1, rules, rb, b) {
        lemma_all_ref_witness(m, k - 1, rules, ra, a, rb, b)
    } else {
        lemma_ref_witness(sub_matchers(m)[k - 1], rules, ra, a, rb, b)
    }
}

/// At a point where no unranked rule can be ranked, every rule that stays
/// unranked has rank at least `v` in any ranking of the rules.
pub proof fn lemma_ranks_grow(
    rules: Seq<(String, Matcher)>,
    rb: Seq<Option<usize>>,
    b: nat,
    r: Seq<usize>,
    v: nat,
)
    requires
        ranked(rules, r),
        rb.len() == rules.len(),
        forall|q: int| 0 <= q < rb.len() ==> ((#[trigger] rb[q]) matches Some(y) ==> (y as nat) < b),
        forall|q: int|
            0 <= q < rb.len() && (#[trigger] rb[q]) is None ==> !refs_below(rules[q].1, rules, rb, b),
    ensures
        forall|u: int| 0 <= u < rb.len() && (#[trigger] rb[u]) is None ==> r[u] >= v,
    decreases v,
{
    if v > 0 {
        lemma_ranks_grow(rules, rb, b, r, (v - 1) as nat);
        assert forall|u: int| 0 <= u < rb.len() && (#[trigger] rb[u]) is None implies r[u] >= v by {
            let rs = r.map_values(|x: usize| Some(x));
            assert(r[u] < rules.len() && refs_below(rules[u].1, rules, rs, r[u] as nat));
            let k = lemma_ref_witness(rules[u].1, rules, rs, r[u] as nat, rb, b);
            assert(rs[k] == Some(r[k]));
            assert(rb[k] is None);
        }
    }
}

pub proof fn lemma_count_all_some(rank: Seq<Option<usize>>)
    ensures
        (forall|k: int| 0 <= k < rank.len() ==> (#[trigger] rank[k]) is Some) ==> count_ranked(rank) == rank.len(),
    decreases rank.len(),
{
    if rank.len() > 0 {
        lemma_count_all_some(rank.drop_last());
        if forall|k: int| 0 <= k < rank.len() ==> (#[trigger] rank[k]) is Some {
            assert forall|k: int| 0 <= k < rank.drop_last().len() implies (#[trigger] rank.drop_last()[k]) is Some by {
                assert(rank.drop_last()[k] == rank[k]);
            }
        }
    }
}

pub proof fn lemma_count_zero(rank: Seq<Option<usize>>)
    requires
        forall|q: int| 0 <= q < rank.len() ==> (#[trigger] rank[q]) is None,
    ensures
        count_ranked(rank) == 0,
    decreases rank.len(),
{
    if rank.len() > 0 {
        lemma_count_zero(rank.drop_last());
    }
}

/// Whether a regular expression has a match in a text; `None` where the
/// expression does not compile.
pub uninterp spec fn regex_search(pattern: Seq<char>, text: Seq<char>) -> Option<bool>;

/// Relies on `regex::Regex::new` and `regex::Regex::is_match`: compiles
/// `pattern` and searches `text` for a match; the outcome depends on the two
/// strings alone.
#[verifier::external_body]
fn regex_is_match(pattern: &str, text: &str) -> (r: Option<bool>)
    ensures
        r == regex_search(pattern@, text@),
{
    regex::Regex::new(pattern).ok().map(|re| re.is_match(text))
}

pub open spec fn sub_matchers(m: Matcher) -> Seq<Matcher> {
    match m {
        Matcher::All(ms) => ms@,
        Matcher::Any(ms) => ms@,
        _ => Seq::empty(),
    }
}

/// The bindings after `m` matches node `n`, from `env`; `None` where it
/// does not match.
pub open spec fn rule_match(m: Matcher, g: GlobalRules, b: nat, t: SyntaxTree, n: nat, env: EnvModel) -> Option<EnvModel>
    decreases b, m, 1int, 0int,
{
    if n >= t.len() {
        None
    } else {
        match m {
            Matcher::Pattern(p) => match_node(p, t, n, env),
            Matcher::Kind(k) => if t.kind_of(n as int) == k {
                Some(env)
            } else {
                None
            },
            Matcher::All(_) => all_from(m, 0, g, b, t, n, env),
            Matcher::Any(_) => any_from(m, 0, g, b, t, n, env),
            Matcher::Not(inner) => if rule_match(*inner, g, b, t, n, env) is Some {
                None
            } else {
                Some(env)
            },
            Matcher::Inside(inner) => match parent_of(t, n as int) {
                Some(p) => rule_match(*inner, g, b, t, p, env),
                None => None,
            },
            Matcher::Has(_) => has_from(m, g, b, t, n, 0, env),
            Matcher::Follows(inner) => match sibling_of(t, n as int, -1) {
                Some(x) => rule_match(*inner, g, b, t, x, env),
                None => None,
            },
            Matcher::Precedes(inner) => match sibling_of(t, n as int, 1) {
                Some(x) => rule_match(*inner, g, b, t, x, env),
                None => None,
            },
            Matcher::Regex(re) => if regex_search(re@, t.text_of(n as int)) == Some(true) {
                Some(env)
            } else {
                None
            },
            Matcher::Reference(id) => match util_index(g.rules@, id@, 0) {
                Some(k) => if k < g.rank@.len() && (g.rank@[k] as nat) < b {
                    rule_match(g.rules@[k].1, g, g.rank@[k] as nat, t, n, env)
                } else {
                    None
                },
                None => None,
            },
        }
    }
}

/// The first child of `n` from position `j` on where the inner matcher of
/// `Has` matches.
pub open spec fn has_from(m: Matcher, g: GlobalRules, b: nat, t: SyntaxTree, n: nat, j: nat, env: EnvModel) -> Option<EnvModel>
    decreases b, m, 0int, t.children_of(n as int).len() - j,
{
    let cs = t.children_of(n as int);
    match m {
        Matcher::Has(inner) => if j >= cs.len() {
            None
        } else {
            match rule_match(*inner, g, b, t, cs[j as int] as nat, env) {
                Some(e) => Some(e),
                None => has_from(m, g, b, t, n, j + 1, env),
            }
        },
        _ => None,
    }
}

/// The sub-matchers from `i` on, each from the bindings of the one before.
pub open spec fn all_from(m: Matcher, i: nat, g: GlobalRules, b: nat, t: SyntaxTree, n: nat, env: EnvModel) -> Option<EnvModel>
    decreases b, m, 0int, sub_matchers(m).len() - i,
{
    let ms = sub_matchers(m);
    if i >= ms.len() {
        Some(env)
    } else {
        match rule_match(ms[i as int], g, b, t, n, env) {
            Some(e) => all_from(m, i + 1, g, b, t, n, e),
            None => None,
        }
    }
}

/// The first sub-matcher from `i` on that matches.
pub open spec fn any_from(m: Matcher, i: nat, g: GlobalRules, b: nat, t: SyntaxTree, n: nat, env: EnvModel) -> Option<EnvModel>
    decreases b, m, 0int, sub_matchers(m).len() - i,
{
    let ms = sub_matchers(m);
    if i >= ms.len() {
        None
    } else {
        match rule_match(ms[i as int], g, b, t, n, env) {
            Some(e) => Some(e),
            None => any_from(m, i + 1, g, b, t, n, env),
        }
    }
}

/// Matches `m` at node `n`, as `rule_match` says; on failure `env` is left
/// as it was.
pub fn rule_match_exec(m: &Matcher, g: &GlobalRules, b: usize, t: &SyntaxTree, n: usize, env: &mut MetaVarEnv) -> (r: bool)
    requires
        t.wf(),
        t.valid(n as int),
        old(env).valid_in(*t),
    ensures
        match rule_match(*m, *g, b as nat, *t, n as nat, old(env)@) {
            Some(e) => r && final(env)@ == e && final(env).extends(*old(env)) && final(env).valid_in(*t),
            None => !r && final(env).same(*old(env)),
        },
    decreases b, m, 1int, 0int,
{
    proof {
        lemma_extends_refl(*env);
    }
    let saved_s = env.single.len();
    let saved_m = env.multi.len();
    match m {
        Matcher::Pattern(p) => match_node_exec(p, t, n, env),
        Matcher::Kind(k) => t.nodes[n].kind_id == *k,
        Matcher::All(ms) => {
            assert(rule_match(*m, *g, b as nat, *t, n as nat, old(env)@) == all_from(*m, 0, *g, b as nat, *t, n as nat, old(env)@));
            let ghost env0 = *env;
            let mut i: usize = 0;
            while i < ms.len()
                invariant
                    t.wf(),
                    t.valid(n as int),
                    env.valid_in(*t),
                    env.extends(env0),
                    env0 == *old(env),
                    saved_s == env0.single@.len(),
                    saved_m == env0.multi@.len(),
                    sub_matchers(*m) == ms@,
                    i <= ms@.len(),
                    all_from(*m, 0, *g, b as nat, *t, n as nat, env0@) == all_from(*m, i as nat, *g, b as nat, *t, n as nat, env@),
                    rule_match(*m, *g, b as nat, *t, n as nat, env0@) == all_from(*m, 0, *g, b as nat, *t, n as nat, env0@),
                decreases ms@.len() - i,
            {
                let ghost before = *env;
                if !rule_match_exec(&ms[i], g, b, t, n, env) {
                    assert(all_from(*m, i as nat, *g, b as nat, *t, n as nat, before@) is None);
                    env.truncate_to(saved_s, saved_m);
                    assert(env.single@ =~= env0.single@);
                    assert(env.multi@ =~= env0.multi@);
                    assert(env.same(*old(env)));
                    assert(all_from(*m, 0, *g, b as nat, *t, n as nat, old(env)@) is None);
                    assert(rule_match(*m, *g, b as nat, *t, n as nat, old(env)@) is None);
                    return false;
                }
                proof {
                    lemma_extends_trans(env0, before, *env);
                }
                i = i + 1;
            }
            true
        },
        Matcher::Any(ms) => {
            assert(rule_match(*m, *g, b as nat, *t, n as nat, old(env)@) == any_from(*m, 0, *g, b as nat, *t, n as nat, old(env)@));
            let mut i: usize = 0;
            while i < ms.len()
                invariant
                    t.wf(),
                    t.valid(n as int),
                    env.valid_in(*t),
                    env.same(*old(env)),
                    sub_matchers(*m) == ms@,
                    i <= ms@.len(),
                    any_from(*m, 0, *g, b as nat, *t, n as nat, old(env)@) == any_from(*m, i as nat, *g, b as nat, *t, n as nat, old(env)@),
                    rule_match(*m, *g, b as nat, *t, n as nat, old(env)@) == any_from(*m, 0, *g, b as nat, *t, n as nat, old(env)@),
                decreases ms@.len() - i,
            {
                let ghost before = *env;
                if rule_match_exec(&ms[i], g, b, t, n, env) {
                    assert(before@ == old(env)@);
                    assert(any_from(*m, i as nat, *g, b as nat, *t, n as nat, old(env)@) == Some(env@));
                    assert(env.single@.subrange(0, old(env).single@.len() as int) == old(env).single@);
                    assert(env.multi@.subrange(0, old(env).multi@.len() as int) == old(env).multi@);
                    assert(env.extends(*old(env)));
                    assert(rule_match(*m, *g, b as nat, *t, n as nat, old(env)@) == Some(env@));
                    return true;
                }
                i = i + 1;
            }
            false
        },
        Matcher::Not(inner) => {
            if rule_match_exec(inner, g, b, t, n, env) {
                env.truncate_to(saved_s, saved_m);
                false
            } else {
                true
            }
        },
        Matcher::Inside(inner) => match t.parent(n) {
            Some(p) => rule_match_exec(inner, g, b, t, p, env),
            None => false,
        },
        Matcher::Follows(inner) => match t.sibling(n, true) {
            Some(x) => rule_match_exec(inner, g, b, t, x, env),
            None => false,
        },
        Matcher::Precedes(inner) => match t.sibling(n, false) {
            Some(x) => rule_match_exec(inner, g, b, t, x, env),
            None => false,
        },
        Matcher::Regex(re) => match regex_is_match(re.as_str(), t.text(n)) {
            Some(found) => found,
            None => false,
        },
        Matcher::Reference(id) => match find_util(&g.rules, id.as_str()) {
            Some(k) => {
                if k < g.rank.len() && g.rank[k] < b {
                    rule_match_exec(&g.rules[k].1, g, g.rank[k], t, n, env)
                } else {
                    false
                }
            },
            None => false,
        },
        Matcher::Has(inner) => {
            assert(rule_match(*m, *g, b as nat, *t, n as nat, old(env)@) == has_from(*m, *g, b as nat, *t, n as nat, 0, old(env)@));
            let cs = &t.nodes[n].children;
            let mut j: usize = 0;
            while j < cs.len()
                invariant
                    t.wf(),
                    t.valid(n as int),
                    cs == t.nodes@[n as int].children,
                    *m matches Matcher::Has(b) && *b == *inner,
                    env.valid_in(*t),
                    env.same(*old(env)),
                    j <= cs@.len(),
                    has_from(*m, *g, b as nat, *t, n as nat, 0, old(env)@) == has_from(*m, *g, b as nat, *t, n as nat, j as nat, old(env)@),
                    rule_match(*m, *g, b as nat, *t, n as nat, old(env)@) == has_from(*m, *g, b as nat, *t, n as nat, 0, old(env)@),
                decreases cs@.len() - j,
            {
                let ghost before = *env;
                if rule_match_exec(inner, g, b, t, cs[j], env) {
                    assert(before@ == old(env)@);
                    assert(env.single@.subrange(0, old(env).single@.len() as int) == old(env).single@);
                    assert(env.multi@.subrange(0, old(env).multi@.len() as int) == old(env).multi@);
                    return true;
                }
                j = j + 1;
            }
            false
        },
    }
}

#[derive(Clone, Copy, PartialEq, Eq, Structural, Debug)]
pub enum Severity {
    Hint,
    Info,
    Warning,
    Error,
    Off,
}

#[derive(Clone, Copy, PartialEq, Eq, Structural, Debug)]
pub enum LabelStyle {
    Primary,
    Secondary,
}

/// A label that a rule declares for a meta-variable.
pub struct LabelConfig {
    pub style: LabelStyle,
    pub message: Option<String>,
}

/// A labelled byte range of a match.
pub struct Label {
    pub style: LabelStyle,
    pub message: Option<String>,
    pub range: std::ops::Range<usize>,
}

pub struct RuleConfig {
    pub id: String,
    pub language: Lang,
    pub severity: Severity,
    /// The message, with `$NAME` slots filled from the match.
    pub message: String,
    pub note: Option<String>,
    pub matcher: Matcher,
    /// Matchers that the node bound to a name must also match.
    pub constraints: Vec<(String, Matcher)>,
    /// Texts derived after a match, in order, each under its name.
    pub transform: Vec<(String, Transformation)>,
    pub labels: Vec<(String, LabelConfig)>,
    pub fix: Vec<Fixer>,
    /// The utility rules that the matcher and constraints refer to by id.
    pub utils: GlobalRules,
    /// Free-form data of the rule, as name and value.
    pub metadata: Option<Vec<(String, String)>>,
    /// Globs of the paths the rule applies to; all paths where absent.
    pub files: Option<Vec<String>>,
    /// Globs of the paths the rule leaves alone.
    pub ignores: Option<Vec<String>>,
}

/// Each constraint whose name is bound holds of the bound node.
pub open spec fn constraints_hold(cs: Seq<(String, Matcher)>, g: GlobalRules, t: SyntaxTree, single: Seq<(Seq<char>, nat)>) -> bool {
    forall|i: int|
        0 <= i < cs.len() ==> match lookup(single, (#[trigger] cs[i]).0@) {
            Some(node) => rule_match(cs[i].1, g, g.rules@.len(), t, node, empty_env()) is Some,
            None => true,
        }
}

/// The transformed texts after the first `k` transformations.
pub open spec fn transforms_result(
    trs: Seq<(String, Transformation)>,
    k: nat,
    single: Seq<(Seq<char>, nat)>,
    t: SyntaxTree,
) -> Seq<(Seq<char>, Seq<char>)>
    decreases k,
{
    if k == 0 || k > trs.len() {
        Seq::empty()
    } else {
        transform_step(transforms_result(trs, (k - 1) as nat, single, t), single, t, trs[k - 1].0@, trs[k - 1].1)
    }
}

/// The byte range that a label of `name` covers: the bound node, or from the
/// first to the last node of a bound run.
pub open spec fn label_range(t: SyntaxTree, env: EnvModel, name: Seq<char>) -> Option<(int, int)> {
    match lookup(env.single, name) {
        Some(n) => Some(node_range(t, n as int)),
        None => match lookup(env.multi, name) {
            Some(ns) => if ns.len() > 0 {
                Some((node_range(t, ns[0] as int).0, node_range(t, ns.last() as int).1))
            } else {
                None
            },
            None => None,
        },
    }
}

impl RuleConfig {
    /// Matches the rule at node `n`: the matcher, then the constraints, then
    /// the transformations in order.
    pub fn match_node(&self, t: &SyntaxTree, n: usize) -> (r: Option<NodeMatch>)
        requires
            t.wf(),
            t.valid(n as int),
        ensures
            match rule_match(self.matcher, self.utils, self.utils.rules@.len(), *t, n as nat, empty_env()) {
                None => r is None,
                Some(e) => if constraints_hold(self.constraints@, self.utils, *t, e.single) {
                    r matches Some(m) && m.node == n && m.env@ == e && m.env.valid_in(*t) && transformed_view(m.env)
                        == transforms_result(self.transform@, self.transform@.len(), e.single, *t)
                } else {
                    r is None
                },
            },
    {
        let mut env = MetaVarEnv::new();
        assert(env@.single =~= Seq::<(Seq<char>, nat)>::empty());
        assert(env@.multi =~= Seq::<(Seq<char>, Seq<nat>)>::empty());
        if !rule_match_exec(&self.matcher, &self.utils, self.utils.rules.len(), t, n, &mut env) {
            return None;
        }
        let mut i: usize = 0;
        while i < self.constraints.len()
            invariant
                t.wf(),
                env.valid_in(*t),
                rule_match(self.matcher, self.utils, self.utils.rules@.len(), *t, n as nat, empty_env()) == Some(env@),
                i <= self.constraints@.len(),
                forall|q: int|
                    0 <= q < i ==> match lookup(env@.single, (#[trigger] self.constraints@[q]).0@) {
                        Some(node) => rule_match(self.constraints@[q].1, self.utils, self.utils.rules@.len(), *t, node, empty_env()) is Some,
                        None => true,
                    },
            decreases self.constraints@.len() - i,
        {
            let (name, m) = (&self.constraints[i].0, &self.constraints[i].1);
            match env.get_match(name.as_str()) {
                Some(node) => {
                    proof {
                        lemma_lookup_member(env@.single, name@);
                        let k = choose|k: int| 0 <= k < env@.single.len() && #[trigger] env@.single[k] == (name@, node as nat);
                        assert(env.single@[k].1 < t.len());
                    }
                    let mut fresh = MetaVarEnv::new();
                    assert(fresh@.single =~= Seq::<(Seq<char>, nat)>::empty());
                    assert(fresh@.multi =~= Seq::<(Seq<char>, Seq<nat>)>::empty());
                    assert(fresh@ == empty_env());
                    if !rule_match_exec(m, &self.utils, self.utils.rules.len(), t, node, &mut fresh) {
                        assert(lookup(env@.single, self.constraints@[i as int].0@) == Some(node as nat));
                        assert(!constraints_hold(self.constraints@, self.utils, *t, env@.single));
                        return None;
                    }
                },
                None => {},
            }
            i = i + 1;
        }
        let ghost e = env@;
        assert(env.transformed@.len() == 0);
        assert(transformed_view(env) =~= Seq::<(Seq<char>, Seq<char>)>::empty());
        let mut k: usize = 0;
        while k < self.transform.len()
            invariant
                t.wf(),
                env.valid_in(*t),
                env@ == e,
                rule_match(self.matcher, self.utils, self.utils.rules@.len(), *t, n as nat, empty_env()) == Some(e),
                constraints_hold(self.constraints@, self.utils, *t, e.single),
                k <= self.transform@.len(),
                transformed_view(env) == transforms_result(self.transform@, k as nat, e.single, *t),
            decreases self.transform@.len() - k,
        {
            let ghost before = env;
            env.insert_transform(t, self.transform[k].0.as_str(), &self.transform[k].1);
            assert(env@.single =~= before@.single);
            k = k + 1;
        }
        Some(NodeMatch { node: n, env })
    }

    /// The message with its `$NAME` slots filled from the match.
    pub fn get_message(&self, t: &SyntaxTree, nm: &NodeMatch) -> (r: String)
        requires
            t.wf(),
            nm.env.valid_in(*t),
        ensures
            r@ == expand(lex(self.message@, 0), *t, nm.env),
    {
        let template = Fixer::from_str(self.message.as_str());
        expand_parts(&template.parts, t, &nm.env)
    }

    /// The labels of a match: for each declared label whose name is bound,
    /// in order, its style, message and range; where the rule declares none,
    /// one primary label over the matched node.
    pub fn get_labels(&self, t: &SyntaxTree, nm: &NodeMatch) -> (r: Vec<Label>)
        requires
            t.wf(),
            (nm.node as int) < t.len(),
            nm.env.valid_in(*t),
        ensures
            self.labels@.len() == 0 ==> r@.len() == 1 && r@[0].style == LabelStyle::Primary && r@[0].message is None
                && r@[0].range.start == node_range(*t, nm.node as int).0 && r@[0].range.end == node_range(
                *t,
                nm.node as int,
            ).1,
            self.labels@.len() > 0 ==> r@.map_values(|l: Label| label_view(l)) == labels_spec(
                self.labels@,
                *t,
                nm.env@,
                self.labels@.len() as int,
            ),
            r@.map_values(|l: Label| label_view(l)) == rule_labels(*self, *t, nm.env@, nm.node as int),
    {
        let mut out: Vec<Label> = Vec::new();
        if self.labels.len() == 0 {
            let node = &t.nodes[nm.node];
            let end: usize = if node.end >= node.start { node.end } else { node.start };
            let l = Label { style: LabelStyle::Primary, message: None, range: node.start..end };
            out.push(l);
            assert(out@.map_values(|l: Label| label_view(l)) =~= seq![label_view(l)]);
            return out;
        }
        let mut i: usize = 0;
        while i < self.labels.len()
            invariant
                t.wf(),
                nm.env.valid_in(*t),
                i <= self.labels@.len(),
                out@.map_values(|l: Label| label_view(l)) == labels_spec(self.labels@, *t, nm.env@, i as int),
            decreases self.labels@.len() - i,
        {
            let ghost before = out@.map_values(|l: Label| label_view(l));
            let name = &self.labels[i].0;
            let cfg = &self.labels[i].1;
            let message = match &cfg.message {
                Some(s) => Some(s.clone()),
                None => None,
            };
            assert(title_view(message) == title_view(cfg.message));
            match nm.env.get_match(name.as_str()) {
                Some(n) => {
                    proof {
                        lemma_lookup_member(nm.env@.single, name@);
                        let k = choose|k: int| 0 <= k < nm.env@.single.len() && #[trigger] nm.env@.single[k] == (name@, n as nat);
                        assert(nm.env.single@[k].1 < t.len());
                    }
                    let node = &t.nodes[n];
                    let end: usize = if node.end >= node.start { node.end } else { node.start };
                    let l = Label { style: cfg.style, message, range: node.start..end };
                    out.push(l);
                    assert(out@.map_values(|l: Label| label_view(l)) =~= before.push(label_view(l)));
                },
                None => {
                    match nm.env.get_multiple_matches(name.as_str()) {
                        Some(ns) => {
                            if ns.len() > 0 {
                                proof {
                                    lemma_lookup_member(nm.env@.multi, name@);
                                    let k = choose|k: int| 0 <= k < nm.env@.multi.len() && #[trigger] nm.env@.multi[k] == (name@, nat_seq(ns@));
                                    assert(nm.env@.multi[k] == (nm.env.multi@[k].0@, nat_seq(nm.env.multi@[k].1@)));
                                    crate::fixer::lemma_nat_seq_injective(ns@, nm.env.multi@[k].1@);
                                    assert(nm.env.multi@[k].1@[0] < t.len());
                                    assert(nm.env.multi@[k].1@[ns@.len() - 1] < t.len());
                                    assert(nat_seq(ns@)[0] == ns@[0] as nat);
                                    assert(nat_seq(ns@).last() == ns@[ns@.len() - 1] as nat);
                                }
                                let first = &t.nodes[ns[0]];
                                let last = &t.nodes[ns[ns.len() - 1]];
                                let end: usize = if last.end >= last.start { last.end } else { last.start };
                                let l = Label { style: cfg.style, message, range: first.start..end };
                                out.push(l);
                                assert(out@.map_values(|l: Label| label_view(l)) =~= before.push(label_view(l)));
                            } else {
                                assert(nat_seq(ns@).len() == 0);
                            }
                        },
                        None => {},
                    }
                },
            }
            i = i + 1;
        }
        out
    }
}

/// The labels of a match as plain values, as `RuleConfig::get_labels` gives them.
pub open spec fn rule_labels(r: RuleConfig, t: SyntaxTree, env: EnvModel, node: int) -> Seq<
    (LabelStyle, Option<Seq<char>>, int, int),
> {
    if r.labels@.len() == 0 {
        seq![(LabelStyle::Primary, None::<Seq<char>>, node_range(t, node).0, node_range(t, node).1)]
    } else {
        labels_spec(r.labels@, t, env, r.labels@.len() as int)
    }
}

/// A label as plain values: style, message, and byte range.
pub open spec fn label_view(l: Label) -> (LabelStyle, Option<Seq<char>>, int, int) {
    (l.style, title_view(l.message), l.range.start as int, l.range.end as int)
}

/// The labels of the first `k` declared ones whose name is bound, in order.
pub open spec fn labels_spec(
    labels: Seq<(String, LabelConfig)>,
    t: SyntaxTree,
    env: EnvModel,
    k: int,
) -> Seq<(LabelStyle, Option<Seq<char>>, int, int)>
    decreases k,
{
    if k <= 0 || k > labels.len() {
        Seq::empty()
    } else {
        let prev = labels_spec(labels, t, env, k - 1);
        let (name, cfg) = labels[k - 1];
        match label_range(t, env, name@) {
            Some((a, b)) => prev.push((cfg.style, title_view(cfg.message), a, b)),
            None => prev,
        }
    }
}

/// Every regular expression in the matcher compiles: whether one does
/// cannot depend on the text, so it is tried on the empty one.
pub open spec fn regexes_valid(m: Matcher) -> bool
    decreases m, 1int,
{
    match m {
        Matcher::Regex(re) => regex_search(re@, Seq::empty()) is Some,
        Matcher::All(ms) => all_regexes_valid(m, ms@.len() as int),
        Matcher::Any(ms) => all_regexes_valid(m, ms@.len() as int),
        Matcher::Not(inner) => regexes_valid(*inner),
        Matcher::Inside(inner) => regexes_valid(*inner),
        Matcher::Has(inner) => regexes_valid(*inner),
        Matcher::Follows(inner) => regexes_valid(*inner),
        Matcher::Precedes(inner) => regexes_valid(*inner),
        _ => true,
    }
}

/// The first `k` members of a composite matcher have only valid regular
/// expressions.
pub open spec fn all_regexes_valid(m: Matcher, k: int) -> bool
    decreases m, 0int, k,
{
    if k <= 0 || k > sub_matchers(m).len() {
        true
    } else {
        all_regexes_valid(m, k - 1) && regexes_valid(sub_matchers(m)[k - 1])
    }
}

/// The first regular expression of the matcher that does not compile.
pub fn first_bad_regex(m: &Matcher) -> (r: Option<String>)
    ensures
        r is None <==> regexes_valid(*m),
        r matches Some(x) ==> regex_search(x@, Seq::empty()) is None,
    decreases m, 1int,
{
    proof {
        reveal_strlit("");
    }
    match m {
        Matcher::Regex(re) => {
            let ok = regex_is_match(re.as_str(), "").is_some();
            assert(""@ =~= Seq::<char>::empty());
            if ok {
                None
            } else {
                Some(re.clone())
            }
        },
        Matcher::All(ms) | Matcher::Any(ms) => {
            let mut i: usize = 0;
            while i < ms.len()
                invariant
                    sub_matchers(*m) == ms@,
                    i <= ms@.len(),
                    all_regexes_valid(*m, i as int),
                decreases ms@.len() - i,
            {
                let bad = first_bad_regex(&ms[i]);
                if bad.is_some() {
                    proof {
                        lemma_all_regexes_invalid(*m, i as int + 1, ms@.len() as int);
                    }
                    return bad;
                }
                i = i + 1;
            }
            None
        },
        Matcher::Not(inner) | Matcher::Inside(inner) | Matcher::Has(inner) | Matcher::Follows(inner)
        | Matcher::Precedes(inner) => first_bad_regex(inner),
        _ => None,
    }
}

/// Every constraint's matcher has only valid regular expressions.
pub open spec fn constraints_regexes_valid(cs: Seq<(String, Matcher)>) -> bool {
    forall|i: int| 0 <= i < cs.len() ==> regexes_valid((#[trigger] cs[i]).1)
}

/// Every `replace` transformation has a regular expression that compiles.
pub open spec fn transforms_regexes_valid(trs: Seq<(String, Transformation)>) -> bool {
    forall|i: int|
        0 <= i < trs.len() ==> match (#[trigger] trs[i]).1 {
            Transformation::Replace(rp) => regex_search(rp.replace@, Seq::empty()) is Some,
            _ => true,
        }
}

/// The first regular expression of the rule's matcher, constraints or
/// transformations that does not compile.
pub fn rule_bad_regex(r: &RuleConfig) -> (x: Option<String>)
    ensures
        x is None <==> (regexes_valid(r.matcher) && constraints_regexes_valid(r.constraints@)
            && transforms_regexes_valid(r.transform@)),
        x matches Some(y) ==> regex_search(y@, Seq::empty()) is None,
{
    let bad = first_bad_regex(&r.matcher);
    if bad.is_some() {
        return bad;
    }
    let mut i: usize = 0;
    while i < r.constraints.len()
        invariant
            i <= r.constraints@.len(),
            forall|q: int| 0 <= q < i ==> regexes_valid((#[trigger] r.constraints@[q]).1),
        decreases r.constraints@.len() - i,
    {
        let bad = first_bad_regex(&r.constraints[i].1);
        if bad.is_some() {
            return bad;
        }
        i = i + 1;
    }
    let mut k: usize = 0;
    while k < r.transform.len()
        invariant
            regexes_valid(r.matcher),
            constraints_regexes_valid(r.constraints@),
            k <= r.transform@.len(),
            forall|q: int|
                0 <= q < k ==> match (#[trigger] r.transform@[q]).1 {
                    Transformation::Replace(rp) => regex_search(rp.replace@, Seq::empty()) is Some,
                    _ => true,
                },
        decreases r.transform@.len() - k,
    {
        proof {
            reveal_strlit("");
        }
        match &r.transform[k].1 {
            Transformation::Replace(rp) => {
                let ok = regex_is_match(rp.replace.as_str(), "").is_some();
                assert(""@ =~= Seq::<char>::empty());
                if !ok {
                    return Some(rp.replace.clone());
                }
            },
            _ => {},
        }
        k = k + 1;
    }
    None
}

pub proof fn lemma_all_regexes_invalid(m: Matcher, k: int, len: int)
    requires
        !all_regexes_valid(m, k),
        0 < k <= len,
        len == sub_matchers(m).len(),
    ensures
        !all_regexes_valid(m, len),
    decreases len - k,
{
    if k < len {
        lemma_all_regexes_invalid(m, k + 1, len);
    }
}

/// The rule's matcher matches node `n` and its constraints hold.
pub open spec fn rule_accepts(r: RuleConfig, t: SyntaxTree, n: int) -> bool {
    rule_match(r.matcher, r.utils, r.utils.rules@.len(), t, n as nat, empty_env()) matches Some(e) && constraints_hold(
        r.constraints@,
        r.utils,
        t,
        e.single,
    )
}

/// The nodes from `i` on, in arena order, that the rule accepts; the
/// subtree of an accepted node is not searched again.
pub open spec fn rule_find_all_from(r: RuleConfig, t: SyntaxTree, i: int) -> Seq<nat>
    decreases t.len() - i,
{
    if !t.wf() || i < 0 || i >= t.len() {
        Seq::empty()
    } else if rule_accepts(r, t, i) {
        proof {
            lemma_last_desc(t, i);
        }
        seq![i as nat] + rule_find_all_from(r, t, last_desc(t, i) + 1)
    } else {
        rule_find_all_from(r, t, i + 1)
    }
}

fn last_node_of(t: &SyntaxTree, n: usize) -> (r: usize)
    requires
        t.wf(),
        t.valid(n as int),
    ensures
        r == last_desc(*t, n as int),
{
    let mut m: usize = n;
    while t.nodes[m].children.len() > 0
        invariant
            t.wf(),
            t.valid(m as int),
            last_desc(*t, m as int) == last_desc(*t, n as int),
        decreases t.len() - m,
    {
        let cs = &t.nodes[m].children;
        m = cs[cs.len() - 1];
    }
    m
}

impl RuleConfig {
    /// Every match of the rule in `t`, in pre-order, none inside an earlier one.
    pub fn find_all(&self, t: &SyntaxTree) -> (r: Vec<NodeMatch>)
        requires
            t.wf(),
        ensures
            r@.map_values(|m: NodeMatch| m.node as nat) == rule_find_all_from(*self, *t, 0),
            forall|q: int| 0 <= q < r@.len() ==> (#[trigger] r@[q]).env.valid_in(*t),
            forall|q: int|
                0 <= q < r@.len() ==> rule_match(self.matcher, self.utils, self.utils.rules@.len(), *t, (#[trigger] r@[q]).node as nat, empty_env())
                    == Some(r@[q].env@) && transformed_view(r@[q].env) == transforms_result(
                    self.transform@,
                    self.transform@.len(),
                    r@[q].env@.single,
                    *t,
                ),
    {
        let mut out: Vec<NodeMatch> = Vec::new();
        let mut i: usize = 0;
        while i < t.nodes.len()
            invariant
                t.wf(),
                i <= t.len(),
                rule_find_all_from(*self, *t, 0) == out@.map_values(|m: NodeMatch| m.node as nat)
                    + rule_find_all_from(*self, *t, i as int),
                forall|q: int| 0 <= q < out@.len() ==> (#[trigger] out@[q]).env.valid_in(*t),
                forall|q: int|
                    0 <= q < out@.len() ==> rule_match(self.matcher, self.utils, self.utils.rules@.len(), *t, (#[trigger] out@[q]).node as nat, empty_env())
                        == Some(out@[q].env@) && transformed_view(out@[q].env) == transforms_result(
                        self.transform@,
                        self.transform@.len(),
                        out@[q].env@.single,
                        *t,
                    ),
            decreases t.len() - i,
        {
            let ghost before = out@;
            match self.match_node(t, i) {
                Some(m) => {
                    assert(rule_accepts(*self, *t, i as int));
                    let last = last_node_of(t, i);
                    proof {
                        lemma_last_desc(*t, i as int);
                    }
                    out.push(m);
                    assert(out@.map_values(|m: NodeMatch| m.node as nat) =~= before.map_values(
                        |m: NodeMatch| m.node as nat,
                    ).push(i as nat));
                    assert(seq![i as nat] + rule_find_all_from(*self, *t, last + 1) =~= rule_find_all_from(
                        *self,
                        *t,
                        i as int,
                    ));
                    assert(rule_find_all_from(*self, *t, 0) =~= out@.map_values(|m: NodeMatch| m.node as nat)
                        + rule_find_all_from(*self, *t, last + 1));
                    i = last + 1;
                },
                None => {
                    assert(!rule_accepts(*self, *t, i as int));
                    i = i + 1;
                },
            }
        }
        assert(out@.map_values(|m: NodeMatch| m.node as nat) + rule_find_all_from(*self, *t, i as int)
            =~= out@.map_values(|m: NodeMatch| m.node as nat));
        out
    }
}

} // verus!
