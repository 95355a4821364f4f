//! Properties of matching that hold for every pattern, tree and environment.

use vstd::prelude::*;
use crate::match_tree::{
    bind_ellipsis, ellipsis_name, find_anchor, find_plain, match_leaf, match_node, match_nodes,
    pattern_children, trivial_run,
};
use crate::meta_var::{bind_multi, bind_single, lookup, EnvModel, MetaVariable};
use crate::kinds::{all_kinds, any_kinds, kinds_spec, lemma_potential_kinds_sound};
use crate::rule::{all_from, any_from, rule_match, sub_matchers, GlobalRules, Matcher};
use crate::pattern::{collapse, is_single_node, lemma_collapse_valid, Pattern};
use crate::tree::SyntaxTree;

verus! {

/// `e1` keeps every binding of `e0`: a name bound in `e0` has the same
/// node, or run of nodes, in `e1`.
pub open spec fn keeps(e0: EnvModel, e1: EnvModel) -> bool {
    &&& forall|k: Seq<char>| #[trigger] lookup(e0.single, k) is Some ==> lookup(e1.single, k) == lookup(e0.single, k)
    &&& forall|k: Seq<char>| #[trigger] lookup(e0.multi, k) is Some ==> lookup(e1.multi, k) == lookup(e0.multi, k)
}

/// Linearity: once a capture has bound `name` to node `a`, the same
/// capture matches node `b` exactly when `b` has the text of `a` (and is
/// named, where the capture asks for that); the bindings stay as they were.
pub proof fn lemma_linearity(t: SyntaxTree, env: EnvModel, name: String, named: bool, a: nat, b: nat)
    requires
        t.wf(),
        a < t.len(),
        b < t.len(),
        match_leaf(MetaVariable::Capture(name, named), t, a, env) is Some,
    ensures
        ({
            let e1 = match_leaf(MetaVariable::Capture(name, named), t, a, env)->0;
            &&& match_leaf(MetaVariable::Capture(name, named), t, b, e1) is Some <==> ((!named
                || t.nodes@[b as int].is_named) && t.text_of(a as int) == t.text_of(b as int))
            &&& match_leaf(MetaVariable::Capture(name, named), t, b, e1) is Some ==> match_leaf(
                MetaVariable::Capture(name, named),
                t,
                b,
                e1,
            ) == Some(e1)
        }),
{
    let e1 = match_leaf(MetaVariable::Capture(name, named), t, a, env)->0;
    match lookup(env.single, name@) {
        Some(m) => {},
        None => {
            assert(e1.single.drop_last() == env.single);
            assert(lookup(e1.single, name@) == Some(a));
        },
    }
}

pub proof fn lemma_keeps_refl(e: EnvModel)
    ensures
        keeps(e, e),
{
}

pub proof fn lemma_keeps_trans(a: EnvModel, b: EnvModel, c: EnvModel)
    requires
        keeps(a, b),
        keeps(b, c),
    ensures
        keeps(a, c),
{
}

pub proof fn lemma_bind_single_keeps(t: SyntaxTree, env: EnvModel, name: Seq<char>, n: nat)
    requires
        bind_single(t, env, name, n) is Some,
    ensures
        keeps(env, bind_single(t, env, name, n)->0),
        lookup(bind_single(t, env, name, n)->0.single, name) is Some,
{
    let e1 = bind_single(t, env, name, n)->0;
    if lookup(env.single, name) is None {
        assert(e1.single.drop_last() == env.single);
        assert forall|k: Seq<char>| #[trigger] lookup(env.single, k) is Some implies lookup(e1.single, k)
            == lookup(env.single, k) by {
            assert(k != name);
        }
    }
}

pub proof fn lemma_bind_multi_keeps(t: SyntaxTree, env: EnvModel, name: Seq<char>, ns: Seq<nat>)
    requires
        bind_multi(t, env, name, ns) is Some,
    ensures
        keeps(env, bind_multi(t, env, name, ns)->0),
        lookup(bind_multi(t, env, name, ns)->0.multi, name) is Some,
{
    let e1 = bind_multi(t, env, name, ns)->0;
    if lookup(env.multi, name) is None {
        assert(e1.multi.drop_last() == env.multi);
        assert forall|k: Seq<char>| #[trigger] lookup(env.multi, k) is Some implies lookup(e1.multi, k)
            == lookup(env.multi, k) by {
            assert(k != name);
        }
    }
}

pub proof fn lemma_bind_ellipsis_keeps(
    t: SyntaxTree,
    env: EnvModel,
    name: Option<Seq<char>>,
    ns: Seq<usize>,
    k: nat,
)
    requires
        bind_ellipsis(t, env, name, ns, k) is Some,
    ensures
        keeps(env, bind_ellipsis(t, env, name, ns, k)->0),
{
    if let Some(nm) = name {
        let run = crate::meta_var::nat_seq(ns.subrange(0, if ns.len() >= k { ns.len() - k } else { 0 }));
        lemma_bind_multi_keeps(t, env, nm, run);
    }
}

pub proof fn lemma_find_anchor_some(parent: Pattern, i: nat, t: SyntaxTree, cs: Seq<usize>, m: nat, env: EnvModel)
    requires
        find_anchor(parent, i, t, cs, m, env) is Some,
    ensures
        ({
            let r = find_anchor(parent, i, t, cs, m, env)->0;
            &&& m <= r < cs.len()
            &&& i < pattern_children(parent).len()
            &&& match_node(pattern_children(parent)[i as int], t, cs[r as int] as nat, env) is Some
        }),
    decreases cs.len() - m,
{
    let ps = pattern_children(parent);
    if m < cs.len() && i < ps.len() && match_node(ps[i as int], t, cs[m as int] as nat, env) is None {
        lemma_find_anchor_some(parent, i, t, cs, m + 1, env);
    }
}

pub proof fn lemma_find_plain_some(parent: Pattern, i: nat, t: SyntaxTree, cs: Seq<usize>, m: nat, env: EnvModel)
    requires
        find_plain(parent, i, t, cs, m, env) is Some,
    ensures
        ({
            let r = find_plain(parent, i, t, cs, m, env)->0;
            &&& m <= r < cs.len()
            &&& i < pattern_children(parent).len()
            &&& match_node(pattern_children(parent)[i as int], t, cs[r as int] as nat, env) is Some
        }),
    decreases cs.len() - m,
{
    let ps = pattern_children(parent);
    if m < cs.len() && i < ps.len() && match_node(ps[i as int], t, cs[m as int] as nat, env) is None {
        lemma_find_plain_some(parent, i, t, cs, m + 1, env);
    }
}

/// A successful match keeps every binding it started from.
pub proof fn lemma_match_keeps(p: Pattern, t: SyntaxTree, n: nat, env: EnvModel)
    requires
        match_node(p, t, n, env) is Some,
    ensures
        keeps(env, match_node(p, t, n, env)->0),
    decreases p, 2int, 0int,
{
    if n < t.len() {
        match p {
            Pattern::Terminal { .. } => {},
            Pattern::MetaVar { meta_var, .. } => {
                match meta_var {
                    MetaVariable::Capture(name, named) => {
                        lemma_bind_single_keeps(t, env, name@, n);
                    },
                    MetaVariable::MultiCapture(name) => {
                        lemma_bind_multi_keeps(t, env, name@, seq![n]);
                    },
                    _ => {},
                }
            },
            Pattern::Internal { .. } => {
                lemma_match_nodes_keeps(p, 0, t, t.children_of(n as int), 0, env);
            },
        }
    }
}

/// Aligning children keeps every binding it started from.
pub proof fn lemma_match_nodes_keeps(parent: Pattern, i: nat, t: SyntaxTree, cs: Seq<usize>, j: nat, env: EnvModel)
    requires
        match_nodes(parent, i, t, cs, j, env) is Some,
    ensures
        keeps(env, match_nodes(parent, i, t, cs, j, env)->0),
    decreases parent, 1int, pattern_children(parent).len() - i,
{
    let ps = pattern_children(parent);
    let result = match_nodes(parent, i, t, cs, j, env)->0;
    match ellipsis_name(ps[i as int]) {
        Some(name) => {
            let k = trivial_run(ps, (i + 1) as int);
            let i2 = i + 1 + k;
            if i2 >= ps.len() {
                lemma_bind_ellipsis_keeps(t, env, name, cs.subrange(j as int, cs.len() as int), k);
            } else if ellipsis_name(ps[i2 as int]) is Some {
                lemma_bind_ellipsis_keeps(t, env, name, seq![cs[j as int]], k);
                let e = bind_ellipsis(t, env, name, seq![cs[j as int]], k)->0;
                lemma_match_nodes_keeps(parent, i2, t, cs, j + 1, e);
                lemma_keeps_trans(env, e, result);
            } else {
                lemma_find_anchor_some(parent, i2, t, cs, j, env);
                let m = find_anchor(parent, i2, t, cs, j, env)->0;
                let e1 = match_node(ps[i2 as int], t, cs[m as int] as nat, env)->0;
                lemma_match_keeps(ps[i2 as int], t, cs[m as int] as nat, env);
                lemma_bind_ellipsis_keeps(t, e1, name, cs.subrange(j as int, m as int), k);
                let e2 = bind_ellipsis(t, e1, name, cs.subrange(j as int, m as int), k)->0;
                lemma_keeps_trans(env, e1, e2);
                if !(i2 + 1 >= ps.len()) {
                    lemma_match_nodes_keeps(parent, i2 + 1, t, cs, m + 1, e2);
                    lemma_keeps_trans(env, e2, result);
                }
            }
        },
        None => {
            lemma_find_plain_some(parent, i, t, cs, j, env);
            let m = find_plain(parent, i, t, cs, j, env)->0;
            let e = match_node(ps[i as int], t, cs[m as int] as nat, env)->0;
            lemma_match_keeps(ps[i as int], t, cs[m as int] as nat, env);
            if !(i + 1 >= ps.len()) {
                lemma_match_nodes_keeps(parent, i + 1, t, cs, m + 1, e);
                lemma_keeps_trans(env, e, result);
            }
        },
    }
}

/// Every named placeholder of `p` has a binding in `e`.
pub open spec fn binds_all(p: Pattern, e: EnvModel) -> bool
    decreases p,
{
    match p {
        Pattern::MetaVar { meta_var: MetaVariable::Capture(name, _), .. } => lookup(e.single, name@) is Some,
        Pattern::MetaVar { meta_var: MetaVariable::MultiCapture(name), .. } => lookup(e.multi, name@) is Some,
        Pattern::MetaVar { .. } => true,
        Pattern::Terminal { .. } => true,
        Pattern::Internal { children, .. } => forall|q: int|
            0 <= q < children@.len() ==> binds_all(#[trigger] children@[q], e),
    }
}

pub proof fn lemma_binds_all_kept(p: Pattern, e0: EnvModel, e1: EnvModel)
    requires
        binds_all(p, e0),
        keeps(e0, e1),
    ensures
        binds_all(p, e1),
    decreases p,
{
    match p {
        Pattern::Internal { children, .. } => {
            assert forall|q: int| 0 <= q < children@.len() implies binds_all(#[trigger] children@[q], e1) by {
                lemma_binds_all_kept(children@[q], e0, e1);
            }
        },
        _ => {},
    }
}

pub proof fn lemma_trivial_run(ps: Seq<Pattern>, i: int, q: int)
    requires
        i <= q < i + trivial_run(ps, i),
    ensures
        0 <= q < ps.len(),
        ps[q].is_trivial_spec(),
    decreases q - i,
{
    if q > i {
        lemma_trivial_run(ps, i + 1, q);
    }
}

/// After a successful match, every named placeholder of the pattern has a
/// binding.
pub proof fn lemma_match_binds_all(p: Pattern, t: SyntaxTree, n: nat, env: EnvModel)
    requires
        match_node(p, t, n, env) is Some,
    ensures
        binds_all(p, match_node(p, t, n, env)->0),
    decreases p, 2int, 0int,
{
    match p {
        Pattern::Terminal { .. } => {},
        Pattern::MetaVar { meta_var, .. } => {
            match meta_var {
                MetaVariable::Capture(name, named) => {
                    lemma_bind_single_keeps(t, env, name@, n);
                },
                MetaVariable::MultiCapture(name) => {
                    lemma_bind_multi_keeps(t, env, name@, seq![n]);
                },
                _ => {},
            }
        },
        Pattern::Internal { children, .. } => {
            lemma_match_nodes_binds_all(p, 0, t, t.children_of(n as int), 0, env);
        },
    }
}

/// After children are aligned from position `i`, every named placeholder of
/// the children from `i` on has a binding.
pub proof fn lemma_match_nodes_binds_all(
    parent: Pattern,
    i: nat,
    t: SyntaxTree,
    cs: Seq<usize>,
    j: nat,
    env: EnvModel,
)
    requires
        match_nodes(parent, i, t, cs, j, env) is Some,
    ensures
        forall|q: int|
            i <= q < pattern_children(parent).len() ==> binds_all(
                #[trigger] pattern_children(parent)[q],
                match_nodes(parent, i, t, cs, j, env)->0,
            ),
    decreases parent, 1int, pattern_children(parent).len() - i,
{
    let ps = pattern_children(parent);
    let result = match_nodes(parent, i, t, cs, j, env)->0;
    lemma_match_nodes_keeps(parent, i, t, cs, j, env);
    match ellipsis_name(ps[i as int]) {
        Some(name) => {
            let k = trivial_run(ps, (i + 1) as int);
            let i2 = i + 1 + k;
            if i2 >= ps.len() {
                let run = cs.subrange(j as int, cs.len() as int);
                if let Some(nm) = name {
                    let ns = crate::meta_var::nat_seq(run.subrange(0, if run.len() >= k { run.len() - k } else { 0 }));
                    lemma_bind_multi_keeps(t, env, nm, ns);
                }
                assert forall|q: int| i <= q < ps.len() implies binds_all(#[trigger] ps[q], result) by {
                    if q > i {
                        lemma_trivial_run(ps, (i + 1) as int, q);
                    }
                }
            } else if ellipsis_name(ps[i2 as int]) is Some {
                let e = bind_ellipsis(t, env, name, seq![cs[j as int]], k)->0;
                if let Some(nm) = name {
                    let one: Seq<usize> = seq![cs[j as int]];
                    let ns = crate::meta_var::nat_seq(one.subrange(0, if one.len() >= k { one.len() - k } else { 0 }));
                    lemma_bind_multi_keeps(t, env, nm, ns);
                }
                lemma_match_nodes_keeps(parent, i2, t, cs, j + 1, e);
                lemma_match_nodes_binds_all(parent, i2, t, cs, j + 1, e);
                lemma_binds_all_kept(ps[i as int], e, result);
                assert forall|q: int| i <= q < ps.len() implies binds_all(#[trigger] ps[q], result) by {
                    if i < q < i2 {
                        lemma_trivial_run(ps, (i + 1) as int, q);
                    }
                }
            } else {
                lemma_find_anchor_some(parent, i2, t, cs, j, env);
                let m = find_anchor(parent, i2, t, cs, j, env)->0;
                let e1 = match_node(ps[i2 as int], t, cs[m as int] as nat, env)->0;
                lemma_match_binds_all(ps[i2 as int], t, cs[m as int] as nat, env);
                let run = cs.subrange(j as int, m as int);
                lemma_bind_ellipsis_keeps(t, e1, name, run, k);
                let e2 = bind_ellipsis(t, e1, name, run, k)->0;
                if let Some(nm) = name {
                    let ns = crate::meta_var::nat_seq(run.subrange(0, if run.len() >= k { run.len() - k } else { 0 }));
                    lemma_bind_multi_keeps(t, e1, nm, ns);
                }
                lemma_binds_all_kept(ps[i2 as int], e1, e2);
                if !(i2 + 1 >= ps.len()) {
                    lemma_match_nodes_keeps(parent, i2 + 1, t, cs, m + 1, e2);
                    lemma_match_nodes_binds_all(parent, i2 + 1, t, cs, m + 1, e2);
                    lemma_binds_all_kept(ps[i as int], e2, result);
                    lemma_binds_all_kept(ps[i2 as int], e2, result);
                }
                assert forall|q: int| i <= q < ps.len() implies binds_all(#[trigger] ps[q], result) by {
                    if i < q < i2 {
                        lemma_trivial_run(ps, (i + 1) as int, q);
                    }
                }
            }
        },
        None => {
            lemma_find_plain_some(parent, i, t, cs, j, env);
            let m = find_plain(parent, i, t, cs, j, env)->0;
            let e = match_node(ps[i as int], t, cs[m as int] as nat, env)->0;
            lemma_match_binds_all(ps[i as int], t, cs[m as int] as nat, env);
            if !(i + 1 >= ps.len()) {
                lemma_match_nodes_keeps(parent, i + 1, t, cs, m + 1, e);
                lemma_match_nodes_binds_all(parent, i + 1, t, cs, m + 1, e);
                lemma_binds_all_kept(ps[i as int], e, result);
            }
        },
    }
}

/// Single-node collapse: a node whose only content is one child compiles to
/// the same pattern as that child, so a chain of such wrappers compiles to
/// its first node that is not one.
pub proof fn lemma_single_node_collapse(t: SyntaxTree, n: int)
    requires
        t.wf(),
        t.valid(n),
        is_single_node(t, n),
    ensures
        collapse(t, n) == collapse(t, t.children_of(n)[0] as int),
        t.valid(collapse(t, n)),
        !is_single_node(t, collapse(t, n)),
{
    lemma_collapse_valid(t, n);
}

/// Potential-kinds soundness for rule matchers: where a matcher has
/// potential kinds, every node it matches is of one of them.
pub proof fn lemma_matcher_kinds_sound(m: Matcher, g: GlobalRules, b: nat, t: SyntaxTree, n: nat, env: EnvModel)
    requires
        rule_match(m, g, b, t, n, env) is Some,
    ensures
        kinds_spec(m) matches Some(s) ==> s.contains(t.kind_of(n as int) as nat),
    decreases b, m, 1int, 0int,
{
    match m {
        Matcher::Pattern(p) => {
            lemma_potential_kinds_sound(p, t, n, env);
        },
        Matcher::Kind(_) => {},
        Matcher::All(ms) => {
            lemma_all_from_members(m, 0, g, b, t, n, env);
            lemma_all_kinds_contains(m, ms@.len(), t.kind_of(n as int) as nat);
        },
        Matcher::Any(ms) => {
            let j = lemma_any_from_member(m, 0, g, b, t, n, env);
            lemma_any_kinds_covers(m, ms@.len(), j);
        },
        _ => {},
    }
}

/// Where the members from `i` on all matched, each one with kinds allows
/// the node's kind.
pub proof fn lemma_all_from_members(m: Matcher, i: nat, g: GlobalRules, b: nat, t: SyntaxTree, n: nat, env: EnvModel)
    requires
        all_from(m, i, g, b, t, n, env) is Some,
    ensures
        forall|j: int|
            i <= j < sub_matchers(m).len() ==> (kinds_spec(#[trigger] sub_matchers(m)[j]) matches Some(s)
                ==> s.contains(t.kind_of(n as int) as nat)),
    decreases b, m, 0int, sub_matchers(m).len() - i,
{
    let ms = sub_matchers(m);
    if i < ms.len() {
        let e = rule_match(ms[i as int], g, b, t, n, env)->0;
        lemma_matcher_kinds_sound(ms[i as int], g, b, t, n, env);
        lemma_all_from_members(m, i + 1, g, b, t, n, e);
    }
}

pub proof fn lemma_all_kinds_contains(m: Matcher, k: nat, kind: nat)
    requires
        forall|j: int|
            0 <= j < sub_matchers(m).len() ==> (kinds_spec(#[trigger] sub_matchers(m)[j]) matches Some(s)
                ==> s.contains(kind)),
    ensures
        all_kinds(m, k) matches Some(s) ==> s.contains(kind),
    decreases k,
{
    if k > 0 && k <= sub_matchers(m).len() {
        lemma_all_kinds_contains(m, (k - 1) as nat, kind);
        let x = sub_matchers(m)[k - 1];
        assert(kinds_spec(x) matches Some(s) ==> s.contains(kind));
    }
}

/// Where the members from `i` on had one match, which one it was.
pub proof fn lemma_any_from_member(m: Matcher, i: nat, g: GlobalRules, b: nat, t: SyntaxTree, n: nat, env: EnvModel) -> (j: int)
    requires
        any_from(m, i, g, b, t, n, env) is Some,
    ensures
        i <= j < sub_matchers(m).len(),
        kinds_spec(sub_matchers(m)[j]) matches Some(s) ==> s.contains(t.kind_of(n as int) as nat),
    decreases b, m, 0int, sub_matchers(m).len() - i,
{
    let ms = sub_matchers(m);
    if rule_match(ms[i as int], g, b, t, n, env) is Some {
        lemma_matcher_kinds_sound(ms[i as int], g, b, t, n, env);
        i as int
    } else {
        lemma_any_from_member(m, i + 1, g, b, t, n, env)
    }
}

pub proof fn lemma_any_kinds_covers(m: Matcher, k: nat, j: int)
    requires
        0 <= j < k <= sub_matchers(m).len(),
    ensures
        any_kinds(m, k) matches Some(s) ==> (kinds_spec(sub_matchers(m)[j]) matches Some(x) && x.subset_of(s)),
    decreases k,
{
    if j < k - 1 {
        lemma_any_kinds_covers(m, (k - 1) as nat, j);
    }
}

} // verus!
