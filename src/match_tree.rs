//! Structural matching of a pattern against one node of a tree, with
//! ellipsis alignment over siblings.

use vstd::prelude::*;
use crate::meta_var::{bind_multi, bind_single, lemma_extends_refl, lemma_extends_trans, nat_seq, EnvModel, MetaVarEnv, MetaVariable};
use crate::pattern::Pattern;
use crate::tree::SyntaxTree;

verus! {

/// `Some(None)` for a bare ellipsis, `Some(Some(name))` for a named one,
/// `None` for any other pattern.
pub open spec fn ellipsis_name(p: Pattern) -> Option<Option<Seq<char>>> {
    match p {
        Pattern::MetaVar { meta_var: MetaVariable::Ellipsis, .. } => Some(None),
        Pattern::MetaVar { meta_var: MetaVariable::MultiCapture(n), .. } => Some(Some(n@)),
        _ => None,
    }
}

pub open spec fn pattern_children(p: Pattern) -> Seq<Pattern> {
    match p {
        Pattern::Internal { children, .. } => children@,
        _ => Seq::empty(),
    }
}

/// How many anonymous-token patterns stand in a row from position `i`.
pub open spec fn trivial_run(ps: Seq<Pattern>, i: int) -> nat
    decreases ps.len() - i,
{
    if 0 <= i < ps.len() && ps[i].is_trivial_spec() {
        1 + trivial_run(ps, i + 1)
    } else {
        0
    }
}

/// Binds the run of an ellipsis, less its last `k` nodes, where it has a name.
pub open spec fn bind_ellipsis(
    t: SyntaxTree,
    env: EnvModel,
    name: Option<Seq<char>>,
    ns: Seq<usize>,
    k: nat,
) -> Option<EnvModel> {
    match name {
        None => Some(env),
        Some(nm) => bind_multi(
            t,
            env,
            nm,
            nat_seq(ns.subrange(0, if ns.len() >= k { ns.len() - k } else { 0 })),
        ),
    }
}

/// A placeholder against node `n`.
pub open spec fn match_leaf(mv: MetaVariable, t: SyntaxTree, n: nat, env: EnvModel) -> Option<EnvModel> {
    match mv {
        MetaVariable::Capture(name, named) => if named && !t.nodes@[n as int].is_named {
            None
        } else {
            bind_single(t, env, name@, n)
        },
        MetaVariable::Dropped(named) => if named && !t.nodes@[n as int].is_named {
            None
        } else {
            Some(env)
        },
        MetaVariable::Ellipsis => Some(env),
        MetaVariable::MultiCapture(name) => bind_multi(t, env, name@, seq![n]),
    }
}

/// The bindings after matching `p` at node `n`, from `env`; `None` when it
/// does not match. A terminal needs the node's kind and text; a placeholder
/// the node's kind where it has one; an inner pattern the node's kind and its
/// children aligned with the node's children.
pub open spec fn match_node(p: Pattern, t: SyntaxTree, n: nat, env: EnvModel) -> Option<EnvModel>
    decreases p, 2int, 0int,
{
    if n >= t.len() {
        None
    } else {
        match p {
            Pattern::Terminal { text, kind_id, .. } => if kind_id == t.kind_of(n as int) && text@
                == t.text_of(n as int) {
                Some(env)
            } else {
                None
            },
            Pattern::MetaVar { meta_var, kind } => if kind is Some && kind->0 != t.kind_of(n as int) {
                None
            } else {
                match_leaf(meta_var, t, n, env)
            },
            Pattern::Internal { kind_id, children } => if kind_id == t.kind_of(n as int) {
                match_nodes(p, 0, t, t.children_of(n as int), 0, env)
            } else {
                None
            },
        }
    }
}

/// The first candidate from `m` on where child `i` of `parent` matches.
pub open spec fn find_anchor(
    parent: Pattern,
    i: nat,
    t: SyntaxTree,
    cs: Seq<usize>,
    m: nat,
    env: EnvModel,
) -> Option<nat>
    decreases parent, 0int, cs.len() - m,
{
    let ps = pattern_children(parent);
    if m >= cs.len() || i >= ps.len() {
        None
    } else if match_node(ps[i as int], t, cs[m as int] as nat, env) is Some {
        Some(m)
    } else {
        find_anchor(parent, i, t, cs, m + 1, env)
    }
}

/// The first candidate from `m` on where child `i` of `parent` matches,
/// passing over anonymous candidates only.
pub open spec fn find_plain(
    parent: Pattern,
    i: nat,
    t: SyntaxTree,
    cs: Seq<usize>,
    m: nat,
    env: EnvModel,
) -> Option<nat>
    decreases parent, 0int, cs.len() - m,
{
    let ps = pattern_children(parent);
    if m >= cs.len() || i >= ps.len() {
        None
    } else if match_node(ps[i as int], t, cs[m as int] as nat, env) is Some {
        Some(m)
    } else if !t.nodes@[cs[m as int] as int].is_named {
        find_plain(parent, i, t, cs, m + 1, env)
    } else {
        None
    }
}

/// Every candidate from position `k` on is an anonymous token.
pub open spec fn rest_unnamed(t: SyntaxTree, cs: Seq<usize>, k: int) -> bool {
    forall|q: int| k <= q < cs.len() ==> !(#[trigger] t.nodes@[cs[q] as int]).is_named
}

/// Aligns the children of `parent` from position `i` with the candidates
/// `cs` from position `j`. An ellipsis takes candidates up to the first one
/// where the next non-token pattern matches (tokens right after an ellipsis
/// are passed over, and as many nodes are left out of its run); any other
/// pattern matches the next candidate, anonymous candidates in between being
/// passed over. Candidates left after the last pattern must be anonymous
/// tokens.
pub open spec fn match_nodes(
    parent: Pattern,
    i: nat,
    t: SyntaxTree,
    cs: Seq<usize>,
    j: nat,
    env: EnvModel,
) -> Option<EnvModel>
    decreases parent, 1int, pattern_children(parent).len() - i,
{
    let ps = pattern_children(parent);
    if i >= ps.len() || j >= cs.len() {
        None
    } else {
        match ellipsis_name(ps[i as int]) {
            Some(name) => {
                let k = trivial_run(ps, (i + 1) as int);
                let i2 = i + 1 + k;
                if i2 >= ps.len() {
                    bind_ellipsis(t, env, name, cs.subrange(j as int, cs.len() as int), k)
                } else if ellipsis_name(ps[i2 as int]) is Some {
                    if j + 1 >= cs.len() {
                        None
                    } else {
                        match bind_ellipsis(t, env, name, seq![cs[j as int]], k) {
                            Some(e) => match_nodes(parent, i2, t, cs, j + 1, e),
                            None => None,
                        }
                    }
                } else {
                    match find_anchor(parent, i2, t, cs, j, env) {
                        None => None,
                        Some(m) => match bind_ellipsis(
                            t,
                            match_node(ps[i2 as int], t, cs[m as int] as nat, env)->0,
                            name,
                            cs.subrange(j as int, m as int),
                            k,
                        ) {
                            None => None,
                            Some(e) => if i2 + 1 >= ps.len() {
                                if rest_unnamed(t, cs, (m + 1) as int) {
                                    Some(e)
                                } else {
                                    None
                                }
                            } else if m + 1 >= cs.len() {
                                None
                            } else {
                                match_nodes(parent, i2 + 1, t, cs, m + 1, e)
                            },
                        },
                    }
                }
            },
            None => match find_plain(parent, i, t, cs, j, env) {
                None => None,
                Some(m) => {
                    let e = match_node(ps[i as int], t, cs[m as int] as nat, env)->0;
                    if i + 1 >= ps.len() {
                        if rest_unnamed(t, cs, (m + 1) as int) {
                            Some(e)
                        } else {
                            None
                        }
                    } else if m + 1 >= cs.len() {
                        None
                    } else {
                        match_nodes(parent, i + 1, t, cs, m + 1, e)
                    }
                },
            },
        }
    }
}

fn rest_unnamed_exec(t: &SyntaxTree, cs: &Vec<usize>, k: usize) -> (r: bool)
    requires
        t.wf(),
        forall|q: int| 0 <= q < cs@.len() ==> #[trigger] cs@[q] < t.len(),
    ensures
        r == rest_unnamed(*t, cs@, k as int),
{
    let mut q: usize = k;
    while q < cs.len()
        invariant
            t.wf(),
            forall|x: int| 0 <= x < cs@.len() ==> #[trigger] cs@[x] < t.len(),
            k <= q || q >= cs@.len(),
            forall|x: int| k <= x < q && x < cs@.len() ==> !(#[trigger] t.nodes@[cs@[x] as int]).is_named,
        decreases cs@.len() - q,
    {
        if t.nodes[cs[q]].is_named {
            return false;
        }
        q = q + 1;
    }
    true
}

fn slice_vec(cs: &Vec<usize>, a: usize, b: usize) -> (r: Vec<usize>)
    requires
        a <= b <= cs@.len(),
    ensures
        r@ == cs@.subrange(a as int, b as int),
        forall|q: int| 0 <= q < r@.len() ==> #[trigger] r@[q] == cs@[a + q],
{
    let mut r: Vec<usize> = Vec::new();
    let mut q: usize = a;
    while q < b
        invariant
            a <= q <= b,
            b <= cs@.len(),
            r@ =~= cs@.subrange(a as int, q as int),
        decreases b - q,
    {
        r.push(cs[q]);
        q = q + 1;
    }
    r
}

fn trivial_run_exec(ps: &Vec<Pattern>, i: usize) -> (r: usize)
    requires
        i <= ps@.len(),
    ensures
        r == trivial_run(ps@, i as int),
        i + r <= ps@.len(),
{
    let mut q: usize = i;
    while q < ps.len() && ps[q].is_trivial()
        invariant
            i <= q <= ps@.len(),
            trivial_run(ps@, i as int) == (q - i) + trivial_run(ps@, q as int),
        decreases ps@.len() - q,
    {
        q = q + 1;
    }
    q - i
}

fn ellipsis_of(p: &Pattern) -> (r: Option<Option<&String>>)
    ensures
        match ellipsis_name(*p) {
            None => r is None,
            Some(None) => r == Some(None::<&String>),
            Some(Some(n)) => r matches Some(Some(s)) && s@ == n,
        },
{
    match p {
        Pattern::MetaVar { meta_var: MetaVariable::Ellipsis, .. } => Some(None),
        Pattern::MetaVar { meta_var: MetaVariable::MultiCapture(n), .. } => Some(Some(n)),
        _ => None,
    }
}

pub open spec fn name_view(name: Option<&String>) -> Option<Seq<char>> {
    match name {
        Some(s) => Some(s@),
        None => None,
    }
}

fn bind_ellipsis_exec(
    t: &SyntaxTree,
    env: &mut MetaVarEnv,
    name: Option<&String>,
    ns: Vec<usize>,
    k: usize,
) -> (r: bool)
    requires
        t.wf(),
        old(env).valid_in(*t),
        forall|q: int| 0 <= q < ns@.len() ==> #[trigger] ns@[q] < t.len(),
    ensures
        match bind_ellipsis(*t, old(env)@, name_view(name), ns@, k as nat) {
            Some(e) => r && final(env)@ == e && final(env).extends(*old(env)) && final(env).valid_in(*t),
            None => !r && final(env).same(*old(env)),
        },
{
    match name {
        None => {
            proof {
                lemma_extends_refl(*env);
            }
            true
        },
        Some(nm) => {
            let keep: usize = if ns.len() >= k { ns.len() - k } else { 0 };
            let mut run = ns;
            run.truncate(keep);
            env.insert_multi(t, nm, run)
        },
    }
}

fn match_leaf_exec(mv: &MetaVariable, t: &SyntaxTree, n: usize, env: &mut MetaVarEnv) -> (r: bool)
    requires
        t.wf(),
        t.valid(n as int),
        old(env).valid_in(*t),
    ensures
        match match_leaf(*mv, *t, n as nat, old(env)@) {
            Some(e) => r && final(env)@ == e && final(env).extends(*old(env)) && final(env).valid_in(*t),
            None => !r && final(env).same(*old(env)),
        },
{
    proof {
        lemma_extends_refl(*env);
    }
    match mv {
        MetaVariable::Capture(name, named) => {
            if *named && !t.nodes[n].is_named {
                false
            } else {
                env.insert(t, name, n)
            }
        },
        MetaVariable::Dropped(named) => !(*named && !t.nodes[n].is_named),
        MetaVariable::Ellipsis => true,
        MetaVariable::MultiCapture(name) => {
            let one = vec![n];
            assert(nat_seq(one@) =~= seq![n as nat]);
            env.insert_multi(t, name, one)
        },
    }
}

/// Matches `p` at node `n`, as `match_node` says; on failure `env` is left
/// as it was.
pub fn match_node_exec(p: &Pattern, t: &SyntaxTree, n: usize, env: &mut MetaVarEnv) -> (r: bool)
    requires
        t.wf(),
        t.valid(n as int),
        old(env).valid_in(*t),
    ensures
        match match_node(*p, *t, n as nat, old(env)@) {
            Some(e) => r && final(env)@ == e && final(env).extends(*old(env)) && final(env).valid_in(*t),
            None => !r && final(env).same(*old(env)),
        },
    decreases p, 2int, 0int,
{
    proof {
        lemma_extends_refl(*env);
    }
    let node = &t.nodes[n];
    match p {
        Pattern::Terminal { text, kind_id, .. } => *kind_id == node.kind_id && *text == node.text,
        Pattern::MetaVar { meta_var, kind } => {
            match kind {
                Some(k) => {
                    if *k != node.kind_id {
                        return false;
                    }
                },
                None => {},
            }
            match_leaf_exec(meta_var, t, n, env)
        },
        Pattern::Internal { kind_id, children } => {
            if *kind_id != node.kind_id {
                return false;
            }
            match_nodes_exec(p, 0, t, &node.children, 0, env)
        },
    }
}

fn find_anchor_exec(
    parent: &Pattern,
    i: usize,
    t: &SyntaxTree,
    cs: &Vec<usize>,
    j: usize,
    env: &mut MetaVarEnv,
) -> (r: Option<usize>)
    requires
        t.wf(),
        old(env).valid_in(*t),
        i < pattern_children(*parent).len(),
        forall|q: int| 0 <= q < cs@.len() ==> #[trigger] cs@[q] < t.len(),
    ensures
        match find_anchor(*parent, i as nat, *t, cs@, j as nat, old(env)@) {
            Some(m) => r == Some(m as usize) && j <= m < cs@.len() && match_node(
                pattern_children(*parent)[i as int],
                *t,
                cs@[m as int] as nat,
                old(env)@,
            ) == Some(final(env)@) && final(env).extends(*old(env)) && final(env).valid_in(*t),
            None => r is None && final(env).same(*old(env)),
        },
    decreases parent, 0int, 0int,
{
    let ps = match parent {
        Pattern::Internal { children, .. } => children,
        _ => return None,
    };
    let mut m: usize = j;
    while m < cs.len()
        invariant
            t.wf(),
            ps@ == pattern_children(*parent),
            i < ps@.len(),
            forall|q: int| 0 <= q < cs@.len() ==> #[trigger] cs@[q] < t.len(),
            env.same(*old(env)),
            env.valid_in(*t),
            j <= m,
            find_anchor(*parent, i as nat, *t, cs@, j as nat, old(env)@) == find_anchor(
                *parent,
                i as nat,
                *t,
                cs@,
                m as nat,
                old(env)@,
            ),
        decreases cs@.len() - m,
    {
        if match_node_exec(&ps[i], t, cs[m], env) {
            return Some(m);
        }
        m = m + 1;
    }
    None
}

fn find_plain_exec(
    parent: &Pattern,
    i: usize,
    t: &SyntaxTree,
    cs: &Vec<usize>,
    j: usize,
    env: &mut MetaVarEnv,
) -> (r: Option<usize>)
    requires
        t.wf(),
        old(env).valid_in(*t),
        i < pattern_children(*parent).len(),
        forall|q: int| 0 <= q < cs@.len() ==> #[trigger] cs@[q] < t.len(),
    ensures
        match find_plain(*parent, i as nat, *t, cs@, j as nat, old(env)@) {
            Some(m) => r == Some(m as usize) && j <= m < cs@.len() && match_node(
                pattern_children(*parent)[i as int],
                *t,
                cs@[m as int] as nat,
                old(env)@,
            ) == Some(final(env)@) && final(env).extends(*old(env)) && final(env).valid_in(*t),
            None => r is None && final(env).same(*old(env)),
        },
    decreases parent, 0int, 0int,
{
    let ps = match parent {
        Pattern::Internal { children, .. } => children,
        _ => return None,
    };
    let mut m: usize = j;
    while m < cs.len()
        invariant
            t.wf(),
            ps@ == pattern_children(*parent),
            i < ps@.len(),
            forall|q: int| 0 <= q < cs@.len() ==> #[trigger] cs@[q] < t.len(),
            env.same(*old(env)),
            env.valid_in(*t),
            j <= m,
            find_plain(*parent, i as nat, *t, cs@, j as nat, old(env)@) == find_plain(
                *parent,
                i as nat,
                *t,
                cs@,
                m as nat,
                old(env)@,
            ),
        decreases cs@.len() - m,
    {
        if match_node_exec(&ps[i], t, cs[m], env) {
            return Some(m);
        }
        if t.nodes[cs[m]].is_named {
            return None;
        }
        m = m + 1;
    }
    None
}

/// Aligns children as `match_nodes` says; on failure `env` is left as it was.
fn match_nodes_exec(
    parent: &Pattern,
    i: usize,
    t: &SyntaxTree,
    cs: &Vec<usize>,
    j: usize,
    env: &mut MetaVarEnv,
) -> (r: bool)
    requires
        t.wf(),
        old(env).valid_in(*t),
        forall|q: int| 0 <= q < cs@.len() ==> #[trigger] cs@[q] < t.len(),
    ensures
        match match_nodes(*parent, i as nat, *t, cs@, j as nat, old(env)@) {
            Some(e) => r && final(env)@ == e && final(env).extends(*old(env)) && final(env).valid_in(*t),
            None => !r && final(env).same(*old(env)),
        },
    decreases parent, 1int, pattern_children(*parent).len() - i,
{
    let ps = match parent {
        Pattern::Internal { children, .. } => children,
        _ => return false,
    };
    if i >= ps.len() || j >= cs.len() {
        return false;
    }
    let ghost env0 = *env;
    let saved_s = env.single.len();
    let saved_m = env.multi.len();
    match ellipsis_of(&ps[i]) {
        Some(name) => {
            let k = trivial_run_exec(ps, i + 1);
            let i2 = i + 1 + k;
            if i2 >= ps.len() {
                let rest = slice_vec(cs, j, cs.len());
                return bind_ellipsis_exec(t, env, name, rest, k);
            }
            if ellipsis_of(&ps[i2]).is_some() {
                if j + 1 >= cs.len() {
                    return false;
                }
                let one = vec![cs[j]];
                assert(one@ =~= seq![cs@[j as int]]);
                if !bind_ellipsis_exec(t, env, name, one, k) {
                    return false;
                }
                let ghost env1 = *env;
                if match_nodes_exec(parent, i2, t, cs, j + 1, env) {
                    proof {
                        lemma_extends_trans(env0, env1, *env);
                    }
                    return true;
                }
                env.truncate_to(saved_s, saved_m);
                return false;
            }
            match find_anchor_exec(parent, i2, t, cs, j, env) {
                None => false,
                Some(m) => {
                    let ghost env1 = *env;
                    let run = slice_vec(cs, j, m);
                    if !bind_ellipsis_exec(t, env, name, run, k) {
                        env.truncate_to(saved_s, saved_m);
                        return false;
                    }
                    let ghost env2 = *env;
                    proof {
                        lemma_extends_trans(env0, env1, env2);
                    }
                    if i2 + 1 >= ps.len() {
                        if rest_unnamed_exec(t, cs, m + 1) {
                            return true;
                        }
                        env.truncate_to(saved_s, saved_m);
                        return false;
                    }
                    if m + 1 >= cs.len() {
                        env.truncate_to(saved_s, saved_m);
                        return false;
                    }
                    if match_nodes_exec(parent, i2 + 1, t, cs, m + 1, env) {
                        proof {
                            lemma_extends_trans(env0, env2, *env);
                        }
                        return true;
                    }
                    env.truncate_to(saved_s, saved_m);
                    false
                },
            }
        },
        None => {
            match find_plain_exec(parent, i, t, cs, j, env) {
                None => false,
                Some(m) => {
                    let ghost env1 = *env;
                    if i + 1 >= ps.len() {
                        if rest_unnamed_exec(t, cs, m + 1) {
                            return true;
                        }
                        env.truncate_to(saved_s, saved_m);
                        return false;
                    }
                    if m + 1 >= cs.len() {
                        env.truncate_to(saved_s, saved_m);
                        return false;
                    }
                    if match_nodes_exec(parent, i + 1, t, cs, m + 1, env) {
                        proof {
                            lemma_extends_trans(env0, env1, *env);
                        }
                        return true;
                    }
                    env.truncate_to(saved_s, saved_m);
                    false
                },
            }
        },
    }
}

pub open spec fn empty_env() -> EnvModel {
    EnvModel { single: Seq::empty(), multi: Seq::empty() }
}

/// The last node, in arena order, of the subtree of `n`.
pub open spec fn last_desc(t: SyntaxTree, n: int) -> int
    decreases t.len() - n,
    when t.wf() && t.valid(n)
{
    let cs = t.children_of(n);
    if cs.len() == 0 {
        n
    } else {
        last_desc(t, cs[cs.len() - 1] as int)
    }
}

pub proof fn lemma_last_desc(t: SyntaxTree, n: int)
    requires
        t.wf(),
        t.valid(n),
    ensures
        n <= last_desc(t, n) < t.len(),
    decreases t.len() - n,
{
    let cs = t.children_of(n);
    if cs.len() > 0 {
        lemma_last_desc(t, cs[cs.len() - 1] as int);
    }
}

/// The nodes from `i` on, in arena order, where `p` matches with a fresh
/// environment; the subtree of a match is not searched again.
pub open spec fn find_all_from(p: Pattern, t: SyntaxTree, i: int) -> Seq<nat>
    decreases t.len() - i,
{
    if !t.wf() || i < 0 || i >= t.len() {
        Seq::empty()
    } else if match_node(p, t, i as nat, empty_env()) is Some {
        proof {
            lemma_last_desc(t, i);
        }
        seq![i as nat] + find_all_from(p, t, last_desc(t, i) + 1)
    } else {
        find_all_from(p, t, i + 1)
    }
}

/// A node that a pattern matched, with the bindings of the match.
pub struct NodeMatch {
    pub node: usize,
    pub env: MetaVarEnv,
}

impl NodeMatch {
    pub fn get_node(&self) -> (r: usize)
        ensures
            r == self.node,
    {
        self.node
    }

    pub fn get_env(&self) -> (r: &MetaVarEnv)
        ensures
            *r == self.env,
    {
        &self.env
    }
}

fn last_desc_exec(t: &SyntaxTree, n: usize) -> (r: usize)
    requires
        t.wf(),
        t.valid(n as int),
    ensures
        r == last_desc(*t, n as int),
{
    let mut m: usize = n;
    while t.nodes[m].children.len() > 0
        invariant
            t.wf(),
            t.valid(m as int),
            last_desc(*t, m as int) == last_desc(*t, n as int),
        decreases t.len() - m,
    {
        let cs = &t.nodes[m].children;
        m = cs[cs.len() - 1];
    }
    m
}

impl Pattern {
    /// Matches at node `n` of `t`, from an empty environment.
    pub fn match_node(&self, t: &SyntaxTree, n: usize) -> (r: Option<NodeMatch>)
        requires
            t.wf(),
            t.valid(n as int),
        ensures
            match match_node(*self, *t, n as nat, empty_env()) {
                Some(e) => r matches Some(m) && m.node == n && m.env@ == e && m.env.valid_in(*t),
                None => r is None,
            },
    {
        let mut env = MetaVarEnv::new();
        assert(env@.single =~= Seq::<(Seq<char>, nat)>::empty());
        assert(env@.multi =~= Seq::<(Seq<char>, Seq<nat>)>::empty());
        if match_node_exec(self, t, n, &mut env) {
            Some(NodeMatch { node: n, env })
        } else {
            None
        }
    }

    /// The first node of `t`, in pre-order, where the pattern matches.
    pub fn find_node(&self, t: &SyntaxTree) -> (r: Option<NodeMatch>)
        requires
            t.wf(),
        ensures
            match r {
                Some(m) => m.node < t.len() && match_node(*self, *t, m.node as nat, empty_env()) == Some(
                    m.env@,
                ) && forall|k: int|
                    0 <= k < m.node ==> (#[trigger] match_node(*self, *t, k as nat, empty_env())) is None,
                None => forall|k: int| 0 <= k < t.len() ==> (#[trigger] match_node(*self, *t, k as nat, empty_env())) is None,
            },
    {
        let mut i: usize = 0;
        while i < t.nodes.len()
            invariant
                t.wf(),
                i <= t.len(),
                forall|k: int| 0 <= k < i ==> (#[trigger] match_node(*self, *t, k as nat, empty_env())) is None,
            decreases t.len() - i,
        {
            let found = self.match_node(t, i);
            if found.is_some() {
                return found;
            }
            i = i + 1;
        }
        None
    }

    /// Every match in `t`, in pre-order, none inside an earlier one.
    pub fn find_all(&self, t: &SyntaxTree) -> (r: Vec<NodeMatch>)
        requires
            t.wf(),
        ensures
            r@.len() == find_all_from(*self, *t, 0).len(),
            forall|q: int|
                0 <= q < r@.len() ==> {
                    &&& (#[trigger] r@[q]).node as nat == find_all_from(*self, *t, 0)[q]
                    &&& match_node(*self, *t, r@[q].node as nat, empty_env()) == Some(r@[q].env@)
                },
    {
        let mut out: Vec<NodeMatch> = Vec::new();
        let mut i: usize = 0;
        while i < t.nodes.len()
            invariant
                t.wf(),
                i <= t.len(),
                find_all_from(*self, *t, 0) == out@.map_values(|m: NodeMatch| m.node as nat) + find_all_from(
                    *self,
                    *t,
                    i as int,
                ),
                forall|q: int|
                    0 <= q < out@.len() ==> match_node(*self, *t, (#[trigger] out@[q]).node as nat, empty_env())
                        == Some(out@[q].env@),
            decreases t.len() - i,
        {
            let ghost before = out@;
            match self.match_node(t, i) {
                Some(m) => {
                    let last = last_desc_exec(t, i);
                    proof {
                        lemma_last_desc(*t, i as int);
                    }
                    out.push(m);
                    assert(out@.map_values(|m: NodeMatch| m.node as nat) =~= before.map_values(
                        |m: NodeMatch| m.node as nat,
                    ).push(i as nat));
                    assert(seq![i as nat] + find_all_from(*self, *t, last + 1) =~= find_all_from(
                        *self,
                        *t,
                        i as int,
                    ));
                    assert(find_all_from(*self, *t, 0) =~= out@.map_values(|m: NodeMatch| m.node as nat)
                        + find_all_from(*self, *t, last + 1));
                    i = last + 1;
                },
                None => {
                    i = i + 1;
                },
            }
        }
        assert(out@.map_values(|m: NodeMatch| m.node as nat) + find_all_from(*self, *t, i as int)
            =~= out@.map_values(|m: NodeMatch| m.node as nat));
        proof {
            assert forall|q: int| 0 <= q < out@.len() implies (#[trigger] out@[q]).node as nat == find_all_from(
                *self,
                *t,
                0,
            )[q] by {
                assert(out@.map_values(|m: NodeMatch| m.node as nat)[q] == out@[q].node as nat);
            }
        }
        out
    }
}

} // verus!
