//! Parse trees held as plain values: an arena of nodes in pre-order.

use vstd::prelude::*;
use vstd::string::StringSliceAdditionalSpecFns;
use vstd::utf8::{decode_utf8, encode_utf8, encode_utf8_decode_utf8, is_char_boundary};
use crate::grammar::{parse_tsx, parse_typescript, tree_descendant, tree_size, NodeInfo, RawNode};
use crate::language::{grammar_parse, has_grammar, Lang};

verus! {

/// One node: what the matcher reads of it, and the arena indices of its
/// children (anonymous tokens included), in source order.
pub struct SyntaxNode {
    pub kind_id: u16,
    pub kind: String,
    pub is_named: bool,
    pub is_missing: bool,
    pub start: usize,
    pub end: usize,
    pub text: String,
    pub children: Vec<usize>,
}

/// A parse tree. Node 0 is the root; every child stands after its parent.
pub struct SyntaxTree {
    pub nodes: Vec<SyntaxNode>,
    /// The parsed source.
    pub source: String,
}

/// The text between byte offsets `a` and `b` of `src`; empty where those do
/// not delimit characters.
pub open spec fn text_between(src: Seq<char>, a: int, b: int) -> Seq<char> {
    let bytes = encode_utf8(src);
    if 0 <= a <= b <= bytes.len() && is_char_boundary(bytes, b) && is_char_boundary(bytes.subrange(0, b), a) {
        decode_utf8(bytes.subrange(a, b))
    } else {
        Seq::empty()
    }
}

/// The text between byte offsets `a` and `b`, as `text_between` says.
pub fn slice_text(src: &str, a: usize, b: usize) -> (r: String)
    ensures
        r@ == text_between(src@, a as int, b as int),
{
    assert(src.spec_bytes() == encode_utf8(src@));
    let len = src.as_bytes().len();
    if !(a <= b && b <= len) {
        return String::new();
    }
    if src.is_char_boundary(b) {
        let (left, _right) = src.split_at(b);
        assert(left.spec_bytes() =~= encode_utf8(src@).subrange(0, b as int));
        if left.is_char_boundary(a) {
            let (_skip, mid) = left.split_at(a);
            proof {
                encode_utf8_decode_utf8(mid@);
                assert(mid.spec_bytes() =~= encode_utf8(src@).subrange(a as int, b as int));
            }
            return mid.to_string();
        }
        assert(!is_char_boundary(encode_utf8(src@).subrange(0, b as int), a as int));
    }
    assert(text_between(src@, a as int, b as int) == Seq::<char>::empty());
    String::new()
}

/// The first `d` entries of a stack.
pub open spec fn trunc(s: Seq<nat>, d: nat) -> Seq<nat> {
    if s.len() > d {
        s.subrange(0, d as int)
    } else {
        s
    }
}

/// The open ancestors after the first `i` nodes: each node, in turn, closes
/// those at its depth or deeper and opens itself.
pub open spec fn stack_after(infos: Seq<NodeInfo>, i: int) -> Seq<nat>
    decreases i,
{
    if i <= 0 || i > infos.len() {
        Seq::empty()
    } else {
        trunc(stack_after(infos, i - 1), infos[i - 1].depth as nat).push((i - 1) as nat)
    }
}

/// The parent of node `i`: the innermost node still open one level up
/// (the closest earlier node at depth one less); the root where none is.
pub open spec fn parent_spec(infos: Seq<NodeInfo>, i: int) -> nat {
    let s = trunc(stack_after(infos, i), infos[i].depth as nat);
    if s.len() > 0 {
        s.last()
    } else {
        0
    }
}

/// The children of `p` among the first `k` nodes, in order.
pub open spec fn children_spec(infos: Seq<NodeInfo>, p: nat, k: int) -> Seq<usize>
    decreases k,
{
    if k <= 1 || k > infos.len() {
        Seq::empty()
    } else {
        children_spec(infos, p, k - 1) + if parent_spec(infos, k - 1) == p {
            seq![(k - 1) as usize]
        } else {
            Seq::empty()
        }
    }
}

/// `t` is the tree of the nodes `infos` over the source `src`: node for node
/// the same data, each node's text the source between its offsets, and each
/// node's children the nodes whose parent it is.
pub open spec fn tree_of(t: SyntaxTree, infos: Seq<NodeInfo>, src: Seq<char>) -> bool {
    &&& t.source@ == src
    &&& t.nodes@.len() == infos.len()
    &&& forall|i: int|
        0 <= i < infos.len() ==> {
            &&& (#[trigger] t.nodes@[i]).kind_id == infos[i].kind_id
            &&& t.nodes@[i].kind@ == infos[i].kind
            &&& t.nodes@[i].is_named == infos[i].is_named
            &&& t.nodes@[i].is_missing == infos[i].is_missing
            &&& t.nodes@[i].start == infos[i].start
            &&& t.nodes@[i].end == infos[i].end
            &&& t.nodes@[i].text@ == text_between(src, infos[i].start as int, infos[i].end as int)
            &&& t.nodes@[i].children@ == children_spec(infos, i as nat, infos.len() as int)
        }
}

pub proof fn lemma_stack_below(infos: Seq<NodeInfo>, i: int)
    ensures
        forall|k: int| 0 <= k < stack_after(infos, i).len() ==> #[trigger] stack_after(infos, i)[k] < i,
    decreases i,
{
    if 0 < i <= infos.len() {
        lemma_stack_below(infos, i - 1);
        let prev = stack_after(infos, i - 1);
        let tr = trunc(prev, infos[i - 1].depth as nat);
        assert forall|k: int| 0 <= k < tr.len() implies tr[k] < i - 1 by {
            assert(tr[k] == prev[k]);
        }
        assert forall|k: int| 0 <= k < stack_after(infos, i).len() implies #[trigger] stack_after(infos, i)[k] < i by {
            if k < tr.len() {
                assert(stack_after(infos, i)[k] == tr[k]);
            }
        }
    }
}

pub proof fn lemma_parent_below(infos: Seq<NodeInfo>, i: int)
    requires
        0 < i < infos.len(),
    ensures
        parent_spec(infos, i) < i,
{
    lemma_stack_below(infos, i);
}

pub proof fn lemma_children_none(infos: Seq<NodeInfo>, p: nat, k: int)
    requires
        k <= p + 1,
    ensures
        children_spec(infos, p, k) == Seq::<usize>::empty(),
    decreases k,
{
    if 1 < k <= infos.len() {
        lemma_children_none(infos, p, k - 1);
        lemma_parent_below(infos, k - 1);
    }
}

impl SyntaxTree {
    pub open spec fn wf(&self) -> bool {
        &&& self.nodes@.len() >= 1
        &&& forall|i: int, j: int|
            0 <= i < self.nodes@.len() && 0 <= j < self.nodes@[i].children@.len() ==> i
                < #[trigger] self.nodes@[i].children@[j] < self.nodes@.len()
    }

    pub open spec fn len(&self) -> nat {
        self.nodes@.len()
    }

    pub open spec fn valid(&self, n: int) -> bool {
        0 <= n < self.nodes@.len()
    }

    pub open spec fn text_of(&self, n: int) -> Seq<char> {
        self.nodes@[n].text@
    }

    pub open spec fn kind_of(&self, n: int) -> u16 {
        self.nodes@[n].kind_id
    }

    pub open spec fn children_of(&self, n: int) -> Seq<usize> {
        self.nodes@[n].children@
    }

    /// Builds the tree of nodes given in pre-order with their depths, as
    /// `tree_of` says.
    pub fn from_preorder(raw: Vec<RawNode>, source: String) -> (t: SyntaxTree)
        requires
            raw@.len() >= 1,
        ensures
            t.wf(),
            tree_of(t, raw@.map_values(|r: RawNode| r@), source@),
    {
        let ghost infos = raw@.map_values(|r: RawNode| r@);
        let mut nodes: Vec<SyntaxNode> = Vec::new();
        let mut stack: Vec<usize> = Vec::new();
        let n = raw.len();
        let mut i: usize = 0;
        while i < n
            invariant
                infos == raw@.map_values(|r: RawNode| r@),
                n == raw@.len(),
                i <= n,
                nodes@.len() == i,
                stack@.map_values(|x: usize| x as nat) == stack_after(infos, i as int),
                forall|a: int, b: int|
                    0 <= a < nodes@.len() && 0 <= b < nodes@[a].children@.len() ==> a
                        < #[trigger] nodes@[a].children@[b] < nodes@.len(),
                forall|k: int|
                    0 <= k < i ==> {
                        &&& (#[trigger] nodes@[k]).kind_id == infos[k].kind_id
                        &&& nodes@[k].kind@ == infos[k].kind
                        &&& nodes@[k].is_named == infos[k].is_named
                        &&& nodes@[k].is_missing == infos[k].is_missing
                        &&& nodes@[k].start == infos[k].start
                        &&& nodes@[k].end == infos[k].end
                        &&& nodes@[k].text@ == text_between(source@, infos[k].start as int, infos[k].end as int)
                        &&& nodes@[k].children@ == children_spec(infos, k as nat, i as int)
                    },
            decreases n - i,
        {
            let r = &raw[i];
            let depth = r.depth as usize;
            proof {
                lemma_stack_below(infos, i as int);
            }
            let ghost full = stack@;
            while stack.len() > depth
                invariant
                    stack@ == full.subrange(0, stack@.len() as int),
                    stack@.len() <= full.len(),
                    full.len() > depth ==> stack@.len() >= depth,
                    full.len() <= depth ==> stack@.len() == full.len(),
                decreases stack@.len(),
            {
                stack.pop();
            }
            proof {
                let tr = trunc(stack_after(infos, i as int), infos[i as int].depth as nat);
                assert(infos[i as int].depth == r.depth);
                assert(stack@.len() == tr.len());
                let sm = stack@.map_values(|x: usize| x as nat);
                assert forall|k: int| 0 <= k < tr.len() implies #[trigger] sm[k] == tr[k] by {
                    assert(full.map_values(|x: usize| x as nat)[k] == full[k] as nat);
                    assert(stack@[k] == full[k]);
                }
                assert(stack@.map_values(|x: usize| x as nat) =~= tr);
            }
            if i > 0 {
                let parent: usize = if stack.len() > 0 {
                    stack[stack.len() - 1]
                } else {
                    0
                };
                proof {
                    lemma_stack_below(infos, i as int);
                    if stack@.len() > 0 {
                        assert(stack@.map_values(|x: usize| x as nat).last() == stack@.last() as nat);
                    }
                    assert(parent as nat == parent_spec(infos, i as int));
                    assert(parent < i);
                }
                let ghost before = nodes@;
                nodes[parent].children.push(i);
                proof {
                    assert forall|k: int| 0 <= k < i implies (#[trigger] nodes@[k]).children@ == children_spec(
                        infos,
                        k as nat,
                        i + 1,
                    ) by {
                        if k == parent {
                            assert(nodes@[k].children@ =~= before[k].children@.push(i));
                        } else {
                            assert(nodes@[k] == before[k]);
                        }
                    }
                }
            }
            let text = slice_text(source.as_str(), r.start, r.end);
            nodes.push(
                SyntaxNode {
                    kind_id: r.kind_id,
                    kind: r.kind.clone(),
                    is_named: r.is_named,
                    is_missing: r.is_missing,
                    start: r.start,
                    end: r.end,
                    text,
                    children: Vec::new(),
                },
            );
            proof {
                lemma_children_none(infos, i as nat, i + 1);
                assert(nodes@[i as int].children@ =~= children_spec(infos, i as nat, i + 1));
                if i == 0 {
                    assert forall|k: int| 0 <= k < 1 implies (#[trigger] nodes@[k]).children@ == children_spec(
                        infos,
                        k as nat,
                        1,
                    ) by {}
                }
            }
            stack.push(i);
            assert(stack@.map_values(|x: usize| x as nat) =~= stack_after(infos, i + 1));
            i = i + 1;
        }
        let t = SyntaxTree { nodes, source };
        assert(t.nodes@.len() == infos.len());
        t
    }

    /// Parses source code of `lang`, as the tree of the grammar's parse of
    /// `src`; `None` exactly where no grammar is linked for `lang`.
    pub fn parse(src: &str, lang: Lang) -> (r: Option<SyntaxTree>)
        ensures
            r is Some <==> has_grammar(lang),
            r matches Some(t) ==> t.wf() && tree_of(t, grammar_parse(lang, src@), src@),
    {
        let tree = match lang {
            Lang::Tsx => parse_tsx(src),
            Lang::TypeScript => parse_typescript(src),
            _ => return None,
        };
        let n = tree_size(&tree);
        let mut raw: Vec<RawNode> = Vec::new();
        let mut i: usize = 0;
        while i < n
            invariant
                i <= n,
                n >= 1,
                n == crate::grammar::tree_nodes(tree).len(),
                raw@.map_values(|r: RawNode| r@) =~= crate::grammar::tree_nodes(tree).subrange(0, i as int),
            decreases n - i,
        {
            let ghost before = raw@.map_values(|r: RawNode| r@);
            let node = tree_descendant(&tree, i);
            raw.push(node);
            assert(raw@.map_values(|r: RawNode| r@) =~= before.push(node@));
            i = i + 1;
        }
        assert(raw@.map_values(|r: RawNode| r@) =~= grammar_parse(lang, src@));
        Some(SyntaxTree::from_preorder(raw, src.to_string()))
    }

    /// The source text of node `n`.
    pub fn text(&self, n: usize) -> (r: &str)
        requires
            (n as int) < self.len(),
        ensures
            r@ == self.text_of(n as int),
    {
        self.nodes[n].text.as_str()
    }
}

/// The first node from `p` on (before `n`) that lists `n` among its children.
pub open spec fn parent_from(t: SyntaxTree, n: int, p: int) -> Option<nat>
    decreases n - p,
{
    if p < 0 || p >= n || p >= t.len() {
        None
    } else if t.children_of(p).contains(n as usize) {
        Some(p as nat)
    } else {
        parent_from(t, n, p + 1)
    }
}

/// The parent of node `n`; `None` for the root.
pub open spec fn parent_of(t: SyntaxTree, n: int) -> Option<nat> {
    parent_from(t, n, 0)
}

/// The first position from `k` on where `x` stands in `cs`.
pub open spec fn first_index(cs: Seq<usize>, x: usize, k: int) -> Option<int>
    decreases cs.len() - k,
{
    if k < 0 || k >= cs.len() {
        None
    } else if cs[k] == x {
        Some(k)
    } else {
        first_index(cs, x, k + 1)
    }
}

/// The sibling of `n` at distance `d` (-1 before it, 1 after it) among its
/// parent's children.
pub open spec fn sibling_of(t: SyntaxTree, n: int, d: int) -> Option<nat> {
    match parent_of(t, n) {
        None => None,
        Some(p) => {
            let cs = t.children_of(p as int);
            match first_index(cs, n as usize, 0) {
                Some(k) => if 0 <= k + d < cs.len() {
                    Some(cs[k + d] as nat)
                } else {
                    None
                },
                None => None,
            }
        },
    }
}

pub proof fn lemma_parent_from_valid(t: SyntaxTree, n: int, p: int)
    requires
        t.wf(),
    ensures
        parent_from(t, n, p) matches Some(q) ==> p <= q < n && q < t.len() && t.children_of(q as int).contains(n as usize),
    decreases n - p,
{
    if !(p < 0 || p >= n || p >= t.len()) && !t.children_of(p).contains(n as usize) {
        lemma_parent_from_valid(t, n, p + 1);
    }
}

impl SyntaxTree {
    /// The parent of node `n`, as `parent_of` says.
    pub fn parent(&self, n: usize) -> (r: Option<usize>)
        requires
            self.wf(),
            self.valid(n as int),
        ensures
            match parent_of(*self, n as int) {
                Some(p) => r == Some(p as usize) && p < n,
                None => r is None,
            },
    {
        let mut p: usize = 0;
        while p < n
            invariant
                self.wf(),
                self.valid(n as int),
                p <= n,
                parent_of(*self, n as int) == parent_from(*self, n as int, p as int),
            decreases n - p,
        {
            let cs = &self.nodes[p].children;
            let mut k: usize = 0;
            while k < cs.len()
                invariant
                    self.wf(),
                    self.valid(n as int),
                    p < n,
                    cs == self.nodes@[p as int].children,
                    k <= cs@.len(),
                    forall|q: int| 0 <= q < k ==> cs@[q] != n,
                    parent_of(*self, n as int) == parent_from(*self, n as int, p as int),
                decreases cs@.len() - k,
            {
                if cs[k] == n {
                    assert(cs@[k as int] == n);
                    assert(self.children_of(p as int).contains((n as int) as usize));
                    assert(parent_from(*self, n as int, p as int) == Some(p as nat));
                    return Some(p);
                }
                k = k + 1;
            }
            assert(!self.children_of(p as int).contains(n));
            p = p + 1;
        }
        None
    }

    /// The sibling of node `n` at distance `d`, as `sibling_of` says.
    pub fn sibling(&self, n: usize, before: bool) -> (r: Option<usize>)
        requires
            self.wf(),
            self.valid(n as int),
        ensures
            match sibling_of(*self, n as int, if before { -1int } else { 1int }) {
                Some(s) => r == Some(s as usize) && s < self.len(),
                None => r is None,
            },
    {
        let p = match self.parent(n) {
            Some(p) => p,
            None => return None,
        };
        proof {
            lemma_parent_from_valid(*self, n as int, 0);
        }
        let cs = &self.nodes[p].children;
        let mut k: usize = 0;
        while k < cs.len()
            invariant
                self.wf(),
                self.valid(p as int),
                cs == self.nodes@[p as int].children,
                parent_of(*self, n as int) == Some(p as nat),
                k <= cs@.len(),
                first_index(cs@, n, 0) == first_index(cs@, n, k as int),
            decreases cs@.len() - k,
        {
            if cs[k] == n {
                if before {
                    if k == 0 {
                        return None;
                    }
                    return Some(cs[k - 1]);
                } else {
                    if k + 1 >= cs.len() {
                        return None;
                    }
                    return Some(cs[k + 1]);
                }
            }
            k = k + 1;
        }
        None
    }
}

} // verus!
