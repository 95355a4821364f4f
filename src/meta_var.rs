//! Meta-variables: how a pattern token is read as a placeholder, and the
//! environment of bindings that a match builds.

use vstd::prelude::*;
use crate::language::push_char;
use crate::tree::SyntaxTree;

verus! {

/// A placeholder of a pattern. The flag of `Capture` and `Dropped` is true
/// when only named nodes may stand in its place.
#[derive(PartialEq, Eq, Clone, Debug)]
pub enum MetaVariable {
    /// `$NAME`: binds one node.
    Capture(String, bool),
    /// `$_` and `$$`: one node, not bound.
    Dropped(bool),
    /// `$$$`: any run of sibling nodes, not bound.
    Ellipsis,
    /// `$$$NAME`: binds a run of sibling nodes.
    MultiCapture(String),
}

/// A meta-variable with its name as a sequence of characters.
pub enum MetaVarSpec {
    Capture(Seq<char>, bool),
    Dropped(bool),
    Ellipsis,
    MultiCapture(Seq<char>),
}

impl MetaVariable {
    pub open spec fn view(&self) -> MetaVarSpec {
        match self {
            MetaVariable::Capture(n, named) => MetaVarSpec::Capture(n@, *named),
            MetaVariable::Dropped(named) => MetaVarSpec::Dropped(*named),
            MetaVariable::Ellipsis => MetaVarSpec::Ellipsis,
            MetaVariable::MultiCapture(n) => MetaVarSpec::MultiCapture(n@),
        }
    }
}

pub open spec fn is_first_name_char(c: char) -> bool {
    ('A' <= c && c <= 'Z') || c == '_'
}

pub open spec fn is_name_char(c: char) -> bool {
    is_first_name_char(c) || ('0' <= c && c <= '9')
}

/// `[A-Z_][A-Z0-9_]*`
pub open spec fn valid_name(s: Seq<char>) -> bool {
    &&& s.len() > 0
    &&& is_first_name_char(s[0])
    &&& forall|i: int| 0 <= i < s.len() ==> is_name_char(#[trigger] s[i])
}

/// What the token `s` stands for, where `mc` is the meta-variable sigil:
/// `mc mc mc` and `mc mc mc NAME` are multi-node forms, `mc mc` and
/// `mc mc NAME` single-node forms that take anonymous nodes too, `mc _` a
/// wildcard of one named node, `mc _NAME` a capture that takes anonymous
/// nodes, and `mc NAME` a capture of one named node.
pub open spec fn classify(s: Seq<char>, mc: char) -> Option<MetaVarSpec> {
    if s.len() >= 3 && s[0] == mc && s[1] == mc && s[2] == mc {
        let r = s.subrange(3, s.len() as int);
        if r.len() == 0 {
            Some(MetaVarSpec::Ellipsis)
        } else if valid_name(r) {
            Some(MetaVarSpec::MultiCapture(r))
        } else {
            None
        }
    } else if s.len() >= 2 && s[0] == mc && s[1] == mc {
        let r = s.subrange(2, s.len() as int);
        if r.len() == 0 {
            Some(MetaVarSpec::Dropped(false))
        } else if valid_name(r) {
            Some(MetaVarSpec::Capture(r, false))
        } else {
            None
        }
    } else if s.len() >= 1 && s[0] == mc {
        let r = s.subrange(1, s.len() as int);
        if r =~= seq!['_'] {
            Some(MetaVarSpec::Dropped(true))
        } else if valid_name(r) {
            Some(MetaVarSpec::Capture(r, r[0] != '_'))
        } else {
            None
        }
    } else {
        None
    }
}

/// Whether the characters of `s` from `from` on form a name.
fn is_valid_name_from(s: &str, from: usize) -> (r: bool)
    requires
        from <= s@.len(),
    ensures
        r == valid_name(s@.subrange(from as int, s@.len() as int)),
{
    let n = s.unicode_len();
    if from >= n {
        return false;
    }
    let c0 = s.get_char(from);
    if !(('A' <= c0 && c0 <= 'Z') || c0 == '_') {
        return false;
    }
    let mut i: usize = from;
    while i < n
        invariant
            n == s@.len(),
            from <= i <= n,
            forall|k: int| from <= k < i ==> is_name_char(#[trigger] s@[k]),
        decreases n - i,
    {
        let c = s.get_char(i);
        if !(('A' <= c && c <= 'Z') || c == '_' || ('0' <= c && c <= '9')) {
            assert(!is_name_char(s@.subrange(from as int, n as int)[i - from]));
            return false;
        }
        i = i + 1;
    }
    let ghost r = s@.subrange(from as int, n as int);
    assert forall|k: int| 0 <= k < r.len() implies is_name_char(#[trigger] r[k]) by {
        assert(r[k] == s@[k + from]);
    }
    true
}

/// The characters of `s` from `from` on.
fn tail_string(s: &str, from: usize) -> (r: String)
    requires
        from <= s@.len(),
    ensures
        r@ == s@.subrange(from as int, s@.len() as int),
{
    let n = s.unicode_len();
    let mut out = String::new();
    let mut i: usize = from;
    while i < n
        invariant
            n == s@.len(),
            from <= i <= n,
            out@ =~= s@.subrange(from as int, i as int),
        decreases n - i,
    {
        push_char(&mut out, s.get_char(i));
        i = i + 1;
    }
    out
}

/// Reads the token `s` as a meta-variable, where `mc` is the sigil.
pub fn extract_meta_var(s: &str, mc: char) -> (r: Option<MetaVariable>)
    ensures
        match r {
            Some(m) => classify(s@, mc) == Some(m@),
            None => classify(s@, mc) is None,
        },
{
    let n = s.unicode_len();
    if n >= 3 && s.get_char(0) == mc && s.get_char(1) == mc && s.get_char(2) == mc {
        if n == 3 {
            return Some(MetaVariable::Ellipsis);
        }
        if is_valid_name_from(s, 3) {
            return Some(MetaVariable::MultiCapture(tail_string(s, 3)));
        }
        return None;
    }
    if n >= 2 && s.get_char(0) == mc && s.get_char(1) == mc {
        if n == 2 {
            return Some(MetaVariable::Dropped(false));
        }
        if is_valid_name_from(s, 2) {
            return Some(MetaVariable::Capture(tail_string(s, 2), false));
        }
        return None;
    }
    if n >= 1 && s.get_char(0) == mc {
        if n == 2 && s.get_char(1) == '_' {
            assert(s@.subrange(1, 2) =~= seq!['_']);
            return Some(MetaVariable::Dropped(true));
        }
        assert(!(s@.subrange(1, n as int) =~= seq!['_']) ==> true);
        if is_valid_name_from(s, 1) {
            let name = tail_string(s, 1);
            let named = s.get_char(1) != '_';
            assert(name@[0] == s@[1]);
            if n == 2 {
                assert(!(s@.subrange(1, 2) =~= seq!['_']));
            } else {
                assert(s@.subrange(1, n as int).len() != 1);
            }
            return Some(MetaVariable::Capture(name, named));
        }
        if n == 2 {
            assert(!(s@.subrange(1, 2) =~= seq!['_']));
        } else {
            assert(s@.subrange(1, n as int).len() != 1);
        }
        return None;
    }
    None
}

/// Compares two strings character by character.
pub fn str_equal(a: &str, b: &str) -> (r: bool)
    ensures
        r == (a@ == b@),
{
    let n = a.unicode_len();
    if n != b.unicode_len() {
        return false;
    }
    let mut i: usize = 0;
    while i < n
        invariant
            n == a@.len(),
            n == b@.len(),
            i <= n,
            forall|k: int| 0 <= k < i ==> a@[k] == b@[k],
        decreases n - i,
    {
        if a.get_char(i) != b.get_char(i) {
            return false;
        }
        i = i + 1;
    }
    assert(a@ =~= b@);
    true
}

/// The binding of `k` in an association list: the latest pair with that key.
pub open spec fn lookup<V>(s: Seq<(Seq<char>, V)>, k: Seq<char>) -> Option<V>
    decreases s.len(),
{
    if s.len() == 0 {
        None
    } else if s.last().0 == k {
        Some(s.last().1)
    } else {
        lookup(s.drop_last(), k)
    }
}

pub proof fn lemma_lookup_member<V>(s: Seq<(Seq<char>, V)>, k: Seq<char>)
    ensures
        lookup(s, k) matches Some(v) ==> exists|i: int| 0 <= i < s.len() && #[trigger] s[i] == (k, v),
    decreases s.len(),
{
    if s.len() > 0 && s.last().0 != k {
        lemma_lookup_member(s.drop_last(), k);
        if let Some(v) = lookup(s, k) {
            let i = choose|i: int| 0 <= i < s.drop_last().len() && #[trigger] s.drop_last()[i] == (k, v);
            assert(s[i] == (k, v));
        }
    }
    if s.len() > 0 && s.last().0 == k {
        assert(s[s.len() - 1] == (k, s.last().1));
    }
}

pub proof fn lemma_extends_refl(e: MetaVarEnv)
    ensures
        e.extends(e),
{
    assert(e.single@.subrange(0, e.single@.len() as int) =~= e.single@);
    assert(e.multi@.subrange(0, e.multi@.len() as int) =~= e.multi@);
}

pub proof fn lemma_extends_trans(a: MetaVarEnv, b: MetaVarEnv, c: MetaVarEnv)
    requires
        b.extends(a),
        c.extends(b),
    ensures
        c.extends(a),
{
    assert(c.single@.subrange(0, a.single@.len() as int) =~= c.single@.subrange(0, b.single@.len() as int).subrange(0, a.single@.len() as int));
    assert(c.multi@.subrange(0, a.multi@.len() as int) =~= c.multi@.subrange(0, b.multi@.len() as int).subrange(0, a.multi@.len() as int));
}

/// The bindings of an environment: meta-variable names with one node, and
/// with a run of nodes, each an index into the candidate tree.
pub struct EnvModel {
    pub single: Seq<(Seq<char>, nat)>,
    pub multi: Seq<(Seq<char>, Seq<nat>)>,
}

pub open spec fn nat_seq(v: Seq<usize>) -> Seq<nat> {
    v.map_values(|x: usize| x as nat)
}

pub open spec fn single_view(s: Seq<(String, usize)>) -> Seq<(Seq<char>, nat)> {
    s.map_values(|p: (String, usize)| (p.0@, p.1 as nat))
}

pub open spec fn multi_view(s: Seq<(String, Vec<usize>)>) -> Seq<(Seq<char>, Seq<nat>)> {
    s.map_values(|p: (String, Vec<usize>)| (p.0@, nat_seq(p.1@)))
}

/// The texts of a run of nodes.
pub open spec fn texts(t: SyntaxTree, ns: Seq<nat>) -> Seq<Seq<char>> {
    ns.map_values(|n: nat| t.text_of(n as int))
}

/// Binds `name` to node `n`; where it is bound already, the bound node's
/// text must equal the text of `n`, and nothing changes.
pub open spec fn bind_single(t: SyntaxTree, env: EnvModel, name: Seq<char>, n: nat) -> Option<EnvModel> {
    match lookup(env.single, name) {
        Some(m) => if t.text_of(m as int) == t.text_of(n as int) {
            Some(env)
        } else {
            None
        },
        None => Some(EnvModel { single: env.single.push((name, n)), multi: env.multi }),
    }
}

/// Binds `name` to the run `ns`; where it is bound already, the texts of
/// the two runs must be equal, and nothing changes.
pub open spec fn bind_multi(t: SyntaxTree, env: EnvModel, name: Seq<char>, ns: Seq<nat>) -> Option<EnvModel> {
    match lookup(env.multi, name) {
        Some(ms) => if texts(t, ms) == texts(t, ns) {
            Some(env)
        } else {
            None
        },
        None => Some(EnvModel { single: env.single, multi: env.multi.push((name, ns)) }),
    }
}

/// The bindings that a match builds: single nodes, runs of nodes, and the
/// text that transformations derive from them.
pub struct MetaVarEnv {
    pub single: Vec<(String, usize)>,
    pub multi: Vec<(String, Vec<usize>)>,
    pub transformed: Vec<(String, String)>,
}

impl MetaVarEnv {
    pub open spec fn view(&self) -> EnvModel {
        EnvModel { single: single_view(self.single@), multi: multi_view(self.multi@) }
    }

    /// Every bound node is a node of `t`.
    pub open spec fn valid_in(&self, t: SyntaxTree) -> bool {
        &&& forall|i: int| 0 <= i < self.single@.len() ==> (#[trigger] self.single@[i]).1 < t.len()
        &&& forall|i: int, j: int|
            0 <= i < self.multi@.len() && 0 <= j < self.multi@[i].1@.len() ==> #[trigger] self.multi@[i].1@[j]
                < t.len()
    }

    /// `self` holds the bindings of `old` and possibly more after them.
    pub open spec fn extends(&self, old: MetaVarEnv) -> bool {
        &&& old.single@.len() <= self.single@.len()
        &&& self.single@.subrange(0, old.single@.len() as int) == old.single@
        &&& old.multi@.len() <= self.multi@.len()
        &&& self.multi@.subrange(0, old.multi@.len() as int) == old.multi@
        &&& self.transformed@ == old.transformed@
    }

    pub open spec fn same(&self, other: MetaVarEnv) -> bool {
        &&& self.single@ == other.single@
        &&& self.multi@ == other.multi@
        &&& self.transformed@ == other.transformed@
    }

    pub fn new() -> (r: MetaVarEnv)
        ensures
            r.single@.len() == 0,
            r.multi@.len() == 0,
            r.transformed@.len() == 0,
    {
        MetaVarEnv { single: Vec::new(), multi: Vec::new(), transformed: Vec::new() }
    }

    /// The node bound to `name`.
    pub fn get_match(&self, name: &str) -> (r: Option<usize>)
        ensures
            match lookup(self@.single, name@) {
                Some(m) => r matches Some(x) && x as nat == m,
                None => r is None,
            },
    {
        let mut i: usize = self.single.len();
        assert(self@.single.subrange(0, i as int) =~= self@.single);
        while i > 0
            invariant
                i <= self.single@.len(),
                lookup(self@.single, name@) == lookup(self@.single.subrange(0, i as int), name@),
            decreases i,
        {
            let ghost sub = self@.single.subrange(0, i as int);
            assert(sub.drop_last() =~= self@.single.subrange(0, i - 1));
            if str_equal(self.single[i - 1].0.as_str(), name) {
                return Some(self.single[i - 1].1);
            }
            i = i - 1;
        }
        None
    }

    /// The run of nodes bound to `name`.
    pub fn get_multiple_matches(&self, name: &str) -> (r: Option<Vec<usize>>)
        ensures
            match lookup(self@.multi, name@) {
                Some(ms) => r matches Some(v) && nat_seq(v@) == ms,
                None => r is None,
            },
    {
        let mut i: usize = self.multi.len();
        assert(self@.multi.subrange(0, i as int) =~= self@.multi);
        while i > 0
            invariant
                i <= self.multi@.len(),
                lookup(self@.multi, name@) == lookup(self@.multi.subrange(0, i as int), name@),
            decreases i,
        {
            let ghost sub = self@.multi.subrange(0, i as int);
            assert(sub.drop_last() =~= self@.multi.subrange(0, i - 1));
            if str_equal(self.multi[i - 1].0.as_str(), name) {
                let v = self.multi[i - 1].1.clone();
                assert(v@ =~= self.multi@[i - 1].1@);
                return Some(v);
            }
            i = i - 1;
        }
        None
    }

    /// The text derived for `name` by a transformation.
    pub fn get_transformed(&self, name: &str) -> (r: Option<String>)
        ensures
            match lookup(self.transformed@.map_values(|p: (String, String)| (p.0@, p.1@)), name@) {
                Some(s) => r matches Some(v) && v@ == s,
                None => r is None,
            },
    {
        let ghost view = self.transformed@.map_values(|p: (String, String)| (p.0@, p.1@));
        let mut i: usize = self.transformed.len();
        assert(view.subrange(0, i as int) =~= view);
        while i > 0
            invariant
                i <= self.transformed@.len(),
                view == self.transformed@.map_values(|p: (String, String)| (p.0@, p.1@)),
                lookup(view, name@) == lookup(view.subrange(0, i as int), name@),
            decreases i,
        {
            let ghost sub = view.subrange(0, i as int);
            assert(sub.drop_last() =~= view.subrange(0, i - 1));
            if str_equal(self.transformed[i - 1].0.as_str(), name) {
                return Some(self.transformed[i - 1].1.clone());
            }
            i = i - 1;
        }
        None
    }

    /// Binds `name` to node `n` as `bind_single` says; unchanged on failure.
    pub fn insert(&mut self, t: &SyntaxTree, name: &String, n: usize) -> (r: bool)
        requires
            t.wf(),
            t.valid(n as int),
            old(self).valid_in(*t),
        ensures
            match bind_single(*t, old(self)@, name@, n as nat) {
                Some(e) => r && final(self)@ == e && final(self).extends(*old(self)) && final(self).valid_in(*t),
                None => !r && final(self).same(*old(self)),
            },
    {
        proof {
            lemma_lookup_member(self@.single, name@);
        }
        match self.get_match(name.as_str()) {
            Some(m) => {
                proof {
                    let i = choose|i: int| 0 <= i < self@.single.len() && #[trigger] self@.single[i] == (name@, m as nat);
                    assert(self.single@[i].1 < t.len());
                }
                proof {
                    lemma_extends_refl(*self);
                }
                t.nodes[m].text == t.nodes[n].text
            },
            None => {
                self.single.push((name.clone(), n));
                assert(self@.single =~= old(self)@.single.push((name@, n as nat)));
                assert(self.single@.subrange(0, old(self).single@.len() as int) =~= old(self).single@);
                assert(self.multi@.subrange(0, old(self).multi@.len() as int) =~= old(self).multi@);
                true
            },
        }
    }

    /// Binds `name` to the run `ns` as `bind_multi` says; unchanged on failure.
    pub fn insert_multi(&mut self, t: &SyntaxTree, name: &String, ns: Vec<usize>) -> (r: bool)
        requires
            t.wf(),
            forall|j: int| 0 <= j < ns@.len() ==> #[trigger] ns@[j] < t.len(),
            old(self).valid_in(*t),
        ensures
            match bind_multi(*t, old(self)@, name@, nat_seq(ns@)) {
                Some(e) => r && final(self)@ == e && final(self).extends(*old(self)) && final(self).valid_in(*t),
                None => !r && final(self).same(*old(self)),
            },
    {
        match self.get_multiple_matches(name.as_str()) {
            Some(ms) => {
                proof {
                    lemma_lookup_member(self@.multi, name@);
                    let i = choose|i: int| 0 <= i < self@.multi.len() && #[trigger] self@.multi[i] == (name@, nat_seq(ms@));
                    assert forall|j: int| 0 <= j < ms@.len() implies #[trigger] ms@[j] < t.len() by {
                        assert(nat_seq(ms@)[j] == nat_seq(self.multi@[i].1@)[j]);
                        assert(self.multi@[i].1@[j] < t.len());
                    }
                }
                if ms.len() != ns.len() {
                    assert(texts(*t, nat_seq(ms@)).len() != texts(*t, nat_seq(ns@)).len());
                    return false;
                }
                let mut j: usize = 0;
                while j < ms.len()
                    invariant
                        *self == *old(self),
                        lookup(old(self)@.multi, name@) == Some(nat_seq(ms@)),
                        ms@.len() == ns@.len(),
                        j <= ms@.len(),
                        forall|q: int| 0 <= q < ms@.len() ==> #[trigger] ms@[q] < t.len(),
                        forall|q: int| 0 <= q < ns@.len() ==> #[trigger] ns@[q] < t.len(),
                        forall|q: int| 0 <= q < j ==> t.text_of(#[trigger] ms@[q] as int) == t.text_of(ns@[q] as int),
                    decreases ms@.len() - j,
                {
                    if !(t.nodes[ms[j]].text == t.nodes[ns[j]].text) {
                        assert(texts(*t, nat_seq(ms@))[j as int] != texts(*t, nat_seq(ns@))[j as int]);
                        assert(texts(*t, nat_seq(ms@)) != texts(*t, nat_seq(ns@)));
                        return false;
                    }
                    j = j + 1;
                }
                assert(texts(*t, nat_seq(ms@)) =~= texts(*t, nat_seq(ns@)));
                proof {
                    lemma_extends_refl(*self);
                }
                true
            },
            None => {
                self.multi.push((name.clone(), ns));
                assert(self@.multi =~= old(self)@.multi.push((name@, nat_seq(ns@))));
                assert(self.multi@.subrange(0, old(self).multi@.len() as int) =~= old(self).multi@);
                assert(self.single@.subrange(0, old(self).single@.len() as int) =~= old(self).single@);
                true
            },
        }
    }

    /// Drops the bindings made after the first `ns` single and `nm` multiple
    /// ones.
    pub fn truncate_to(&mut self, ns: usize, nm: usize)
        requires
            ns <= old(self).single@.len(),
            nm <= old(self).multi@.len(),
        ensures
            final(self).single@ == old(self).single@.subrange(0, ns as int),
            final(self).multi@ == old(self).multi@.subrange(0, nm as int),
            final(self).transformed@ == old(self).transformed@,
    {
        self.single.truncate(ns);
        self.multi.truncate(nm);
    }
}

} // verus!
