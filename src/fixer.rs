//! Rewrite templates: literal text with `$NAME` and `$$$NAME` slots, filled
//! from the bindings of a match into an edit of the source.

use vstd::prelude::*;
use vstd::utf8::encode_utf8;
use crate::language::push_char;
use crate::match_tree::NodeMatch;
use crate::meta_var::lemma_lookup_member;
use crate::meta_var::{is_first_name_char, is_name_char, lookup, nat_seq, MetaVarEnv};
use crate::transform::transformed_view;
use crate::tree::{slice_text, text_between, SyntaxTree};

verus! {

/// One piece of a template.
pub enum TemplatePart {
    Text(char),
    /// `$NAME`: the text bound to the name.
    Var(String),
    /// `$$$NAME`: the source spanned by the run bound to the name.
    MultiVar(String),
}

pub enum PartSpec {
    Text(char),
    Var(Seq<char>),
    MultiVar(Seq<char>),
}

impl TemplatePart {
    pub open spec fn view(&self) -> PartSpec {
        match self {
            TemplatePart::Text(c) => PartSpec::Text(*c),
            TemplatePart::Var(n) => PartSpec::Var(n@),
            TemplatePart::MultiVar(n) => PartSpec::MultiVar(n@),
        }
    }
}

/// A rewrite template, with an optional title for the fix it makes.
pub struct Fixer {
    pub parts: Vec<TemplatePart>,
    pub title: Option<String>,
}

/// How many name characters stand in a row from `i`.
pub open spec fn name_run(s: Seq<char>, i: int) -> nat
    decreases s.len() - i,
{
    if 0 <= i < s.len() && is_name_char(s[i]) {
        1 + name_run(s, i + 1)
    } else {
        0
    }
}

/// The length of the name that starts at `i`; 0 where none does.
pub open spec fn var_len(s: Seq<char>, i: int) -> nat {
    if 0 <= i < s.len() && is_first_name_char(s[i]) {
        name_run(s, i)
    } else {
        0
    }
}

pub proof fn lemma_name_run_bound(s: Seq<char>, i: int)
    requires
        0 <= i,
    ensures
        i + name_run(s, i) <= if i <= s.len() { s.len() as int } else { i },
    decreases s.len() - i,
{
    if 0 <= i < s.len() && is_name_char(s[i]) {
        lemma_name_run_bound(s, i + 1);
    }
}

/// The pieces of the template from position `i`: `$$$` or `$` followed by
/// a name is a slot (the longest name that follows), any other character is
/// literal text.
pub open spec fn lex(s: Seq<char>, i: int) -> Seq<PartSpec>
    decreases s.len() - i,
{
    if i < 0 || i >= s.len() {
        Seq::empty()
    } else if s[i] == '$' && i + 2 < s.len() && s[i + 1] == '$' && s[i + 2] == '$' && var_len(s, i + 3) > 0 {
        let n = var_len(s, i + 3);
        proof {
            lemma_name_run_bound(s, i + 3);
        }
        seq![PartSpec::MultiVar(s.subrange(i + 3, i + 3 + n))] + lex(s, i + 3 + n)
    } else if s[i] == '$' && var_len(s, i + 1) > 0 {
        let n = var_len(s, i + 1);
        proof {
            lemma_name_run_bound(s, i + 1);
        }
        seq![PartSpec::Var(s.subrange(i + 1, i + 1 + n))] + lex(s, i + 1 + n)
    } else {
        seq![PartSpec::Text(s[i])] + lex(s, i + 1)
    }
}

pub open spec fn parts_view(v: Seq<TemplatePart>) -> Seq<PartSpec> {
    v.map_values(|p: TemplatePart| p@)
}

pub proof fn lemma_nat_seq_injective(a: Seq<usize>, b: Seq<usize>)
    requires
        nat_seq(a) == nat_seq(b),
    ensures
        a == b,
{
    assert(nat_seq(a).len() == a.len());
    assert(nat_seq(b).len() == b.len());
    assert forall|i: int| 0 <= i < a.len() implies a[i] == b[i] by {
        assert(nat_seq(a)[i] == a[i] as nat);
        assert(nat_seq(b)[i] == b[i] as nat);
    }
    assert(a =~= b);
}

/// The source text between byte offsets `a` and `b`.
pub open spec fn source_between(t: SyntaxTree, a: int, b: int) -> Seq<char> {
    text_between(t.source@, a, b)
}

/// What one piece becomes: a name takes its transformed text where it has
/// one, else the text of its node; a run takes the source from its first
/// node's start to its last node's end; an unbound name gives nothing.
pub open spec fn expand_part(part: PartSpec, t: SyntaxTree, env: MetaVarEnv) -> Seq<char> {
    match part {
        PartSpec::Text(c) => seq![c],
        PartSpec::Var(n) => match lookup(transformed_view(env), n) {
            Some(x) => x,
            None => match lookup(env@.single, n) {
                Some(m) => t.text_of(m as int),
                None => Seq::empty(),
            },
        },
        PartSpec::MultiVar(n) => match lookup(env@.multi, n) {
            Some(ns) => if ns.len() > 0 {
                source_between(t, t.nodes@[ns[0] as int].start as int, t.nodes@[ns.last() as int].end as int)
            } else {
                Seq::empty()
            },
            None => Seq::empty(),
        },
    }
}

pub open spec fn expand(parts: Seq<PartSpec>, t: SyntaxTree, env: MetaVarEnv) -> Seq<char>
    decreases parts.len(),
{
    if parts.len() == 0 {
        Seq::empty()
    } else {
        expand(parts.drop_last(), t, env) + expand_part(parts.last(), t, env)
    }
}

fn name_char_at(s: &str, q: usize) -> (r: bool)
    requires
        q < s@.len(),
    ensures
        r == is_name_char(s@[q as int]),
{
    let c = s.get_char(q);
    ('A' <= c && c <= 'Z') || c == '_' || ('0' <= c && c <= '9')
}

fn name_run_exec(s: &str, i: usize) -> (r: usize)
    requires
        i <= s@.len(),
    ensures
        r == name_run(s@, i as int),
        i + r <= s@.len(),
{
    let n = s.unicode_len();
    let mut q: usize = i;
    while q < n && name_char_at(s, q)
        invariant
            n == s@.len(),
            i <= q <= n,
            name_run(s@, i as int) == (q - i) + name_run(s@, q as int),
        decreases n - q,
    {
        q = q + 1;
    }
    q - i
}

fn var_len_exec(s: &str, i: usize) -> (r: usize)
    requires
        i <= s@.len(),
    ensures
        r == var_len(s@, i as int),
        i + r <= s@.len(),
{
    if i < s.unicode_len() {
        let c = s.get_char(i);
        if ('A' <= c && c <= 'Z') || c == '_' {
            return name_run_exec(s, i);
        }
    }
    0
}

fn substring(s: &str, a: usize, b: usize) -> (r: String)
    requires
        a <= b <= s@.len(),
    ensures
        r@ == s@.subrange(a as int, b as int),
{
    let mut out = String::new();
    let mut q: usize = a;
    while q < b
        invariant
            a <= q <= b,
            b <= s@.len(),
            out@ =~= s@.subrange(a as int, q as int),
        decreases b - q,
    {
        push_char(&mut out, s.get_char(q));
        q = q + 1;
    }
    out
}

impl Fixer {
    /// Reads a template as `lex` says.
    pub fn from_str(template: &str) -> (r: Fixer)
        ensures
            parts_view(r.parts@) == lex(template@, 0),
            r.title is None,
    {
        let n = template.unicode_len();
        let mut parts: Vec<TemplatePart> = Vec::new();
        let mut i: usize = 0;
        while i < n
            invariant
                n == template@.len(),
                i <= n,
                lex(template@, 0) == parts_view(parts@) + lex(template@, i as int),
            decreases n - i,
        {
            let ghost before = parts@;
            let c = template.get_char(i);
            let mut done = false;
            if c == '$' && n - i > 2 && template.get_char(i + 1) == '$' && template.get_char(i + 2) == '$' {
                let k = var_len_exec(template, i + 3);
                if k > 0 {
                    parts.push(TemplatePart::MultiVar(substring(template, i + 3, i + 3 + k)));
                    assert(parts_view(parts@) =~= parts_view(before).push(parts@.last()@));
                    assert(parts_view(parts@) + lex(template@, (i + 3 + k) as int) =~= parts_view(before)
                        + lex(template@, i as int));
                    i = i + 3 + k;
                    done = true;
                }
            }
            if !done && c == '$' {
                let k = var_len_exec(template, i + 1);
                if k > 0 {
                    parts.push(TemplatePart::Var(substring(template, i + 1, i + 1 + k)));
                    assert(parts_view(parts@) =~= parts_view(before).push(parts@.last()@));
                    assert(parts_view(parts@) + lex(template@, (i + 1 + k) as int) =~= parts_view(before)
                        + lex(template@, i as int));
                    i = i + 1 + k;
                    done = true;
                }
            }
            if !done {
                parts.push(TemplatePart::Text(c));
                assert(parts_view(parts@) =~= parts_view(before).push(parts@.last()@));
                assert(parts_view(parts@) + lex(template@, (i + 1) as int) =~= parts_view(before) + lex(
                    template@,
                    i as int,
                ));
                i = i + 1;
            }
        }
        assert(parts_view(parts@) + lex(template@, i as int) =~= parts_view(parts@));
        Fixer { parts, title: None }
    }

    /// A template with a title.
    pub fn with_title(template: &str, title: &str) -> (r: Fixer)
        ensures
            parts_view(r.parts@) == lex(template@, 0),
            r.title matches Some(s) && s@ == title@,
    {
        let mut f = Fixer::from_str(template);
        f.title = Some(title.to_string());
        f
    }

    pub fn title(&self) -> (r: Option<&str>)
        ensures
            match self.title {
                Some(s) => r matches Some(x) && x@ == s@,
                None => r is None,
            },
    {
        match &self.title {
            Some(s) => Some(s.as_str()),
            None => None,
        }
    }
}


/// Fills the template from the bindings of a match, as `expand` says.
pub fn expand_parts(parts: &Vec<TemplatePart>, t: &SyntaxTree, env: &MetaVarEnv) -> (r: String)
    requires
        t.wf(),
        env.valid_in(*t),
    ensures
        r@ == expand(parts_view(parts@), *t, *env),
{
    let mut out = String::new();
    let mut k: usize = 0;
    while k < parts.len()
        invariant
            t.wf(),
            env.valid_in(*t),
            k <= parts@.len(),
            out@ == expand(parts_view(parts@).subrange(0, k as int), *t, *env),
        decreases parts@.len() - k,
    {
        let ghost pv = parts_view(parts@).subrange(0, k + 1);
        assert(pv.drop_last() =~= parts_view(parts@).subrange(0, k as int));
        assert(pv.last() == parts@[k as int]@);
        match &parts[k] {
            TemplatePart::Text(c) => {
                push_char(&mut out, *c);
            },
            TemplatePart::Var(n) => {
                match env.get_transformed(n.as_str()) {
                    Some(x) => {
                        out.append(x.as_str());
                    },
                    None => {
                        match env.get_match(n.as_str()) {
                            Some(m) => {
                                proof {
                                    lemma_lookup_member(env@.single, n@);
                                    let i = choose|i: int|
                                        0 <= i < env@.single.len() && #[trigger] env@.single[i] == (n@, m as nat);
                                    assert(env.single@[i].1 < t.len());
                                }
                                out.append(t.text(m));
                            },
                            None => {},
                        }
                    },
                }
            },
            TemplatePart::MultiVar(n) => {
                match env.get_multiple_matches(n.as_str()) {
                    Some(ns) => {
                        if ns.len() > 0 {
                            proof {
                                lemma_lookup_member(env@.multi, n@);
                                let i = choose|i: int|
                                    0 <= i < env@.multi.len() && #[trigger] env@.multi[i] == (n@, nat_seq(ns@));
                                assert(env@.multi[i] == (env.multi@[i].0@, nat_seq(env.multi@[i].1@)));
                                assert(nat_seq(ns@) == nat_seq(env.multi@[i].1@));
                                lemma_nat_seq_injective(ns@, env.multi@[i].1@);
                                assert(nat_seq(ns@)[0] == nat_seq(env.multi@[i].1@)[0]);
                                assert(env.multi@[i].1@[0] < t.len());
                                let l = ns@.len() - 1;
                                assert(nat_seq(ns@)[l] == nat_seq(env.multi@[i].1@)[l]);
                                assert(env.multi@[i].1@[l] < t.len());
                            }
                            let a = t.nodes[ns[0]].start;
                            let b = t.nodes[ns[ns.len() - 1]].end;
                            let piece = slice_text(t.source.as_str(), a, b);
                            out.append(piece.as_str());
                        }
                    },
                    None => {},
                }
            },
        }
        k = k + 1;
    }
    assert(parts_view(parts@).subrange(0, k as int) =~= parts_view(parts@));
    out
}

/// A change to a source: `deleted_length` bytes from `position` give way
/// to `inserted_text`.
pub struct Edit {
    pub position: usize,
    pub deleted_length: usize,
    pub inserted_text: Vec<u8>,
}

/// The source bytes after an edit.
pub open spec fn apply_edit_spec(src: Seq<u8>, pos: int, len: int, ins: Seq<u8>) -> Seq<u8> {
    src.subrange(0, pos) + ins + src.subrange(pos + len, src.len() as int)
}

/// Applies an edit to the bytes of a source.
pub fn apply_edit(src: &Vec<u8>, edit: &Edit) -> (r: Vec<u8>)
    requires
        edit.position + edit.deleted_length <= src@.len(),
    ensures
        r@ == apply_edit_spec(src@, edit.position as int, edit.deleted_length as int, edit.inserted_text@),
{
    let total = src.len();
    let mut out: Vec<u8> = Vec::new();
    let mut i: usize = 0;
    while i < edit.position
        invariant
            total == src@.len(),
            edit.position + edit.deleted_length <= src@.len(),
            i <= edit.position,
            out@ =~= src@.subrange(0, i as int),
        decreases edit.position - i,
    {
        out.push(src[i]);
        i = i + 1;
    }
    let mut k: usize = 0;
    while k < edit.inserted_text.len()
        invariant
            total == src@.len(),
            edit.position + edit.deleted_length <= src@.len(),
            k <= edit.inserted_text@.len(),
            out@ =~= src@.subrange(0, edit.position as int) + edit.inserted_text@.subrange(0, k as int),
        decreases edit.inserted_text@.len() - k,
    {
        out.push(edit.inserted_text[k]);
        k = k + 1;
    }
    let mut j: usize = edit.position + edit.deleted_length;
    while j < src.len()
        invariant
            edit.position + edit.deleted_length <= j <= src@.len(),
            out@ =~= src@.subrange(0, edit.position as int) + edit.inserted_text@ + src@.subrange(
                edit.position + edit.deleted_length,
                j as int,
            ),
        decreases src@.len() - j,
    {
        out.push(src[j]);
        j = j + 1;
    }
    out
}

/// A fix whose inserted text is the text it replaces leaves the source as
/// it was; so does a template that expands to exactly the matched text.
pub proof fn lemma_fix_round_trip(src: Seq<u8>, pos: int, len: int, ins: Seq<u8>)
    requires
        0 <= pos,
        0 <= len,
        pos + len <= src.len(),
        ins == src.subrange(pos, pos + len),
    ensures
        apply_edit_spec(src, pos, len, ins) == src,
{
    assert(apply_edit_spec(src, pos, len, ins) =~= src);
}

impl NodeMatch {
    /// The edit that replaces the matched node with the filled template.
    pub fn make_edit(&self, t: &SyntaxTree, fixer: &Fixer) -> (r: Edit)
        requires
            t.wf(),
            (self.node as int) < t.len(),
            self.env.valid_in(*t),
        ensures
            r.position == t.nodes@[self.node as int].start,
            r.deleted_length == (if t.nodes@[self.node as int].end >= t.nodes@[self.node as int].start {
                t.nodes@[self.node as int].end - t.nodes@[self.node as int].start
            } else {
                0
            }),
            r.inserted_text@ == encode_utf8(expand(parts_view(fixer.parts@), *t, self.env)),
    {
        let node = &t.nodes[self.node];
        let text = expand_parts(&fixer.parts, t, &self.env);
        let deleted_length: usize = if node.end >= node.start {
            node.end - node.start
        } else {
            0
        };
        Edit { position: node.start, deleted_length, inserted_text: text.as_str().as_bytes_vec() }
    }
}

} // verus!
