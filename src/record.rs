//! The records that output is made of: positions of nodes, the bindings of
//! a match, its labels, and what a rule says of a match.

use vstd::prelude::*;
use vstd::utf8::encode_utf8;
use crate::fixer::{expand, lex};
use crate::match_tree::NodeMatch;
use crate::position::{back_to_line, chars_between, context_bounds, forward_to_line, line_start, newlines_before, position};
use crate::print::title_view;
use crate::rule::{label_view, rule_labels, Label, LabelStyle, RuleConfig, Severity};
use crate::transform::transformed_view;
use crate::tree::{slice_text, text_between, SyntaxTree};

verus! {

/// A zero-based line and character column.
pub struct PositionRecord {
    pub line: usize,
    pub column: usize,
}

/// A byte range with the positions of its ends.
pub struct RangeRecord {
    pub byte_start: usize,
    pub byte_end: usize,
    pub start: PositionRecord,
    pub end: PositionRecord,
}

/// A node: its text and where it stands.
pub struct NodeRecord {
    pub text: String,
    pub range: RangeRecord,
}

/// The bindings of a match.
pub struct MetaVars {
    pub single: Vec<(String, NodeRecord)>,
    pub multi: Vec<(String, Vec<NodeRecord>)>,
    pub transformed: Vec<(String, String)>,
}

/// A label of a match with the text it covers.
pub struct LabelRecord {
    pub text: String,
    pub range: RangeRecord,
    pub message: Option<String>,
    pub style: LabelStyle,
}

/// What a rule says of one of its matches.
pub struct RuleMatchRecord {
    pub rule_id: String,
    pub severity: Severity,
    pub note: Option<String>,
    pub message: String,
    pub labels: Vec<LabelRecord>,
    pub metadata: Option<Vec<(String, String)>>,
}

/// A byte offset held within the source.
pub open spec fn clamp(off: int, len: int) -> int {
    if off <= len {
        off
    } else {
        len
    }
}

/// The line and column of byte offset `off` of `src` (held within it).
pub open spec fn position_ok(p: PositionRecord, src: Seq<char>, off: int) -> bool {
    let b = encode_utf8(src);
    let o = clamp(off, b.len() as int);
    &&& p.line == newlines_before(b, o)
    &&& p.column == chars_between(b, line_start(b, o), o)
}

pub open spec fn range_ok(r: RangeRecord, src: Seq<char>, a: int, b: int) -> bool {
    &&& r.byte_start == a
    &&& r.byte_end == b
    &&& position_ok(r.start, src, a)
    &&& position_ok(r.end, src, b)
}

/// The record of node `n`: its text and byte range with positions.
pub open spec fn node_record_ok(r: NodeRecord, t: SyntaxTree, n: int) -> bool {
    &&& r.text@ == t.text_of(n)
    &&& range_ok(r.range, t.source@, t.nodes@[n].start as int, t.nodes@[n].end as int)
}

fn position_record(bytes: &Vec<u8>, off: usize, Ghost(src): Ghost<Seq<char>>) -> (r: PositionRecord)
    requires
        bytes@ == encode_utf8(src),
    ensures
        position_ok(r, src, off as int),
{
    let o = if off <= bytes.len() {
        off
    } else {
        bytes.len()
    };
    let (line, column) = position(bytes, o);
    PositionRecord { line, column }
}

fn range_record(bytes: &Vec<u8>, a: usize, b: usize, Ghost(src): Ghost<Seq<char>>) -> (r: RangeRecord)
    requires
        bytes@ == encode_utf8(src),
    ensures
        range_ok(r, src, a as int, b as int),
{
    RangeRecord {
        byte_start: a,
        byte_end: b,
        start: position_record(bytes, a, Ghost(src)),
        end: position_record(bytes, b, Ghost(src)),
    }
}

fn node_record(t: &SyntaxTree, bytes: &Vec<u8>, n: usize) -> (r: NodeRecord)
    requires
        (n as int) < t.len(),
        bytes@ == encode_utf8(t.source@),
    ensures
        node_record_ok(r, *t, n as int),
{
    let node = &t.nodes[n];
    NodeRecord { text: node.text.clone(), range: range_record(bytes, node.start, node.end, Ghost(t.source@)) }
}

/// The record of node `n`: its text and byte range with positions.
pub fn node_record_of(t: &SyntaxTree, n: usize) -> (r: NodeRecord)
    requires
        (n as int) < t.len(),
    ensures
        node_record_ok(r, *t, n as int),
{
    let bytes = t.source.as_str().as_bytes_vec();
    node_record(t, &bytes, n)
}

/// The bindings of a match as records; `None` where it has none.
pub fn meta_variables(t: &SyntaxTree, nm: &NodeMatch) -> (r: Option<MetaVars>)
    requires
        t.wf(),
        nm.env.valid_in(*t),
    ensures
        r is None <==> (nm.env.single@.len() == 0 && nm.env.multi@.len() == 0 && nm.env.transformed@.len() == 0),
        r matches Some(v) ==> {
            &&& v.single@.len() == nm.env.single@.len()
            &&& forall|i: int|
                0 <= i < v.single@.len() ==> (#[trigger] v.single@[i]).0@ == nm.env.single@[i].0@
                    && node_record_ok(v.single@[i].1, *t, nm.env.single@[i].1 as int)
            &&& v.multi@.len() == nm.env.multi@.len()
            &&& forall|i: int|
                0 <= i < v.multi@.len() ==> (#[trigger] v.multi@[i]).0@ == nm.env.multi@[i].0@
                    && v.multi@[i].1@.len() == nm.env.multi@[i].1@.len() && forall|j: int|
                    0 <= j < v.multi@[i].1@.len() ==> node_record_ok(
                        #[trigger] v.multi@[i].1@[j],
                        *t,
                        nm.env.multi@[i].1@[j] as int,
                    )
            &&& v.transformed@.map_values(|p: (String, String)| (p.0@, p.1@)) == transformed_view(nm.env)
        },
{
    let env = &nm.env;
    if env.single.len() == 0 && env.multi.len() == 0 && env.transformed.len() == 0 {
        return None;
    }
    let bytes = t.source.as_str().as_bytes_vec();
    let mut single: Vec<(String, NodeRecord)> = Vec::new();
    let mut i: usize = 0;
    while i < env.single.len()
        invariant
            t.wf(),
            env.valid_in(*t),
            bytes@ == encode_utf8(t.source@),
            i <= env.single@.len(),
            single@.len() == i,
            forall|q: int|
                0 <= q < i ==> (#[trigger] single@[q]).0@ == env.single@[q].0@ && node_record_ok(
                    single@[q].1,
                    *t,
                    env.single@[q].1 as int,
                ),
        decreases env.single@.len() - i,
    {
        let n = env.single[i].1;
        assert(env.single@[i as int].1 < t.len());
        single.push((env.single[i].0.clone(), node_record(t, &bytes, n)));
        i = i + 1;
    }
    let mut multi: Vec<(String, Vec<NodeRecord>)> = Vec::new();
    let mut i: usize = 0;
    while i < env.multi.len()
        invariant
            t.wf(),
            env.valid_in(*t),
            bytes@ == encode_utf8(t.source@),
            i <= env.multi@.len(),
            multi@.len() == i,
            forall|q: int|
                0 <= q < i ==> (#[trigger] multi@[q]).0@ == env.multi@[q].0@ && multi@[q].1@.len()
                    == env.multi@[q].1@.len() && forall|j: int|
                    0 <= j < multi@[q].1@.len() ==> node_record_ok(
                        #[trigger] multi@[q].1@[j],
                        *t,
                        env.multi@[q].1@[j] as int,
                    ),
        decreases env.multi@.len() - i,
    {
        let ns = &env.multi[i].1;
        let mut recs: Vec<NodeRecord> = Vec::new();
        let mut j: usize = 0;
        while j < ns.len()
            invariant
                t.wf(),
                env.valid_in(*t),
                i < env.multi@.len(),
                *ns == env.multi@[i as int].1,
                bytes@ == encode_utf8(t.source@),
                j <= ns@.len(),
                recs@.len() == j,
                forall|q: int| 0 <= q < j ==> node_record_ok(#[trigger] recs@[q], *t, ns@[q] as int),
            decreases ns@.len() - j,
        {
            assert(env.multi@[i as int].1@[j as int] < t.len());
            recs.push(node_record(t, &bytes, ns[j]));
            j = j + 1;
        }
        multi.push((env.multi[i].0.clone(), recs));
        i = i + 1;
    }
    let mut transformed: Vec<(String, String)> = Vec::new();
    let mut i: usize = 0;
    while i < env.transformed.len()
        invariant
            i <= env.transformed@.len(),
            transformed@.len() == i,
            forall|q: int|
                0 <= q < i ==> (#[trigger] transformed@[q]).0@ == env.transformed@[q].0@
                    && transformed@[q].1@ == env.transformed@[q].1@,
        decreases env.transformed@.len() - i,
    {
        transformed.push((env.transformed[i].0.clone(), env.transformed[i].1.clone()));
        i = i + 1;
    }
    assert(transformed@.map_values(|p: (String, String)| (p.0@, p.1@)) =~= transformed_view(*env));
    Some(MetaVars { single, multi, transformed })
}

/// The record of a label with the plain values `l`.
pub open spec fn label_record_ok(r: LabelRecord, t: SyntaxTree, l: (LabelStyle, Option<Seq<char>>, int, int)) -> bool {
    &&& r.style == l.0
    &&& title_view(r.message) == l.1
    &&& r.text@ == text_between(t.source@, l.2, l.3)
    &&& range_ok(r.range, t.source@, l.2, l.3)
}

fn copy_message(m: &Option<String>) -> (r: Option<String>)
    ensures
        title_view(r) == title_view(*m),
{
    match m {
        Some(s) => Some(s.clone()),
        None => None,
    }
}

/// The labels of a match, each with the text it covers and its positions.
pub fn label_records(rule: &RuleConfig, t: &SyntaxTree, nm: &NodeMatch) -> (r: Vec<LabelRecord>)
    requires
        t.wf(),
        (nm.node as int) < t.len(),
        nm.env.valid_in(*t),
    ensures
        r@.len() == rule_labels(*rule, *t, nm.env@, nm.node as int).len(),
        forall|q: int|
            0 <= q < r@.len() ==> label_record_ok(#[trigger] r@[q], *t, rule_labels(*rule, *t, nm.env@, nm.node as int)[q]),
{
    let labels = rule.get_labels(t, nm);
    let ghost ls = rule_labels(*rule, *t, nm.env@, nm.node as int);
    let bytes = t.source.as_str().as_bytes_vec();
    let mut out: Vec<LabelRecord> = Vec::new();
    let mut i: usize = 0;
    while i < labels.len()
        invariant
            labels@.map_values(|l: Label| label_view(l)) == ls,
            bytes@ == encode_utf8(t.source@),
            i <= labels@.len(),
            out@.len() == i,
            forall|q: int| 0 <= q < i ==> label_record_ok(#[trigger] out@[q], *t, ls[q]),
        decreases labels@.len() - i,
    {
        let l = &labels[i];
        assert(ls[i as int] == label_view(*l));
        let text = slice_text(t.source.as_str(), l.range.start, l.range.end);
        out.push(
            LabelRecord {
                text,
                range: range_record(&bytes, l.range.start, l.range.end, Ghost(t.source@)),
                message: copy_message(&l.message),
                style: l.style,
            },
        );
        i = i + 1;
    }
    out
}

pub open spec fn pairs_view(v: Seq<(String, String)>) -> Seq<(Seq<char>, Seq<char>)> {
    v.map_values(|p: (String, String)| (p.0@, p.1@))
}

fn copy_pairs(v: &Vec<(String, String)>) -> (r: Vec<(String, String)>)
    ensures
        pairs_view(r@) == pairs_view(v@),
{
    let mut out: Vec<(String, String)> = Vec::new();
    let mut i: usize = 0;
    while i < v.len()
        invariant
            i <= v@.len(),
            out@.len() == i,
            forall|q: int| 0 <= q < i ==> (#[trigger] out@[q]).0@ == v@[q].0@ && out@[q].1@ == v@[q].1@,
        decreases v@.len() - i,
    {
        out.push((v[i].0.clone(), v[i].1.clone()));
        i = i + 1;
    }
    assert(pairs_view(out@) =~= pairs_view(v@));
    out
}

/// What a rule says of one of its matches: its id, severity and note, the
/// message filled from the match, the labels, and the metadata where asked
/// for and present.
pub fn rule_match_record(rule: &RuleConfig, t: &SyntaxTree, nm: &NodeMatch, metadata: bool) -> (r: RuleMatchRecord)
    requires
        t.wf(),
        (nm.node as int) < t.len(),
        nm.env.valid_in(*t),
    ensures
        r.rule_id@ == rule.id@,
        r.severity == rule.severity,
        title_view(r.note) == title_view(rule.note),
        r.message@ == expand(lex(rule.message@, 0), *t, nm.env),
        r.labels@.len() == rule_labels(*rule, *t, nm.env@, nm.node as int).len(),
        forall|q: int|
            0 <= q < r.labels@.len() ==> label_record_ok(
                #[trigger] r.labels@[q],
                *t,
                rule_labels(*rule, *t, nm.env@, nm.node as int)[q],
            ),
        r.metadata is Some <==> (metadata && rule.metadata is Some),
        r.metadata matches Some(m) ==> rule.metadata matches Some(rm) && pairs_view(m@) == pairs_view(rm@),
{
    let meta = if metadata {
        match &rule.metadata {
            Some(m) => Some(copy_pairs(m)),
            None => None,
        }
    } else {
        None
    };
    RuleMatchRecord {
        rule_id: rule.id.clone(),
        severity: rule.severity,
        note: copy_message(&rule.note),
        message: rule.get_message(t, nm),
        labels: label_records(rule, t, nm),
        metadata: meta,
    }
}

/// The lines around a match: the text before it on its first line (and
/// `before` lines above), the text after it on its last line (and `after`
/// lines below), and how many characters each holds.
pub struct DisplayContext {
    pub leading: String,
    pub trailing: String,
    pub leading_chars: usize,
    pub trailing_chars: usize,
}

/// The byte bounds of the display context of node `n`: start of the
/// leading text, start and end of the node (held within the source), end of
/// the trailing text.
pub open spec fn context_spans(t: SyntaxTree, n: int, before: nat, after: nat) -> (int, int, int, int) {
    let b = encode_utf8(t.source@);
    let s = clamp(t.nodes@[n].start as int, b.len() as int);
    let e0 = clamp(t.nodes@[n].end as int, b.len() as int);
    let e = if e0 >= s { e0 } else { s };
    let lead = back_to_line(b, s, before + 1);
    let trail = forward_to_line(b, e0, after + 1);
    (lead, s, e, if trail >= e { trail } else { e })
}

/// The display context of node `n`, as `context_spans` bounds it.
pub fn display_context(t: &SyntaxTree, n: usize, before: u16, after: u16) -> (r: DisplayContext)
    requires
        (n as int) < t.len(),
    ensures
        ({
            let (lead, s, e, trail) = context_spans(*t, n as int, before as nat, after as nat);
            &&& r.leading@ == text_between(t.source@, lead, s)
            &&& r.trailing@ == text_between(t.source@, e, trail)
            &&& r.leading_chars == r.leading@.len()
            &&& r.trailing_chars == r.trailing@.len()
        }),
{
    let bytes = t.source.as_str().as_bytes_vec();
    let node = &t.nodes[n];
    let s = if node.start <= bytes.len() { node.start } else { bytes.len() };
    let (lead, trail) = context_bounds(&bytes, s, node.end, before as usize, after as usize);
    let e0 = if node.end <= bytes.len() { node.end } else { bytes.len() };
    let e = if e0 >= s { e0 } else { s };
    let trail = if trail >= e { trail } else { e };
    let leading = slice_text(t.source.as_str(), lead, s);
    let trailing = slice_text(t.source.as_str(), e, trail);
    let leading_chars = leading.as_str().unicode_len();
    let trailing_chars = trailing.as_str().unicode_len();
    DisplayContext { leading, trailing, leading_chars, trailing_chars }
}

/// Where the project configuration is: the first of the directories, from
/// the starting one up through its ancestors, that holds the configuration
/// file.
pub fn first_with_config(has_config: &Vec<bool>) -> (r: Option<usize>)
    ensures
        r matches Some(i) ==> i < has_config@.len() && has_config@[i as int] && forall|k: int|
            0 <= k < i ==> !has_config@[k],
        r is None ==> forall|k: int| 0 <= k < has_config@.len() ==> !has_config@[k],
{
    let mut i: usize = 0;
    while i < has_config.len()
        invariant
            i <= has_config@.len(),
            forall|k: int| 0 <= k < i ==> !has_config@[k],
        decreases has_config@.len() - i,
    {
        if has_config[i] {
            return Some(i);
        }
        i = i + 1;
    }
    None
}

} // verus!
