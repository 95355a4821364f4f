//! What the printers decide: the fixes of a match, the framing of JSON
//! output, and whether to colour it. Writing the bytes is left to callers.

use vstd::prelude::*;
use vstd::utf8::encode_utf8;
use crate::fixer::{expand, expand_parts, parts_view, Fixer};
use crate::match_tree::NodeMatch;
use crate::meta_var::MetaVarEnv;
use crate::transform::transformed_view;
use crate::tree::SyntaxTree;

verus! {

/// A further fix offered for a match beside the first one.
pub struct AdditionalFix {
    pub replacement: String,
    pub range: std::ops::Range<usize>,
    pub title: Option<String>,
}

/// A match with the fix of a rewrite template.
pub struct Diff {
    /// the matched node
    pub node_match: NodeMatch,
    /// the text that replaces it
    pub replacement: String,
    pub range: std::ops::Range<usize>,
    pub title: Option<String>,
    pub additional_fixes: Option<Vec<AdditionalFix>>,
}

pub open spec fn title_view(t: Option<String>) -> Option<Seq<char>> {
    match t {
        Some(s) => Some(s@),
        None => None,
    }
}

fn copy_title(t: &Option<String>) -> (r: Option<String>)
    ensures
        title_view(r) == title_view(*t),
{
    match t {
        Some(s) => Some(s.clone()),
        None => None,
    }
}

/// The byte range of node `n`, empty where its end stands before its start.
pub open spec fn node_range(t: SyntaxTree, n: int) -> (int, int) {
    let s = t.nodes@[n].start as int;
    let e = t.nodes@[n].end as int;
    (s, if e >= s { e } else { s })
}

pub open spec fn fix_of(t: SyntaxTree, nm: NodeMatch, f: Fixer) -> Seq<char> {
    expand(parts_view(f.parts@), t, nm.env)
}

impl MetaVarEnv {
    /// A copy with the same bindings.
    pub fn duplicate(&self) -> (r: MetaVarEnv)
        ensures
            r@ == self@,
            r.transformed@.map_values(|p: (String, String)| (p.0@, p.1@)) == self.transformed@.map_values(
                |p: (String, String)| (p.0@, p.1@),
            ),
            r.valid_in_same(*self),
    {
        let mut single: Vec<(String, usize)> = Vec::new();
        let mut i: usize = 0;
        while i < self.single.len()
            invariant
                i <= self.single@.len(),
                single@.len() == i,
                forall|q: int|
                    0 <= q < i ==> (#[trigger] single@[q]).0@ == self.single@[q].0@ && single@[q].1
                        == self.single@[q].1,
            decreases self.single@.len() - i,
        {
            single.push((self.single[i].0.clone(), self.single[i].1));
            i = i + 1;
        }
        let mut multi: Vec<(String, Vec<usize>)> = Vec::new();
        let mut i: usize = 0;
        while i < self.multi.len()
            invariant
                i <= self.multi@.len(),
                multi@.len() == i,
                forall|q: int|
                    0 <= q < i ==> (#[trigger] multi@[q]).0@ == self.multi@[q].0@ && multi@[q].1@
                        == self.multi@[q].1@,
            decreases self.multi@.len() - i,
        {
            let v = self.multi[i].1.clone();
            assert(v@ =~= self.multi@[i as int].1@);
            multi.push((self.multi[i].0.clone(), v));
            i = i + 1;
        }
        let mut transformed: Vec<(String, String)> = Vec::new();
        let mut i: usize = 0;
        while i < self.transformed.len()
            invariant
                i <= self.transformed@.len(),
                transformed@.len() == i,
                forall|q: int|
                    0 <= q < i ==> (#[trigger] transformed@[q]).0@ == self.transformed@[q].0@
                        && transformed@[q].1@ == self.transformed@[q].1@,
            decreases self.transformed@.len() - i,
        {
            transformed.push((self.transformed[i].0.clone(), self.transformed[i].1.clone()));
            i = i + 1;
        }
        let r = MetaVarEnv { single, multi, transformed };
        assert(r@.single =~= self@.single);
        assert(r@.multi =~= self@.multi);
        assert(r.transformed@.map_values(|p: (String, String)| (p.0@, p.1@)) =~= self.transformed@.map_values(
            |p: (String, String)| (p.0@, p.1@),
        ));
        r
    }

    /// The same nodes are bound, in the same places.
    pub open spec fn valid_in_same(&self, other: MetaVarEnv) -> bool {
        &&& self.single@.len() == other.single@.len()
        &&& forall|i: int| 0 <= i < self.single@.len() ==> (#[trigger] self.single@[i]).1 == other.single@[i].1
        &&& self.multi@.len() == other.multi@.len()
        &&& forall|i: int| 0 <= i < self.multi@.len() ==> (#[trigger] self.multi@[i]).1@ == other.multi@[i].1@
    }
}

impl NodeMatch {
    /// A copy of the match.
    pub fn duplicate(&self) -> (r: NodeMatch)
        ensures
            r.node == self.node,
            r.env@ == self.env@,
            transformed_view(r.env) == transformed_view(self.env),
            r.env.valid_in_same(self.env),
    {
        NodeMatch { node: self.node, env: self.env.duplicate() }
    }
}

impl Diff {
    /// The fix that `rewrite` makes of the match: its text replaces the
    /// matched node's byte range.
    pub fn generate(t: &SyntaxTree, node_match: NodeMatch, rewrite: &Fixer) -> (r: Diff)
        requires
            t.wf(),
            (node_match.node as int) < t.len(),
            node_match.env.valid_in(*t),
        ensures
            r.node_match == node_match,
            r.replacement@ == fix_of(*t, node_match, *rewrite),
            r.range.start == node_range(*t, node_match.node as int).0,
            r.range.end == node_range(*t, node_match.node as int).1,
            title_view(r.title) == title_view(rewrite.title),
            r.additional_fixes is None,
    {
        let replacement = expand_parts(&rewrite.parts, t, &node_match.env);
        let node = &t.nodes[node_match.node];
        let end: usize = if node.end >= node.start {
            node.end
        } else {
            node.start
        };
        let range = node.start..end;
        Diff { node_match, replacement, range, title: copy_title(&rewrite.title), additional_fixes: None }
    }

    /// The fix of the first template, with those of the others as further
    /// fixes; `None` where there is no template.
    pub fn multiple(t: &SyntaxTree, node_match: NodeMatch, fixers: &Vec<Fixer>) -> (r: Option<Diff>)
        requires
            t.wf(),
            (node_match.node as int) < t.len(),
            node_match.env.valid_in(*t),
        ensures
            fixers@.len() == 0 <==> r is None,
            r matches Some(d) ==> {
                &&& d.node_match == node_match
                &&& d.replacement@ == fix_of(*t, node_match, fixers@[0])
                &&& d.range.start == node_range(*t, node_match.node as int).0
                &&& d.range.end == node_range(*t, node_match.node as int).1
                &&& title_view(d.title) == title_view(fixers@[0].title)
                &&& (fixers@.len() == 1 <==> d.additional_fixes is None)
                &&& d.additional_fixes matches Some(extra) ==> {
                    &&& extra@.len() == fixers@.len() - 1
                    &&& forall|q: int|
                        0 <= q < extra@.len() ==> {
                            &&& (#[trigger] extra@[q]).replacement@ == fix_of(*t, node_match, fixers@[q + 1])
                            &&& extra@[q].range.start == node_range(*t, node_match.node as int).0
                            &&& extra@[q].range.end == node_range(*t, node_match.node as int).1
                            &&& title_view(extra@[q].title) == title_view(fixers@[q + 1].title)
                        }
                }
            },
    {
        if fixers.len() == 0 {
            return None;
        }
        let mut extra: Vec<AdditionalFix> = Vec::new();
        let mut k: usize = 1;
        while k < fixers.len()
            invariant
                t.wf(),
                (node_match.node as int) < t.len(),
                node_match.env.valid_in(*t),
                1 <= k <= fixers@.len(),
                extra@.len() == k - 1,
                forall|q: int|
                    0 <= q < extra@.len() ==> {
                        &&& (#[trigger] extra@[q]).replacement@ == fix_of(*t, node_match, fixers@[q + 1])
                        &&& extra@[q].range.start == node_range(*t, node_match.node as int).0
                        &&& extra@[q].range.end == node_range(*t, node_match.node as int).1
                        &&& title_view(extra@[q].title) == title_view(fixers@[q + 1].title)
                    },
            decreases fixers@.len() - k,
        {
            let f = &fixers[k];
            let replacement = expand_parts(&f.parts, t, &node_match.env);
            let node = &t.nodes[node_match.node];
            let end: usize = if node.end >= node.start {
                node.end
            } else {
                node.start
            };
            extra.push(AdditionalFix { replacement, range: node.start..end, title: copy_title(&f.title) });
            k = k + 1;
        }
        let mut ret = Diff::generate(t, node_match, &fixers[0]);
        if fixers.len() > 1 {
            ret.additional_fixes = Some(extra);
        }
        Some(ret)
    }

    /// The fix and each further fix, as fixes of their own.
    pub fn into_list(self) -> (r: Vec<Diff>)
        ensures
            r@.len() == 1 + match self.additional_fixes {
                Some(extra) => extra@.len(),
                None => 0,
            },
            r@[0].replacement@ == self.replacement@,
            r@[0].range == self.range,
            r@[0].node_match == self.node_match,
            title_view(r@[0].title) == title_view(self.title),
            forall|q: int|
                0 < q < r@.len() ==> {
                    &&& (#[trigger] r@[q]).node_match.node == self.node_match.node
                    &&& r@[q].node_match.env@ == self.node_match.env@
                    &&& transformed_view(r@[q].node_match.env) == transformed_view(self.node_match.env)
                    &&& self.additional_fixes matches Some(extra) && r@[q].replacement@
                        == extra@[q - 1].replacement@ && r@[q].range == extra@[q - 1].range && title_view(
                        r@[q].title,
                    ) == title_view(extra@[q - 1].title)
                },
            forall|q: int| 0 <= q < r@.len() ==> (#[trigger] r@[q]).additional_fixes is None,
    {
        let Diff { node_match, replacement, range, title, additional_fixes } = self;
        let mut rest: Vec<Diff> = Vec::new();
        match &additional_fixes {
            Some(extra) => {
                let mut k: usize = 0;
                while k < extra.len()
                    invariant
                        additional_fixes == Some(*extra),
                        k <= extra@.len(),
                        rest@.len() == k,
                        forall|q: int|
                            0 <= q < k ==> {
                                &&& (#[trigger] rest@[q]).node_match.node == node_match.node
                                &&& rest@[q].node_match.env@ == node_match.env@
                                &&& transformed_view(rest@[q].node_match.env) == transformed_view(node_match.env)
                                &&& rest@[q].replacement@ == extra@[q].replacement@
                                &&& rest@[q].range == extra@[q].range
                                &&& title_view(rest@[q].title) == title_view(extra@[q].title)
                                &&& rest@[q].additional_fixes is None
                            },
                    decreases extra@.len() - k,
                {
                    let f = &extra[k];
                    rest.push(
                        Diff {
                            node_match: node_match.duplicate(),
                            replacement: f.replacement.clone(),
                            range: f.range.start..f.range.end,
                            title: copy_title(&f.title),
                            additional_fixes: None,
                        },
                    );
                    k = k + 1;
                }
            },
            None => {},
        }
        let mut ret: Vec<Diff> = Vec::new();
        ret.push(Diff { node_match, replacement, range, title, additional_fixes: None });
        let ghost first = ret@;
        let mut k: usize = 0;
        let n = rest.len();
        let ghost rest_view = rest@;
        while rest.len() > 0
            invariant
                rest@ == rest_view.subrange(k as int, n as int),
                n == rest_view.len(),
                k + rest@.len() == n,
                ret@ == first + rest_view.subrange(0, k as int),
            decreases rest@.len(),
        {
            let d = rest.remove(0);
            ret.push(d);
            k = k + 1;
            assert(ret@ =~= first + rest_view.subrange(0, k as int));
            assert(rest@ =~= rest_view.subrange(k as int, n as int));
        }
        assert(rest_view.subrange(0, k as int) =~= rest_view);
        ret
    }

    /// The source of the whole parsed document.
    pub fn get_root_text<'a>(&self, t: &'a SyntaxTree) -> (r: &'a str)
        ensures
            r@ == t.source@,
    {
        t.source.as_str()
    }
}

/// How colour is chosen for terminal output.
#[derive(Clone, Copy, PartialEq, Eq, Structural, Debug)]
pub enum ColorArg {
    /// Colour where standard output is a terminal.
    Auto,
    /// Always colour.
    Always,
    /// Colour with ANSI codes only.
    Ansi,
    /// Never colour.
    Never,
}

/// Relies on `atty::is(atty::Stream::Stdout)`: whether standard output is a
/// terminal. Depends on the process, so nothing is stated of it.
#[verifier::external_body]
fn stdout_is_terminal() -> (r: bool) {
    atty::is(atty::Stream::Stdout)
}

impl ColorArg {
    /// Whether to colour, given whether standard output is a terminal.
    pub fn use_color(self, stdout_is_tty: bool) -> (r: bool)
        ensures
            r == match self {
                ColorArg::Auto => stdout_is_tty,
                ColorArg::Always | ColorArg::Ansi => true,
                ColorArg::Never => false,
            },
    {
        match self {
            ColorArg::Auto => stdout_is_tty,
            ColorArg::Always | ColorArg::Ansi => true,
            ColorArg::Never => false,
        }
    }

    /// Whether to colour standard output.
    pub fn should_use_color(self) -> (r: bool)
        ensures
            self == ColorArg::Always || self == ColorArg::Ansi ==> r,
            self == ColorArg::Never ==> !r,
    {
        let tty = if self == ColorArg::Auto {
            stdout_is_terminal()
        } else {
            false
        };
        self.use_color(tty)
    }
}

/// How JSON output is laid out.
#[derive(Clone, Copy, PartialEq, Eq, Structural, Debug)]
pub enum JsonStyle {
    /// One indented array.
    Pretty,
    /// One object per line, no array.
    Stream,
    /// One array without whitespace.
    Compact,
}

/// Prints matches as JSON to `output`; it records whether anything was
/// printed yet, which decides the separators.
pub struct JSONPrinter<W> {
    output: W,
    style: JsonStyle,
    context: (u16, u16),
    include_metadata: bool,
    matched: bool,
}

/// Turns the matches of one file into a buffer of JSON text.
pub struct JSONProcessor {
    pub style: JsonStyle,
    pub include_metadata: bool,
    pub context: (u16, u16),
}

pub open spec fn bytes_of(s: &str) -> Seq<u8> {
    encode_utf8(s@)
}

/// The separator before a buffer, where one was printed already.
pub open spec fn separator(style: JsonStyle) -> Seq<char> {
    match style {
        JsonStyle::Pretty => ",\n"@,
        JsonStyle::Stream => Seq::empty(),
        JsonStyle::Compact => ","@,
    }
}

/// The documents of one buffer in order: in pretty style separated by `,`
/// and a newline, in compact style by `,`, in stream style each followed by
/// a newline.
pub open spec fn frame_docs(style: JsonStyle, docs: Seq<Seq<u8>>) -> Seq<u8>
    decreases docs.len(),
{
    if docs.len() == 0 {
        Seq::empty()
    } else {
        let last = docs.last();
        let prev = frame_docs(style, docs.drop_last());
        match style {
            JsonStyle::Stream => prev + last + encode_utf8("\n"@),
            JsonStyle::Pretty => if docs.len() == 1 {
                last
            } else {
                prev + encode_utf8(",\n"@) + last
            },
            JsonStyle::Compact => if docs.len() == 1 {
                last
            } else {
                prev + encode_utf8(","@) + last
            },
        }
    }
}

fn push_str_bytes(out: &mut Vec<u8>, s: &str)
    ensures
        final(out)@ == old(out)@ + encode_utf8(s@),
{
    let b = s.as_bytes_vec();
    let mut i: usize = 0;
    while i < b.len()
        invariant
            i <= b@.len(),
            b@ == encode_utf8(s@),
            out@ == old(out)@ + b@.subrange(0, i as int),
        decreases b@.len() - i,
    {
        out.push(b[i]);
        i = i + 1;
        assert(out@ =~= old(out)@ + b@.subrange(0, i as int));
    }
    assert(b@.subrange(0, i as int) =~= b@);
}

fn push_bytes(out: &mut Vec<u8>, b: &Vec<u8>)
    ensures
        final(out)@ == old(out)@ + b@,
{
    let mut i: usize = 0;
    while i < b.len()
        invariant
            i <= b@.len(),
            out@ == old(out)@ + b@.subrange(0, i as int),
        decreases b@.len() - i,
    {
        out.push(b[i]);
        i = i + 1;
        assert(out@ =~= old(out)@ + b@.subrange(0, i as int));
    }
    assert(b@.subrange(0, i as int) =~= b@);
}

impl JSONProcessor {
    /// Frames the serialised documents of one file, as `frame_docs` says.
    pub fn print_docs(&self, docs: &Vec<Vec<u8>>) -> (r: Vec<u8>)
        ensures
            r@ == frame_docs(self.style, docs@.map_values(|d: Vec<u8>| d@)),
    {
        let ghost dv = docs@.map_values(|d: Vec<u8>| d@);
        let mut out: Vec<u8> = Vec::new();
        let mut k: usize = 0;
        while k < docs.len()
            invariant
                k <= docs@.len(),
                dv == docs@.map_values(|d: Vec<u8>| d@),
                out@ == frame_docs(self.style, dv.subrange(0, k as int)),
            decreases docs@.len() - k,
        {
            let ghost sub = dv.subrange(0, k + 1);
            assert(sub.drop_last() =~= dv.subrange(0, k as int));
            match self.style {
                JsonStyle::Pretty => {
                    if k > 0 {
                        push_str_bytes(&mut out, ",\n");
                    }
                    push_bytes(&mut out, &docs[k]);
                },
                JsonStyle::Stream => {
                    push_bytes(&mut out, &docs[k]);
                    push_str_bytes(&mut out, "\n");
                },
                JsonStyle::Compact => {
                    if k > 0 {
                        push_str_bytes(&mut out, ",");
                    }
                    push_bytes(&mut out, &docs[k]);
                },
            }
            k = k + 1;
        }
        assert(dv.subrange(0, k as int) =~= dv);
        out
    }
}

impl<W> JSONPrinter<W> {
    pub closed spec fn style_spec(&self) -> JsonStyle {
        self.style
    }

    pub closed spec fn matched_spec(&self) -> bool {
        self.matched
    }

    pub closed spec fn context_spec(&self) -> (u16, u16) {
        self.context
    }

    pub closed spec fn include_metadata_spec(&self) -> bool {
        self.include_metadata
    }

    pub closed spec fn output_spec(&self) -> W {
        self.output
    }

    /// A printer that has printed nothing yet, with no context lines and no
    /// metadata.
    pub fn new(output: W, style: JsonStyle) -> (r: Self)
        ensures
            r.output_spec() == output,
            r.style_spec() == style,
            r.context_spec() == (0u16, 0u16),
            !r.include_metadata_spec(),
            !r.matched_spec(),
    {
        JSONPrinter { style, output, include_metadata: false, context: (0, 0), matched: false }
    }

    /// The same printer with `context` lines around each match.
    pub fn context(self, context: (u16, u16)) -> (r: Self)
        ensures
            r.context_spec() == context,
            r.style_spec() == self.style_spec(),
            r.include_metadata_spec() == self.include_metadata_spec(),
            r.matched_spec() == self.matched_spec(),
            r.output_spec() == self.output_spec(),
    {
        let mut s = self;
        s.context = context;
        s
    }

    /// The same printer, with or without the rules' metadata.
    pub fn include_metadata(self, enabled: bool) -> (r: Self)
        ensures
            r.include_metadata_spec() == enabled,
            r.style_spec() == self.style_spec(),
            r.context_spec() == self.context_spec(),
            r.matched_spec() == self.matched_spec(),
            r.output_spec() == self.output_spec(),
    {
        let mut s = self;
        s.include_metadata = enabled;
        s
    }

    pub fn get_processor(&self) -> (r: JSONProcessor)
        ensures
            r.style == self.style_spec(),
            r.context == self.context_spec(),
            r.include_metadata == self.include_metadata_spec(),
    {
        JSONProcessor { style: self.style, context: self.context, include_metadata: self.include_metadata }
    }

    pub fn output(&self) -> (r: &W)
        ensures
            *r == self.output_spec(),
    {
        &self.output
    }

    pub fn output_mut(&mut self) -> (r: &mut W)
        ensures
            *r == old(self).output_spec(),
            final(self).output_spec() == *final(r),
            final(self).style_spec() == old(self).style_spec(),
            final(self).matched_spec() == old(self).matched_spec(),
            final(self).context_spec() == old(self).context_spec(),
            final(self).include_metadata_spec() == old(self).include_metadata_spec(),
    {
        &mut self.output
    }

    /// What opens the output: `[` but in stream style.
    pub fn before_print(&self) -> (r: Vec<u8>)
        ensures
            r@ == if self.style_spec() == JsonStyle::Stream {
                Seq::empty()
            } else {
                encode_utf8("["@)
            },
    {
        let mut out: Vec<u8> = Vec::new();
        if self.style != JsonStyle::Stream {
            push_str_bytes(&mut out, "[");
        }
        out
    }

    /// What to write for one processed buffer: nothing for an empty one;
    /// else the separator where something was printed before (a newline
    /// first in pretty style), then the buffer. The printer then records
    /// that something was printed.
    pub fn process(&mut self, processed: &Vec<u8>) -> (r: Vec<u8>)
        ensures
            final(self).style_spec() == old(self).style_spec(),
            final(self).context_spec() == old(self).context_spec(),
            final(self).include_metadata_spec() == old(self).include_metadata_spec(),
            final(self).output_spec() == old(self).output_spec(),
            processed@.len() == 0 ==> r@.len() == 0 && final(self).matched_spec() == old(self).matched_spec(),
            processed@.len() > 0 ==> final(self).matched_spec() && r@ == (if old(self).matched_spec() {
                encode_utf8(separator(old(self).style_spec()))
            } else if old(self).style_spec() == JsonStyle::Pretty {
                encode_utf8("\n"@)
            } else {
                Seq::empty()
            }) + processed@,
    {
        let mut out: Vec<u8> = Vec::new();
        if processed.len() == 0 {
            return out;
        }
        let matched = self.matched;
        self.matched = true;
        if matched {
            match self.style {
                JsonStyle::Pretty => push_str_bytes(&mut out, ",\n"),
                JsonStyle::Stream => {
                    assert(encode_utf8(Seq::<char>::empty()) =~= Seq::<u8>::empty());
                },
                JsonStyle::Compact => push_str_bytes(&mut out, ","),
            }
        } else if self.style == JsonStyle::Pretty {
            push_str_bytes(&mut out, "\n");
        }
        push_bytes(&mut out, processed);
        out
    }

    /// What closes the output: nothing in stream style; else `]` and a
    /// newline, after a newline where a pretty array holds something.
    pub fn after_print(&self) -> (r: Vec<u8>)
        ensures
            r@ == if self.style_spec() == JsonStyle::Stream {
                Seq::empty()
            } else if self.matched_spec() && self.style_spec() == JsonStyle::Pretty {
                encode_utf8("\n"@) + encode_utf8("]\n"@)
            } else {
                encode_utf8("]\n"@)
            },
    {
        let mut out: Vec<u8> = Vec::new();
        if self.style == JsonStyle::Stream {
            return out;
        }
        if self.matched && self.style == JsonStyle::Pretty {
            push_str_bytes(&mut out, "\n");
        }
        push_str_bytes(&mut out, "]\n");
        out
    }
}

/// A fix whose replacement is the source text it replaces leaves the file
/// byte for byte as it was; so a template equal to the pattern's source
/// keeps the file wherever the match is written as the pattern is.
pub proof fn lemma_diff_round_trip(t: SyntaxTree, d: Diff)
    requires
        d.range.start <= d.range.end <= encode_utf8(t.source@).len(),
        encode_utf8(d.replacement@) == encode_utf8(t.source@).subrange(d.range.start as int, d.range.end as int),
    ensures
        crate::fixer::apply_edit_spec(
            encode_utf8(t.source@),
            d.range.start as int,
            d.range.end - d.range.start,
            encode_utf8(d.replacement@),
        ) == encode_utf8(t.source@),
{
    crate::fixer::lemma_fix_round_trip(
        encode_utf8(t.source@),
        d.range.start as int,
        d.range.end - d.range.start,
        encode_utf8(d.replacement@),
    );
}

} // verus!
