//! Patterns: a snippet of code parsed with the target grammar and read as a
//! tree of placeholders, literal leaves and inner nodes.

use vstd::prelude::*;
use vstd::utf8::encode_utf8;
use crate::language::{expando_spec, grammar_kind, grammar_parse, has_grammar, pre_process_pattern, replace_char, Lang};
use crate::meta_var::{classify, extract_meta_var, MetaVariable};
use crate::tree::{tree_of, SyntaxTree};

verus! {

/// The kind id that the parser gives to a node it could not make sense of.
pub const ERROR_KIND: u16 = 65535;

pub enum Pattern {
    /// A placeholder, limited to one grammar kind where `kind` is set.
    MetaVar { meta_var: MetaVariable, kind: Option<u16> },
    /// A node without named children, compared by kind and text.
    Terminal { text: String, is_named: bool, kind_id: u16 },
    /// A node with named children; `children` holds all of its children.
    Internal { kind_id: u16, children: Vec<Pattern> },
}

#[derive(PartialEq, Eq, Clone, Debug)]
pub enum PatternError {
    /// The parser gave no tree, or no grammar is linked for the language.
    TSParse,
    /// The pattern source parses to nothing.
    NoContent(String),
    /// The pattern source parses to more than one node.
    MultipleNode(String),
    /// The grammar gives the selector the id 0: it has no named kind of
    /// that name. (The empty name and prefixes of `ERROR` get the error
    /// kind's id from tree-sitter and are not refused.)
    InvalidKind(String),
    /// No node of the selected kind stands in the context.
    NoSelectorInContext { context: String, selector: String },
}

/// The node has no named child.
pub open spec fn named_leaf(t: SyntaxTree, n: int) -> bool {
    forall|j: int|
        0 <= j < t.children_of(n).len() ==> !(#[trigger] t.nodes@[t.children_of(n)[j] as int]).is_named
}

/// `p` is what node `n` of `t` reads as, where `mc` marks meta-variables and
/// `kind` limits a placeholder at the top.
pub open spec fn converts_to(t: SyntaxTree, n: int, kind: Option<u16>, mc: char, p: Pattern) -> bool
    decreases t.len() - n,
    when t.wf() && t.valid(n)
{
    match classify(t.text_of(n), mc) {
        Some(mv) => p matches Pattern::MetaVar { meta_var, kind: k } && meta_var@ == mv && k == kind,
        None => if named_leaf(t, n) {
            p matches Pattern::Terminal { text, is_named, kind_id } && text@ == t.text_of(n)
                && is_named == t.nodes@[n].is_named && kind_id == t.kind_of(n)
        } else {
            match p {
                Pattern::Internal { kind_id, children } => {
                    &&& kind_id == t.kind_of(n)
                    &&& children@.len() == t.children_of(n).len()
                    &&& forall|j: int|
                        0 <= j < children@.len() ==> converts_to(
                            t,
                            t.children_of(n)[j] as int,
                            None,
                            mc,
                            #[trigger] children@[j],
                        )
                },
                _ => false,
            }
        },
    }
}

impl Pattern {
    /// Every inner pattern has at least one child.
    pub open spec fn wf(&self) -> bool
        decreases *self,
    {
        match *self {
            Pattern::Internal { children, .. } => children@.len() >= 1 && forall|q: int|
                0 <= q < children@.len() ==> (#[trigger] children@[q]).wf(),
            _ => true,
        }
    }
}

/// A pattern read from a node of a well-formed tree is well-formed.
pub proof fn lemma_converts_wf(t: SyntaxTree, n: int, kind: Option<u16>, mc: char, p: Pattern)
    requires
        t.wf(),
        t.valid(n),
        converts_to(t, n, kind, mc, p),
    ensures
        p.wf(),
    decreases t.len() - n,
{
    if classify(t.text_of(n), mc) is None && !named_leaf(t, n) {
        if let Pattern::Internal { children, .. } = p {
            assert forall|q: int| 0 <= q < children@.len() implies (#[trigger] children@[q]).wf() by {
                lemma_converts_wf(t, t.children_of(n)[q] as int, None, mc, children@[q]);
            }
            let j = choose|j: int|
                0 <= j < t.children_of(n).len() && (#[trigger] t.nodes@[t.children_of(n)[j] as int]).is_named;
        }
    }
}

/// One child, or two where the second is a missing or nameless token that
/// some grammars put at the end.
pub open spec fn is_single_node(t: SyntaxTree, n: int) -> bool {
    let cs = t.children_of(n);
    cs.len() == 1 || (cs.len() == 2 && (t.nodes@[cs[1] as int].is_missing || t.nodes@[cs[1] as int].kind@.len() == 0))
}

/// The first node below `n`, following single children, that is not single.
pub open spec fn collapse(t: SyntaxTree, n: int) -> int
    decreases t.len() - n,
    when t.wf() && t.valid(n)
{
    if is_single_node(t, n) {
        collapse(t, t.children_of(n)[0] as int)
    } else {
        n
    }
}

pub proof fn lemma_collapse_valid(t: SyntaxTree, n: int)
    requires
        t.wf(),
        t.valid(n),
    ensures
        t.valid(collapse(t, n)),
        !is_single_node(t, collapse(t, n)),
    decreases t.len() - n,
{
    if is_single_node(t, n) {
        lemma_collapse_valid(t, t.children_of(n)[0] as int);
    }
}

/// The first node, in arena order, of the given kind.
pub open spec fn first_of_kind(t: SyntaxTree, kind: u16, i: int) -> bool {
    &&& t.valid(i)
    &&& t.kind_of(i) == kind
    &&& forall|k: int| 0 <= k < i ==> t.kind_of(k) != kind
}

pub open spec fn fixed_string_spec(p: Pattern) -> Seq<char>
    decreases p, 1nat, 0nat,
{
    match p {
        Pattern::Terminal { text, .. } => text@,
        Pattern::MetaVar { .. } => Seq::empty(),
        Pattern::Internal { children, .. } => longest_fixed(p, children@.len()),
    }
}

/// The longest fixed string, in UTF-8 bytes, among the first `k` children;
/// the earliest of equal lengths.
pub open spec fn longest_fixed(p: Pattern, k: nat) -> Seq<char>
    decreases p, 0nat, k,
{
    match p {
        Pattern::Internal { children, .. } => if k == 0 || k > children@.len() {
            Seq::empty()
        } else {
            let prev = longest_fixed(p, (k - 1) as nat);
            let cur = fixed_string_spec(children@[k - 1]);
            if encode_utf8(prev).len() >= encode_utf8(cur).len() {
                prev
            } else {
                cur
            }
        },
        _ => Seq::empty(),
    }
}

pub open spec fn pattern_kind(p: Pattern) -> Option<u16> {
    match p {
        Pattern::Terminal { kind_id, .. } => Some(kind_id),
        Pattern::Internal { kind_id, .. } => Some(kind_id),
        Pattern::MetaVar { kind, .. } => kind,
    }
}

/// No placeholder of the pattern is limited to a kind.
pub open spec fn no_kinds(p: Pattern) -> bool
    decreases p,
{
    match p {
        Pattern::MetaVar { kind, .. } => kind is None,
        Pattern::Terminal { .. } => true,
        Pattern::Internal { children, .. } => forall|q: int|
            0 <= q < children@.len() ==> no_kinds(#[trigger] children@[q]),
    }
}

pub proof fn lemma_converts_no_kinds(t: SyntaxTree, n: int, mc: char, p: Pattern)
    requires
        t.wf(),
        t.valid(n),
        converts_to(t, n, None, mc, p),
    ensures
        no_kinds(p),
    decreases t.len() - n,
{
    if classify(t.text_of(n), mc) is None && !named_leaf(t, n) {
        if let Pattern::Internal { children, .. } = p {
            assert forall|q: int| 0 <= q < children@.len() implies no_kinds(#[trigger] children@[q]) by {
                lemma_converts_no_kinds(t, t.children_of(n)[q] as int, mc, children@[q]);
            }
        }
    }
}

/// What compiling the parse tree `t` of the pattern source `src` gives: an
/// error where the root has no content or more than one node, else the
/// pattern of the first node below the root that is not a single-child
/// wrapper.
pub open spec fn from_tree_spec(src: Seq<char>, t: SyntaxTree, lang: Lang, r: Result<Pattern, PatternError>) -> bool {
    &&& t.children_of(0).len() == 0 ==> (r matches Err(PatternError::NoContent(s)) && s@ == src)
    &&& t.children_of(0).len() > 0 && !is_single_node(t, 0) ==> (r matches Err(PatternError::MultipleNode(s))
        && s@ == src)
    &&& t.children_of(0).len() > 0 && is_single_node(t, 0) ==> (r matches Ok(p) && converts_to(
        t,
        collapse(t, 0),
        None,
        expando_spec(lang),
        p,
    ))
    &&& r matches Ok(p) ==> p.wf() && no_kinds(p)
}

/// The source as the grammar is given it: meta-variable sigils replaced by
/// the language's expando character.
pub open spec fn processed(src: Seq<char>, lang: Lang) -> Seq<char> {
    replace_char(src, '$', expando_spec(lang))
}

/// What compiling `src` gives: a parse error where no grammar is linked,
/// else `from_tree_spec` of the tree of the grammar's parse of the
/// processed source.
pub open spec fn compiles_to(src: Seq<char>, lang: Lang, r: Result<Pattern, PatternError>) -> bool {
    if !has_grammar(lang) {
        r == Err::<Pattern, PatternError>(PatternError::TSParse)
    } else {
        exists|t: SyntaxTree|
            t.wf() && tree_of(t, grammar_parse(lang, processed(src, lang)), processed(src, lang))
                && #[trigger] from_tree_spec(src, t, lang, r)
    }
}

/// What `contextual_from_tree` gives for the tree `t` and the kind id `kind`.
pub open spec fn contextual_spec(
    context: Seq<char>,
    selector: Seq<char>,
    t: SyntaxTree,
    kind: u16,
    lang: Lang,
    r: Result<Pattern, PatternError>,
) -> bool {
    &&& (forall|i: int| 0 <= i < t.len() ==> t.kind_of(i) != kind) ==> (r matches Err(
        PatternError::NoSelectorInContext { context: c, selector: s },
    ) && c@ == context && s@ == selector)
    &&& (exists|i: int| 0 <= i < t.len() && t.kind_of(i) == kind) ==> (r matches Ok(p) && exists|i: int|
        first_of_kind(t, kind, i) && converts_to(t, i, Some(kind), expando_spec(lang), p))
    &&& r matches Ok(p) ==> p.wf()
}

/// What compiling a contextual pattern gives: a parse error where no
/// grammar is linked; else, over the tree of the processed context, an
/// unknown kind error where the selector names no kind, or `contextual_spec`.
pub open spec fn contextual_compiles_to(
    context: Seq<char>,
    selector: Seq<char>,
    lang: Lang,
    r: Result<Pattern, PatternError>,
) -> bool {
    if !has_grammar(lang) {
        r == Err::<Pattern, PatternError>(PatternError::TSParse)
    } else {
        exists|t: SyntaxTree|
            t.wf() && #[trigger] tree_of(t, grammar_parse(lang, processed(context, lang)), processed(context, lang)) && (
            grammar_kind(lang, selector) == 0 ==> (r matches Err(PatternError::InvalidKind(s)) && s@ == selector))
                && (grammar_kind(lang, selector) != 0 ==> contextual_spec(
                context,
                selector,
                t,
                grammar_kind(lang, selector),
                lang,
                r,
            ))
    }
}

fn convert_node(t: &SyntaxTree, n: usize, kind: Option<u16>, mc: char) -> (p: Pattern)
    requires
        t.wf(),
        t.valid(n as int),
    ensures
        converts_to(*t, n as int, kind, mc, p),
    decreases t.len() - n,
{
    let node = &t.nodes[n];
    if let Some(meta_var) = extract_meta_var(node.text.as_str(), mc) {
        return Pattern::MetaVar { meta_var, kind };
    }
    let mut leaf = true;
    let mut j: usize = 0;
    while j < node.children.len()
        invariant
            t.wf(),
            t.valid(n as int),
            node == t.nodes@[n as int],
            j <= node.children@.len(),
            leaf == forall|q: int| 0 <= q < j ==> !(#[trigger] t.nodes@[node.children@[q] as int]).is_named,
        decreases node.children@.len() - j,
    {
        if t.nodes[node.children[j]].is_named {
            leaf = false;
        }
        j = j + 1;
    }
    if leaf {
        return Pattern::Terminal { text: node.text.clone(), is_named: node.is_named, kind_id: node.kind_id };
    }
    proof {
        let q = choose|q: int|
            0 <= q < node.children@.len() && (#[trigger] t.nodes@[node.children@[q] as int]).is_named;
        assert(t.nodes@[t.children_of(n as int)[q] as int].is_named);
    }
    let mut children: Vec<Pattern> = Vec::new();
    let mut j: usize = 0;
    while j < node.children.len()
        invariant
            !named_leaf(*t, n as int),
            classify(t.text_of(n as int), mc) is None,
            t.wf(),
            t.valid(n as int),
            node == t.nodes@[n as int],
            j <= node.children@.len(),
            children@.len() == j,
            forall|q: int|
                0 <= q < j ==> converts_to(*t, node.children@[q] as int, None, mc, #[trigger] children@[q]),
        decreases node.children@.len() - j,
    {
        let c = node.children[j];
        children.push(convert_node(t, c, None, mc));
        j = j + 1;
    }
    Pattern::Internal { kind_id: node.kind_id, children }
}

fn single_node(t: &SyntaxTree, n: usize) -> (r: bool)
    requires
        t.wf(),
        t.valid(n as int),
    ensures
        r == is_single_node(*t, n as int),
{
    let cs = &t.nodes[n].children;
    if cs.len() == 1 {
        true
    } else if cs.len() == 2 {
        let second = &t.nodes[cs[1]];
        second.is_missing || second.kind.unicode_len() == 0
    } else {
        false
    }
}

impl Pattern {
    /// Compiles `src`, as `new` does.
    pub fn str(src: &str, lang: Lang) -> (p: Pattern)
        ensures
            compiles_to(src@, lang, Ok(p)) || ((exists|e: PatternError| compiles_to(src@, lang, Err(e)))
                && p.is_error_terminal(src@)),
            p.wf(),
    {
        Pattern::new(src, lang)
    }

    /// The terminal of the error kind that holds `src`.
    pub open spec fn is_error_terminal(&self, src: Seq<char>) -> bool {
        *self matches Pattern::Terminal { text, is_named, kind_id } && text@ == src && is_named && kind_id
            == ERROR_KIND
    }

    /// The compiled pattern of `src`; on a source that does not compile, the
    /// terminal of the error kind that holds `src`, which `has_error` reports.
    pub fn new(src: &str, lang: Lang) -> (p: Pattern)
        ensures
            compiles_to(src@, lang, Ok(p)) || ((exists|e: PatternError| compiles_to(src@, lang, Err(e)))
                && p.is_error_terminal(src@)),
            p.wf(),
    {
        match Pattern::try_new(src, lang) {
            Ok(p) => p,
            Err(e) => {
                assert(compiles_to(src@, lang, Err(e)));
                Pattern::Terminal { text: src.to_string(), is_named: true, kind_id: ERROR_KIND }
            },
        }
    }

    /// Parses the pattern source (meta-variable sigils replaced by the
    /// language's expando character) and compiles the tree with `from_tree`.
    pub fn try_new(src: &str, lang: Lang) -> (r: Result<Pattern, PatternError>)
        ensures
            compiles_to(src@, lang, r),
            has_grammar(lang) ==> !(r matches Err(PatternError::TSParse)),
            r matches Ok(p) ==> p.wf() && no_kinds(p),
    {
        let pre = pre_process_pattern(src, lang);
        let tree = match SyntaxTree::parse(pre.as_str(), lang) {
            Some(t) => t,
            None => return Err(PatternError::TSParse),
        };
        let r = Pattern::from_tree(src, &tree, lang);
        assert(tree.wf() && tree_of(tree, grammar_parse(lang, processed(src@, lang)), processed(src@, lang))
            && from_tree_spec(src@, tree, lang, r));
        r
    }

    /// Compiles the parse tree of a pattern source: the root must have
    /// content and a single node, whose chain of single children is followed
    /// down to the first node with several.
    pub fn from_tree(src: &str, t: &SyntaxTree, lang: Lang) -> (r: Result<Pattern, PatternError>)
        requires
            t.wf(),
        ensures
            t.children_of(0).len() == 0 ==> (r matches Err(PatternError::NoContent(s)) && s@ == src@),
            t.children_of(0).len() > 0 && !is_single_node(*t, 0) ==> (r matches Err(
                PatternError::MultipleNode(s),
            ) && s@ == src@),
            t.children_of(0).len() > 0 && is_single_node(*t, 0) ==> (r matches Ok(p)
                && converts_to(*t, collapse(*t, 0), None, expando_spec(lang), p)),
            r matches Ok(p) ==> p.wf() && no_kinds(p),
            from_tree_spec(src@, *t, lang, r),
    {
        if t.nodes[0].children.len() == 0 {
            return Err(PatternError::NoContent(src.to_string()));
        }
        if !single_node(t, 0) {
            return Err(PatternError::MultipleNode(src.to_string()));
        }
        let mut n: usize = 0;
        while single_node(t, n)
            invariant
                t.wf(),
                t.valid(n as int),
                collapse(*t, n as int) == collapse(*t, 0),
            decreases t.len() - n,
        {
            n = t.nodes[n].children[0];
        }
        let p = convert_node(t, n, None, lang.expando_char());
        proof {
            lemma_converts_wf(*t, n as int, None, expando_spec(lang), p);
            lemma_converts_no_kinds(*t, n as int, expando_spec(lang), p);
        }
        Ok(p)
    }

    /// Parses `context` and compiles its first node of kind `selector`; a
    /// placeholder there is limited to that kind.
    pub fn contextual(context: &str, selector: &str, lang: Lang) -> (r: Result<Pattern, PatternError>)
        ensures
            contextual_compiles_to(context@, selector@, lang, r),
            has_grammar(lang) ==> !(r matches Err(PatternError::TSParse)),
            r matches Ok(p) ==> p.wf(),
    {
        let pre = pre_process_pattern(context, lang);
        let tree = match SyntaxTree::parse(pre.as_str(), lang) {
            Some(t) => t,
            None => return Err(PatternError::TSParse),
        };
        let kind = match lang.named_kind(selector) {
            Some(k) => k,
            None => return Err(PatternError::TSParse),
        };
        if kind == 0 {
            let r = Err(PatternError::InvalidKind(selector.to_string()));
            assert(tree.wf() && tree_of(tree, grammar_parse(lang, processed(context@, lang)), processed(context@, lang)));
            return r;
        }
        let r = Pattern::contextual_from_tree(context, selector, &tree, kind, lang);
        assert(contextual_spec(context@, selector@, tree, kind, lang, r));
        assert(tree.wf() && tree_of(tree, grammar_parse(lang, processed(context@, lang)), processed(context@, lang)));
        r
    }

    /// Compiles the first node of `kind` in the parse tree of `context`.
    pub fn contextual_from_tree(
        context: &str,
        selector: &str,
        t: &SyntaxTree,
        kind: u16,
        lang: Lang,
    ) -> (r: Result<Pattern, PatternError>)
        requires
            t.wf(),
        ensures
            (forall|i: int| 0 <= i < t.len() ==> t.kind_of(i) != kind) ==> (r matches Err(
                PatternError::NoSelectorInContext { context: c, selector: s },
            ) && c@ == context@ && s@ == selector@),
            (exists|i: int| 0 <= i < t.len() && t.kind_of(i) == kind) ==> (r matches Ok(p)
                && exists|i: int|
                first_of_kind(*t, kind, i) && converts_to(*t, i, Some(kind), expando_spec(lang), p)),
            r matches Ok(p) ==> p.wf(),
            contextual_spec(context@, selector@, *t, kind, lang, r),
    {
        let mut i: usize = 0;
        while i < t.nodes.len()
            invariant
                t.wf(),
                i <= t.len(),
                forall|k: int| 0 <= k < i ==> t.kind_of(k) != kind,
            decreases t.len() - i,
        {
            if t.nodes[i].kind_id == kind {
                let p = convert_node(t, i, Some(kind), lang.expando_char());
                assert(first_of_kind(*t, kind, i as int));
                proof {
                    lemma_converts_wf(*t, i as int, Some(kind), expando_spec(lang), p);
                }
                return Ok(p);
            }
            i = i + 1;
        }
        Err(
            PatternError::NoSelectorInContext {
                context: context.to_string(),
                selector: selector.to_string(),
            },
        )
    }

    /// The pattern of a whole parsed document, from its root.
    pub fn doc(t: &SyntaxTree, lang: Lang) -> (p: Pattern)
        requires
            t.wf(),
        ensures
            converts_to(*t, 0, None, expando_spec(lang), p),
            p.wf(),
    {
        let p = convert_node(t, 0, None, lang.expando_char());
        proof {
            lemma_converts_wf(*t, 0, None, expando_spec(lang), p);
        }
        p
    }

    /// The longest literal text that a match must contain: a terminal's
    /// text; nothing for a placeholder; for an inner pattern the longest, in
    /// UTF-8 bytes, of its children's (the first of equal lengths).
    pub fn fixed_string(&self) -> (r: &str)
        ensures
            r@ == fixed_string_spec(*self),
        decreases self, 1nat, 0nat,
    {
        match self {
            Pattern::Terminal { text, .. } => text.as_str(),
            Pattern::MetaVar { .. } => {
                proof {
                    reveal_strlit("");
                }
                ""
            },
            Pattern::Internal { children, .. } => {
                proof {
                    reveal_strlit("");
                }
                let mut longest: &str = "";
                let mut k: usize = 0;
                while k < children.len()
                    invariant
                        *self matches Pattern::Internal { children: cs, .. } && cs == children,
                        k <= children@.len(),
                        longest@ == longest_fixed(*self, k as nat),
                    decreases children@.len() - k,
                {
                    let cur = children[k].fixed_string();
                    if longest.as_bytes().len() < cur.as_bytes().len() {
                        longest = cur;
                    }
                    k = k + 1;
                }
                longest
            },
        }
    }

    pub open spec fn has_error_spec(&self) -> bool {
        pattern_kind(*self) == Some(ERROR_KIND)
    }

    /// Whether the pattern's root is of the parser's error kind.
    pub fn has_error(&self) -> (r: bool)
        ensures
            r == self.has_error_spec(),
    {
        match self {
            Pattern::Terminal { kind_id, .. } => *kind_id == ERROR_KIND,
            Pattern::Internal { kind_id, .. } => *kind_id == ERROR_KIND,
            Pattern::MetaVar { kind: Some(k), .. } => *k == ERROR_KIND,
            Pattern::MetaVar { kind: None, .. } => false,
        }
    }

    pub open spec fn is_trivial_spec(&self) -> bool {
        *self matches Pattern::Terminal { is_named, .. } && !is_named
    }

    /// An anonymous token; the matcher passes over these after an ellipsis.
    pub fn is_trivial(&self) -> (r: bool)
        ensures
            r == self.is_trivial_spec(),
    {
        match self {
            Pattern::Terminal { is_named, .. } => !*is_named,
            _ => false,
        }
    }
}

/// How a meta-variable prints: its variant, with the name quoted.
pub open spec fn meta_var_debug(mv: MetaVariable) -> Seq<char> {
    match mv {
        MetaVariable::Capture(n, named) => "Capture(\""@ + n@ + "\", "@ + (if named {
            "true"@
        } else {
            "false"@
        }) + ")"@,
        MetaVariable::Dropped(named) => "Dropped("@ + (if named {
            "true"@
        } else {
            "false"@
        }) + ")"@,
        MetaVariable::Ellipsis => "Ellipsis"@,
        MetaVariable::MultiCapture(n) => "MultiCapture(\""@ + n@ + "\")"@,
    }
}

/// How a pattern prints: a placeholder as its meta-variable, a terminal as
/// its text, an inner pattern as the list of its children.
pub open spec fn debug_spec(p: Pattern) -> Seq<char>
    decreases p, 1nat, 0nat,
{
    match p {
        Pattern::MetaVar { meta_var, .. } => meta_var_debug(meta_var),
        Pattern::Terminal { text, .. } => text@,
        Pattern::Internal { children, .. } => "["@ + debug_list(p, children@.len()) + "]"@,
    }
}

/// The first `k` children printed, separated by `, `.
pub open spec fn debug_list(p: Pattern, k: nat) -> Seq<char>
    decreases p, 0nat, k,
{
    match p {
        Pattern::Internal { children, .. } => if k == 0 || k > children@.len() {
            Seq::empty()
        } else if k == 1 {
            debug_spec(children@[0])
        } else {
            debug_list(p, (k - 1) as nat) + ", "@ + debug_spec(children@[k - 1])
        },
        _ => Seq::empty(),
    }
}

fn meta_var_debug_string(mv: &MetaVariable) -> (r: String)
    ensures
        r@ == meta_var_debug(*mv),
{
    let flag = |b: bool| -> (r: &'static str)
        ensures
            r@ == (if b {
                "true"@
            } else {
                "false"@
            }),
        {
            if b {
                "true"
            } else {
                "false"
            }
        };
    match mv {
        MetaVariable::Capture(n, named) => {
            let mut out = String::from_str("Capture(\"");
            out.append(n.as_str());
            out.append("\", ");
            out.append(flag(*named));
            out.append(")");
            out
        },
        MetaVariable::Dropped(named) => {
            let mut out = String::from_str("Dropped(");
            out.append(flag(*named));
            out.append(")");
            out
        },
        MetaVariable::Ellipsis => String::from_str("Ellipsis"),
        MetaVariable::MultiCapture(n) => {
            let mut out = String::from_str("MultiCapture(\"");
            out.append(n.as_str());
            out.append("\")");
            out
        },
    }
}

impl Pattern {
    /// The pattern printed as `debug_spec` says.
    pub fn debug_string(&self) -> (r: String)
        ensures
            r@ == debug_spec(*self),
        decreases self, 1nat, 0nat,
    {
        match self {
            Pattern::MetaVar { meta_var, .. } => meta_var_debug_string(meta_var),
            Pattern::Terminal { text, .. } => text.clone(),
            Pattern::Internal { children, .. } => {
                let mut out = String::from_str("[");
                let ghost start = out@;
                let mut k: usize = 0;
                while k < children.len()
                    invariant
                        *self matches Pattern::Internal { children: cs, .. } && cs == children,
                        k <= children@.len(),
                        out@ == start + debug_list(*self, k as nat),
                        start == "["@,
                    decreases children@.len() - k,
                {
                    if k > 0 {
                        out.append(", ");
                    }
                    let d = children[k].debug_string();
                    out.append(d.as_str());
                    k = k + 1;
                }
                out.append("]");
                out
            },
        }
    }
}

} // verus!
