//! Transformations: text derived from a bound meta-variable after a match,
//! stored in the environment under a new name.

use vstd::prelude::*;
use crate::language::push_char;
use crate::meta_var::{lemma_lookup_member, lookup, MetaVarEnv};
use crate::tree::SyntaxTree;

verus! {

/// `substring`: the characters of the source text from `start_char` up to
/// `end_char`; a negative index counts from the end.
pub struct Substring {
    /// The meta-variable whose text is cut, written `$NAME`.
    pub source: String,
    pub start_char: Option<i32>,
    pub end_char: Option<i32>,
}

/// A character index, counted from the end where negative, held within
/// `0..=len`.
pub open spec fn resolve_char(c: int, len: int) -> int {
    if c >= len {
        len
    } else if c >= 0 {
        c
    } else if len + c < 0 {
        0
    } else {
        len + c
    }
}

/// The characters of `text` that `substring` keeps.
pub open spec fn substring_spec(text: Seq<char>, start: Option<i32>, end: Option<i32>) -> Seq<char> {
    let len = text.len() as int;
    let s = resolve_char(match start { Some(c) => c as int, None => 0 }, len);
    let e = resolve_char(match end { Some(c) => c as int, None => len }, len);
    if s > e {
        Seq::empty()
    } else {
        text.subrange(s, e)
    }
}

/// The name that a `$NAME` source refers to: the text after the sigil.
pub open spec fn source_name(src: Seq<char>) -> Seq<char> {
    if src.len() > 0 && src[0] == '$' {
        src.subrange(1, src.len() as int)
    } else {
        src
    }
}

/// The transformed texts of an environment, by name.
pub open spec fn transformed_view(env: MetaVarEnv) -> Seq<(Seq<char>, Seq<char>)> {
    env.transformed@.map_values(|p: (String, String)| (p.0@, p.1@))
}

/// The text of a meta-variable for a transformation: its transformed text
/// where it has one, else the text of its node.
pub open spec fn var_text_in(
    tv: Seq<(Seq<char>, Seq<char>)>,
    single: Seq<(Seq<char>, nat)>,
    t: SyntaxTree,
    name: Seq<char>,
) -> Option<Seq<char>> {
    match lookup(tv, name) {
        Some(x) => Some(x),
        None => match lookup(single, name) {
            Some(m) => Some(t.text_of(m as int)),
            None => None,
        },
    }
}

pub open spec fn var_text(env: MetaVarEnv, t: SyntaxTree, name: Seq<char>) -> Option<Seq<char>> {
    var_text_in(transformed_view(env), env@.single, t, name)
}

/// The transformed texts after `substring` stores its result under `name`;
/// unchanged where the source is unbound or too long to index by `i32`.
pub open spec fn substring_step(
    tv: Seq<(Seq<char>, Seq<char>)>,
    single: Seq<(Seq<char>, nat)>,
    t: SyntaxTree,
    name: Seq<char>,
    tr: Substring,
) -> Seq<(Seq<char>, Seq<char>)> {
    match var_text_in(tv, single, t, source_name(tr.source@)) {
        Some(x) => if x.len() <= i32::MAX {
            tv.push((name, substring_spec(x, tr.start_char, tr.end_char)))
        } else {
            tv
        },
        None => tv,
    }
}

/// `replace`: every match of the regular expression `replace` in the
/// source text replaced by `by` (which may refer to the groups of the match).
pub struct Replace {
    /// The meta-variable whose text is rewritten, written `$NAME`.
    pub source: String,
    pub replace: String,
    pub by: String,
}

/// The cases `convert` writes text in.
#[derive(Clone, Copy, PartialEq, Eq, Structural, Debug)]
pub enum Case {
    LowerCase,
    UpperCase,
    Capitalize,
    CamelCase,
    SnakeCase,
    KebabCase,
    PascalCase,
}

/// `convert`: the source text in another case. Words are split at `-`, `.`,
/// `/`, space and `_`, and where an ASCII lower-case letter is followed by
/// an upper-case one.
pub struct Convert {
    /// The meta-variable whose text is converted, written `$NAME`.
    pub source: String,
    pub to_case: Case,
}

/// A transformation of the text of a meta-variable.
pub enum Transformation {
    Substring(Substring),
    Replace(Replace),
    Convert(Convert),
}

/// The text in lower case, as std's `str::to_lowercase` gives it.
pub uninterp spec fn lower_of(s: Seq<char>) -> Seq<char>;

/// The text in upper case, as std's `str::to_uppercase` gives it.
pub uninterp spec fn upper_of(s: Seq<char>) -> Seq<char>;

/// Relies on `str::to_lowercase`: the result depends on the characters alone.
#[verifier::external_body]
fn lowercase(s: &str) -> (r: String)
    ensures
        r@ == lower_of(s@),
{
    s.to_lowercase()
}

/// Relies on `str::to_uppercase`: the result depends on the characters alone.
#[verifier::external_body]
fn uppercase(s: &str) -> (r: String)
    ensures
        r@ == upper_of(s@),
{
    s.to_uppercase()
}

pub open spec fn is_word_sep(c: char) -> bool {
    c == '-' || c == '.' || c == '/' || c == ' ' || c == '_'
}

/// A new word starts at `i`: an ASCII lower-case letter stands before an
/// upper-case one.
pub open spec fn case_change(s: Seq<char>, i: int) -> bool {
    0 < i < s.len() && 'a' <= s[i - 1] && s[i - 1] <= 'z' && 'A' <= s[i] && s[i] <= 'Z'
}

/// The finished words and the word in progress after the first `i`
/// characters.
pub open spec fn split_state(s: Seq<char>, i: int) -> (Seq<Seq<char>>, Seq<char>)
    decreases i,
{
    if i <= 0 || i > s.len() {
        (Seq::empty(), Seq::empty())
    } else {
        let (done, cur) = split_state(s, i - 1);
        let c = s[i - 1];
        if is_word_sep(c) {
            (if cur.len() > 0 { done.push(cur) } else { done }, Seq::empty())
        } else if case_change(s, i - 1) {
            (if cur.len() > 0 { done.push(cur) } else { done }, seq![c])
        } else {
            (done, cur.push(c))
        }
    }
}

/// The words of a text.
pub open spec fn words(s: Seq<char>) -> Seq<Seq<char>> {
    let (done, cur) = split_state(s, s.len() as int);
    if cur.len() > 0 {
        done.push(cur)
    } else {
        done
    }
}

/// A word with its first character in upper case and the rest in lower.
pub open spec fn capitalized(w: Seq<char>) -> Seq<char> {
    if w.len() == 0 {
        w
    } else {
        upper_of(w.subrange(0, 1)) + lower_of(w.subrange(1, w.len() as int))
    }
}

/// The first `k` words written in `case`.
pub open spec fn join_words(ws: Seq<Seq<char>>, case: Case, k: int) -> Seq<char>
    decreases k,
{
    if k <= 0 || k > ws.len() {
        Seq::empty()
    } else {
        let prev = join_words(ws, case, k - 1);
        let w = ws[k - 1];
        match case {
            Case::SnakeCase => if k == 1 { lower_of(w) } else { prev + seq!['_'] + lower_of(w) },
            Case::KebabCase => if k == 1 { lower_of(w) } else { prev + seq!['-'] + lower_of(w) },
            Case::CamelCase => if k == 1 { lower_of(w) } else { prev + capitalized(w) },
            _ => prev + capitalized(w),
        }
    }
}

/// The text written in `case`.
pub open spec fn convert_spec(s: Seq<char>, case: Case) -> Seq<char> {
    match case {
        Case::LowerCase => lower_of(s),
        Case::UpperCase => upper_of(s),
        Case::Capitalize => if s.len() == 0 {
            s
        } else {
            upper_of(s.subrange(0, 1)) + s.subrange(1, s.len() as int)
        },
        _ => join_words(words(s), case, words(s).len() as int),
    }
}

/// The words of a text, as `words` says.
fn split_words(s: &str) -> (r: Vec<String>)
    ensures
        r@.map_values(|w: String| w@) == words(s@),
{
    let n = s.unicode_len();
    let mut done: Vec<String> = Vec::new();
    let mut cur = String::new();
    let mut i: usize = 0;
    while i < n
        invariant
            n == s@.len(),
            i <= n,
            (done@.map_values(|w: String| w@), cur@) == split_state(s@, i as int),
        decreases n - i,
    {
        let c = s.get_char(i);
        let ghost before = done@.map_values(|w: String| w@);
        let sep = c == '-' || c == '.' || c == '/' || c == ' ' || c == '_';
        let change = i > 0 && {
            let p = s.get_char(i - 1);
            'a' <= p && p <= 'z' && 'A' <= c && c <= 'Z'
        };
        if sep || change {
            if cur.unicode_len() > 0 {
                let w = cur;
                let ghost wv = w@;
                done.push(w);
                assert(done@.map_values(|w: String| w@) =~= before.push(wv));
            }
            cur = String::new();
            if !sep {
                push_char(&mut cur, c);
                assert(cur@ =~= seq![c]);
            }
        } else {
            push_char(&mut cur, c);
        }
        i = i + 1;
    }
    if cur.unicode_len() > 0 {
        let ghost before = done@.map_values(|w: String| w@);
        let ghost wv = cur@;
        done.push(cur);
        assert(done@.map_values(|w: String| w@) =~= before.push(wv));
    }
    done
}

fn capitalize_word(w: &str) -> (r: String)
    ensures
        r@ == capitalized(w@),
{
    let n = w.unicode_len();
    if n == 0 {
        return String::new();
    }
    let mut out = uppercase(w.substring_char(0, 1));
    let rest = lowercase(w.substring_char(1, n));
    out.append(rest.as_str());
    out
}

/// The text written in `case`, as `convert_spec` says.
pub fn convert_case(s: &str, case: Case) -> (r: String)
    ensures
        r@ == convert_spec(s@, case),
{
    match case {
        Case::LowerCase => lowercase(s),
        Case::UpperCase => uppercase(s),
        Case::Capitalize => {
            let n = s.unicode_len();
            if n == 0 {
                return String::new();
            }
            let mut out = uppercase(s.substring_char(0, 1));
            out.append(s.substring_char(1, n));
            out
        },
        _ => {
            let ws = split_words(s);
            let ghost wv = ws@.map_values(|w: String| w@);
            let mut out = String::new();
            let mut k: usize = 0;
            while k < ws.len()
                invariant
                    wv == ws@.map_values(|w: String| w@),
                    wv == words(s@),
                    k <= ws@.len(),
                    case != Case::LowerCase && case != Case::UpperCase && case != Case::Capitalize,
                    out@ == join_words(wv, case, k as int),
                decreases ws@.len() - k,
            {
                let w = ws[k].as_str();
                assert(wv[k as int] == w@);
                match case {
                    Case::SnakeCase | Case::KebabCase => {
                        if k > 0 {
                            push_char(&mut out, if case == Case::SnakeCase { '_' } else { '-' });
                        }
                        let l = lowercase(w);
                        out.append(l.as_str());
                    },
                    Case::CamelCase => {
                        if k == 0 {
                            let l = lowercase(w);
                            out.append(l.as_str());
                        } else {
                            let c = capitalize_word(w);
                            out.append(c.as_str());
                        }
                    },
                    _ => {
                        let c = capitalize_word(w);
                        out.append(c.as_str());
                    },
                }
                k = k + 1;
            }
            out
        },
    }
}

/// The transformed texts after `convert` stores its result under `name`;
/// unchanged where the source is unbound.
pub open spec fn convert_step(
    tv: Seq<(Seq<char>, Seq<char>)>,
    single: Seq<(Seq<char>, nat)>,
    t: SyntaxTree,
    name: Seq<char>,
    tr: Convert,
) -> Seq<(Seq<char>, Seq<char>)> {
    match var_text_in(tv, single, t, source_name(tr.source@)) {
        Some(x) => tv.push((name, convert_spec(x, tr.to_case))),
        None => tv,
    }
}

/// The text with every match of a regular expression replaced; `None` where
/// the expression does not compile.
pub uninterp spec fn regex_replaced(pattern: Seq<char>, text: Seq<char>, by: Seq<char>) -> Option<Seq<char>>;

/// Relies on `regex::Regex::new` and `regex::Regex::replace_all`: compiles
/// `pattern` and replaces each of its matches in `text` by `by`; the outcome
/// depends on the three strings alone.
#[verifier::external_body]
fn regex_replace_all(pattern: &str, text: &str, by: &str) -> (r: Option<String>)
    ensures
        match r {
            Some(s) => regex_replaced(pattern@, text@, by@) == Some(s@),
            None => regex_replaced(pattern@, text@, by@) is None,
        },
{
    regex::Regex::new(pattern).ok().map(|re| re.replace_all(text, by).into_owned())
}

/// The transformed texts after `replace` stores its result under `name`;
/// unchanged where the source is unbound or the expression does not compile.
pub open spec fn replace_step(
    tv: Seq<(Seq<char>, Seq<char>)>,
    single: Seq<(Seq<char>, nat)>,
    t: SyntaxTree,
    name: Seq<char>,
    tr: Replace,
) -> Seq<(Seq<char>, Seq<char>)> {
    match var_text_in(tv, single, t, source_name(tr.source@)) {
        Some(x) => match regex_replaced(tr.replace@, x, tr.by@) {
            Some(y) => tv.push((name, y)),
            None => tv,
        },
        None => tv,
    }
}

/// The transformed texts after a transformation stores its result under `name`.
pub open spec fn transform_step(
    tv: Seq<(Seq<char>, Seq<char>)>,
    single: Seq<(Seq<char>, nat)>,
    t: SyntaxTree,
    name: Seq<char>,
    tr: Transformation,
) -> Seq<(Seq<char>, Seq<char>)> {
    match tr {
        Transformation::Substring(s) => substring_step(tv, single, t, name, s),
        Transformation::Replace(r) => replace_step(tv, single, t, name, r),
        Transformation::Convert(c) => convert_step(tv, single, t, name, c),
    }
}

fn resolve_char_exec(c: i32, len: usize) -> (r: usize)
    requires
        len <= i32::MAX,
    ensures
        r as int == resolve_char(c as int, len as int),
{
    let l = len as i32;
    if c >= l {
        len
    } else if c >= 0 {
        c as usize
    } else if l + c < 0 {
        0
    } else {
        (l + c) as usize
    }
}

/// The characters of `text` that `substring` keeps, as `substring_spec` says.
pub fn substring_chars(text: &str, start: Option<i32>, end: Option<i32>) -> (r: String)
    requires
        text@.len() <= i32::MAX,
    ensures
        r@ == substring_spec(text@, start, end),
{
    let len = text.unicode_len();
    let s = resolve_char_exec(
        match start {
            Some(c) => c,
            None => 0,
        },
        len,
    );
    let e = resolve_char_exec(
        match end {
            Some(c) => c,
            None => len as i32,
        },
        len,
    );
    let mut out = String::new();
    if s > e {
        return out;
    }
    let mut q: usize = s;
    while q < e
        invariant
            s <= q <= e,
            e <= text@.len(),
            out@ =~= text@.subrange(s as int, q as int),
        decreases e - q,
    {
        push_char(&mut out, text.get_char(q));
        q = q + 1;
    }
    out
}

fn name_of_source(src: &str) -> (r: String)
    ensures
        r@ == source_name(src@),
{
    let n = src.unicode_len();
    if n > 0 && src.get_char(0) == '$' {
        src.substring_char(1, n).to_string()
    } else {
        src.to_string()
    }
}

impl MetaVarEnv {
    /// The text of `name` for a transformation, as `var_text` says.
    pub fn var_text(&self, t: &SyntaxTree, name: &str) -> (r: Option<String>)
        requires
            t.wf(),
            self.valid_in(*t),
        ensures
            match var_text(*self, *t, name@) {
                Some(x) => r matches Some(s) && s@ == x,
                None => r is None,
            },
    {
        match self.get_transformed(name) {
            Some(x) => Some(x),
            None => match self.get_match(name) {
                Some(m) => {
                    proof {
                        lemma_lookup_member(self@.single, name@);
                        let i = choose|i: int|
                            0 <= i < self@.single.len() && #[trigger] self@.single[i] == (name@, m as nat);
                        assert(self.single@[i].1 < t.len());
                    }
                    Some(t.text(m).to_string())
                },
                None => None,
            },
        }
    }

    /// Applies `substring` and stores the result under `name`; nothing is
    /// stored where the source is unbound or too long to index by `i32`.
    pub fn insert_substring(&mut self, t: &SyntaxTree, name: &str, tr: &Substring) -> (r: bool)
        requires
            t.wf(),
            old(self).valid_in(*t),
        ensures
            final(self).single@ == old(self).single@,
            final(self).multi@ == old(self).multi@,
            final(self).valid_in(*t),
            transformed_view(*final(self)) == substring_step(
                transformed_view(*old(self)),
                old(self)@.single,
                *t,
                name@,
                *tr,
            ),
            match var_text(*old(self), *t, source_name(tr.source@)) {
                Some(x) => if x.len() <= i32::MAX {
                    r && final(self).transformed@.len() == old(self).transformed@.len() + 1
                        && final(self).transformed@.drop_last() == old(self).transformed@
                        && final(self).transformed@.last().0@ == name@
                        && final(self).transformed@.last().1@ == substring_spec(x, tr.start_char, tr.end_char)
                } else {
                    !r && final(self).transformed@ == old(self).transformed@
                },
                None => !r && final(self).transformed@ == old(self).transformed@,
            },
    {
        let src = name_of_source(tr.source.as_str());
        match self.var_text(t, src.as_str()) {
            Some(text) => {
                if text.unicode_len() > 2147483647 {
                    return false;
                }
                let cut = substring_chars(text.as_str(), tr.start_char, tr.end_char);
                self.transformed.push((name.to_string(), cut));
                assert(self.transformed@.drop_last() =~= old(self).transformed@);
                assert(transformed_view(*self) =~= transformed_view(*old(self)).push((name@, cut@)));
                true
            },
            None => false,
        }
    }

    /// Applies `replace` and stores the result under `name`, as
    /// `replace_step` says.
    pub fn insert_replace(&mut self, t: &SyntaxTree, name: &str, tr: &Replace) -> (r: bool)
        requires
            t.wf(),
            old(self).valid_in(*t),
        ensures
            final(self).single@ == old(self).single@,
            final(self).multi@ == old(self).multi@,
            final(self).valid_in(*t),
            transformed_view(*final(self)) == replace_step(
                transformed_view(*old(self)),
                old(self)@.single,
                *t,
                name@,
                *tr,
            ),
    {
        let src = name_of_source(tr.source.as_str());
        match self.var_text(t, src.as_str()) {
            Some(text) => match regex_replace_all(tr.replace.as_str(), text.as_str(), tr.by.as_str()) {
                Some(out) => {
                    let ghost out_view = out@;
                    self.transformed.push((name.to_string(), out));
                    assert(transformed_view(*self) =~= transformed_view(*old(self)).push((name@, out_view)));
                    true
                },
                None => false,
            },
            None => false,
        }
    }

    /// Applies `convert` and stores the result under `name`, as
    /// `convert_step` says.
    pub fn insert_convert(&mut self, t: &SyntaxTree, name: &str, tr: &Convert) -> (r: bool)
        requires
            t.wf(),
            old(self).valid_in(*t),
        ensures
            final(self).single@ == old(self).single@,
            final(self).multi@ == old(self).multi@,
            final(self).valid_in(*t),
            transformed_view(*final(self)) == convert_step(
                transformed_view(*old(self)),
                old(self)@.single,
                *t,
                name@,
                *tr,
            ),
    {
        let src = name_of_source(tr.source.as_str());
        match self.var_text(t, src.as_str()) {
            Some(text) => {
                let out = convert_case(text.as_str(), tr.to_case);
                let ghost out_view = out@;
                self.transformed.push((name.to_string(), out));
                assert(transformed_view(*self) =~= transformed_view(*old(self)).push((name@, out_view)));
                true
            },
            None => false,
        }
    }

    /// Applies a transformation and stores the result under `name`, as
    /// `transform_step` says.
    pub fn insert_transform(&mut self, t: &SyntaxTree, name: &str, tr: &Transformation) -> (r: bool)
        requires
            t.wf(),
            old(self).valid_in(*t),
        ensures
            final(self).single@ == old(self).single@,
            final(self).multi@ == old(self).multi@,
            final(self).valid_in(*t),
            transformed_view(*final(self)) == transform_step(
                transformed_view(*old(self)),
                old(self)@.single,
                *t,
                name@,
                *tr,
            ),
    {
        match tr {
            Transformation::Substring(s) => self.insert_substring(t, name, s),
            Transformation::Replace(r) => self.insert_replace(t, name, r),
            Transformation::Convert(c) => self.insert_convert(t, name, c),
        }
    }
}

} // verus!
