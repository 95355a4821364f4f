//! The languages the engine knows by name, and what each one asks of a pattern
//! before it is parsed.

use vstd::prelude::*;
use crate::grammar::{tsx_kind, tsx_kind_id, tsx_parse, typescript_kind, typescript_kind_id, typescript_parse, NodeInfo};

verus! {

#[derive(PartialEq, Eq, Structural, Clone, Copy, Debug, Hash)]
pub enum Lang {
    Html,
    JavaScript,
    Tsx,
    Css,
    TypeScript,
    Bash,
    C,
    Cpp,
    CSharp,
    Go,
    Elixir,
    Haskell,
    Java,
    Json,
    Kotlin,
    Lua,
    Php,
    Python,
    Ruby,
    Rust,
    Scala,
    Sql,
    Swift,
    Yaml,
}

/// Why a language name was refused.
#[derive(PartialEq, Eq, Clone, Debug)]
pub enum LangError {
    NotSupported(String),
}

/// ASCII upper-case letters folded to lower case, as code points.
pub open spec fn fold_code(c: char) -> u32 {
    if 65 <= c as u32 <= 90 {
        (c as u32 + 32) as u32
    } else {
        c as u32
    }
}

/// Equal but for the case of ASCII letters.
pub open spec fn eq_ignore_ascii_case(a: Seq<char>, b: Seq<char>) -> bool {
    &&& a.len() == b.len()
    &&& forall|i: int| 0 <= i < a.len() ==> fold_code(#[trigger] a[i]) == fold_code(b[i])
}

pub open spec fn all_langs_spec() -> Seq<Lang> {
    seq![
        Lang::Html, Lang::JavaScript, Lang::Tsx, Lang::Css, Lang::TypeScript, Lang::Bash,
        Lang::C, Lang::Cpp, Lang::CSharp, Lang::Go, Lang::Elixir, Lang::Haskell, Lang::Java,
        Lang::Json, Lang::Kotlin, Lang::Lua, Lang::Php, Lang::Python, Lang::Ruby, Lang::Rust,
        Lang::Scala, Lang::Sql, Lang::Swift, Lang::Yaml,
    ]
}

/// The names under which a language is known.
pub open spec fn aliases_spec(l: Lang) -> Seq<Seq<char>> {
    match l {
        Lang::Html => seq!["html"@],
        Lang::JavaScript => seq!["javascript"@, "js"@, "jsx"@],
        Lang::Tsx => seq!["tsx"@],
        Lang::Css => seq!["css"@],
        Lang::TypeScript => seq!["typescript"@, "ts"@],
        Lang::Bash => seq!["bash"@],
        Lang::C => seq!["c"@],
        Lang::Cpp => seq!["cc"@, "c++"@, "cpp"@, "cxx"@],
        Lang::CSharp => seq!["cs"@, "csharp"@],
        Lang::Go => seq!["go"@, "golang"@],
        Lang::Elixir => seq!["ex"@, "elixir"@],
        Lang::Haskell => seq!["hs"@, "haskell"@],
        Lang::Java => seq!["java"@],
        Lang::Json => seq!["json"@],
        Lang::Kotlin => seq!["kotlin"@, "kt"@],
        Lang::Lua => seq!["lua"@],
        Lang::Php => seq!["php"@],
        Lang::Python => seq!["py"@, "python"@],
        Lang::Ruby => seq!["rb"@, "ruby"@],
        Lang::Rust => seq!["rs"@, "rust"@],
        Lang::Scala => seq!["scala"@],
        Lang::Sql => seq!["sql"@],
        Lang::Swift => seq!["swift"@],
        Lang::Yaml => seq!["yaml"@, "yml"@],
    }
}

/// `s` names `l`, in any ASCII case.
pub open spec fn names_lang(s: Seq<char>, l: Lang) -> bool {
    exists|k: int| 0 <= k < aliases_spec(l).len() && eq_ignore_ascii_case(s, #[trigger] aliases_spec(l)[k])
}

/// Compares two strings with ASCII letters folded.
pub fn str_eq_ignore_ascii_case(a: &str, b: &str) -> (r: bool)
    ensures
        r == eq_ignore_ascii_case(a@, b@),
{
    let n = a.unicode_len();
    if n != b.unicode_len() {
        return false;
    }
    let mut i: usize = 0;
    while i < n
        invariant
            n == a@.len(),
            n == b@.len(),
            i <= n,
            forall|k: int| 0 <= k < i ==> fold_code(#[trigger] a@[k]) == fold_code(b@[k]),
        decreases n - i,
    {
        let x = a.get_char(i) as u32;
        let y = b.get_char(i) as u32;
        let fx: u32 = if 65 <= x && x <= 90 { x + 32 } else { x };
        let fy: u32 = if 65 <= y && y <= 90 { y + 32 } else { y };
        if fx != fy {
            return false;
        }
        i = i + 1;
    }
    true
}

impl Lang {
    pub fn all_langs() -> (r: Vec<Lang>)
        ensures
            r@ == all_langs_spec(),
    {
        let r = vec![
            Lang::Html, Lang::JavaScript, Lang::Tsx, Lang::Css, Lang::TypeScript, Lang::Bash,
            Lang::C, Lang::Cpp, Lang::CSharp, Lang::Go, Lang::Elixir, Lang::Haskell, Lang::Java,
            Lang::Json, Lang::Kotlin, Lang::Lua, Lang::Php, Lang::Python, Lang::Ruby, Lang::Rust,
            Lang::Scala, Lang::Sql, Lang::Swift, Lang::Yaml,
        ];
        assert(r@ =~= all_langs_spec());
        r
    }

    pub fn aliases(self) -> (r: Vec<&'static str>)
        ensures
            r@.len() == aliases_spec(self).len(),
            forall|k: int| 0 <= k < r@.len() ==> (#[trigger] r@[k])@ == aliases_spec(self)[k],
    {
        match self {
            Lang::Html => vec!["html"],
            Lang::JavaScript => vec!["javascript", "js", "jsx"],
            Lang::Tsx => vec!["tsx"],
            Lang::Css => vec!["css"],
            Lang::TypeScript => vec!["typescript", "ts"],
            Lang::Bash => vec!["bash"],
            Lang::C => vec!["c"],
            Lang::Cpp => vec!["cc", "c++", "cpp", "cxx"],
            Lang::CSharp => vec!["cs", "csharp"],
            Lang::Go => vec!["go", "golang"],
            Lang::Elixir => vec!["ex", "elixir"],
            Lang::Haskell => vec!["hs", "haskell"],
            Lang::Java => vec!["java"],
            Lang::Json => vec!["json"],
            Lang::Kotlin => vec!["kotlin", "kt"],
            Lang::Lua => vec!["lua"],
            Lang::Php => vec!["php"],
            Lang::Python => vec!["py", "python"],
            Lang::Ruby => vec!["rb", "ruby"],
            Lang::Rust => vec!["rs", "rust"],
            Lang::Scala => vec!["scala"],
            Lang::Sql => vec!["sql"],
            Lang::Swift => vec!["swift"],
            Lang::Yaml => vec!["yaml", "yml"],
        }
    }

    /// The language that `s` names, in any ASCII case; the first in
    /// `all_langs` order when several would do.
    pub fn from_str(s: &str) -> (r: Result<Lang, LangError>)
        ensures
            r matches Ok(l) ==> names_lang(s@, l),
            r matches Err(LangError::NotSupported(e)) ==> e@ == s@ && forall|l: Lang|
                !names_lang(s@, l),
    {
        let langs = Lang::all_langs();
        let mut i: usize = 0;
        while i < langs.len()
            invariant
                langs@ == all_langs_spec(),
                i <= langs@.len(),
                forall|q: int| 0 <= q < i ==> !names_lang(s@, #[trigger] langs@[q]),
            decreases langs@.len() - i,
        {
            let l = langs[i];
            let names = l.aliases();
            let mut k: usize = 0;
            while k < names.len()
                invariant
                    names@.len() == aliases_spec(l).len(),
                    forall|q: int| 0 <= q < names@.len() ==> (#[trigger] names@[q])@ == aliases_spec(l)[q],
                    k <= names@.len(),
                    forall|q: int| 0 <= q < k ==> !eq_ignore_ascii_case(s@, #[trigger] aliases_spec(l)[q]),
                decreases names@.len() - k,
            {
                if str_eq_ignore_ascii_case(s, names[k]) {
                    return Ok(l);
                }
                k = k + 1;
            }
            i = i + 1;
        }
        proof {
            assert forall|l: Lang| !names_lang(s@, l) by {
                assert(all_langs_spec().contains(l));
                let q = choose|q: int| 0 <= q < all_langs_spec().len() && all_langs_spec()[q] == l;
                assert(!names_lang(s@, langs@[q]));
            }
        }
        Err(LangError::NotSupported(s.to_string()))
    }

    /// The character that introduces a meta-variable in a pattern.
    pub fn meta_var_char(self) -> (r: char)
        ensures
            r == '$',
    {
        '$'
    }

    /// The identifier character that stands for `meta_var_char` while a
    /// pattern is parsed.
    pub fn expando_char(self) -> (r: char)
        ensures
            r == expando_spec(self),
    {
        match self {
            Lang::C | Lang::Cpp | Lang::CSharp | Lang::Elixir | Lang::Go | Lang::Haskell
            | Lang::Kotlin | Lang::Php | Lang::Python | Lang::Ruby | Lang::Rust | Lang::Swift => 'µ',
            Lang::Css => '_',
            _ => '$',
        }
    }

    /// The id of the named node kind `name` in this language's grammar, as
    /// tree-sitter looks it up: 0 where the grammar has no such kind, the id
    /// of the error kind for the empty name and for any prefix of `ERROR`;
    /// `None` where no grammar is linked.
    pub fn named_kind(self, name: &str) -> (r: Option<u16>)
        ensures
            has_grammar(self) ==> r == Some(grammar_kind(self, name@)),
            !has_grammar(self) ==> r is None,
    {
        match self {
            Lang::Tsx => Some(tsx_kind(name)),
            Lang::TypeScript => Some(typescript_kind(name)),
            _ => None,
        }
    }
}

/// The parse of `src` with the grammar of `lang`: its nodes in pre-order.
pub open spec fn grammar_parse(lang: Lang, src: Seq<char>) -> Seq<NodeInfo> {
    match lang {
        Lang::Tsx => tsx_parse(src),
        Lang::TypeScript => typescript_parse(src),
        _ => Seq::empty(),
    }
}

/// The id of a named node kind in the grammar of `lang`.
pub open spec fn grammar_kind(lang: Lang, name: Seq<char>) -> u16 {
    match lang {
        Lang::Tsx => tsx_kind_id(name),
        Lang::TypeScript => typescript_kind_id(name),
        _ => 0,
    }
}

pub open spec fn expando_spec(l: Lang) -> char {
    match l {
        Lang::C | Lang::Cpp | Lang::CSharp | Lang::Elixir | Lang::Go | Lang::Haskell | Lang::Kotlin
        | Lang::Php | Lang::Python | Lang::Ruby | Lang::Rust | Lang::Swift => 'µ',
        Lang::Css => '_',
        _ => '$',
    }
}

pub open spec fn has_grammar(l: Lang) -> bool {
    l == Lang::Tsx || l == Lang::TypeScript
}

/// Each meta-variable sigil `from` replaced by `to`.
pub open spec fn replace_char(s: Seq<char>, from: char, to: char) -> Seq<char> {
    Seq::new(s.len(), |i: int| if s[i] == from { to } else { s[i] })
}

/// Relies on `String::push`: appends one character.
#[verifier::external_body]
pub(crate) fn push_char(s: &mut String, c: char)
    ensures
        final(s)@ == old(s)@.push(c),
{
    s.push(c)
}

/// The pattern source as the grammar is given it: each meta-variable sigil
/// replaced by the language's expando character.
pub fn pre_process_pattern(src: &str, lang: Lang) -> (r: String)
    ensures
        r@ == replace_char(src@, '$', expando_spec(lang)),
{
    let to = lang.expando_char();
    let n = src.unicode_len();
    let mut out = String::new();
    let mut i: usize = 0;
    while i < n
        invariant
            n == src@.len(),
            i <= n,
            to == expando_spec(lang),
            out@ =~= replace_char(src@, '$', to).subrange(0, i as int),
        decreases n - i,
    {
        let c = src.get_char(i);
        if c == '$' {
            push_char(&mut out, to);
        } else {
            push_char(&mut out, c);
        }
        i = i + 1;
    }
    assert(out@ =~= replace_char(src@, '$', to));
    out
}

/// The entries whose name some language answers to, each with that
/// language.
pub open spec fn globs_of(entries: Seq<(String, Vec<String>)>) -> Seq<(String, Vec<String>)>
    decreases entries.len(),
{
    if entries.len() == 0 {
        Seq::empty()
    } else {
        let prev = globs_of(entries.drop_last());
        if exists|l: Lang| names_lang(entries.last().0@, l) {
            prev.push(entries.last())
        } else {
            prev
        }
    }
}

impl Lang {
    /// Extra file globs per language: the entries whose name is a known
    /// language, each with the language it names; the others are left out.
    pub fn lang_globs(entries: Vec<(String, Vec<String>)>) -> (r: Vec<(Lang, Vec<String>)>)
        ensures
            r@.len() == globs_of(entries@).len(),
            forall|q: int|
                0 <= q < r@.len() ==> names_lang(globs_of(entries@)[q].0@, (#[trigger] r@[q]).0) && r@[q].1
                    == globs_of(entries@)[q].1,
    {
        let mut out: Vec<(Lang, Vec<String>)> = Vec::new();
        let mut rest = entries;
        let ghost all = rest@;
        let mut i: usize = 0;
        let n = rest.len();
        assert(rest@ =~= all.subrange(0, n as int));
        while i < n
            invariant
                n == all.len(),
                i <= n,
                rest@ =~= all.subrange(i as int, n as int),
                out@.len() == globs_of(all.subrange(0, i as int)).len(),
                forall|q: int|
                    0 <= q < out@.len() ==> names_lang(globs_of(all.subrange(0, i as int))[q].0@, (#[trigger] out@[q]).0)
                        && out@[q].1 == globs_of(all.subrange(0, i as int))[q].1,
            decreases n - i,
        {
            let ghost prev_out = out@;
            let (name, globs) = rest.remove(0);
            assert(all.subrange(0, i + 1).drop_last() =~= all.subrange(0, i as int));
            assert(all.subrange(0, i + 1).last() == all[i as int]);
            assert(all[i as int] == (name, globs));
            match Lang::from_str(name.as_str()) {
                Ok(l) => {
                    out.push((l, globs));
                },
                Err(_) => {},
            }
            i = i + 1;
            assert(rest@ =~= all.subrange(i as int, n as int));
        }
        assert(all.subrange(0, n as int) =~= all);
        out
    }
}

} // verus!
