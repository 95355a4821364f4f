//! The rules of a project, kept by language and chosen per file by globs.

use vstd::prelude::*;
use crate::language::Lang;
use crate::rule::{constraints_regexes_valid, regex_search, regexes_valid, rule_bad_regex, transforms_regexes_valid, RuleConfig, Severity};

verus! {

/// Whether a glob matches a path; `None` where the glob does not parse or
/// its matcher cannot be built.
pub uninterp spec fn glob_result(glob: Seq<char>, path: Seq<char>) -> Option<bool>;

/// Relies on `globset::Glob::new`, `GlobSetBuilder::{new, add, build}` and
/// `GlobSet::is_match`: parses `glob`, builds a matcher of it (its regular
/// expression past the size limit is an error, not a panic), and matches
/// `path`; the outcome depends on the two strings alone.
#[verifier::external_body]
fn glob_is_match(glob: &str, path: &str) -> (r: Option<bool>)
    ensures
        r == glob_result(glob@, path@),
{
    let parsed = globset::Glob::new(glob).ok()?;
    let mut builder = globset::GlobSetBuilder::new();
    builder.add(parsed);
    let set = builder.build().ok()?;
    Some(set.is_match(path))
}

/// A glob compiles: whether it does cannot depend on the path, so it is
/// tried on the empty one.
pub open spec fn glob_valid(g: Seq<char>) -> bool {
    glob_result(g, Seq::empty()) is Some
}

pub open spec fn all_valid(v: Seq<String>) -> bool {
    forall|i: int| 0 <= i < v.len() ==> glob_valid((#[trigger] v[i])@)
}

pub open spec fn globs_valid(gs: Option<Vec<String>>) -> bool {
    match gs {
        None => true,
        Some(v) => all_valid(v@),
    }
}

/// The rules that are not switched off, in order.
pub open spec fn effective(configs: Seq<RuleConfig>) -> Seq<RuleConfig>
    decreases configs.len(),
{
    if configs.len() == 0 {
        Seq::empty()
    } else {
        let prev = effective(configs.drop_last());
        if configs.last().severity == Severity::Off {
            prev
        } else {
            prev.push(configs.last())
        }
    }
}

/// A rule applies to a file of `lang` at `path`: its language, one of its
/// `files` globs matches (where it has them), none of its `ignores` does.
pub open spec fn applies(r: RuleConfig, lang: Lang, path: Seq<char>) -> bool {
    &&& r.language == lang
    &&& match r.files {
        None => true,
        Some(v) => exists|i: int| 0 <= i < v@.len() && glob_result((#[trigger] v@[i])@, path) == Some(true),
    }
    &&& match r.ignores {
        None => true,
        Some(v) => forall|i: int| 0 <= i < v@.len() ==> glob_result((#[trigger] v@[i])@, path) != Some(true),
    }
}

/// The positions from `i` on of the rules that apply.
pub open spec fn applicable_from(rules: Seq<RuleConfig>, lang: Lang, path: Seq<char>, i: int) -> Seq<usize>
    decreases rules.len() - i,
{
    if i < 0 || i >= rules.len() {
        Seq::empty()
    } else if applies(rules[i], lang, path) {
        seq![i as usize] + applicable_from(rules, lang, path, i + 1)
    } else {
        applicable_from(rules, lang, path, i + 1)
    }
}

/// How many rules were read, and how many were left out.
pub struct RuleTrace {
    pub effective_rule_count: usize,
    pub skipped_rule_count: usize,
}

pub enum CollectionError {
    /// A glob of a rule does not compile.
    GlobPattern(String),
    /// A regular expression of a rule does not compile.
    InvalidRegex(String),
}

/// A rule in effect can be used: its globs and regular expressions compile.
pub open spec fn rule_valid(r: RuleConfig) -> bool {
    &&& globs_valid(r.files)
    &&& globs_valid(r.ignores)
    &&& regexes_valid(r.matcher)
    &&& constraints_regexes_valid(r.constraints@)
    &&& transforms_regexes_valid(r.transform@)
}

/// The rules in effect.
pub struct RuleCollection {
    pub rules: Vec<RuleConfig>,
}

fn first_invalid_glob(gs: &Option<Vec<String>>) -> (r: Option<String>)
    ensures
        r is None <==> globs_valid(*gs),
        r matches Some(g) ==> !glob_valid(g@),
{
    proof {
        reveal_strlit("");
    }
    match gs {
        None => None,
        Some(v) => {
            let mut i: usize = 0;
            while i < v.len()
                invariant
                    *gs == Some(*v),
                    i <= v@.len(),
                    forall|q: int| 0 <= q < i ==> glob_valid((#[trigger] v@[q])@),
                decreases v@.len() - i,
            {
                proof {
                    reveal_strlit("");
                }
                if glob_is_match(v[i].as_str(), "").is_none() {
                    assert(""@ =~= Seq::<char>::empty());
                    assert(!glob_valid(v@[i as int]@));
                    assert(!all_valid(v@));
                    let g = v[i].clone();
                    assert(g@ == v@[i as int]@);
                    return Some(g);
                }
                assert(""@ =~= Seq::<char>::empty());
                i = i + 1;
            }
            None
        },
    }
}

fn matches_any(gs: &Vec<String>, path: &str) -> (r: bool)
    ensures
        r == exists|i: int| 0 <= i < gs@.len() && glob_result((#[trigger] gs@[i])@, path@) == Some(true),
{
    let mut i: usize = 0;
    while i < gs.len()
        invariant
            i <= gs@.len(),
            forall|q: int| 0 <= q < i ==> glob_result((#[trigger] gs@[q])@, path@) != Some(true),
        decreases gs@.len() - i,
    {
        match glob_is_match(gs[i].as_str(), path) {
            Some(true) => {
                return true;
            },
            _ => {},
        }
        i = i + 1;
    }
    false
}

fn rule_applies(r: &RuleConfig, lang: Lang, path: &str) -> (b: bool)
    ensures
        b == applies(*r, lang, path@),
{
    if r.language != lang {
        return false;
    }
    let files_ok = match &r.files {
        None => true,
        Some(v) => matches_any(v, path),
    };
    let ignores_ok = match &r.ignores {
        None => true,
        Some(v) => !matches_any(v, path),
    };
    files_ok && ignores_ok
}

impl RuleCollection {
    /// Keeps the rules not switched off, and counts those left out; fails
    /// on the first glob, of a rule in effect, that does not compile.
    pub fn try_new(configs: Vec<RuleConfig>) -> (r: Result<(RuleCollection, RuleTrace), CollectionError>)
        ensures
            (forall|i: int| 0 <= i < effective(configs@).len() ==> rule_valid(#[trigger] effective(configs@)[i]))
                <==> r is Ok,
            r matches Ok((c, trace)) ==> c.rules@ == effective(configs@) && trace.effective_rule_count
                == c.rules@.len() && trace.effective_rule_count + trace.skipped_rule_count == configs@.len(),
            r matches Err(CollectionError::GlobPattern(g)) ==> !glob_valid(g@),
            r matches Err(CollectionError::InvalidRegex(x)) ==> regex_search(x@, Seq::empty()) is None,
    {
        let ghost all = configs@;
        let n = configs.len();
        let mut rest = configs;
        let mut kept: Vec<RuleConfig> = Vec::new();
        let mut i: usize = 0;
        proof {
            lemma_effective_len(all);
        }
        while i < n
            invariant
                all == configs@,
                n == all.len(),
                i <= n,
                rest@ == all.subrange(i as int, n as int),
                kept@ == effective(all.subrange(0, i as int)),
                forall|q: int| 0 <= q < kept@.len() ==> rule_valid(#[trigger] kept@[q]),
                effective(all).len() <= all.len(),
            decreases n - i,
        {
            let c = rest.remove(0);
            assert(all.subrange(0, i + 1).drop_last() =~= all.subrange(0, i as int));
            assert(all.subrange(0, i + 1).last() == all[i as int]);
            if c.severity != Severity::Off {
                if let Some(g) = first_invalid_glob(&c.files) {
                    proof {
                        assert(c == all[i as int]);
                        assert(effective(all.subrange(0, i + 1)) == kept@.push(c));
                        lemma_effective_prefix(all, (i + 1) as nat, kept@.len() as int);
                        assert(effective(all)[kept@.len() as int] == c);
                        assert(!rule_valid(effective(all)[kept@.len() as int]));
                    }
                    return Err(CollectionError::GlobPattern(g));
                }
                if let Some(g) = first_invalid_glob(&c.ignores) {
                    proof {
                        assert(c == all[i as int]);
                        assert(effective(all.subrange(0, i + 1)) == kept@.push(c));
                        lemma_effective_prefix(all, (i + 1) as nat, kept@.len() as int);
                        assert(effective(all)[kept@.len() as int] == c);
                        assert(!rule_valid(effective(all)[kept@.len() as int]));
                    }
                    return Err(CollectionError::GlobPattern(g));
                }
                if let Some(x) = rule_bad_regex(&c) {
                    proof {
                        assert(c == all[i as int]);
                        assert(effective(all.subrange(0, i + 1)) == kept@.push(c));
                        lemma_effective_prefix(all, (i + 1) as nat, kept@.len() as int);
                        assert(effective(all)[kept@.len() as int] == c);
                        assert(!rule_valid(effective(all)[kept@.len() as int]));
                    }
                    return Err(CollectionError::InvalidRegex(x));
                }
                kept.push(c);
            }
            i = i + 1;
            assert(rest@ =~= all.subrange(i as int, n as int));
        }
        assert(all.subrange(0, n as int) =~= all);
        let trace = RuleTrace { effective_rule_count: kept.len(), skipped_rule_count: n - kept.len() };
        Ok((RuleCollection { rules: kept }, trace))
    }

    pub fn total_rule_count(&self) -> (r: usize)
        ensures
            r == self.rules@.len(),
    {
        self.rules.len()
    }

    /// The positions of the rules that apply to a file of `lang` at `path`,
    /// in order.
    pub fn for_path(&self, lang: Lang, path: &str) -> (r: Vec<usize>)
        ensures
            r@ == applicable_from(self.rules@, lang, path@, 0),
    {
        let mut out: Vec<usize> = Vec::new();
        let mut i: usize = 0;
        while i < self.rules.len()
            invariant
                i <= self.rules@.len(),
                applicable_from(self.rules@, lang, path@, 0) == out@ + applicable_from(self.rules@, lang, path@, i as int),
            decreases self.rules@.len() - i,
        {
            if rule_applies(&self.rules[i], lang, path) {
                out.push(i);
                assert(out@ + applicable_from(self.rules@, lang, path@, (i + 1) as int) =~= out@.drop_last()
                    + applicable_from(self.rules@, lang, path@, i as int));
            }
            i = i + 1;
        }
        assert(out@ + applicable_from(self.rules@, lang, path@, i as int) =~= out@);
        out
    }
}

pub proof fn lemma_effective_len(s: Seq<RuleConfig>)
    ensures
        effective(s).len() <= s.len(),
    decreases s.len(),
{
    if s.len() > 0 {
        lemma_effective_len(s.drop_last());
    }
}

/// The rules in effect among the first `k` are the first ones in effect
/// overall.
pub proof fn lemma_effective_prefix(s: Seq<RuleConfig>, k: nat, j: int)
    requires
        k <= s.len(),
        0 <= j < effective(s.subrange(0, k as int)).len(),
    ensures
        j < effective(s).len(),
        effective(s)[j] == effective(s.subrange(0, k as int))[j],
    decreases s.len() - k,
{
    if k < s.len() {
        let t = s.subrange(0, k as int + 1);
        assert(t.drop_last() =~= s.subrange(0, k as int));
        lemma_effective_prefix(s, k + 1, j);
    } else {
        assert(s.subrange(0, k as int) =~= s);
    }
}

} // verus!
