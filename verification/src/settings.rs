//! The policy: allow-patterns, deny-patterns, ignored package names and
//! per-package license overrides, compiled once at load time and immutable
//! afterwards.

use vstd::prelude::*;

use crate::pattern::CompiledPattern;
use crate::pattern::regex_find;
use crate::pattern::regex_is_valid;
use crate::text::str_eq;

verus! {

/// Why a policy could not be loaded.
#[derive(Debug)]
pub enum ConfigError {
    /// The settings file could not be read.
    Unreadable,
    /// The settings document is not structured as required.
    Malformed,
    /// A pattern of `allowed` or `disallowed` is not a valid regular
    /// expression; the offending pattern is carried along.
    InvalidPattern(String),
}

/// Every pattern of `pats` is a valid regular expression.
pub open spec fn all_patterns_valid(pats: Seq<Seq<char>>) -> bool {
    forall|i: int| 0 <= i < pats.len() ==> regex_is_valid(#[trigger] pats[i])
}

/// The first pattern of `pats`, in list order, that is not a valid regular
/// expression.
pub open spec fn first_invalid_pattern(pats: Seq<Seq<char>>) -> Option<Seq<char>>
    decreases pats.len(),
{
    if pats.len() == 0 {
        None
    } else if !regex_is_valid(pats[0]) {
        Some(pats[0])
    } else {
        first_invalid_pattern(pats.drop_first())
    }
}

/// The match of the first pattern of `pats`, in list order, that matches
/// anywhere in `hay`: the policy's ordered pattern lookup.
pub open spec fn first_match_spec(pats: Seq<Seq<char>>, hay: Seq<char>) -> Option<Seq<char>>
    decreases pats.len(),
{
    if pats.len() == 0 {
        None
    } else {
        match regex_find(pats[0], hay) {
            Some(m) => Some(m),
            None => first_match_spec(pats.drop_first(), hay),
        }
    }
}

/// The value of the first pair of `pairs` whose key is `name`: the
/// override lookup.
pub open spec fn lookup_spec(pairs: Seq<(Seq<char>, Seq<char>)>, name: Seq<char>) -> Option<
    Seq<char>,
>
    decreases pairs.len(),
{
    if pairs.len() == 0 {
        None
    } else if pairs[0].0 == name {
        Some(pairs[0].1)
    } else {
        lookup_spec(pairs.drop_first(), name)
    }
}

/// The substring of `haystack` matched by the first pattern in `patterns`
/// (in list order) that matches anywhere in it, or `None` when none does.
pub fn get_first_match(patterns: &Vec<CompiledPattern>, haystack: &str) -> (r: Option<String>)
    ensures
        r.deep_view() == first_match_spec(patterns_of(patterns@), haystack@),
{
    let ghost pats = patterns_of(patterns@);
    let mut i: usize = 0;
    proof {
        assert(pats.skip(0) =~= pats);
    }
    while i < patterns.len()
        invariant
            0 <= i <= patterns.len(),
            pats == patterns_of(patterns@),
            pats.len() == patterns.len(),
            first_match_spec(pats, haystack@) == first_match_spec(
                pats.skip(i as int),
                haystack@,
            ),
        decreases patterns.len() - i,
    {
        proof {
            assert(pats.skip(i as int)[0] == pats[i as int]);
        }
        if let Some(found) = patterns[i].find(haystack) {
            return Some(found);
        }
        proof {
            assert(pats.skip(i as int).drop_first() =~= pats.skip(i as int + 1));
        }
        i = i + 1;
    }
    proof {
        assert(pats.skip(patterns.len() as int) =~= Seq::<Seq<char>>::empty());
    }
    None
}

/// The pattern texts of a list of compiled patterns, in order.
pub open spec fn patterns_of(ps: Seq<CompiledPattern>) -> Seq<Seq<char>> {
    Seq::new(ps.len(), |i: int| ps[i].pattern())
}

/// The loaded policy: allow/deny pattern lists, ignored package names, and
/// per-package license overrides.
pub struct LicenseSettings {
    /// Licenses matching any of these patterns are considered valid.
    allowed: Vec<CompiledPattern>,
    /// Licenses matching any of these patterns are considered invalid.
    disallowed: Vec<CompiledPattern>,
    /// Packages exempted from classification.
    ignored: Vec<String>,
    /// Package name to license string used as an unconditional override.
    missing: Vec<(String, String)>,
}

impl LicenseSettings {
    /// The allow-pattern texts, in authored order.
    pub closed spec fn allowed_patterns(&self) -> Seq<Seq<char>> {
        patterns_of(self.allowed@)
    }

    /// The deny-pattern texts, in authored order.
    pub closed spec fn disallowed_patterns(&self) -> Seq<Seq<char>> {
        patterns_of(self.disallowed@)
    }

    /// The ignored package names, in authored order.
    pub closed spec fn ignored_names(&self) -> Seq<Seq<char>> {
        self.ignored.deep_view()
    }

    /// The override mapping as authored: name/license pairs in order.
    pub closed spec fn missing_pairs(&self) -> Seq<(Seq<char>, Seq<char>)> {
        self.missing.deep_view()
    }

    /// Whether classification of `name` is exempted by the policy.
    pub open spec fn is_ignored_spec(&self, name: Seq<char>) -> bool {
        self.ignored_names().contains(name)
    }

    /// The override license the policy holds for `name`, if any.
    pub open spec fn override_spec(&self, name: Seq<char>) -> Option<Seq<char>> {
        lookup_spec(self.missing_pairs(), name)
    }

    /// Builds the policy from its authored parts, compiling every pattern.
    /// Succeeds exactly when every pattern of `allowed` and `disallowed` is
    /// a valid regular expression; fails otherwise with the first invalid
    /// pattern, in `allowed`-then-`disallowed` order.
    pub fn new(
        allowed: Vec<String>,
        disallowed: Vec<String>,
        ignored: Vec<String>,
        missing: Vec<(String, String)>,
    ) -> (r: Result<LicenseSettings, ConfigError>)
        ensures
            r is Ok <==> all_patterns_valid(allowed.deep_view() + disallowed.deep_view()),
            r matches Ok(s) ==> {
                &&& s.allowed_patterns() == allowed.deep_view()
                &&& s.disallowed_patterns() == disallowed.deep_view()
                &&& s.ignored_names() == ignored.deep_view()
                &&& s.missing_pairs() == missing.deep_view()
            },
            r matches Err(e) ==> (e matches ConfigError::InvalidPattern(p) && Some(p@)
                == first_invalid_pattern(allowed.deep_view() + disallowed.deep_view())),
    {
        let ghost all = allowed.deep_view() + disallowed.deep_view();
        let compiled_allowed = match compile_all(&allowed) {
            Ok(v) => v,
            Err(e) => {
                proof {
                    lemma_first_invalid_append(allowed.deep_view(), disallowed.deep_view());
                    lemma_all_valid_iff_none_invalid(allowed.deep_view());
                    lemma_all_valid_iff_none_invalid(all);
                }
                return Err(e);
            },
        };
        let compiled_disallowed = match compile_all(&disallowed) {
            Ok(v) => v,
            Err(e) => {
                proof {
                    lemma_first_invalid_append(allowed.deep_view(), disallowed.deep_view());
                    lemma_all_valid_iff_none_invalid(allowed.deep_view());
                    lemma_all_valid_iff_none_invalid(disallowed.deep_view());
                    lemma_all_valid_iff_none_invalid(all);
                }
                return Err(e);
            },
        };
        proof {
            lemma_first_invalid_append(allowed.deep_view(), disallowed.deep_view());
            lemma_all_valid_iff_none_invalid(allowed.deep_view());
            lemma_all_valid_iff_none_invalid(disallowed.deep_view());
            lemma_all_valid_iff_none_invalid(all);
        }
        Ok(
            LicenseSettings {
                allowed: compiled_allowed,
                disallowed: compiled_disallowed,
                ignored,
                missing,
            },
        )
    }

    /// Whether the policy exempts `name` from classification.
    pub fn is_ignored(&self, name: &str) -> (r: bool)
        ensures
            r == self.is_ignored_spec(name@),
    {
        let mut i: usize = 0;
        while i < self.ignored.len()
            invariant
                0 <= i <= self.ignored.len(),
                forall|k: int| 0 <= k < i ==> self.ignored.deep_view()[k] != name@,
            decreases self.ignored.len() - i,
        {
            if str_eq(self.ignored[i].as_str(), name) {
                proof {
                    assert(self.ignored.deep_view()[i as int] == name@);
                }
                return true;
            }
            i = i + 1;
        }
        proof {
            if self.ignored_names().contains(name@) {
                let k = choose|k: int|
                    0 <= k < self.ignored_names().len() && self.ignored_names()[k] == name@;
                assert(self.ignored.deep_view()[k] == name@);
            }
        }
        false
    }

    /// The override license the policy holds for `name`, if any.
    pub fn override_license(&self, name: &str) -> (r: Option<String>)
        ensures
            r.deep_view() == self.override_spec(name@),
    {
        let ghost pairs = self.missing_pairs();
        let mut i: usize = 0;
        proof {
            assert(pairs.skip(0) =~= pairs);
        }
        while i < self.missing.len()
            invariant
                0 <= i <= self.missing.len(),
                pairs == self.missing_pairs(),
                pairs.len() == self.missing.len(),
                lookup_spec(pairs, name@) == lookup_spec(pairs.skip(i as int), name@),
            decreases self.missing.len() - i,
        {
            proof {
                assert(pairs.skip(i as int)[0] == pairs[i as int]);
            }
            if str_eq(self.missing[i].0.as_str(), name) {
                return Some(self.missing[i].1.clone());
            }
            proof {
                assert(pairs.skip(i as int).drop_first() =~= pairs.skip(i as int + 1));
            }
            i = i + 1;
        }
        proof {
            assert(pairs.skip(self.missing.len() as int) =~= Seq::<(Seq<char>, Seq<char>)>::empty());
        }
        None
    }

    /// The substring matched by the first allow-pattern (in list order) that
    /// matches anywhere within `license`.
    pub fn first_allowed_match(&self, license: &str) -> (r: Option<String>)
        ensures
            r.deep_view() == first_match_spec(self.allowed_patterns(), license@),
    {
        get_first_match(&self.allowed, license)
    }

    /// The substring matched by the first deny-pattern (in list order) that
    /// matches anywhere within `license`.
    pub fn first_disallowed_match(&self, license: &str) -> (r: Option<String>)
        ensures
            r.deep_view() == first_match_spec(self.disallowed_patterns(), license@),
    {
        get_first_match(&self.disallowed, license)
    }
}

/// Compiles every pattern of `pats`, in order, failing on the first invalid
/// one.
fn compile_all(pats: &Vec<String>) -> (r: Result<Vec<CompiledPattern>, ConfigError>)
    ensures
        r is Ok <==> all_patterns_valid(pats.deep_view()),
        r matches Ok(v) ==> patterns_of(v@) == pats.deep_view(),
        r matches Err(e) ==> (e matches ConfigError::InvalidPattern(p) && Some(p@)
            == first_invalid_pattern(pats.deep_view())),
{
    let ghost all = pats.deep_view();
    let mut out: Vec<CompiledPattern> = Vec::new();
    let mut i: usize = 0;
    while i < pats.len()
        invariant
            0 <= i <= pats.len(),
            all == pats.deep_view(),
            all.len() == pats.len(),
            out@.len() == i,
            forall|k: int| 0 <= k < i ==> (#[trigger] out@[k]).pattern() == all[k],
            forall|k: int| 0 <= k < i ==> regex_is_valid(#[trigger] all[k]),
        decreases pats.len() - i,
    {
        match CompiledPattern::new(pats[i].as_str()) {
            Some(p) => {
                out.push(p);
            },
            None => {
                proof {
                    lemma_first_invalid_prefix(all, i as int);
                }
                return Err(ConfigError::InvalidPattern(pats[i].clone()));
            },
        }
        i = i + 1;
    }
    proof {
        assert(patterns_of(out@) =~= all);
        lemma_all_valid_iff_none_invalid(all);
    }
    Ok(out)
}

/// When the first `k` patterns are valid and pattern `k` is not, pattern `k`
/// is the first invalid one.
proof fn lemma_first_invalid_prefix(pats: Seq<Seq<char>>, k: int)
    requires
        0 <= k < pats.len(),
        forall|i: int| 0 <= i < k ==> regex_is_valid(#[trigger] pats[i]),
        !regex_is_valid(pats[k]),
    ensures
        first_invalid_pattern(pats) == Some(pats[k]),
    decreases k,
{
    if k == 0 {
    } else {
        lemma_first_invalid_prefix(pats.drop_first(), k - 1);
        assert(pats.drop_first()[k - 1] == pats[k]);
    }
}

/// A list of patterns is entirely valid exactly when it has no first
/// invalid pattern.
proof fn lemma_all_valid_iff_none_invalid(pats: Seq<Seq<char>>)
    ensures
        all_patterns_valid(pats) <==> first_invalid_pattern(pats) is None,
    decreases pats.len(),
{
    if pats.len() != 0 {
        lemma_all_valid_iff_none_invalid(pats.drop_first());
        if regex_is_valid(pats[0]) {
            assert forall|i: int| 0 <= i < pats.len() && first_invalid_pattern(pats) is None
                implies regex_is_valid(#[trigger] pats[i]) by {
                if i > 0 {
                    assert(pats.drop_first()[i - 1] == pats[i]);
                }
            }
            if all_patterns_valid(pats) {
                assert forall|i: int| 0 <= i < pats.drop_first().len()
                    implies regex_is_valid(#[trigger] pats.drop_first()[i]) by {
                    assert(pats.drop_first()[i] == pats[i + 1]);
                }
            }
        }
    }
}

/// The first invalid pattern of a concatenation is the first invalid one of
/// the front part, or, when the front part is entirely valid, that of the
/// back part.
proof fn lemma_first_invalid_append(a: Seq<Seq<char>>, b: Seq<Seq<char>>)
    ensures
        first_invalid_pattern(a + b) == if first_invalid_pattern(a) is Some {
            first_invalid_pattern(a)
        } else {
            first_invalid_pattern(b)
        },
    decreases a.len(),
{
    if a.len() == 0 {
        assert(a + b =~= b);
    } else {
        lemma_first_invalid_append(a.drop_first(), b);
        assert((a + b).drop_first() =~= a.drop_first() + b);
        assert((a + b)[0] == a[0]);
    }
}

} // verus!
