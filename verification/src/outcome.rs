//! Classification of one package against the policy, and aggregation of the
//! per-package outcomes into the run's verdict.

use vstd::prelude::*;

use crate::metadata::PyPiJson;
use crate::metadata::license_set_spec;
use crate::settings::LicenseSettings;
use crate::settings::first_match_spec;

verus! {

/// The matched substrings of the licenses of `lics` that some deny-pattern
/// matches, in license order.
pub open spec fn matched_disallowed(dpats: Seq<Seq<char>>, lics: Seq<Seq<char>>) -> Seq<
    Seq<char>,
>
    decreases lics.len(),
{
    if lics.len() == 0 {
        Seq::empty()
    } else {
        let rest = matched_disallowed(dpats, lics.drop_last());
        match first_match_spec(dpats, lics.last()) {
            Some(m) => rest + seq![m],
            None => rest,
        }
    }
}

/// The matched substrings of the licenses of `lics` that some allow-pattern
/// matches, in license order; a license some deny-pattern matches is never
/// consulted against the allow-patterns.
pub open spec fn matched_allowed(
    apats: Seq<Seq<char>>,
    dpats: Seq<Seq<char>>,
    lics: Seq<Seq<char>>,
) -> Seq<Seq<char>>
    decreases lics.len(),
{
    if lics.len() == 0 {
        Seq::empty()
    } else {
        let rest = matched_allowed(apats, dpats, lics.drop_last());
        if first_match_spec(dpats, lics.last()) is Some {
            rest
        } else {
            match first_match_spec(apats, lics.last()) {
                Some(m) => rest + seq![m],
                None => rest,
            }
        }
    }
}

/// The allowed list of a classified package: the override string alone when
/// an override applies, nothing when the package is ignored, and otherwise
/// the allow-matches of its licenses.
pub open spec fn classified_allowed(
    ov: Option<Seq<char>>,
    ign: bool,
    apats: Seq<Seq<char>>,
    dpats: Seq<Seq<char>>,
    lics: Seq<Seq<char>>,
) -> Seq<Seq<char>> {
    match ov {
        Some(o) => seq![o],
        None => if ign {
            Seq::empty()
        } else {
            matched_allowed(apats, dpats, lics)
        },
    }
}

/// The disallowed list of a classified package: empty when an override
/// applies or the package is ignored, and otherwise the deny-matches of its
/// licenses.
pub open spec fn classified_disallowed(
    ov: Option<Seq<char>>,
    ign: bool,
    dpats: Seq<Seq<char>>,
    lics: Seq<Seq<char>>,
) -> Seq<Seq<char>> {
    match ov {
        Some(_) => Seq::empty(),
        None => if ign {
            Seq::empty()
        } else {
            matched_disallowed(dpats, lics)
        },
    }
}

/// Whether a classified package is marked ignored: only when the ignore
/// list holds it and no override takes precedence.
pub open spec fn classified_ignored(ov: Option<Seq<char>>, ign: bool) -> bool {
    ov is None && ign
}

/// The license set a package resolves to: that of its metadata, or empty
/// when no metadata could be fetched.
pub open spec fn resolved_licenses(meta: Option<PyPiJson>) -> Seq<Seq<char>> {
    match meta {
        Some(json) => license_set_spec(
            json.info.classifiers.deep_view(),
            json.info.license.deep_view(),
        ),
        None => Seq::empty(),
    }
}

/// The classification result for one package.
pub struct PackageResult {
    /// The package's name.
    pub name: String,
    /// The package's resolved license set: sorted, deduplicated.
    pub licenses: Vec<String>,
    /// The matched substrings of allowed licenses, or the override string.
    pub allowed: Vec<String>,
    /// The matched substrings of disallowed licenses.
    pub disallowed: Vec<String>,
    /// Whether the package was exempted from classification.
    pub ignored: bool,
}

impl PackageResult {
    /// Classifies one package: `metadata` is what the registry returned for
    /// it, or `None` when the fetch failed. The precedence is fixed: an
    /// override wins over the ignore list, which wins over per-license
    /// pattern classification.
    pub fn new(name: String, settings: &LicenseSettings, metadata: Option<&PyPiJson>) -> (r:
        PackageResult)
        ensures
            r.name@ == name@,
            r.licenses.deep_view() == resolved_licenses(match metadata {
                Some(json) => Some(*json),
                None => None,
            }),
            r.allowed.deep_view() == classified_allowed(
                settings.override_spec(name@),
                settings.is_ignored_spec(name@),
                settings.allowed_patterns(),
                settings.disallowed_patterns(),
                r.licenses.deep_view(),
            ),
            r.disallowed.deep_view() == classified_disallowed(
                settings.override_spec(name@),
                settings.is_ignored_spec(name@),
                settings.disallowed_patterns(),
                r.licenses.deep_view(),
            ),
            r.ignored == classified_ignored(
                settings.override_spec(name@),
                settings.is_ignored_spec(name@),
            ),
            r.ignored ==> r.allowed@.len() == 0 && r.disallowed@.len() == 0,
            settings.override_spec(name@) matches Some(o) ==> r.allowed.deep_view() == seq![o]
                && r.disallowed@.len() == 0 && !r.ignored,
    {
        let licenses = match metadata {
            Some(json) => json.license_set(),
            None => Vec::new(),
        };
        proof {
            if metadata is None {
                assert(licenses.deep_view() =~= Seq::<Seq<char>>::empty());
            }
        }
        let mut results = PackageResult {
            licenses,
            name,
            allowed: Vec::new(),
            disallowed: Vec::new(),
            ignored: false,
        };
        let ghost lics = results.licenses.deep_view();
        proof {
            assert(results.allowed.deep_view() =~= Seq::<Seq<char>>::empty());
            assert(results.disallowed.deep_view() =~= Seq::<Seq<char>>::empty());
        }

        if let Some(overridden) = settings.override_license(results.name.as_str()) {
            results.allowed.push(overridden);
            proof {
                assert(results.allowed.deep_view() =~= seq![
                    settings.override_spec(name@)->0,
                ]);
            }
            return results;
        }
        if settings.is_ignored(results.name.as_str()) {
            results.ignored = true;
            return results;
        }

        let ghost apats = settings.allowed_patterns();
        let ghost dpats = settings.disallowed_patterns();
        let mut i: usize = 0;
        proof {
            assert(lics.subrange(0, 0) =~= Seq::<Seq<char>>::empty());
        }
        while i < results.licenses.len()
            invariant
                0 <= i <= results.licenses.len(),
                results.name@ == name@,
                results.ignored == false,
                apats == settings.allowed_patterns(),
                dpats == settings.disallowed_patterns(),
                lics == results.licenses.deep_view(),
                lics.len() == results.licenses.len(),
                results.allowed.deep_view() == matched_allowed(
                    apats,
                    dpats,
                    lics.subrange(0, i as int),
                ),
                results.disallowed.deep_view() == matched_disallowed(
                    dpats,
                    lics.subrange(0, i as int),
                ),
            decreases results.licenses.len() - i,
        {
            let ghost pre_allowed = results.allowed.deep_view();
            let ghost pre_disallowed = results.disallowed.deep_view();
            let license = &results.licenses[i];
            proof {
                assert(license@ == lics[i as int]);
            }
            if let Some(found) = settings.first_disallowed_match(license.as_str()) {
                proof {
                    assert(first_match_spec(dpats, lics[i as int]) == Some(found@));
                }
                results.disallowed.push(found);
                proof {
                    assert(results.disallowed.deep_view() =~= pre_disallowed + seq![
                        lics[i as int],
                    ].map_values(|l: Seq<char>| first_match_spec(dpats, l)->0));
                }
            } else if let Some(found) = settings.first_allowed_match(license.as_str()) {
                proof {
                    assert(first_match_spec(apats, lics[i as int]) == Some(found@));
                }
                results.allowed.push(found);
                proof {
                    assert(results.allowed.deep_view() =~= pre_allowed + seq![
                        lics[i as int],
                    ].map_values(|l: Seq<char>| first_match_spec(apats, l)->0));
                }
            }
            proof {
                let cur = lics.subrange(0, i + 1);
                assert(cur.drop_last() =~= lics.subrange(0, i as int));
                assert(cur.last() == lics[i as int]);
            }
            i = i + 1;
        }
        proof {
            assert(lics.subrange(0, lics.len() as int) =~= lics);
        }
        results
    }
}

/// The run's verdict over all package outcomes.
#[derive(Clone, Copy, PartialEq, Eq, Structural, Debug)]
pub enum Verdict {
    /// No package outcome failed the audit.
    Pass,
    /// Some package outcome failed the audit.
    Fail,
}

/// Whether one package outcome fails the audit: an ignored package never
/// fails; a package with a disallowed match fails; one with only allowed
/// matches passes; one with no license at all, or with licenses that match
/// neither list, fails.
pub open spec fn outcome_fails_spec(r: PackageResult) -> bool {
    if r.ignored {
        false
    } else if r.disallowed@.len() > 0 {
        true
    } else if r.allowed@.len() > 0 {
        false
    } else {
        true
    }
}

/// Whether one package outcome fails the audit, per [`outcome_fails_spec`].
pub fn outcome_fails(r: &PackageResult) -> (b: bool)
    ensures
        b == outcome_fails_spec(*r),
{
    if r.ignored {
        false
    } else if !r.disallowed.is_empty() {
        true
    } else if !r.allowed.is_empty() {
        false
    } else if r.licenses.is_empty() {
        // no license declared at all
        true
    } else {
        // licenses present, but none matched either list
        true
    }
}

/// Reduces the package outcomes to a single verdict for the whole run.
pub fn aggregate(results: &Vec<PackageResult>) -> (v: Verdict)
    ensures
        (v == Verdict::Fail) <==> exists|i: int|
            0 <= i < results@.len() && outcome_fails_spec(results@[i]),
{
    let mut i: usize = 0;
    while i < results.len()
        invariant
            0 <= i <= results.len(),
            forall|k: int| 0 <= k < i ==> !outcome_fails_spec(results@[k]),
        decreases results.len() - i,
    {
        if outcome_fails(&results[i]) {
            return Verdict::Fail;
        }
        i = i + 1;
    }
    Verdict::Pass
}

} // verus!
