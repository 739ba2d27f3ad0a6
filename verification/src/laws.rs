//! The laws the classifier obeys, stated over the specification functions
//! the executable contracts use, and proved once and for all.

use vstd::prelude::*;

use crate::metadata::classifier_licenses;
use crate::metadata::osi_candidate;
use crate::outcome::PackageResult;
use crate::outcome::classified_allowed;
use crate::outcome::classified_disallowed;
use crate::outcome::classified_ignored;
use crate::outcome::matched_allowed;
use crate::outcome::matched_disallowed;
use crate::outcome::outcome_fails_spec;
use crate::settings::first_match_spec;

verus! {

/// License extraction from classifiers ignores every tag that declares no
/// license and discards captures that trim to nothing: every extracted
/// string is non-empty and is declared by some tag, and every tag that
/// declares a license contributes it.
pub proof fn lemma_classifier_extraction(cs: Seq<Seq<char>>)
    ensures
        forall|j: int|
            0 <= j < classifier_licenses(cs).len() ==> (#[trigger] classifier_licenses(
                cs,
            )[j]).len() > 0,
        forall|j: int|
            0 <= j < classifier_licenses(cs).len() ==> exists|i: int|
                0 <= i < cs.len() && osi_candidate(cs[i]) == Some(
                    #[trigger] classifier_licenses(cs)[j],
                ),
        forall|i: int|
            0 <= i < cs.len() && (#[trigger] osi_candidate(cs[i])) is Some
                ==> classifier_licenses(cs).contains(osi_candidate(cs[i])->0),
    decreases cs.len(),
{
    if cs.len() > 0 {
        lemma_classifier_extraction(cs.drop_last());
        let rest = classifier_licenses(cs.drop_last());
        let full = classifier_licenses(cs);
        assert forall|j: int| 0 <= j < full.len() implies (#[trigger] full[j]).len() > 0 by {
            if j < rest.len() {
                assert(full[j] == rest[j]);
            }
        }
        assert forall|j: int| 0 <= j < full.len() implies exists|i: int|
            0 <= i < cs.len() && osi_candidate(cs[i]) == Some(#[trigger] full[j]) by {
            if j < rest.len() {
                assert(full[j] == rest[j]);
                let i = choose|i: int|
                    0 <= i < cs.drop_last().len() && osi_candidate(cs.drop_last()[i]) == Some(
                        rest[j],
                    );
                assert(cs.drop_last()[i] == cs[i]);
                assert(osi_candidate(cs[i]) == Some(full[j]));
            } else {
                let i = cs.len() - 1;
                assert(cs[i] == cs.last());
                assert(osi_candidate(cs[i]) == Some(full[j]));
            }
        }
        assert forall|i: int|
            0 <= i < cs.len() && (#[trigger] osi_candidate(cs[i])) is Some implies full.contains(
            osi_candidate(cs[i])->0,
        ) by {
            if i < cs.len() - 1 {
                assert(cs.drop_last()[i] == cs[i]);
                assert(rest.contains(osi_candidate(cs[i])->0));
                let k = choose|k: int|
                    0 <= k < rest.len() && rest[k] == osi_candidate(cs[i])->0;
                assert(full[k] == osi_candidate(cs[i])->0);
            } else {
                assert(cs[i] == cs.last());
                assert(full[full.len() - 1] == osi_candidate(cs[i])->0);
            }
        }
    }
}

/// A license matching both an allowed and a disallowed pattern is classified
/// disallowed: the deny-lists are consulted first, and a deny-match bars the
/// allow-lists from being consulted at all.
pub proof fn lemma_disallowed_precedence(
    apats: Seq<Seq<char>>,
    dpats: Seq<Seq<char>>,
    lic: Seq<char>,
)
    requires
        first_match_spec(dpats, lic) is Some,
        first_match_spec(apats, lic) is Some,
    ensures
        matched_disallowed(dpats, seq![lic]) == seq![first_match_spec(dpats, lic)->0],
        matched_allowed(apats, dpats, seq![lic]) == Seq::<Seq<char>>::empty(),
{
    let one = seq![lic];
    assert(one.drop_last() =~= Seq::<Seq<char>>::empty());
    assert(one.last() == lic);
    assert(matched_disallowed(dpats, one.drop_last()) =~= Seq::<Seq<char>>::empty());
    assert(matched_allowed(apats, dpats, one.drop_last()) =~= Seq::<Seq<char>>::empty());
    assert(matched_disallowed(dpats, one) == matched_disallowed(dpats, one.drop_last()) + seq![
        first_match_spec(dpats, one.last())->0,
    ]);
    assert(matched_disallowed(dpats, one) =~= seq![first_match_spec(dpats, lic)->0]);
    assert(matched_allowed(apats, dpats, one) == matched_allowed(apats, dpats, one.drop_last()));
    assert(matched_allowed(apats, dpats, one) =~= Seq::<Seq<char>>::empty());
}

/// A package with an override is always classified allowed with exactly the
/// override string, whatever the registry returned and whatever the deny
/// patterns would match.
pub proof fn lemma_override_precedence(
    ov: Option<Seq<char>>,
    ign: bool,
    apats: Seq<Seq<char>>,
    dpats: Seq<Seq<char>>,
    lics: Seq<Seq<char>>,
)
    requires
        ov is Some,
    ensures
        classified_allowed(ov, ign, apats, dpats, lics) == seq![ov->0],
        classified_disallowed(ov, ign, dpats, lics) == Seq::<Seq<char>>::empty(),
        !classified_ignored(ov, ign),
{
}

/// The override rule wins over the ignore rule: a package both overridden
/// and ignored is classified per the override, and is not marked ignored.
pub proof fn lemma_override_wins_over_ignore(
    ov: Option<Seq<char>>,
    apats: Seq<Seq<char>>,
    dpats: Seq<Seq<char>>,
    lics: Seq<Seq<char>>,
)
    requires
        ov is Some,
    ensures
        classified_allowed(ov, true, apats, dpats, lics) == seq![ov->0],
        classified_disallowed(ov, true, dpats, lics) == Seq::<Seq<char>>::empty(),
        !classified_ignored(ov, true),
{
}

/// Classification is a pure function of its inputs: two outcomes whose
/// fields are classified from the same name, license set and policy agree
/// in every field.
pub proof fn lemma_classification_idempotent(
    r1: PackageResult,
    r2: PackageResult,
    name: Seq<char>,
    ov: Option<Seq<char>>,
    ign: bool,
    apats: Seq<Seq<char>>,
    dpats: Seq<Seq<char>>,
    lics: Seq<Seq<char>>,
)
    requires
        r1.name@ == name,
        r2.name@ == name,
        r1.licenses.deep_view() == lics,
        r2.licenses.deep_view() == lics,
        r1.allowed.deep_view() == classified_allowed(ov, ign, apats, dpats, lics),
        r2.allowed.deep_view() == classified_allowed(ov, ign, apats, dpats, lics),
        r1.disallowed.deep_view() == classified_disallowed(ov, ign, dpats, lics),
        r2.disallowed.deep_view() == classified_disallowed(ov, ign, dpats, lics),
        r1.ignored == classified_ignored(ov, ign),
        r2.ignored == classified_ignored(ov, ign),
    ensures
        r1.name@ == r2.name@,
        r1.licenses.deep_view() == r2.licenses.deep_view(),
        r1.allowed.deep_view() == r2.allowed.deep_view(),
        r1.disallowed.deep_view() == r2.disallowed.deep_view(),
        r1.ignored == r2.ignored,
        outcome_fails_spec(r1) == outcome_fails_spec(r2),
{
    assert(r1.allowed@.len() == r1.allowed.deep_view().len());
    assert(r2.allowed@.len() == r2.allowed.deep_view().len());
    assert(r1.disallowed@.len() == r1.disallowed.deep_view().len());
    assert(r2.disallowed@.len() == r2.disallowed.deep_view().len());
}

/// A run in which every package is ignored, or has an allowed match and no
/// disallowed match, passes: no outcome fails the audit.
pub proof fn lemma_all_clear_passes(results: Seq<PackageResult>)
    requires
        forall|i: int|
            0 <= i < results.len() ==> ((#[trigger] results[i]).ignored || (
            results[i].disallowed@.len() == 0 && results[i].allowed@.len() > 0)),
    ensures
        forall|i: int| 0 <= i < results.len() ==> !outcome_fails_spec(#[trigger] results[i]),
{
}

/// A package with no override and no ignore exemption whose license set is
/// empty is always a failing outcome, with empty allowed and disallowed
/// lists.
pub proof fn lemma_empty_license_set_fails(
    r: PackageResult,
    ov: Option<Seq<char>>,
    ign: bool,
    apats: Seq<Seq<char>>,
    dpats: Seq<Seq<char>>,
)
    requires
        ov is None,
        !ign,
        r.licenses.deep_view().len() == 0,
        r.allowed.deep_view() == classified_allowed(ov, ign, apats, dpats, r.licenses.deep_view()),
        r.disallowed.deep_view() == classified_disallowed(ov, ign, dpats, r.licenses.deep_view()),
        r.ignored == classified_ignored(ov, ign),
    ensures
        r.allowed@.len() == 0,
        r.disallowed@.len() == 0,
        !r.ignored,
        outcome_fails_spec(r),
{
    assert(r.licenses.deep_view() =~= Seq::<Seq<char>>::empty());
}

} // verus!
