//! Extraction of candidate license strings from the metadata a package
//! registry returns for one package: a free-text license field and a list of
//! classifier tag strings.

use vstd::prelude::*;

use crate::text::canon_licenses;
use crate::text::canonical_license_set;
use crate::text::find_pat;
use crate::text::find_sub;
use crate::text::first_line;
use crate::text::first_line_spec;
use crate::text::matches_at;
use crate::text::trim_spec;
use crate::text::trim_str;

verus! {

/// The classifier tag prefix that marks a license entry.
pub open spec fn osi_prefix() -> Seq<char> {
    "License :: OSI Approved :: "@
}

/// The license a single classifier tag declares: the trimmed text that
/// follows the first occurrence of the tag prefix, up to the end of the
/// line. A tag without the prefix, or whose text trims to nothing, declares
/// none.
pub open spec fn osi_candidate(c: Seq<char>) -> Option<Seq<char>> {
    match find_pat(c, osi_prefix()) {
        Some(i) => {
            let cap = trim_spec(
                first_line_spec(c.subrange(i + osi_prefix().len() as int, c.len() as int)),
            );
            if cap.len() > 0 {
                Some(cap)
            } else {
                None
            }
        },
        None => None,
    }
}

/// The licenses a list of classifier tags declares, in list order.
pub open spec fn classifier_licenses(cs: Seq<Seq<char>>) -> Seq<Seq<char>>
    decreases cs.len(),
{
    if cs.len() == 0 {
        Seq::empty()
    } else {
        let rest = classifier_licenses(cs.drop_last());
        match osi_candidate(cs.last()) {
            Some(t) => rest + seq![t],
            None => rest,
        }
    }
}

/// [`classifier_licenses`] lifted over an absent classifier list.
pub open spec fn classifier_part(classifiers: Option<Seq<Seq<char>>>) -> Seq<Seq<char>> {
    match classifiers {
        Some(cs) => classifier_licenses(cs),
        None => Seq::empty(),
    }
}

/// The license a free-text license field declares: the first line, trimmed,
/// when that leaves anything; an absent or blank field declares none.
pub open spec fn license_from_field(field: Option<Seq<char>>) -> Option<Seq<char>> {
    match field {
        Some(l) => {
            let t = trim_spec(first_line_spec(l));
            if t.len() > 0 {
                Some(t)
            } else {
                None
            }
        },
        None => None,
    }
}

/// All candidate license strings of one package's metadata: those of the
/// classifier tags followed by the one of the free-text field, duplicates and
/// order preserved.
pub open spec fn metadata_candidates(
    classifiers: Option<Seq<Seq<char>>>,
    license: Option<Seq<char>>,
) -> Seq<Seq<char>> {
    match license_from_field(license) {
        Some(l) => classifier_part(classifiers).push(l),
        None => classifier_part(classifiers),
    }
}

/// The license set of one package's metadata: its candidate license strings
/// sorted lexicographically with exact duplicates removed.
pub open spec fn license_set_spec(
    classifiers: Option<Seq<Seq<char>>>,
    license: Option<Seq<char>>,
) -> Seq<Seq<char>> {
    canon_licenses(metadata_candidates(classifiers, license))
}

/// The `info` portion of the metadata document a package registry returns.
pub struct PyPiInfo {
    /// The classifier tags of the package.
    pub classifiers: Option<Vec<String>>,
    /// The free-text license field of the package.
    pub license: Option<String>,
}

/// The metadata document a package registry returns for one package.
pub struct PyPiJson {
    /// The `info` portion of the document.
    pub info: PyPiInfo,
}

impl PyPiInfo {
    /// The license declared by the free-text license field, per
    /// [`license_from_field`].
    pub fn get_license_from_info(&self) -> (r: Option<String>)
        ensures
            r.deep_view() == license_from_field(self.license.deep_view()),
    {
        match &self.license {
            Some(l) => {
                let line = first_line(l.as_str());
                let t = trim_str(line);
                if !t.as_str().is_empty() {
                    Some(t)
                } else {
                    None
                }
            },
            None => None,
        }
    }

    /// The licenses declared by the classifier tags, in tag order, per
    /// [`classifier_part`].
    pub fn get_licenses_from_classifiers(&self) -> (r: Vec<String>)
        ensures
            r.deep_view() == classifier_part(self.classifiers.deep_view()),
    {
        let mut out: Vec<String> = Vec::new();
        proof {
            assert(out.deep_view() =~= Seq::<Seq<char>>::empty());
        }
        match &self.classifiers {
            None => out,
            Some(cs) => {
                let mut i: usize = 0;
                proof {
                    assert(cs.deep_view().subrange(0, 0) =~= Seq::<Seq<char>>::empty());
                }
                while i < cs.len()
                    invariant
                        0 <= i <= cs.len(),
                        cs.deep_view().len() == cs.len(),
                        out.deep_view() == classifier_licenses(
                            cs.deep_view().subrange(0, i as int),
                        ),
                    decreases cs.len() - i,
                {
                    let c: &String = &cs[i];
                    let n = c.as_str().unicode_len();
                    let ghost pre = out.deep_view();
                    match find_sub(c.as_str(), "License :: OSI Approved :: ") {
                        Some(p) => {
                            let plen = "License :: OSI Approved :: ".unicode_len();
                            proof {
                                assert(matches_at(c@, osi_prefix(), p as int));
                            }
                            let suffix = c.as_str().substring_char(p + plen, n);
                            let line = first_line(suffix);
                            let t = trim_str(line);
                            if !t.as_str().is_empty() {
                                out.push(t);
                            }
                        },
                        None => {},
                    }
                    proof {
                        let full = cs.deep_view();
                        let cur = full.subrange(0, i + 1);
                        assert(cur.drop_last() =~= full.subrange(0, i as int));
                        assert(cur.last() == full[i as int]);
                        assert(full[i as int] == c@);
                        match osi_candidate(c@) {
                            Some(t) => {
                                assert(out.deep_view() =~= pre + seq![t]);
                            },
                            None => {
                                assert(out.deep_view() =~= pre);
                            },
                        }
                    }
                    i = i + 1;
                }
                proof {
                    assert(cs.deep_view().subrange(0, cs.len() as int) =~= cs.deep_view());
                }
                out
            },
        }
    }
}

impl PyPiJson {
    /// All candidate license strings of this document, per
    /// [`metadata_candidates`]: classifier licenses first, then the free-text
    /// license.
    pub fn licenses(&self) -> (r: Vec<String>)
        ensures
            r.deep_view() == metadata_candidates(
                self.info.classifiers.deep_view(),
                self.info.license.deep_view(),
            ),
    {
        let mut from_classifiers = self.info.get_licenses_from_classifiers();
        let ghost pre = from_classifiers.deep_view();
        if let Some(from_info) = self.info.get_license_from_info() {
            from_classifiers.push(from_info);
            proof {
                assert(from_classifiers.deep_view() =~= pre.push(from_info@));
            }
        }
        from_classifiers
    }

    /// The license set of this document, per [`license_set_spec`]: sorted
    /// lexicographically, exact duplicates removed.
    pub fn license_set(&self) -> (r: Vec<String>)
        ensures
            r.deep_view() == license_set_spec(
                self.info.classifiers.deep_view(),
                self.info.license.deep_view(),
            ),
    {
        let candidates = self.licenses();
        canonical_license_set(&candidates)
    }
}

} // verus!
