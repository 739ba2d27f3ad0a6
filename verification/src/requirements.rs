//! Package names from a requirements-style text: each line yields the
//! longest leading run of name characters of its trimmed text, version
//! specifiers and comments fall away, and the names are sorted.

use vstd::prelude::*;

use crate::text::first_line;
use crate::text::first_line_spec;
use crate::text::lex_lt;
use crate::text::str_lt;
use crate::text::trim_spec;
use crate::text::trim_str;

verus! {

/// The characters a package name may consist of: ASCII letters and digits,
/// `-`, `_` and `,`.
pub open spec fn is_name_char(c: char) -> bool {
    ||| ('a' <= c && c <= 'z')
    ||| ('A' <= c && c <= 'Z')
    ||| ('0' <= c && c <= '9')
    ||| c == '-'
    ||| c == '_'
    ||| c == ','
}

/// Runtime test for [`is_name_char`].
pub fn name_char(c: char) -> (r: bool)
    ensures
        r == is_name_char(c),
{
    ('a' <= c && c <= 'z') || ('A' <= c && c <= 'Z') || ('0' <= c && c <= '9') || c == '-' || c
        == '_' || c == ','
}

/// The longest prefix of `s` made of name characters.
pub open spec fn leading_name(s: Seq<char>) -> Seq<char>
    decreases s.len(),
{
    if s.len() == 0 || !is_name_char(s[0]) {
        Seq::empty()
    } else {
        seq![s[0]] + leading_name(s.drop_first())
    }
}

/// The package name one line of a requirements file yields: the longest
/// leading run of name characters of the trimmed line. A line that trims to
/// nothing, or whose first character is no name character (a comment line),
/// yields none.
pub open spec fn package_name_spec(line: Seq<char>) -> Option<Seq<char>> {
    let t = trim_spec(line);
    if t.len() == 0 {
        None
    } else if !is_name_char(t[0]) {
        None
    } else {
        Some(leading_name(t))
    }
}

proof fn lemma_leading_name_is_subrange(s: Seq<char>, k: int)
    requires
        0 <= k <= s.len(),
        forall|i: int| 0 <= i < k ==> is_name_char(s[i]),
        k == s.len() || !is_name_char(s[k]),
    ensures
        leading_name(s) == s.subrange(0, k),
    decreases k,
{
    if s.len() == 0 {
        assert(s.subrange(0, 0) =~= s);
    } else if k == 0 {
        assert(s.subrange(0, 0) =~= Seq::<char>::empty());
    } else {
        lemma_leading_name_is_subrange(s.drop_first(), k - 1);
        assert(seq![s[0]] + s.drop_first().subrange(0, k - 1) =~= s.subrange(0, k));
    }
}

/// Extracts the package name from one line of a requirements file, per
/// [`package_name_spec`]: comments and version specifiers fall away.
pub fn extract_package_name_from_line(line: &str) -> (r: Option<String>)
    ensures
        r.deep_view() == package_name_spec(line@),
{
    let trimmed = trim_str(line);
    let t = trimmed.as_str();
    let n = t.unicode_len();
    if n == 0 {
        return None;
    }
    let mut k: usize = 0;
    while k < n && name_char(t.get_char(k))
        invariant
            0 <= k <= n,
            n == t@.len(),
            forall|i: int| 0 <= i < k ==> is_name_char(t@[i]),
        decreases n - k,
    {
        k = k + 1;
    }
    if k == 0 {
        return None;
    }
    proof {
        lemma_leading_name_is_subrange(t@, k as int);
    }
    Some(String::from_str(t.substring_char(0, k)))
}

/// One line per element, split at line feeds; the final line has no
/// terminator, and an empty text is one empty line.
pub open spec fn split_lines_spec(s: Seq<char>) -> Seq<Seq<char>>
    decreases s.len(),
{
    if s.len() == 0 {
        seq![s]
    } else {
        let l = first_line_spec(s);
        if l.len() >= s.len() {
            seq![s]
        } else {
            seq![l] + split_lines_spec(s.subrange(l.len() as int + 1, s.len() as int))
        }
    }
}

/// Splits a text into its lines, per [`split_lines_spec`].
fn split_lines(s: &str) -> (r: Vec<String>)
    ensures
        r.deep_view() == split_lines_spec(s@),
{
    let mut out: Vec<String> = Vec::new();
    let mut rest: &str = s;
    let mut done = false;
    proof {
        assert(out.deep_view() =~= Seq::<Seq<char>>::empty());
        assert(Seq::<Seq<char>>::empty() + split_lines_spec(rest@) =~= split_lines_spec(rest@));
    }
    while !done
        invariant
            done ==> split_lines_spec(s@) == out.deep_view(),
            !done ==> split_lines_spec(s@) == out.deep_view() + split_lines_spec(rest@),
        decreases rest@.len() + 1, if done {
            0int
        } else {
            1int
        },
    {
        let ghost pre = out.deep_view();
        let n = rest.unicode_len();
        let line = first_line(rest);
        let llen = line.unicode_len();
        out.push(String::from_str(line));
        proof {
            assert(out.deep_view() =~= pre + seq![line@]);
        }
        if llen == n {
            done = true;
            proof {
                assert(line@ =~= rest@);
                assert(split_lines_spec(rest@) == seq![rest@]);
                assert(pre + split_lines_spec(rest@) =~= out.deep_view());
            }
        } else {
            let next = rest.substring_char(llen + 1, n);
            proof {
                assert(next@ == rest@.subrange(llen + 1, n as int));
                assert(split_lines_spec(rest@) == seq![line@] + split_lines_spec(next@));
                assert(pre + (seq![line@] + split_lines_spec(next@)) =~= out.deep_view()
                    + split_lines_spec(next@));
            }
            rest = next;
        }
    }
    out
}

/// The package names the lines yield, in line order, duplicates kept.
pub open spec fn extracted_names(lines: Seq<Seq<char>>) -> Seq<Seq<char>>
    decreases lines.len(),
{
    if lines.len() == 0 {
        Seq::empty()
    } else {
        let rest = extracted_names(lines.drop_last());
        match package_name_spec(lines.last()) {
            Some(nm) => rest + seq![nm],
            None => rest,
        }
    }
}

/// Inserts `x` into the sorted sequence `s`, keeping duplicates.
pub open spec fn insert_lex_dup(s: Seq<Seq<char>>, x: Seq<char>) -> Seq<Seq<char>>
    decreases s.len(),
{
    if s.len() == 0 {
        seq![x]
    } else if lex_lt(s[0], x) {
        seq![s[0]] + insert_lex_dup(s.drop_first(), x)
    } else {
        seq![x] + s
    }
}

/// Sorts a list of strings lexicographically, keeping duplicates.
pub open spec fn sort_lex(s: Seq<Seq<char>>) -> Seq<Seq<char>>
    decreases s.len(),
{
    if s.len() == 0 {
        Seq::empty()
    } else {
        insert_lex_dup(sort_lex(s.drop_last()), s.last())
    }
}

/// The package names a requirements text yields, sorted lexicographically,
/// duplicates kept.
pub open spec fn packages_spec(text: Seq<char>) -> Seq<Seq<char>> {
    sort_lex(extracted_names(split_lines_spec(text)))
}

proof fn lemma_insert_dup_at(s: Seq<Seq<char>>, x: Seq<char>, pos: int)
    requires
        0 <= pos <= s.len(),
        forall|i: int| 0 <= i < pos ==> lex_lt(s[i], x),
        pos < s.len() ==> !lex_lt(s[pos], x),
    ensures
        insert_lex_dup(s, x) == s.subrange(0, pos) + seq![x] + s.subrange(pos, s.len() as int),
    decreases pos,
{
    if pos == 0 {
        if s.len() == 0 {
            assert(seq![x] =~= s.subrange(0, 0) + seq![x] + s.subrange(0, s.len() as int));
        } else {
            assert(seq![x] + s =~= s.subrange(0, 0) + seq![x] + s.subrange(0, s.len() as int));
        }
    } else {
        assert(lex_lt(s[0], x));
        lemma_insert_dup_at(s.drop_first(), x, pos - 1);
        assert(seq![s[0]] + (s.drop_first().subrange(0, pos - 1) + seq![x]
            + s.drop_first().subrange(pos - 1, s.drop_first().len() as int)) =~= s.subrange(
            0,
            pos,
        ) + seq![x] + s.subrange(pos, s.len() as int));
    }
}

/// Inserts `x` into the sorted vector `v`, keeping duplicates.
fn insert_sorted_dup(v: &mut Vec<String>, x: String)
    ensures
        final(v).deep_view() == insert_lex_dup(old(v).deep_view(), x@),
{
    let ghost s = v.deep_view();
    let mut pos: usize = 0;
    while pos < v.len() && str_lt(v[pos].as_str(), x.as_str())
        invariant
            0 <= pos <= v.len(),
            s == v.deep_view(),
            s.len() == v.len(),
            forall|i: int| 0 <= i < pos ==> lex_lt(s[i], x@),
        decreases v.len() - pos,
    {
        pos = pos + 1;
    }
    proof {
        lemma_insert_dup_at(s, x@, pos as int);
    }
    v.insert(pos, x);
    proof {
        assert(v.deep_view() =~= s.subrange(0, pos as int) + seq![x@] + s.subrange(
            pos as int,
            s.len() as int,
        ));
    }
}

/// The package names a requirements text yields, per [`packages_spec`]:
/// one name per line that yields one, sorted lexicographically, duplicates
/// kept.
pub fn packages_from_text(text: &str) -> (r: Vec<String>)
    ensures
        r.deep_view() == packages_spec(text@),
{
    let lines = split_lines(text);
    let mut names: Vec<String> = Vec::new();
    let mut i: usize = 0;
    proof {
        assert(names.deep_view() =~= Seq::<Seq<char>>::empty());
        assert(lines.deep_view().subrange(0, 0) =~= Seq::<Seq<char>>::empty());
    }
    while i < lines.len()
        invariant
            0 <= i <= lines.len(),
            lines.deep_view().len() == lines.len(),
            names.deep_view() == extracted_names(lines.deep_view().subrange(0, i as int)),
        decreases lines.len() - i,
    {
        let ghost pre = names.deep_view();
        if let Some(nm) = extract_package_name_from_line(lines[i].as_str()) {
            names.push(nm);
            proof {
                assert(names.deep_view() =~= pre + seq![
                    package_name_spec(lines.deep_view()[i as int])->0,
                ]);
            }
        }
        proof {
            let full = lines.deep_view();
            let cur = full.subrange(0, i + 1);
            assert(cur.drop_last() =~= full.subrange(0, i as int));
            assert(cur.last() == full[i as int]);
        }
        i = i + 1;
    }
    proof {
        assert(lines.deep_view().subrange(0, lines.len() as int) =~= lines.deep_view());
    }
    let mut sorted: Vec<String> = Vec::new();
    let mut j: usize = 0;
    proof {
        assert(sorted.deep_view() =~= Seq::<Seq<char>>::empty());
        assert(names.deep_view().subrange(0, 0) =~= Seq::<Seq<char>>::empty());
    }
    while j < names.len()
        invariant
            0 <= j <= names.len(),
            names.deep_view().len() == names.len(),
            sorted.deep_view() == sort_lex(names.deep_view().subrange(0, j as int)),
        decreases names.len() - j,
    {
        insert_sorted_dup(&mut sorted, names[j].clone());
        proof {
            let full = names.deep_view();
            let cur = full.subrange(0, j + 1);
            assert(cur.drop_last() =~= full.subrange(0, j as int));
            assert(cur.last() == full[j as int]);
        }
        j = j + 1;
    }
    proof {
        assert(names.deep_view().subrange(0, names.len() as int) =~= names.deep_view());
    }
    sorted
}

} // verus!
