//! Verified text utilities: whitespace trimming, first-line extraction,
//! literal substring search, lexicographic ordering of strings, and the
//! canonical (sorted, deduplicated) form of a list of strings.

use vstd::prelude::*;

verus! {

// ---------------------------------------------------------------------------
// Whitespace
// ---------------------------------------------------------------------------

/// The Unicode white-space code points, the set that `str::trim` removes.
pub open spec fn is_space_char(c: char) -> bool {
    let u = c as u32;
    ||| u == 0x20
    ||| (0x09 <= u && u <= 0x0d)
    ||| u == 0x85
    ||| u == 0xa0
    ||| u == 0x1680
    ||| (0x2000 <= u && u <= 0x200a)
    ||| u == 0x2028
    ||| u == 0x2029
    ||| u == 0x202f
    ||| u == 0x205f
    ||| u == 0x3000
}

/// Runtime test for [`is_space_char`].
pub fn is_space(c: char) -> (r: bool)
    ensures
        r == is_space_char(c),
{
    let u = c as u32;
    u == 0x20 || (0x09 <= u && u <= 0x0d) || u == 0x85 || u == 0xa0 || u == 0x1680 || (0x2000 <= u
        && u <= 0x200a) || u == 0x2028 || u == 0x2029 || u == 0x202f || u == 0x205f || u == 0x3000
}

/// `s` with its leading white space removed.
pub open spec fn drop_leading_spaces(s: Seq<char>) -> Seq<char>
    decreases s.len(),
{
    if s.len() == 0 {
        s
    } else if is_space_char(s[0]) {
        drop_leading_spaces(s.drop_first())
    } else {
        s
    }
}

/// `s` with its trailing white space removed.
pub open spec fn drop_trailing_spaces(s: Seq<char>) -> Seq<char>
    decreases s.len(),
{
    if s.len() == 0 {
        s
    } else if is_space_char(s.last()) {
        drop_trailing_spaces(s.drop_last())
    } else {
        s
    }
}

/// `s` with leading and trailing white space removed, as `str::trim` leaves it.
pub open spec fn trim_spec(s: Seq<char>) -> Seq<char> {
    drop_trailing_spaces(drop_leading_spaces(s))
}

proof fn lemma_drop_leading_is_subrange(s: Seq<char>, k: int)
    requires
        0 <= k <= s.len(),
        forall|i: int| 0 <= i < k ==> is_space_char(s[i]),
        k == s.len() || !is_space_char(s[k]),
    ensures
        drop_leading_spaces(s) == s.subrange(k, s.len() as int),
    decreases k,
{
    if k == 0 {
        assert(s.subrange(0, s.len() as int) =~= s);
    } else {
        assert(is_space_char(s[0]));
        lemma_drop_leading_is_subrange(s.drop_first(), k - 1);
        assert(s.drop_first().subrange(k - 1, s.drop_first().len() as int) =~= s.subrange(
            k,
            s.len() as int,
        ));
    }
}

proof fn lemma_drop_trailing_is_subrange(s: Seq<char>, k: int)
    requires
        0 <= k <= s.len(),
        forall|i: int| k <= i < s.len() ==> is_space_char(s[i]),
        k == 0 || !is_space_char(s[k - 1]),
    ensures
        drop_trailing_spaces(s) == s.subrange(0, k),
    decreases s.len() - k,
{
    if k == s.len() {
        assert(s.subrange(0, k) =~= s);
    } else {
        assert(is_space_char(s.last()));
        lemma_drop_trailing_is_subrange(s.drop_last(), k);
        assert(s.drop_last().subrange(0, k) =~= s.subrange(0, k));
    }
}

/// `str::trim`, verified against [`trim_spec`].
pub fn trim_str(s: &str) -> (r: String)
    ensures
        r@ == trim_spec(s@),
{
    let n = s.unicode_len();
    let mut start: usize = 0;
    while start < n && is_space(s.get_char(start))
        invariant
            0 <= start <= n,
            n == s@.len(),
            forall|i: int| 0 <= i < start ==> is_space_char(s@[i]),
        decreases n - start,
    {
        start = start + 1;
    }
    proof {
        lemma_drop_leading_is_subrange(s@, start as int);
    }
    if start == n {
        proof {
            assert(drop_leading_spaces(s@) =~= Seq::<char>::empty());
        }
        return String::new();
    }
    let mut end: usize = n;
    while start < end && is_space(s.get_char(end - 1))
        invariant
            start <= end <= n,
            n == s@.len(),
            forall|i: int| end <= i < n ==> is_space_char(s@[i]),
        decreases end,
    {
        end = end - 1;
    }
    proof {
        // `start` points at a non-space character, so the backward scan
        // stopped at some `end > start` with a non-space just before it.
        assert(!is_space_char(s@[start as int]));
        assert(end > start);
        let t = s@.subrange(start as int, n as int);
        lemma_drop_trailing_is_subrange(t, end - start);
        assert(t.subrange(0, end - start) =~= s@.subrange(start as int, end as int));
    }
    let sub = s.substring_char(start, end);
    String::from_str(sub)
}

// ---------------------------------------------------------------------------
// First line
// ---------------------------------------------------------------------------

/// The prefix of `s` up to, and not including, the first line feed.
pub open spec fn first_line_spec(s: Seq<char>) -> Seq<char>
    decreases s.len(),
{
    if s.len() == 0 {
        s
    } else if s[0] == '\n' {
        Seq::empty()
    } else {
        seq![s[0]] + first_line_spec(s.drop_first())
    }
}

proof fn lemma_first_line_is_subrange(s: Seq<char>, k: int)
    requires
        0 <= k <= s.len(),
        forall|i: int| 0 <= i < k ==> s[i] != '\n',
        k == s.len() || s[k] == '\n',
    ensures
        first_line_spec(s) == s.subrange(0, k),
    decreases k,
{
    if s.len() == 0 {
        assert(s.subrange(0, 0) =~= s);
    } else if k == 0 {
        assert(s.subrange(0, 0) =~= Seq::<char>::empty());
    } else {
        lemma_first_line_is_subrange(s.drop_first(), k - 1);
        assert(seq![s[0]] + s.drop_first().subrange(0, k - 1) =~= s.subrange(0, k));
    }
}

/// Everything before the first line feed of `s`, verified against
/// [`first_line_spec`].
pub fn first_line<'a>(s: &'a str) -> (r: &'a str)
    ensures
        r@ == first_line_spec(s@),
        r@.len() <= s@.len(),
        r@ == s@.subrange(0, r@.len() as int),
        r@.len() < s@.len() ==> s@[r@.len() as int] == '\n',
{
    let n = s.unicode_len();
    let mut k: usize = 0;
    while k < n && s.get_char(k) != '\n'
        invariant
            0 <= k <= n,
            n == s@.len(),
            forall|i: int| 0 <= i < k ==> s@[i] != '\n',
        decreases n - k,
    {
        k = k + 1;
    }
    proof {
        lemma_first_line_is_subrange(s@, k as int);
    }
    s.substring_char(0, k)
}

// ---------------------------------------------------------------------------
// Literal substring search
// ---------------------------------------------------------------------------

/// `pat` occurs in `s` starting at position `i`.
pub open spec fn matches_at(s: Seq<char>, pat: Seq<char>, i: int) -> bool {
    0 <= i && i + pat.len() <= s.len() && s.subrange(i, i + pat.len() as int) == pat
}

/// The least position `>= i` at which `pat` occurs in `s`, if any.
pub open spec fn find_pat_from(s: Seq<char>, pat: Seq<char>, i: int) -> Option<int>
    decreases s.len() + 1 - i,
{
    if i + pat.len() > s.len() {
        None
    } else if matches_at(s, pat, i) {
        Some(i)
    } else {
        find_pat_from(s, pat, i + 1)
    }
}

/// The least position at which `pat` occurs in `s`, if any.
pub open spec fn find_pat(s: Seq<char>, pat: Seq<char>) -> Option<int> {
    find_pat_from(s, pat, 0)
}

/// Tests whether `pat` occurs at position `i` of `s`.
fn check_match_at(s: &str, pat: &str, i: usize) -> (r: bool)
    requires
        i + pat@.len() <= s@.len(),
        s@.len() <= usize::MAX,
    ensures
        r == matches_at(s@, pat@, i as int),
{
    let plen = pat.unicode_len();
    let mut j: usize = 0;
    while j < plen
        invariant
            0 <= j <= plen,
            plen == pat@.len(),
            i + plen <= s@.len() <= usize::MAX,
            forall|t: int| 0 <= t < j ==> s@[i + t] == pat@[t],
        decreases plen - j,
    {
        if s.get_char(i + j) != pat.get_char(j) {
            proof {
                assert(s@.subrange(i as int, i + pat@.len() as int) != pat@) by {
                    if s@.subrange(i as int, i + pat@.len() as int) == pat@ {
                        assert(s@.subrange(i as int, i + pat@.len() as int)[j as int] == s@[i
                            + j]);
                    }
                }
            }
            return false;
        }
        j = j + 1;
    }
    proof {
        assert(s@.subrange(i as int, i + pat@.len() as int) =~= pat@);
    }
    true
}

/// The least position at which `pat` occurs in `s`, verified against
/// [`find_pat`].
pub fn find_sub(s: &str, pat: &str) -> (r: Option<usize>)
    ensures
        match r {
            Some(i) => find_pat(s@, pat@) == Some(i as int) && matches_at(s@, pat@, i as int),
            None => find_pat(s@, pat@) is None,
        },
{
    let n = s.unicode_len();
    let plen = pat.unicode_len();
    if plen > n {
        return None;
    }
    if plen == 0 {
        proof {
            assert(s@.subrange(0, 0) =~= pat@);
        }
        return Some(0);
    }
    let mut i: usize = 0;
    while i <= n - plen
        invariant
            0 <= i <= n - plen + 1,
            1 <= plen <= n,
            n == s@.len(),
            plen == pat@.len(),
            find_pat(s@, pat@) == find_pat_from(s@, pat@, i as int),
        decreases n - i,
    {
        if check_match_at(s, pat, i) {
            return Some(i);
        }
        i = i + 1;
    }
    None
}

// ---------------------------------------------------------------------------
// Lexicographic order on strings
// ---------------------------------------------------------------------------

/// Strict lexicographic order on character sequences by code point, the order
/// in which `String`s compare.
pub open spec fn lex_lt(a: Seq<char>, b: Seq<char>) -> bool
    decreases a.len(),
{
    if b.len() == 0 {
        false
    } else if a.len() == 0 {
        true
    } else if a[0] < b[0] {
        true
    } else if a[0] == b[0] {
        lex_lt(a.drop_first(), b.drop_first())
    } else {
        false
    }
}

/// Of two distinct strings, one is lexicographically smaller.
pub proof fn lemma_lex_lt_total(a: Seq<char>, b: Seq<char>)
    ensures
        lex_lt(a, b) || lex_lt(b, a) || a == b,
    decreases a.len(),
{
    if a.len() == 0 && b.len() == 0 {
        assert(a =~= b);
    } else if a.len() != 0 && b.len() != 0 && a[0] == b[0] {
        lemma_lex_lt_total(a.drop_first(), b.drop_first());
        if !lex_lt(a.drop_first(), b.drop_first()) && !lex_lt(b.drop_first(), a.drop_first()) {
            assert(a.drop_first().len() == a.len() - 1);
            assert(b.drop_first().len() == b.len() - 1);
            assert forall|i: int| 0 <= i < a.len() implies a[i] == b[i] by {
                if i > 0 {
                    assert(a.drop_first()[i - 1] == a[i]);
                    assert(b.drop_first()[i - 1] == b[i]);
                }
            }
            assert(a =~= b);
        }
    }
}

/// Lexicographic order is transitive.
pub proof fn lemma_lex_lt_transitive(a: Seq<char>, b: Seq<char>, c: Seq<char>)
    requires
        lex_lt(a, b),
        lex_lt(b, c),
    ensures
        lex_lt(a, c),
    decreases a.len(),
{
    if a.len() != 0 && b.len() != 0 && c.len() != 0 {
        if a[0] == b[0] && b[0] == c[0] {
            lemma_lex_lt_transitive(a.drop_first(), b.drop_first(), c.drop_first());
        }
    }
}

/// Compares two strings lexicographically, verified against [`lex_lt`].
pub fn str_lt(a: &str, b: &str) -> (r: bool)
    ensures
        r == lex_lt(a@, b@),
{
    let alen = a.unicode_len();
    let blen = b.unicode_len();
    let mut i: usize = 0;
    proof {
        assert(a@.skip(0) =~= a@);
        assert(b@.skip(0) =~= b@);
    }
    loop
        invariant
            0 <= i <= alen,
            i <= blen,
            alen == a@.len(),
            blen == b@.len(),
            lex_lt(a@, b@) == lex_lt(a@.skip(i as int), b@.skip(i as int)),
        decreases alen - i,
    {
        if i == blen {
            proof {
                assert(b@.skip(i as int) =~= Seq::<char>::empty());
            }
            return false;
        }
        if i == alen {
            proof {
                assert(a@.skip(i as int) =~= Seq::<char>::empty());
            }
            return true;
        }
        let ca = a.get_char(i);
        let cb = b.get_char(i);
        proof {
            assert(a@.skip(i as int)[0] == a@[i as int]);
            assert(b@.skip(i as int)[0] == b@[i as int]);
        }
        if ca < cb {
            return true;
        }
        if ca != cb {
            return false;
        }
        proof {
            assert(a@.skip(i as int).drop_first() =~= a@.skip(i as int + 1));
            assert(b@.skip(i as int).drop_first() =~= b@.skip(i as int + 1));
        }
        i = i + 1;
    }
}

/// Compares two strings for equality, character by character.
pub fn str_eq(a: &str, b: &str) -> (r: bool)
    ensures
        r == (a@ == b@),
{
    let alen = a.unicode_len();
    let blen = b.unicode_len();
    if alen != blen {
        return false;
    }
    let mut i: usize = 0;
    while i < alen
        invariant
            0 <= i <= alen,
            alen == a@.len(),
            alen == b@.len(),
            forall|t: int| 0 <= t < i ==> a@[t] == b@[t],
        decreases alen - i,
    {
        if a.get_char(i) != b.get_char(i) {
            return false;
        }
        i = i + 1;
    }
    proof {
        assert(a@ =~= b@);
    }
    true
}

// ---------------------------------------------------------------------------
// Canonical license sets: sorted and deduplicated
// ---------------------------------------------------------------------------

/// Inserts `x` into the sorted, duplicate-free sequence `s`, keeping it
/// sorted and duplicate-free.
pub open spec fn insert_lex(s: Seq<Seq<char>>, x: Seq<char>) -> Seq<Seq<char>>
    decreases s.len(),
{
    if s.len() == 0 {
        seq![x]
    } else if lex_lt(s[0], x) {
        seq![s[0]] + insert_lex(s.drop_first(), x)
    } else if s[0] == x {
        s
    } else {
        seq![x] + s
    }
}

/// The canonical form of a list of strings: sorted lexicographically with
/// exact duplicates removed.
pub open spec fn canon_licenses(s: Seq<Seq<char>>) -> Seq<Seq<char>>
    decreases s.len(),
{
    if s.len() == 0 {
        Seq::empty()
    } else {
        insert_lex(canon_licenses(s.drop_last()), s.last())
    }
}

/// Every pair of positions is strictly ordered: sorted, without duplicates.
pub open spec fn strictly_sorted(s: Seq<Seq<char>>) -> bool {
    forall|i: int, j: int| 0 <= i < j < s.len() ==> lex_lt(s[i], s[j])
}

/// Inserting into a strictly sorted sequence keeps it strictly sorted, and
/// the elements afterwards are exactly the old elements and the new one.
pub proof fn lemma_insert_lex_sorted(s: Seq<Seq<char>>, x: Seq<char>)
    requires
        strictly_sorted(s),
    ensures
        strictly_sorted(insert_lex(s, x)),
        forall|y: Seq<char>|
            #![trigger insert_lex(s, x).contains(y)]
            insert_lex(s, x).contains(y) <==> (s.contains(y) || y == x),
    decreases s.len(),
{
    lemma_lex_lt_total(s[0], x);
    if s.len() == 0 {
        assert forall|y: Seq<char>|
            insert_lex(s, x).contains(y) <==> (s.contains(y) || y == x) by {
            if y == x {
                assert(insert_lex(s, x)[0] == x);
            }
        }
    } else if lex_lt(s[0], x) {
        assert(strictly_sorted(s.drop_first()));
        lemma_insert_lex_sorted(s.drop_first(), x);
        let t = seq![s[0]] + insert_lex(s.drop_first(), x);
        assert forall|i: int, j: int| 0 <= i < j < t.len() implies lex_lt(t[i], t[j]) by {
            if i == 0 {
                let z = insert_lex(s.drop_first(), x)[j - 1];
                assert(t[j] == z);
                assert(insert_lex(s.drop_first(), x)[j - 1] == z);
                assert(insert_lex(s.drop_first(), x).contains(z));
                assert(s.drop_first().contains(z) || z == x);
                if s.drop_first().contains(z) {
                    let k = choose|k: int|
                        0 <= k < s.drop_first().len() && s.drop_first()[k] == z;
                    assert(s[k + 1] == z);
                    assert(lex_lt(s[0], s[k + 1]));
                }
            } else {
                assert(lex_lt(
                    insert_lex(s.drop_first(), x)[i - 1],
                    insert_lex(s.drop_first(), x)[j - 1],
                ));
            }
        }
        assert forall|y: Seq<char>| t.contains(y) <==> (s.contains(y) || y == x) by {
            if t.contains(y) {
                let k = choose|k: int| 0 <= k < t.len() && t[k] == y;
                if k == 0 {
                    assert(s[0] == y);
                } else {
                    assert(insert_lex(s.drop_first(), x)[k - 1] == y);
                    assert(insert_lex(s.drop_first(), x).contains(y));
                    if s.drop_first().contains(y) {
                        let m = choose|m: int|
                            0 <= m < s.drop_first().len() && s.drop_first()[m] == y;
                        assert(s[m + 1] == y);
                    }
                }
            }
            if s.contains(y) {
                let k = choose|k: int| 0 <= k < s.len() && s[k] == y;
                if k == 0 {
                    assert(t[0] == y);
                } else {
                    assert(s.drop_first()[k - 1] == y);
                    assert(s.drop_first().contains(y));
                    assert(insert_lex(s.drop_first(), x).contains(y));
                    let m = choose|m: int|
                        0 <= m < insert_lex(s.drop_first(), x).len() && insert_lex(
                            s.drop_first(),
                            x,
                        )[m] == y;
                    assert(t[m + 1] == y);
                }
            }
            if y == x {
                assert(insert_lex(s.drop_first(), x).contains(y));
                let m = choose|m: int|
                    0 <= m < insert_lex(s.drop_first(), x).len() && insert_lex(
                        s.drop_first(),
                        x,
                    )[m] == y;
                assert(t[m + 1] == y);
            }
        }
    } else if s[0] == x {
        assert forall|y: Seq<char>|
            insert_lex(s, x).contains(y) <==> (s.contains(y) || y == x) by {
            if y == x {
                assert(s[0] == y);
            }
        }
    } else {
        assert(lex_lt(x, s[0]));
        let t = seq![x] + s;
        assert forall|i: int, j: int| 0 <= i < j < t.len() implies lex_lt(t[i], t[j]) by {
            if i == 0 {
                if j > 1 {
                    lemma_lex_lt_transitive(x, s[0], s[j - 1]);
                }
            }
        }
        assert forall|y: Seq<char>| t.contains(y) <==> (s.contains(y) || y == x) by {
            if t.contains(y) {
                let k = choose|k: int| 0 <= k < t.len() && t[k] == y;
                if k > 0 {
                    assert(s[k - 1] == y);
                }
            }
            if s.contains(y) {
                let k = choose|k: int| 0 <= k < s.len() && s[k] == y;
                assert(t[k + 1] == y);
            }
            if y == x {
                assert(t[0] == y);
            }
        }
    }
}

/// The canonical form of any list is strictly sorted and holds exactly the
/// elements of the list.
pub proof fn lemma_canon_licenses_sorted(s: Seq<Seq<char>>)
    ensures
        strictly_sorted(canon_licenses(s)),
        forall|y: Seq<char>| canon_licenses(s).contains(y) <==> s.contains(y),
    decreases s.len(),
{
    if s.len() == 0 {
    } else {
        lemma_canon_licenses_sorted(s.drop_last());
        lemma_insert_lex_sorted(canon_licenses(s.drop_last()), s.last());
        assert(canon_licenses(s) == insert_lex(canon_licenses(s.drop_last()), s.last()));
        assert forall|y: Seq<char>| canon_licenses(s).contains(y) <==> s.contains(y) by {
            if canon_licenses(s).contains(y) {
                assert(insert_lex(canon_licenses(s.drop_last()), s.last()).contains(y));
                if canon_licenses(s.drop_last()).contains(y) {
                    assert(s.drop_last().contains(y));
                    let k = choose|k: int|
                        0 <= k < s.drop_last().len() && s.drop_last()[k] == y;
                    assert(s[k] == y);
                } else {
                    assert(s[s.len() - 1] == y);
                }
            }
            if s.contains(y) {
                let k = choose|k: int| 0 <= k < s.len() && s[k] == y;
                if k < s.len() - 1 {
                    assert(s.drop_last()[k] == y);
                    assert(s.drop_last().contains(y));
                    assert(canon_licenses(s.drop_last()).contains(y));
                } else {
                    assert(y == s.last());
                }
                assert(insert_lex(canon_licenses(s.drop_last()), s.last()).contains(y));
            }
        }
    }
}

proof fn lemma_insert_lex_at(s: Seq<Seq<char>>, x: Seq<char>, pos: int)
    requires
        0 <= pos <= s.len(),
        forall|i: int| 0 <= i < pos ==> lex_lt(s[i], x),
        pos < s.len() ==> !lex_lt(s[pos], x),
    ensures
        insert_lex(s, x) == if pos < s.len() && s[pos] == x {
            s
        } else {
            s.subrange(0, pos) + seq![x] + s.subrange(pos, s.len() as int)
        },
    decreases pos,
{
    if pos == 0 {
        if s.len() == 0 {
            assert(seq![x] =~= s.subrange(0, 0) + seq![x] + s.subrange(0, s.len() as int));
        } else if s[0] == x {
        } else {
            assert(seq![x] + s =~= s.subrange(0, 0) + seq![x] + s.subrange(0, s.len() as int));
        }
    } else {
        assert(lex_lt(s[0], x));
        lemma_insert_lex_at(s.drop_first(), x, pos - 1);
        if pos < s.len() && s[pos] == x {
            assert(s.drop_first()[pos - 1] == x);
            assert(seq![s[0]] + s.drop_first() =~= s);
        } else {
            assert(seq![s[0]] + (s.drop_first().subrange(0, pos - 1) + seq![x]
                + s.drop_first().subrange(pos - 1, s.drop_first().len() as int)) =~= s.subrange(
                0,
                pos,
            ) + seq![x] + s.subrange(pos, s.len() as int));
        }
    }
}

/// Inserts `x` into the sorted, duplicate-free vector `v`, keeping it sorted
/// and dropping `x` if an equal string is already present.
pub fn insert_sorted(v: &mut Vec<String>, x: String)
    ensures
        final(v).deep_view() == insert_lex(old(v).deep_view(), x@),
{
    let ghost s = v.deep_view();
    let mut pos: usize = 0;
    while pos < v.len() && str_lt(v[pos].as_str(), x.as_str())
        invariant
            0 <= pos <= v.len(),
            s == v.deep_view(),
            s.len() == v.len(),
            forall|i: int| 0 <= i < pos ==> lex_lt(s[i], x@),
        decreases v.len() - pos,
    {
        pos = pos + 1;
    }
    proof {
        lemma_insert_lex_at(s, x@, pos as int);
    }
    if pos < v.len() && str_eq(v[pos].as_str(), x.as_str()) {
        return ;
    }
    v.insert(pos, x);
    proof {
        assert(v.deep_view() =~= s.subrange(0, pos as int) + seq![x@] + s.subrange(
            pos as int,
            s.len() as int,
        ));
    }
}

/// Reduces a list of strings to its canonical form: sorted lexicographically,
/// exact duplicates removed. Verified against [`canon_licenses`]: the result
/// is strictly sorted and holds exactly the strings of the input.
pub fn canonical_license_set(items: &Vec<String>) -> (r: Vec<String>)
    ensures
        r.deep_view() == canon_licenses(items.deep_view()),
        strictly_sorted(r.deep_view()),
        forall|y: Seq<char>| r.deep_view().contains(y) <==> items.deep_view().contains(y),
{
    let mut acc: Vec<String> = Vec::new();
    let mut i: usize = 0;
    while i < items.len()
        invariant
            0 <= i <= items.len(),
            acc.deep_view() == canon_licenses(items.deep_view().subrange(0, i as int)),
        decreases items.len() - i,
    {
        insert_sorted(&mut acc, items[i].clone());
        proof {
            let pre = items.deep_view().subrange(0, i as int);
            let cur = items.deep_view().subrange(0, i + 1);
            assert(cur.drop_last() =~= pre);
            assert(cur.last() == items.deep_view()[i as int]);
        }
        i = i + 1;
    }
    proof {
        assert(items.deep_view().subrange(0, items.len() as int) =~= items.deep_view());
        lemma_canon_licenses_sorted(items.deep_view());
    }
    acc
}

} // verus!
