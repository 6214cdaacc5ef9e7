//! Character-sequence utilities shared by the codec and the lookup
//! logic: first-occurrence search, substring containment, and string
//! building one character at a time.
use vstd::prelude::*;
use vstd::string::StrSliceExecFns;

verus! {

/// Index of the first occurrence of `c` in `s`, or -1 when absent.
pub open spec fn find_char(s: Seq<char>, c: char) -> int
    decreases s.len(),
{
    if s.len() == 0 {
        -1
    } else if s[0] == c {
        0
    } else {
        let r = find_char(s.drop_first(), c);
        if r == -1 {
            -1
        } else {
            r + 1
        }
    }
}

/// `c` occurs somewhere in `s`.
pub open spec fn seq_has_char(s: Seq<char>, c: char) -> bool {
    exists|i: int| 0 <= i < s.len() && s[i] == c
}

pub proof fn lemma_find_char_spec(s: Seq<char>, c: char)
    ensures
        find_char(s, c) == -1 ==> !seq_has_char(s, c),
        find_char(s, c) != -1 ==> 0 <= find_char(s, c) < s.len() && s[find_char(s, c)] == c
            && (forall|i: int| 0 <= i < find_char(s, c) ==> s[i] != c),
    decreases s.len(),
{
    if s.len() > 0 && s[0] != c {
        lemma_find_char_spec(s.drop_first(), c);
        let r = find_char(s.drop_first(), c);
        if r == -1 {
            assert forall|i: int| 0 <= i < s.len() implies s[i] != c by {
                if i > 0 {
                    assert(s[i] == s.drop_first()[i - 1]);
                }
            }
        } else {
            assert(s[r + 1] == s.drop_first()[r]);
            assert forall|i: int| 0 <= i < r + 1 implies s[i] != c by {
                if i > 0 {
                    assert(s[i] == s.drop_first()[i - 1]);
                }
            }
        }
    }
}

/// The first occurrence is the unique position with no earlier occurrence.
pub proof fn lemma_find_char_at(s: Seq<char>, c: char, j: int)
    requires
        0 <= j < s.len(),
        s[j] == c,
        forall|i: int| 0 <= i < j ==> s[i] != c,
    ensures
        find_char(s, c) == j,
    decreases s.len(),
{
    if j > 0 {
        assert forall|i: int| 0 <= i < j - 1 implies s.drop_first()[i] != c by {
            assert(s.drop_first()[i] == s[i + 1]);
        }
        assert(s.drop_first()[j - 1] == s[j]);
        lemma_find_char_at(s.drop_first(), c, j - 1);
    }
}

pub proof fn lemma_find_char_none(s: Seq<char>, c: char)
    requires
        forall|i: int| 0 <= i < s.len() ==> s[i] != c,
    ensures
        find_char(s, c) == -1,
    decreases s.len(),
{
    if s.len() > 0 {
        assert forall|i: int| 0 <= i < s.drop_first().len() implies s.drop_first()[i] != c by {
            assert(s.drop_first()[i] == s[i + 1]);
        }
        lemma_find_char_none(s.drop_first(), c);
    }
}

/// Relies on String::push: appends exactly the one character.
#[verifier::external_body]
pub(crate) fn push_char(s: &mut String, c: char)
    ensures
        final(s)@ == old(s)@.push(c),
{
    s.push(c)
}

/// Character-wise string equality.
pub fn str_eq(a: &str, b: &str) -> (r: bool)
    ensures
        r == (a@ == b@),
{
    let an = a.unicode_len();
    let bn = b.unicode_len();
    if an != bn {
        assert(a@ != b@);
        return false;
    }
    let mut i: usize = 0;
    while i < an
        invariant
            an == a@.len(),
            an == b@.len(),
            0 <= i <= an,
            forall|k: int| 0 <= k < i ==> a@[k] == b@[k],
        decreases an - i,
    {
        if a.get_char(i) != b.get_char(i) {
            return false;
        }
        i += 1;
    }
    assert(a@ =~= b@);
    true
}

/// `needle` occurs contiguously in `hay`.
pub open spec fn spec_contains(hay: Seq<char>, needle: Seq<char>) -> bool {
    exists|i: int|
        0 <= i && i + needle.len() <= hay.len() && #[trigger] hay.subrange(i, i + needle.len())
            == needle
}

/// Substring containment, as the identifier lookup uses it.
pub fn str_contains(hay: &str, needle: &str) -> (r: bool)
    ensures
        r == spec_contains(hay@, needle@),
{
    let hn = hay.unicode_len();
    let nn = needle.unicode_len();
    if nn > hn {
        assert(!spec_contains(hay@, needle@));
        return false;
    }
    let mut i: usize = 0;
    while i <= hn - nn
        invariant
            hn == hay@.len(),
            nn == needle@.len(),
            nn <= hn,
            0 <= i <= hn - nn + 1,
            forall|k: int|
                0 <= k < i ==> #[trigger] hay@.subrange(k, k + needle@.len()) != needle@,
        decreases hn - nn - i + 1,
    {
        let mut j: usize = 0;
        let mut matches = true;
        while j < nn
            invariant
                hn == hay@.len(),
                nn == needle@.len(),
                0 <= i <= hn - nn,
                0 <= j <= nn,
                matches == (forall|k: int| 0 <= k < j ==> hay@[i + k] == needle@[k]),
            decreases nn - j,
        {
            if hay.get_char(i + j) != needle.get_char(j) {
                matches = false;
                assert(hay@[i + j as int] != needle@[j as int]);
                j = nn;
            } else {
                j += 1;
            }
        }
        if matches {
            assert(hay@.subrange(i as int, i + needle@.len()) =~= needle@);
            return true;
        } else {
            assert(hay@.subrange(i as int, i + needle@.len()) != needle@) by {
                let k = choose|k: int| 0 <= k < nn && hay@[i + k] != needle@[k];
                assert(hay@.subrange(i as int, i + needle@.len())[k] == hay@[i + k]);
            }
        }
        i += 1;
    }
    assert(!spec_contains(hay@, needle@));
    false
}

/// The cells of `s` between occurrences of `sep`: always one more cell
/// than separators, so never empty.
pub open spec fn split_cells(s: Seq<char>, sep: char) -> Seq<Seq<char>>
    decreases s.len(),
    via split_cells_decreases
{
    let d = find_char(s, sep);
    if d == -1 {
        seq![s]
    } else {
        seq![s.take(d)] + split_cells(s.skip(d + 1), sep)
    }
}

#[via_fn]
proof fn split_cells_decreases(s: Seq<char>, sep: char) {
    lemma_find_char_spec(s, sep);
}

pub proof fn lemma_split_cells_len(s: Seq<char>, sep: char)
    ensures
        split_cells(s, sep).len() >= 1,
    decreases s.len(),
{
    let d = find_char(s, sep);
    if d != -1 {
        lemma_find_char_spec(s, sep);
        lemma_split_cells_len(s.skip(d + 1), sep);
    }
}

/// Splitting a separator-free text yields that one cell.
pub proof fn lemma_split_cells_whole(s: Seq<char>, sep: char)
    requires
        forall|i: int| 0 <= i < s.len() ==> s[i] != sep,
    ensures
        split_cells(s, sep) == seq![s],
{
    lemma_find_char_none(s, sep);
}

/// A separator after a separator-free prefix starts a fresh cell.
pub proof fn lemma_split_cells_prepend(a: Seq<char>, rest: Seq<char>, sep: char)
    requires
        forall|i: int| 0 <= i < a.len() ==> a[i] != sep,
    ensures
        split_cells(a + seq![sep] + rest, sep) == seq![a] + split_cells(rest, sep),
{
    let s = a + seq![sep] + rest;
    assert(s[a.len() as int] == sep);
    assert(forall|k: int| 0 <= k < a.len() ==> #[trigger] s[k] == a[k]);
    lemma_find_char_at(s, sep, a.len() as int);
    assert(s.take(a.len() as int) =~= a);
    assert(s.skip(a.len() as int + 1) =~= rest);
}

/// Splits `s` on every occurrence of `sep`.
pub fn split_all(s: &str, sep: char) -> (r: Vec<String>)
    ensures
        r@.map_values(|c: String| c@) == split_cells(s@, sep),
{
    let n = s.unicode_len();
    let mut cells: Vec<String> = Vec::new();
    let mut pos: usize = 0;
    let mut done = false;
    proof {
        assert(s@.skip(0) =~= s@);
        assert(cells@.map_values(|c: String| c@) =~= Seq::<Seq<char>>::empty());
    }
    while !done
        invariant
            n == s@.len(),
            0 <= pos <= n,
            split_cells(s@, sep) == cells@.map_values(|c: String| c@) + (if done {
                Seq::<Seq<char>>::empty()
            } else {
                split_cells(s@.skip(pos as int), sep)
            }),
        decreases n - pos, (if done {
            0int
        } else {
            1int
        }),
    {
        // scan for the next separator
        let mut j: usize = pos;
        let mut found = false;
        while j < n && !found
            invariant
                n == s@.len(),
                pos <= j <= n,
                found ==> j < n && s@[j as int] == sep,
                forall|k: int| pos <= k < j ==> s@[k] != sep,
            decreases n - j, (if found {
                0int
            } else {
                1int
            }),
        {
            if s.get_char(j) == sep {
                found = true;
            } else {
                j += 1;
            }
        }
        let ghost rem = s@.skip(pos as int);
        let ghost prev_cells = cells@;
        if found {
            let cell = s.substring_char(pos, j);
            cells.push(cell.to_owned());
            proof {
                let a = s@.subrange(pos as int, j as int);
                assert(rem =~= a + seq![sep] + s@.skip(j as int + 1));
                assert(forall|i: int| 0 <= i < a.len() ==> #[trigger] a[i] == s@[pos + i]);
                assert(forall|i: int| 0 <= i < a.len() ==> a[i] != sep);
                lemma_split_cells_prepend(a, s@.skip(j as int + 1), sep);
                assert(cells@.map_values(|c: String| c@) =~= prev_cells.map_values(
                    |c: String| c@,
                ).push(a));
                assert(prev_cells.map_values(|c: String| c@) + (seq![a] + split_cells(
                    s@.skip(j as int + 1),
                    sep,
                )) =~= cells@.map_values(|c: String| c@) + split_cells(s@.skip(j as int + 1), sep));
            }
            pos = j + 1;
        } else {
            let cell = s.substring_char(pos, n);
            cells.push(cell.to_owned());
            done = true;
            proof {
                let a = s@.subrange(pos as int, n as int);
                assert(rem =~= a);
                lemma_split_cells_whole(rem, sep);
                assert(cells@.map_values(|c: String| c@) =~= prev_cells.map_values(
                    |c: String| c@,
                ).push(a));
                assert(prev_cells.map_values(|c: String| c@) + seq![rem] =~= cells@.map_values(
                    |c: String| c@,
                ));
                assert(cells@.map_values(|c: String| c@) + Seq::<Seq<char>>::empty()
                    =~= cells@.map_values(|c: String| c@));
            }
        }
    }
    cells
}

/// `s` ends with `t`.
pub open spec fn spec_ends_with(s: Seq<char>, t: Seq<char>) -> bool {
    t.len() <= s.len() && s.skip(s.len() - t.len()) == t
}

/// Suffix test, as the file dispatch uses it.
pub fn str_ends_with(s: &str, t: &str) -> (r: bool)
    ensures
        r == spec_ends_with(s@, t@),
{
    let sn = s.unicode_len();
    let tn = t.unicode_len();
    if tn > sn {
        return false;
    }
    let mut j: usize = 0;
    while j < tn
        invariant
            sn == s@.len(),
            tn == t@.len(),
            tn <= sn,
            0 <= j <= tn,
            forall|k: int| 0 <= k < j ==> s@[sn - tn + k] == t@[k],
        decreases tn - j,
    {
        if s.get_char(sn - tn + j) != t.get_char(j) {
            assert(s@.skip(s@.len() - t@.len())[j as int] != t@[j as int]);
            return false;
        }
        j += 1;
    }
    assert(s@.skip(s@.len() - t@.len()) =~= t@);
    true
}

} // verus!


