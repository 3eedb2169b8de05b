//! Substring matching over character sequences, used as the query semantics
//! of an index's search: a document field matches a query when the query
//! occurs contiguously in the field's text.

use vstd::prelude::*;

verus! {

/// `needle` occurs as a contiguous run of characters inside `hay`.
pub open spec fn is_substring(needle: Seq<char>, hay: Seq<char>) -> bool {
    exists|i: int|
        0 <= i && i + needle.len() <= hay.len() && #[trigger] hay.subrange(i, i + needle.len())
            == needle
}

/// Whether `needle` occurs in `hay` starting at character position `start`.
spec fn matches_at(needle: Seq<char>, hay: Seq<char>, start: int) -> bool {
    0 <= start && start + needle.len() <= hay.len() && hay.subrange(
        start,
        start + needle.len(),
    ) == needle
}

/// Decides `is_substring` by scanning every candidate start position.
pub fn contains_substring(hay: &str, needle: &str) -> (r: bool)
    ensures
        r == is_substring(needle@, hay@),
{
    let hay_len = hay.unicode_len();
    let needle_len = needle.unicode_len();
    if needle_len > hay_len {
        assert(!is_substring(needle@, hay@));
        return false;
    }
    if needle_len == 0 {
        proof {
            assert(hay@.subrange(0, 0 + needle@.len() as int) =~= needle@);
        }
        return true;
    }
    let mut start: usize = 0;
    while start <= hay_len - needle_len
        invariant
            needle_len == needle@.len(),
            hay_len == hay@.len(),
            0 < needle_len <= hay_len,
            start <= hay_len,
            forall|s: int| 0 <= s < start ==> !matches_at(needle@, hay@, s),
        decreases hay_len - start,
    {
        let mut j: usize = 0;
        let mut mismatch = false;
        while j < needle_len && !mismatch
            invariant
                needle_len == needle@.len(),
                hay_len == hay@.len(),
                start + needle_len <= hay_len,
                j <= needle_len,
                !mismatch ==> forall|k: int| 0 <= k < j ==> hay@[start + k] == needle@[k],
                mismatch ==> !matches_at(needle@, hay@, start as int),
            decreases needle_len - j, !mismatch as int,
        {
            if hay.get_char(start + j) != needle.get_char(j) {
                proof {
                    let sub = hay@.subrange(start as int, start + needle@.len());
                    assert(sub[j as int] == hay@[start + j]);
                    assert(sub != needle@);
                }
                mismatch = true;
            } else {
                j = j + 1;
            }
        }
        if !mismatch {
            proof {
                let sub = hay@.subrange(start as int, start + needle@.len());
                assert(forall|k: int| 0 <= k < needle@.len() ==> sub[k] == hay@[start + k]);
                assert(sub =~= needle@);
                assert(matches_at(needle@, hay@, start as int));
            }
            return true;
        }
        start = start + 1;
    }
    proof {
        assert forall|i: int| 0 <= i && i + needle@.len() <= hay@.len() implies #[trigger] hay@
            .subrange(i, i + needle@.len()) != needle@ by {
            assert(i < start);
            assert(!matches_at(needle@, hay@, i));
        }
        assert(!is_substring(needle@, hay@));
    }
    false
}

/// The views of the strings held in `v`.
pub open spec fn string_views(v: Seq<String>) -> Seq<Seq<char>> {
    Seq::new(v.len(), |i: int| v[i]@)
}

/// Appending a string appends its view.
pub proof fn lemma_string_views_push(v: Seq<String>, s: String)
    ensures
        string_views(v.push(s)) == string_views(v).push(s@),
{
    assert(string_views(v.push(s)) =~= string_views(v).push(s@));
}

/// Decides membership of `name`'s text among the strings of `v`.
pub fn contains_string(v: &Vec<String>, name: &String) -> (r: bool)
    ensures
        r == string_views(v@).contains(name@),
{
    let mut i: usize = 0;
    while i < v.len()
        invariant
            i <= v@.len(),
            forall|k: int| 0 <= k < i ==> string_views(v@)[k] != name@,
        decreases v@.len() - i,
    {
        if v[i] == *name {
            assert(string_views(v@)[i as int] == name@);
            return true;
        }
        i = i + 1;
    }
    assert(forall|k: int| 0 <= k < v@.len() ==> string_views(v@)[k] != name@);
    false
}

} // verus!
