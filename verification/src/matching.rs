//! Selecting, from the loaded records, the ones a lookup key asks for.

use vstd::prelude::*;
use crate::bytes::{bytes_eq_ignore_case, eq_ignore_ascii_case};
use crate::records::{KeyView, LookupKey, Scripture, ScriptureView, views_of};

verus! {

/// A record answers a key when the key's book equals, ignoring ASCII case,
/// the record's full book name or its short book ID; the chapters are equal;
/// and the record's verse is one of the verses asked for.
pub open spec fn record_matches(r: ScriptureView, k: KeyView) -> bool {
    &&& (eq_ignore_ascii_case(r.book_name, k.book) || eq_ignore_ascii_case(r.book_id, k.book))
    &&& r.chapter == k.chapter
    &&& k.verses.contains(r.verse)
}

/// The subsequence of records answering the key, in dataset order.
pub open spec fn matching_records(rs: Seq<ScriptureView>, k: KeyView) -> Seq<ScriptureView>
    decreases rs.len(),
{
    if rs.len() == 0 {
        Seq::empty()
    } else {
        let rest = matching_records(rs.drop_last(), k);
        if record_matches(rs.last(), k) {
            rest.push(rs.last())
        } else {
            rest
        }
    }
}

/// Matching distributes over splitting the dataset: filtering two parts and
/// concatenating the results is the same as filtering the whole. A scan may
/// therefore be partitioned (fanned out and joined in order) without changing
/// what is found.
pub proof fn lemma_matching_distributes(a: Seq<ScriptureView>, b: Seq<ScriptureView>, k: KeyView)
    ensures
        matching_records(a + b, k) == matching_records(a, k) + matching_records(b, k),
    decreases b.len(),
{
    if b.len() == 0 {
        assert(a + b =~= a);
        assert(matching_records(a, k) + matching_records(b, k) =~= matching_records(a, k));
    } else {
        assert((a + b).drop_last() =~= a + b.drop_last());
        assert((a + b).last() == b.last());
        lemma_matching_distributes(a, b.drop_last(), k);
        if record_matches(b.last(), k) {
            assert((matching_records(a, k) + matching_records(b.drop_last(), k)).push(b.last())
                =~= matching_records(a, k) + matching_records(b.drop_last(), k).push(b.last()));
        }
    }
}

/// The first record answering the key, in dataset order: the head of the
/// matching subsequence. Where several records answer (duplicates,
/// translations), the one standing earliest in the dataset is the one named,
/// deterministically.
pub open spec fn first_match(rs: Seq<ScriptureView>, k: KeyView) -> Option<ScriptureView> {
    if matching_records(rs, k).len() > 0 {
        Some(matching_records(rs, k)[0])
    } else {
        None
    }
}

/// `v` is one of the verses in `verses`.
pub fn verses_contain(verses: &Vec<i32>, v: i32) -> (r: bool)
    ensures
        r == verses@.contains(v),
{
    let mut i: usize = 0;
    while i < verses.len()
        invariant
            i <= verses@.len(),
            forall|j: int| 0 <= j < i ==> verses@[j] != v,
        decreases verses@.len() - i,
    {
        if verses[i] == v {
            return true;
        }
        i += 1;
    }
    false
}

/// Whether one record answers the key.
pub fn scripture_matches(r: &Scripture, k: &LookupKey) -> (res: bool)
    ensures
        res == record_matches(r@, k@),
{
    (bytes_eq_ignore_case(&r.book_name, &k.book) || bytes_eq_ignore_case(&r.book_id, &k.book))
        && r.chapter == k.chapter && verses_contain(&k.verses, r.verse)
}

/// All records answering the key, in dataset order; every match is kept,
/// duplicates included.
pub fn find_matches(bible: &Vec<Scripture>, key: &LookupKey) -> (r: Vec<Scripture>)
    ensures
        views_of(r@) == matching_records(views_of(bible@), key@),
{
    let ghost all = views_of(bible@);
    let mut r: Vec<Scripture> = Vec::new();
    let mut i: usize = 0;
    while i < bible.len()
        invariant
            i <= bible@.len(),
            all == views_of(bible@),
            views_of(r@) == matching_records(all.take(i as int), key@),
        decreases bible@.len() - i,
    {
        proof {
            assert(all.take(i + 1).drop_last() =~= all.take(i as int));
            assert(all.take(i + 1).last() == bible@[i as int]@);
        }
        if scripture_matches(&bible[i], key) {
            r.push(bible[i].clone());
            proof {
                assert(views_of(r@) =~= matching_records(all.take(i + 1), key@));
            }
        } else {
            proof {
                assert(views_of(r@) =~= matching_records(all.take(i + 1), key@));
            }
        }
        i += 1;
    }
    proof {
        assert(all.take(bible@.len() as int) =~= all);
    }
    r
}

/// The first record answering the key, scanning in dataset order.
pub fn find_first_match(bible: &Vec<Scripture>, key: &LookupKey) -> (r: Option<Scripture>)
    ensures
        (match r {
            Some(rec) => first_match(views_of(bible@), key@) == Some(rec@),
            None => first_match(views_of(bible@), key@) is None,
        }),
{
    let ghost all = views_of(bible@);
    let mut i: usize = 0;
    while i < bible.len()
        invariant
            i <= bible@.len(),
            all == views_of(bible@),
            matching_records(all.take(i as int), key@).len() == 0,
        decreases bible@.len() - i,
    {
        proof {
            assert(all.take(i + 1).drop_last() =~= all.take(i as int));
            assert(all.take(i + 1).last() == bible@[i as int]@);
        }
        if scripture_matches(&bible[i], key) {
            proof {
                assert(matching_records(all.take(i + 1), key@) =~= seq![all[i as int]]);
                assert(all =~= all.take(i + 1) + all.skip(i + 1));
                lemma_matching_distributes(all.take(i + 1), all.skip(i + 1), key@);
                assert(matching_records(all, key@)[0] == all[i as int]);
            }
            return Some(bible[i].clone());
        }
        i += 1;
    }
    proof {
        assert(all.take(bible@.len() as int) =~= all);
    }
    None
}

} // verus!
