//! Properties of matching and formatting that hold for every dataset and
//! every key.

use vstd::prelude::*;
use crate::bytes::{eq_ignore_ascii_case, lower_byte};
use crate::format::{header_line, report, verse_line, verse_lines};
use crate::matching::{matching_records, record_matches};
use crate::numeral::{dec_rep_nat, i32_dec_rep};
use crate::records::{KeyView, ScriptureView};

verus! {

/// Every record the matcher keeps answers the key: its book name or ID is
/// the key's book up to ASCII case, its chapter is the key's chapter, and
/// its verse is one of the verses asked for. No record that disagrees with
/// the key is ever kept.
pub proof fn lemma_matches_agree_with_key(rs: Seq<ScriptureView>, k: KeyView)
    ensures
        forall|i: int|
            0 <= i < matching_records(rs, k).len() ==> record_matches(
                #[trigger] matching_records(rs, k)[i],
                k,
            ),
    decreases rs.len(),
{
    if rs.len() > 0 {
        lemma_matches_agree_with_key(rs.drop_last(), k);
        let m = matching_records(rs, k);
        let rest = matching_records(rs.drop_last(), k);
        assert forall|i: int| 0 <= i < m.len() implies record_matches(m[i], k) by {
            if i < rest.len() {
                assert(m[i] == rest[i]);
            } else {
                assert(m[i] == rs.last());
            }
        }
    }
}

/// Every record the matcher keeps is one of the dataset's records.
pub proof fn lemma_matches_from_dataset(rs: Seq<ScriptureView>, k: KeyView)
    ensures
        forall|i: int|
            0 <= i < matching_records(rs, k).len() ==> rs.contains(
                #[trigger] matching_records(rs, k)[i],
            ),
    decreases rs.len(),
{
    if rs.len() > 0 {
        lemma_matches_from_dataset(rs.drop_last(), k);
        assert forall|i: int| 0 <= i < matching_records(rs, k).len() implies rs.contains(
            matching_records(rs, k)[i],
        ) by {
            let m = matching_records(rs, k)[i];
            if i < matching_records(rs.drop_last(), k).len() {
                let j = choose|j: int|
                    0 <= j < rs.drop_last().len() && rs.drop_last()[j] == m;
                assert(rs[j] == m);
            } else {
                assert(m == rs.last());
                assert(rs[rs.len() - 1] == m);
            }
        }
    }
}

/// Two byte strings with the same lowercase image compare equal, ignoring
/// ASCII case, against the same third strings.
pub proof fn lemma_eq_ignore_case_same(a: Seq<u8>, b1: Seq<u8>, b2: Seq<u8>)
    requires
        eq_ignore_ascii_case(b1, b2),
    ensures
        eq_ignore_ascii_case(a, b1) == eq_ignore_ascii_case(a, b2),
{
    assert forall|i: int| 0 <= i < b1.len() implies lower_byte(b1[i]) == lower_byte(b2[i]) by {}
}

/// Book matching is case-insensitive: keys whose books agree up to ASCII
/// case (and agree otherwise) match exactly the same records.
pub proof fn lemma_matching_case_insensitive(rs: Seq<ScriptureView>, k1: KeyView, k2: KeyView)
    requires
        eq_ignore_ascii_case(k1.book, k2.book),
        k1.chapter == k2.chapter,
        k1.verses == k2.verses,
    ensures
        matching_records(rs, k1) == matching_records(rs, k2),
    decreases rs.len(),
{
    if rs.len() > 0 {
        lemma_matching_case_insensitive(rs.drop_last(), k1, k2);
        lemma_eq_ignore_case_same(rs.last().book_name, k1.book, k2.book);
        lemma_eq_ignore_case_same(rs.last().book_id, k1.book, k2.book);
    }
}

/// The lookup is deterministic: the same records and the same key always
/// yield the same report, byte for byte.
pub proof fn lemma_report_deterministic(
    rs1: Seq<ScriptureView>,
    rs2: Seq<ScriptureView>,
    k1: KeyView,
    k2: KeyView,
)
    requires
        rs1 == rs2,
        k1 == k2,
    ensures
        report(matching_records(rs1, k1)) == report(matching_records(rs2, k2)),
{
}

/// How many times `b` occurs in `s`.
pub open spec fn count_byte(s: Seq<u8>, b: u8) -> int
    decreases s.len(),
{
    if s.len() == 0 {
        0
    } else {
        count_byte(s.drop_last(), b) + if s.last() == b {
            1int
        } else {
            0int
        }
    }
}

/// Occurrence counts add over concatenation.
pub proof fn lemma_count_byte_add(x: Seq<u8>, y: Seq<u8>, b: u8)
    ensures
        count_byte(x + y, b) == count_byte(x, b) + count_byte(y, b),
    decreases y.len(),
{
    if y.len() == 0 {
        assert(x + y =~= x);
    } else {
        assert((x + y).drop_last() =~= x + y.drop_last());
        assert((x + y).last() == y.last());
        lemma_count_byte_add(x, y.drop_last(), b);
    }
}

/// A byte that occurs nowhere has count zero.
pub proof fn lemma_count_byte_absent(s: Seq<u8>, b: u8)
    requires
        forall|i: int| 0 <= i < s.len() ==> s[i] != b,
    ensures
        count_byte(s, b) == 0,
    decreases s.len(),
{
    if s.len() > 0 {
        lemma_count_byte_absent(s.drop_last(), b);
    }
}

/// Every byte of a rendered nonnegative numeral is a decimal digit.
pub proof fn lemma_dec_rep_digits(n: int)
    ensures
        forall|i: int|
            0 <= i < dec_rep_nat(n).len() ==> 48 <= #[trigger] dec_rep_nat(n)[i] <= 57,
    decreases n,
{
    if n >= 10 {
        lemma_dec_rep_digits(n / 10);
        let d = dec_rep_nat(n);
        let prefix = dec_rep_nat(n / 10);
        assert forall|i: int| #![trigger d[i]] 0 <= i < d.len() implies 48 <= d[i] <= 57 by {
            if i < prefix.len() {
                assert(d[i] == prefix[i]);
            } else {
                assert(d[i] == (48 + n % 10) as u8);
            }
        }
    } else {
        assert(dec_rep_nat(n)[0] == (48 + if 0 <= n {
            n
        } else {
            0
        }) as u8);
    }
}

/// A rendered integer holds no newline byte.
pub proof fn lemma_numeral_no_newline(n: int)
    ensures
        forall|i: int| 0 <= i < i32_dec_rep(n).len() ==> #[trigger] i32_dec_rep(n)[i] != 10,
{
    if n < 0 {
        lemma_dec_rep_digits(-n);
        assert(forall|i: int|
            0 <= i < i32_dec_rep(n).len() ==> i32_dec_rep(n)[i] == (seq![45u8] + dec_rep_nat(
                -n,
            ))[i]);
    } else {
        lemma_dec_rep_digits(n);
    }
}

/// A header line ends in exactly one newline, when the book name holds none.
pub proof fn lemma_header_line_newlines(r: ScriptureView)
    requires
        forall|i: int| 0 <= i < r.book_name.len() ==> r.book_name[i] != 10,
    ensures
        count_byte(header_line(r), 10) == 1,
{
    let num = i32_dec_rep(r.chapter as int);
    lemma_numeral_no_newline(r.chapter as int);
    lemma_count_byte_absent(r.book_name, 10);
    lemma_count_byte_absent(seq![32u8], 10);
    lemma_count_byte_absent(num, 10);
    assert(count_byte(seq![58u8, 10u8], 10) == 1) by {
        reveal_with_fuel(count_byte, 4);
        assert(seq![58u8, 10u8].drop_last() =~= seq![58u8]);
        assert(seq![58u8].drop_last() =~= Seq::<u8>::empty());
    }
    lemma_count_byte_add(r.book_name, seq![32u8], 10);
    lemma_count_byte_add(r.book_name + seq![32u8], num, 10);
    lemma_count_byte_add(r.book_name + seq![32u8] + num, seq![58u8, 10u8], 10);
}

/// A verse line ends in exactly one newline, when the verse text holds none.
pub proof fn lemma_verse_line_newlines(r: ScriptureView)
    requires
        forall|i: int| 0 <= i < r.text.len() ==> r.text[i] != 10,
    ensures
        count_byte(verse_line(r), 10) == 1,
{
    let num = i32_dec_rep(r.verse as int);
    lemma_numeral_no_newline(r.verse as int);
    lemma_count_byte_absent(num, 10);
    lemma_count_byte_absent(seq![58u8, 32u8], 10);
    lemma_count_byte_absent(r.text, 10);
    assert(count_byte(seq![10u8], 10) == 1) by {
        reveal_with_fuel(count_byte, 2);
        assert(seq![10u8].drop_last() =~= Seq::<u8>::empty());
    }
    lemma_count_byte_add(num, seq![58u8, 32u8], 10);
    lemma_count_byte_add(num + seq![58u8, 32u8], r.text, 10);
    lemma_count_byte_add(num + seq![58u8, 32u8] + r.text, seq![10u8], 10);
}

/// The verse lines hold one newline per record, when no verse text holds
/// one.
pub proof fn lemma_verse_lines_newlines(rs: Seq<ScriptureView>)
    requires
        forall|i: int| #![trigger rs[i]]
            0 <= i < rs.len() ==> forall|j: int|
                0 <= j < rs[i].text.len() ==> #[trigger] rs[i].text[j] != 10,
    ensures
        count_byte(verse_lines(rs), 10) == rs.len(),
    decreases rs.len(),
{
    if rs.len() > 0 {
        lemma_verse_lines_newlines(rs.drop_last());
        lemma_verse_line_newlines(rs.last());
        lemma_count_byte_add(verse_lines(rs.drop_last()), verse_line(rs.last()), 10);
    }
}

/// When at least one record matches, the report is exactly one header line
/// plus one line per matching record — its newline count is one more than
/// the number of matches — provided neither the book name shown nor any
/// matched verse text holds a newline itself. Together with
/// [`lemma_matches_agree_with_key`], the report never shows a record whose
/// book or chapter disagrees with the key.
pub proof fn lemma_report_lines(rs: Seq<ScriptureView>, k: KeyView)
    requires
        matching_records(rs, k).len() > 0,
        forall|i: int| #![trigger rs[i]]
            0 <= i < rs.len() ==> forall|j: int|
                0 <= j < rs[i].text.len() ==> #[trigger] rs[i].text[j] != 10,
        forall|i: int| #![trigger rs[i]]
            0 <= i < rs.len() ==> forall|j: int|
                0 <= j < rs[i].book_name.len() ==> #[trigger] rs[i].book_name[j] != 10,
    ensures
        count_byte(report(matching_records(rs, k)), 10) == 1 + matching_records(rs, k).len(),
{
    let m = matching_records(rs, k);
    lemma_matches_from_dataset(rs, k);
    assert forall|i: int| #![trigger m[i]]
        0 <= i < m.len() implies (forall|j: int|
        0 <= j < m[i].text.len() ==> #[trigger] m[i].text[j] != 10) by {
        let w = choose|w: int| 0 <= w < rs.len() && rs[w] == m[i];
    }
    assert(rs.contains(m[0]));
    let w0 = choose|w: int| 0 <= w < rs.len() && rs[w] == m[0];
    lemma_header_line_newlines(m[0]);
    lemma_verse_lines_newlines(m);
    lemma_count_byte_add(header_line(m[0]), verse_lines(m), 10);
}

} // verus!
