//! Rendering matched verses as a text report, and the fixed messages the
//! tool prints.

use vstd::prelude::*;
use vstd::string::StrSliceExecFns;
use vstd::string::StringSliceAdditionalSpecFns;
use crate::bytes::push_all;
use crate::numeral::{format_i32, i32_dec_rep};
use crate::records::{Scripture, ScriptureView, views_of};

verus! {

/// The message printed when no record answers the key.
pub open spec fn not_found_message() -> Seq<u8> {
    "Could not find that scripture\n".spec_bytes()
}

/// The usage hint printed when too few arguments are given.
pub open spec fn usage_message() -> Seq<u8> {
    "Usage: `bibterm [book] [chapter] [verses]`\n".spec_bytes()
}

/// The guidance printed when the lookup key cannot be parsed.
pub open spec fn parse_error_message() -> Seq<u8> {
    "Error parsing scripture lookup key\nPlease ensure you enter a valid book, chapter, and verse\n".spec_bytes()
}

/// The report's first line: the book name and chapter of the first match,
/// as `<book name> <chapter>:`.
pub open spec fn header_line(r: ScriptureView) -> Seq<u8> {
    r.book_name + seq![32u8] + i32_dec_rep(r.chapter as int) + seq![58u8, 10u8]
}

/// One verse's line, flush with the margin: `<verse>: <text>`.
pub open spec fn verse_line(r: ScriptureView) -> Seq<u8> {
    i32_dec_rep(r.verse as int) + seq![58u8, 32u8] + r.text + seq![10u8]
}

/// The verse lines of all matches, in order.
pub open spec fn verse_lines(rs: Seq<ScriptureView>) -> Seq<u8>
    decreases rs.len(),
{
    if rs.len() == 0 {
        Seq::empty()
    } else {
        verse_lines(rs.drop_last()) + verse_line(rs.last())
    }
}

/// The whole report: a header from the first match and one line per match,
/// or the not-found message when nothing matched.
pub open spec fn report(rs: Seq<ScriptureView>) -> Seq<u8> {
    if rs.len() > 0 {
        header_line(rs[0]) + verse_lines(rs)
    } else {
        not_found_message()
    }
}

/// The single-verse report: `<book name> <chapter>:<verse>`, then the verse
/// text on its own tab-indented line; or the not-found message when nothing
/// matched.
pub open spec fn single_report(m: Option<ScriptureView>) -> Seq<u8> {
    match m {
        Option::Some(r) => r.book_name + seq![32u8] + i32_dec_rep(r.chapter as int) + seq![58u8]
            + i32_dec_rep(r.verse as int) + seq![10u8, 9u8] + r.text + seq![10u8],
        Option::None => not_found_message(),
    }
}

/// The not-found message as bytes.
pub fn not_found_text() -> (r: Vec<u8>)
    ensures
        r@ == not_found_message(),
{
    ("Could not find that scripture\n").as_bytes_vec()
}

/// The usage hint as bytes.
pub fn usage_text() -> (r: Vec<u8>)
    ensures
        r@ == usage_message(),
{
    ("Usage: `bibterm [book] [chapter] [verses]`\n").as_bytes_vec()
}

/// The parse-error guidance as bytes.
pub fn parse_error_text() -> (r: Vec<u8>)
    ensures
        r@ == parse_error_message(),
{
    ("Error parsing scripture lookup key\nPlease ensure you enter a valid book, chapter, and verse\n").as_bytes_vec()
}

/// Renders the one matched record, or its absence, as the single-verse
/// report.
pub fn render_single_report(m: &Option<Scripture>) -> (out: Vec<u8>)
    ensures
        out@ == (match m {
            Option::Some(rec) => single_report(Some(rec@)),
            Option::None => single_report(None),
        }),
{
    match m {
        Option::None => not_found_text(),
        Option::Some(rec) => {
            let mut out: Vec<u8> = Vec::new();
            push_all(&mut out, &rec.book_name);
            out.push(32);
            let chap = format_i32(rec.chapter);
            push_all(&mut out, &chap);
            out.push(58);
            let verse = format_i32(rec.verse);
            push_all(&mut out, &verse);
            out.push(10);
            out.push(9);
            push_all(&mut out, &rec.text);
            out.push(10);
            proof {
                assert(out@ =~= single_report(Some(rec@)));
            }
            out
        },
    }
}

/// Renders the matched records as the report the tool prints.
pub fn render_report(matches: &Vec<Scripture>) -> (out: Vec<u8>)
    ensures
        out@ == report(views_of(matches@)),
{
    let ghost vs = views_of(matches@);
    if matches.len() == 0 {
        return not_found_text();
    }
    let mut out: Vec<u8> = Vec::new();
    push_all(&mut out, &matches[0].book_name);
    out.push(32);
    let chap = format_i32(matches[0].chapter);
    push_all(&mut out, &chap);
    out.push(58);
    out.push(10);
    proof {
        assert(out@ =~= header_line(vs[0]));
        assert(verse_lines(vs.take(0)) =~= Seq::<u8>::empty());
        assert(out@ =~= header_line(vs[0]) + verse_lines(vs.take(0)));
    }
    let mut i: usize = 0;
    while i < matches.len()
        invariant
            i <= matches@.len(),
            vs == views_of(matches@),
            vs.len() == matches@.len() > 0,
            out@ == header_line(vs[0]) + verse_lines(vs.take(i as int)),
        decreases matches@.len() - i,
    {
        let ghost prev = out@;
        let v = format_i32(matches[i].verse);
        push_all(&mut out, &v);
        out.push(58);
        out.push(32);
        push_all(&mut out, &matches[i].text);
        out.push(10);
        proof {
            assert(out@ =~= prev + verse_line(vs[i as int]));
            assert(vs.take(i + 1).drop_last() =~= vs.take(i as int));
            assert(vs.take(i + 1).last() == vs[i as int]);
            assert(verse_lines(vs.take(i + 1)) == verse_lines(vs.take(i as int)) + verse_line(
                vs[i as int],
            ));
            assert(out@ =~= header_line(vs[0]) + verse_lines(vs.take(i + 1)));
        }
        i += 1;
    }
    proof {
        assert(vs.take(matches@.len() as int) =~= vs);
    }
    out
}

} // verus!
