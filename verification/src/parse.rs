//! Building a lookup key from the command-line arguments.
//!
//! The argument list is taken whole, program name first, as the process
//! received it. With too few arguments the outcome is the usage hint; with a
//! chapter, range bound or verse token that is not an integer, the outcome is
//! a parse failure; otherwise a key.

use vstd::prelude::*;
use crate::bytes::{clone_bytes, find_byte, first_pos, push_all, subvec};
use crate::numeral::{int_token_value, parse_i32, parses_as_i32};
use crate::records::{KeyView, LookupKey};

verus! {

/// The byte-string values of an argument list.
pub open spec fn arg_views(args: Seq<Vec<u8>>) -> Seq<Seq<u8>> {
    args.map_values(|v: Vec<u8>| v@)
}

/// Fewer than three meaningful arguments after the program name.
pub open spec fn too_few_args(args: Seq<Seq<u8>>) -> bool {
    args.len() < 4
}

/// The first argument is itself an integer, so it is a numeric book prefix
/// (as in `2 John`) to be joined with the next token.
pub open spec fn book_is_prefixed(args: Seq<Seq<u8>>) -> bool {
    parses_as_i32(args[1])
}

/// The book string the arguments name: the first argument, or the numeric
/// prefix and the following token joined by one space.
pub open spec fn spec_book(args: Seq<Seq<u8>>) -> Seq<u8> {
    if book_is_prefixed(args) {
        args[1] + seq![32u8] + args[2]
    } else {
        args[1]
    }
}

/// Where the chapter token stands: one further along when the book is
/// numeric-prefixed.
pub open spec fn chapter_index(args: Seq<Seq<u8>>) -> int {
    if book_is_prefixed(args) {
        3
    } else {
        2
    }
}

/// The tokens after the chapter: the verse specification.
pub open spec fn verse_tokens(args: Seq<Seq<u8>>) -> Seq<Seq<u8>> {
    args.skip(chapter_index(args) + 1)
}

/// The token holds a hyphen, so it is read as an inclusive range.
pub open spec fn is_range_token(t: Seq<u8>) -> bool {
    first_pos(t, 45) >= 0
}

/// The bytes before the first hyphen: the range's first bound.
pub open spec fn range_start_tok(t: Seq<u8>) -> Seq<u8> {
    t.take(first_pos(t, 45))
}

/// The bytes between the first hyphen and the second (or the end): the
/// range's second bound. Anything after a second hyphen is ignored.
pub open spec fn range_end_tok(t: Seq<u8>) -> Seq<u8> {
    let rest = t.skip(first_pos(t, 45) + 1);
    if first_pos(rest, 45) == -1 {
        rest
    } else {
        rest.take(first_pos(rest, 45))
    }
}

/// Both bounds of the range token parse as integers.
pub open spec fn range_token_parses(t: Seq<u8>) -> bool {
    parses_as_i32(range_start_tok(t)) && parses_as_i32(range_end_tok(t))
}

/// Every integer from `start` to `end` inclusive, ascending; empty when the
/// bounds are reversed.
pub open spec fn range_values(start: int, end: int) -> Seq<i32> {
    Seq::new(
        if start <= end {
            (end - start + 1) as nat
        } else {
            0
        },
        |i: int| (start + i) as i32,
    )
}

/// The verse tokens parse: there is at least one; a first token with a
/// hyphen parses as a range, and otherwise every token parses as an integer.
pub open spec fn verse_spec_parses(toks: Seq<Seq<u8>>) -> bool {
    &&& toks.len() >= 1
    &&& if is_range_token(toks[0]) {
        range_token_parses(toks[0])
    } else {
        forall|i: int| 0 <= i < toks.len() ==> parses_as_i32(toks[i])
    }
}

/// The verses the tokens ask for: the range's values, or each token's value
/// in the order given.
pub open spec fn spec_verses(toks: Seq<Seq<u8>>) -> Seq<i32> {
    if is_range_token(toks[0]) {
        range_values(
            int_token_value(range_start_tok(toks[0])),
            int_token_value(range_end_tok(toks[0])),
        )
    } else {
        Seq::new(toks.len(), |i: int| int_token_value(toks[i]) as i32)
    }
}

/// The whole argument list yields a key: enough arguments, an integer
/// chapter, and a verse specification that parses.
pub open spec fn key_parses(args: Seq<Seq<u8>>) -> bool {
    &&& args.len() >= 4
    &&& parses_as_i32(args[chapter_index(args)])
    &&& verse_spec_parses(verse_tokens(args))
}

/// The key the argument list yields (meaningful when `key_parses`).
pub open spec fn spec_key(args: Seq<Seq<u8>>) -> KeyView {
    KeyView {
        book: spec_book(args),
        chapter: int_token_value(args[chapter_index(args)]) as i32,
        verses: spec_verses(verse_tokens(args)),
    }
}

/// What argument parsing decides: print the usage hint (exit status 1),
/// report a key that would not parse (exit status 2), or look the key up.
pub enum ParseOutcome {
    Usage,
    Invalid,
    Key(LookupKey),
}

impl ParseOutcome {
    /// The process exit status for this outcome. A produced key exits 0
    /// whether or not anything matches.
    pub fn exit_code(&self) -> (c: i32)
        ensures
            c == (match self {
                ParseOutcome::Usage => 1int,
                ParseOutcome::Invalid => 2int,
                ParseOutcome::Key(_) => 0int,
            }),
    {
        match self {
            ParseOutcome::Usage => 1,
            ParseOutcome::Invalid => 2,
            ParseOutcome::Key(_) => 0,
        }
    }
}

/// Parses the full argument list (program name first) into a lookup key, or
/// decides which failure the tool reports.
pub fn parse_args(args: &Vec<Vec<u8>>) -> (r: ParseOutcome)
    ensures
        (match r {
            ParseOutcome::Usage => too_few_args(arg_views(args@)),
            ParseOutcome::Invalid => !too_few_args(arg_views(args@)) && !key_parses(
                arg_views(args@),
            ),
            ParseOutcome::Key(key) => key_parses(arg_views(args@)) && key@ == spec_key(
                arg_views(args@),
            ),
        }),
{
    let ghost a = arg_views(args@);
    if args.len() < 4 {
        return ParseOutcome::Usage;
    }
    let prefixed = parse_i32(&args[1]).is_some();
    let mut book: Vec<u8>;
    let ci: usize;
    if prefixed {
        book = clone_bytes(&args[1]);
        book.push(32);
        push_all(&mut book, &args[2]);
        ci = 3;
        proof {
            assert(book@ =~= spec_book(a));
        }
    } else {
        book = clone_bytes(&args[1]);
        ci = 2;
    }
    proof {
        assert(book@ == spec_book(a));
        assert(ci as int == chapter_index(a));
    }
    let chapter: i32 = match parse_i32(&args[ci]) {
        Some(c) => c,
        None => {
            return ParseOutcome::Invalid;
        },
    };
    let vstart = ci + 1;
    if vstart >= args.len() {
        proof {
            assert(verse_tokens(a).len() == 0);
        }
        return ParseOutcome::Invalid;
    }
    let ghost toks = verse_tokens(a);
    proof {
        assert(toks.len() == a.len() - vstart);
        assert(forall|k: int| 0 <= k < toks.len() ==> toks[k] == a[vstart + k]);
    }
    let first = &args[vstart];
    match find_byte(first, 45) {
        Some(h) => {
            proof {
                crate::bytes::lemma_first_pos(first@, 45);
                assert(first_pos(first@, 45) == h as int);
                assert((h as int) < first@.len());
            }
            let start_tok = subvec(first, 0, h);
            let flen = first.len();
            let rest = subvec(first, h + 1, flen);
            proof {
                assert(start_tok@ == range_start_tok(toks[0]));
                assert(rest@ =~= first@.skip(h + 1));
            }
            let end_tok: Vec<u8> = match find_byte(&rest, 45) {
                Some(h2) => {
                    proof {
                        crate::bytes::lemma_first_pos(rest@, 45);
                    }
                    subvec(&rest, 0, h2)
                },
                None => rest,
            };
            proof {
                assert(end_tok@ == range_end_tok(toks[0]));
            }
            let sv: i32 = match parse_i32(&start_tok) {
                Some(v) => v,
                None => {
                    return ParseOutcome::Invalid;
                },
            };
            let ev: i32 = match parse_i32(&end_tok) {
                Some(v) => v,
                None => {
                    return ParseOutcome::Invalid;
                },
            };
            let mut verses: Vec<i32> = Vec::new();
            if sv <= ev {
                let mut v: i32 = sv;
                loop
                    invariant_except_break
                        sv <= v <= ev,
                        verses@.len() == v - sv,
                        forall|k: int|
                            0 <= k < verses@.len() ==> verses@[k] == (sv + k) as i32,
                    ensures
                        verses@.len() == ev - sv + 1,
                        forall|k: int|
                            0 <= k < verses@.len() ==> verses@[k] == (sv + k) as i32,
                    decreases ev - v,
                {
                    verses.push(v);
                    if v == ev {
                        break;
                    }
                    v = v + 1;
                }
            }
            proof {
                assert(verses@ =~= spec_verses(toks));
            }
            ParseOutcome::Key(LookupKey { book, chapter, verses })
        },
        None => {
            let mut verses: Vec<i32> = Vec::new();
            let mut i: usize = vstart;
            while i < args.len()
                invariant
                    vstart <= i <= a.len(),
                    vstart < a.len(),
                    a.len() >= 4,
                    a == arg_views(args@),
                    toks == verse_tokens(a),
                    toks.len() == a.len() - vstart,
                    forall|k: int| 0 <= k < toks.len() ==> toks[k] == a[vstart + k],
                    !is_range_token(toks[0]),
                    verses@.len() == i - vstart,
                    forall|k: int|
                        0 <= k < verses@.len() ==> verses@[k] as int == int_token_value(
                            toks[k],
                        ),
                    forall|k: int| 0 <= k < i - vstart ==> parses_as_i32(toks[k]),
                decreases a.len() - i,
            {
                match parse_i32(&args[i]) {
                    Some(v) => {
                        verses.push(v);
                    },
                    None => {
                        proof {
                            assert(!parses_as_i32(toks[i - vstart]));
                        }
                        return ParseOutcome::Invalid;
                    },
                }
                i += 1;
            }
            proof {
                assert(verses@ =~= spec_verses(toks));
            }
            ParseOutcome::Key(LookupKey { book, chapter, verses })
        },
    }
}

} // verus!
