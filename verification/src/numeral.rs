//! Decimal numerals on byte strings: parsing a signed integer token (the
//! grammar `['+'|'-'] digit+`, as the standard integer parser accepts), and
//! rendering a signed integer back to its decimal digits.

use vstd::prelude::*;

verus! {

/// `b` is an ASCII decimal digit.
pub open spec fn is_digit(b: u8) -> bool {
    48 <= b <= 57
}

/// Every byte of `s` is an ASCII decimal digit.
pub open spec fn is_digit_seq(s: Seq<u8>) -> bool {
    forall|i: int| 0 <= i < s.len() ==> is_digit(s[i])
}

/// The value of a digit string read in base 10 (0 for the empty string).
pub open spec fn digits_value(s: Seq<u8>) -> int
    decreases s.len(),
{
    if s.len() == 0 {
        0
    } else {
        digits_value(s.drop_last()) * 10 + (s.last() - 48)
    }
}

/// The digits of a token, after any single leading `+` or `-` sign.
pub open spec fn token_body(s: Seq<u8>) -> Seq<u8> {
    if s.len() > 0 && (s[0] == 43 || s[0] == 45) {
        s.drop_first()
    } else {
        s
    }
}

/// The token carries a leading `-` sign.
pub open spec fn token_negative(s: Seq<u8>) -> bool {
    s.len() > 0 && s[0] == 45
}

/// The token has the shape of a signed integer: an optional sign followed by
/// one or more digits.
pub open spec fn int_token_shape(s: Seq<u8>) -> bool {
    token_body(s).len() > 0 && is_digit_seq(token_body(s))
}

/// The signed value the token denotes (meaningful when it has integer shape).
pub open spec fn int_token_value(s: Seq<u8>) -> int {
    if token_negative(s) {
        -digits_value(token_body(s))
    } else {
        digits_value(token_body(s))
    }
}

/// The token parses as an `i32`: integer shape, and the value in range.
pub open spec fn parses_as_i32(s: Seq<u8>) -> bool {
    int_token_shape(s) && i32::MIN <= int_token_value(s) <= i32::MAX
}

/// A digit string has a nonnegative value.
pub proof fn lemma_digits_value_nonneg(s: Seq<u8>)
    requires
        is_digit_seq(s),
    ensures
        digits_value(s) >= 0,
    decreases s.len(),
{
    if s.len() > 0 {
        assert(is_digit_seq(s.drop_last()));
        lemma_digits_value_nonneg(s.drop_last());
    }
}

/// Extending a digit string can only grow its value.
pub proof fn lemma_digits_value_take_le(s: Seq<u8>, k: int)
    requires
        is_digit_seq(s),
        0 <= k <= s.len(),
    ensures
        digits_value(s.take(k)) <= digits_value(s),
    decreases s.len() - k,
{
    if k < s.len() {
        assert(is_digit_seq(s.drop_last()));
        assert(s.drop_last().take(k) =~= s.take(k));
        lemma_digits_value_take_le(s.drop_last(), k);
        lemma_digits_value_nonneg(s.drop_last());
        assert(is_digit(s[s.len() - 1]));
        assert(digits_value(s) == digits_value(s.drop_last()) * 10 + (s.last() - 48));
        assert(digits_value(s.drop_last()) * 10 >= digits_value(s.drop_last()));
        assert(digits_value(s) >= digits_value(s.drop_last()));
    } else {
        assert(s.take(k) =~= s);
    }
}

/// Parses a byte-string token as an `i32`, exactly as the standard integer
/// parser would: `None` if the token is not an optionally signed digit string
/// or its value does not fit.
pub fn parse_i32(s: &Vec<u8>) -> (r: Option<i32>)
    ensures
        match r {
            Some(v) => parses_as_i32(s@) && v as int == int_token_value(s@),
            None => !parses_as_i32(s@),
        },
{
    let n = s.len();
    if n == 0 {
        return None;
    }
    let b0 = s[0];
    let neg = b0 == 45;
    let start: usize = if b0 == 43 || b0 == 45 {
        1
    } else {
        0
    };
    if start == n {
        return None;
    }
    let ghost body = token_body(s@);
    proof {
        assert(body =~= s@.subrange(start as int, n as int));
    }
    let mut i: usize = start;
    let mut acc: u64 = 0;
    while i < n
        invariant
            start <= i <= n == s@.len(),
            start < n,
            body == s@.subrange(start as int, n as int),
            body == token_body(s@),
            is_digit_seq(body.take(i - start)),
            acc as int == digits_value(body.take(i - start)),
            acc <= 0x8000_0000u64,
        decreases n - i,
    {
        let d = s[i];
        if d < 48 || d > 57 {
            proof {
                assert(!is_digit(body[i - start]));
            }
            return None;
        }
        proof {
            let k = i - start;
            assert(body.take(k + 1).drop_last() =~= body.take(k));
            assert(body.take(k + 1).last() == body[k]);
            assert(digits_value(body.take(k + 1)) == digits_value(body.take(k)) * 10 + (d - 48));
        }
        acc = acc * 10 + ((d - 48) as u64);
        i += 1;
        if acc > 0x8000_0000u64 {
            proof {
                if is_digit_seq(body) {
                    lemma_digits_value_take_le(body, i - start);
                    assert(digits_value(body) >= acc as int);
                }
            }
            return None;
        }
    }
    proof {
        assert(body.take(n - start) =~= body);
    }
    if neg {
        let v: i64 = -(acc as i64);
        return Some(v as i32);
    }
    if acc > 0x7FFF_FFFFu64 {
        return None;
    }
    Some(acc as i32)
}

/// The decimal digits of a nonnegative integer, most significant first.
pub open spec fn dec_rep_nat(n: int) -> Seq<u8>
    decreases n,
{
    if n < 10 {
        seq![(48 + if 0 <= n { n } else { 0 }) as u8]
    } else {
        dec_rep_nat(n / 10).push((48 + n % 10) as u8)
    }
}

/// The decimal rendering of a signed integer: a `-` sign before the digits of
/// the magnitude when negative.
pub open spec fn i32_dec_rep(n: int) -> Seq<u8> {
    if n < 0 {
        seq![45u8] + dec_rep_nat(-n)
    } else {
        dec_rep_nat(n)
    }
}

/// Renders `n` in decimal, as its standard display form.
pub fn format_i32(n: i32) -> (r: Vec<u8>)
    ensures
        r@ == i32_dec_rep(n as int),
{
    let neg = n < 0;
    let mut mag: u32 = if n < 0 {
        (-(n as i64)) as u32
    } else {
        n as u32
    };
    let ghost orig: int = mag as int;
    let mut rev: Vec<u8> = Vec::new();
    loop
        invariant_except_break
            dec_rep_nat(orig) == dec_rep_nat(mag as int) + rev@.reverse(),
        ensures
            dec_rep_nat(orig) == rev@.reverse(),
        decreases mag,
    {
        let d: u8 = (mag % 10) as u8;
        proof {
            assert((rev@.push((48 + d) as u8)).reverse() =~= seq![(48 + d) as u8]
                + rev@.reverse());
        }
        rev.push(48 + d);
        if mag < 10 {
            proof {
                assert(dec_rep_nat(mag as int) == seq![(48 + d) as u8]);
                assert(dec_rep_nat(orig) =~= rev@.reverse());
            }
            break;
        }
        proof {
            assert(dec_rep_nat(mag as int) == dec_rep_nat(mag as int / 10).push(
                (48 + mag as int % 10) as u8,
            ));
            assert(dec_rep_nat(mag as int / 10).push((48 + d) as u8) =~= dec_rep_nat(
                mag as int / 10,
            ) + seq![(48 + d) as u8]);
            assert(dec_rep_nat(orig) =~= dec_rep_nat(mag as int / 10) + rev@.reverse());
        }
        mag = mag / 10;
    }
    let mut out: Vec<u8> = Vec::new();
    let ghost sign: Seq<u8> = if neg {
        seq![45u8]
    } else {
        Seq::empty()
    };
    if neg {
        out.push(45);
    }
    let ghost off: int = out@.len() as int;
    let len = rev.len();
    let mut j: usize = 0;
    while j < len
        invariant
            j <= len == rev@.len(),
            out@.len() == off + j,
            off == sign.len(),
            out@.subrange(0, off) =~= sign,
            forall|k: int| 0 <= k < j ==> #[trigger] out@[off + k] == rev@[len - 1 - k],
        decreases len - j,
    {
        out.push(rev[len - 1 - j]);
        j += 1;
    }
    proof {
        let full = sign + rev@.reverse();
        assert(rev@.reverse().len() == len);
        assert(out@.len() == full.len());
        assert forall|i: int| 0 <= i < out@.len() implies out@[i] == full[i] by {
            if i < off {
                assert(out@.subrange(0, off)[i] == out@[i]);
                assert(out@[i] == sign[i]);
            } else {
                assert(out@[off + (i - off)] == rev@[len - 1 - (i - off)]);
                assert(rev@.reverse()[i - off] == rev@[len - 1 - (i - off)]);
            }
        }
        assert(out@ =~= full);
        assert(rev@.reverse() == dec_rep_nat(orig));
        assert(out@ == i32_dec_rep(n as int));
    }
    out
}

} // verus!
