//! Decimal text for the numeric identifiers. The chat platform hands the
//! core 64-bit identifiers whose persisted form is their decimal string;
//! rendering and parsing are verified inverses of one another.

use vstd::prelude::*;

verus! {

pub open spec fn spec_is_digit(c: char) -> bool {
    48 <= c as int <= 57
}

pub open spec fn spec_digit_val(c: char) -> int {
    c as int - 48
}

pub open spec fn spec_all_digits(s: Seq<char>) -> bool {
    forall|i: int| 0 <= i < s.len() ==> spec_is_digit(#[trigger] s[i])
}

/// The number a digit string denotes (most significant digit first).
pub open spec fn spec_dec_value(s: Seq<char>) -> nat
    decreases s.len(),
{
    if s.len() == 0 {
        0
    } else {
        spec_dec_value(s.drop_last()) * 10 + (if spec_is_digit(s.last()) {
            spec_digit_val(s.last()) as nat
        } else {
            0
        })
    }
}

/// What parsing a decimal string yields: the denoted value, provided the
/// string is non-empty, all digits, and the value fits in 64 bits.
pub open spec fn spec_parse_u64(s: Seq<char>) -> Option<u64> {
    if s.len() > 0 && spec_all_digits(s) && spec_dec_value(s) <= u64::MAX {
        Some(spec_dec_value(s) as u64)
    } else {
        None
    }
}

pub open spec fn spec_digit_char(d: nat) -> char {
    if d == 0 {
        '0'
    } else if d == 1 {
        '1'
    } else if d == 2 {
        '2'
    } else if d == 3 {
        '3'
    } else if d == 4 {
        '4'
    } else if d == 5 {
        '5'
    } else if d == 6 {
        '6'
    } else if d == 7 {
        '7'
    } else if d == 8 {
        '8'
    } else {
        '9'
    }
}

/// The decimal rendering of a number, without leading zeros.
pub open spec fn spec_dec_seq(n: nat) -> Seq<char>
    decreases n,
{
    if n < 10 {
        seq![spec_digit_char(n)]
    } else {
        spec_dec_seq(n / 10).push(spec_digit_char(n % 10))
    }
}

/// Extending a digit string by further digits never shrinks its value.
proof fn lemma_dec_value_prefix(s: Seq<char>, i: int)
    requires
        0 <= i <= s.len(),
    ensures
        spec_dec_value(s.take(i)) <= spec_dec_value(s),
    decreases s.len() - i,
{
    if i < s.len() {
        assert(s.take(i + 1).drop_last() =~= s.take(i));
        assert(spec_dec_value(s.take(i)) <= spec_dec_value(s.take(i + 1)));
        lemma_dec_value_prefix(s, i + 1);
    } else {
        assert(s.take(i) =~= s);
    }
}

/// Parse a decimal string: the value it denotes, if it is non-empty, all
/// digits, and in range.
pub fn parse_u64(s: &str) -> (r: Option<u64>)
    ensures
        r == spec_parse_u64(s@),
{
    let n = s.unicode_len();
    if n == 0 {
        return None;
    }
    let mut value: u64 = 0;
    let mut i: usize = 0;
    while i < n
        invariant
            0 < n == s@.len(),
            i <= n,
            spec_all_digits(s@.take(i as int)),
            value == spec_dec_value(s@.take(i as int)),
        decreases n - i,
    {
        let c = s.get_char(i);
        let code = c as u32;
        if code < 48 || code > 57 {
            proof {
                assert(!spec_is_digit(s@[i as int]));
            }
            return None;
        }
        let d = (code - 48) as u64;
        proof {
            assert(s@.take(i + 1 as int).drop_last() =~= s@.take(i as int));
            assert(s@.take(i + 1 as int).last() == s@[i as int]);
        }
        if value > (u64::MAX - d) / 10 {
            proof {
                assert(spec_dec_value(s@.take(i + 1 as int)) > u64::MAX);
                lemma_dec_value_prefix(s@, i + 1 as int);
            }
            return None;
        }
        value = value * 10 + d;
        i = i + 1;
    }
    proof {
        assert(s@.take(n as int) =~= s@);
    }
    Some(value)
}

/// One decimal digit as text.
fn digit_str(d: u64) -> (s: &'static str)
    requires
        d < 10,
    ensures
        s@ =~= seq![spec_digit_char(d as nat)],
{
    proof {
        reveal_strlit("0");
        reveal_strlit("1");
        reveal_strlit("2");
        reveal_strlit("3");
        reveal_strlit("4");
        reveal_strlit("5");
        reveal_strlit("6");
        reveal_strlit("7");
        reveal_strlit("8");
        reveal_strlit("9");
    }
    match d {
        0 => "0",
        1 => "1",
        2 => "2",
        3 => "3",
        4 => "4",
        5 => "5",
        6 => "6",
        7 => "7",
        8 => "8",
        _ => "9",
    }
}

/// Append the decimal rendering of `n`.
fn push_dec(n: u64, out: &mut String)
    ensures
        final(out)@ == old(out)@ + spec_dec_seq(n as nat),
    decreases n,
{
    if n >= 10 {
        push_dec(n / 10, out);
        out.append(digit_str(n % 10));
        proof {
            assert(final(out)@ =~= old(out)@ + spec_dec_seq(n as nat));
        }
    } else {
        out.append(digit_str(n));
        proof {
            assert(final(out)@ =~= old(out)@ + spec_dec_seq(n as nat));
        }
    }
}

/// The decimal string of a 64-bit identifier.
pub fn u64_to_string(n: u64) -> (r: String)
    ensures
        r@ == spec_dec_seq(n as nat),
{
    let mut out = String::new();
    push_dec(n, &mut out);
    proof {
        assert(out@ =~= spec_dec_seq(n as nat));
    }
    out
}

/// Rendering produces digits only, at least one of them.
pub proof fn lemma_dec_seq_digits(n: nat)
    ensures
        spec_dec_seq(n).len() > 0,
        spec_all_digits(spec_dec_seq(n)),
    decreases n,
{
    if n >= 10 {
        lemma_dec_seq_digits(n / 10);
    }
}

/// Rendering then parsing gives the number back.
pub proof fn lemma_dec_round_trip(n: u64)
    ensures
        spec_parse_u64(spec_dec_seq(n as nat)) == Some(n),
    decreases n,
{
    lemma_dec_seq_digits(n as nat);
    lemma_dec_value_of_dec_seq(n as nat);
}

/// A digit character carries the digit's value.
proof fn lemma_digit_char_val(d: nat)
    requires
        d < 10,
    ensures
        spec_is_digit(spec_digit_char(d)),
        spec_digit_val(spec_digit_char(d)) == d,
{
}

/// The rendered string denotes the number it was rendered from.
proof fn lemma_dec_value_of_dec_seq(n: nat)
    ensures
        spec_dec_value(spec_dec_seq(n)) == n,
    decreases n,
{
    if n < 10 {
        lemma_digit_char_val(n);
        assert(spec_dec_value(Seq::<char>::empty()) == 0);
        assert(spec_dec_seq(n).drop_last() =~= Seq::<char>::empty());
        assert(spec_dec_seq(n).last() == spec_digit_char(n));
        assert(spec_dec_value(spec_dec_seq(n)) == spec_dec_value(spec_dec_seq(n).drop_last()) * 10
            + spec_digit_val(spec_dec_seq(n).last()));
    } else {
        lemma_digit_char_val(n % 10);
        lemma_dec_value_of_dec_seq(n / 10);
        assert(spec_dec_seq(n).drop_last() =~= spec_dec_seq(n / 10));
        assert(spec_dec_seq(n).last() == spec_digit_char(n % 10));
        assert(spec_dec_value(spec_dec_seq(n)) == spec_dec_value(spec_dec_seq(n).drop_last()) * 10
            + spec_digit_val(spec_dec_seq(n).last()));
        assert(n / 10 * 10 + n % 10 == n) by (nonlinear_arith);
    }
}

} // verus!
