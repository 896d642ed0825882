//! Decimal text: formatting integers, parsing integers and decimal
//! frequencies, and joining lines.

use vstd::prelude::*;

verus! {

/// The digit character for a value below ten.
pub open spec fn dec_digit(d: nat) -> char {
    ((d + 48) as u8) as char
}

/// The decimal representation of a natural number, most significant digit
/// first, without padding.
pub open spec fn dec_str(n: nat) -> Seq<char>
    decreases n,
{
    if n < 10 {
        seq![dec_digit(n)]
    } else {
        dec_str(n / 10).push(dec_digit(n % 10))
    }
}

/// The decimal representation of a signed number: a minus sign before the
/// magnitude for negative values.
pub open spec fn dec_str_i64(v: int) -> Seq<char> {
    if v >= 0 {
        dec_str(v as nat)
    } else {
        seq!['-'] + dec_str((-v) as nat)
    }
}

/// Relies on the standard decimal `Display` of `u64` (via `to_string`):
/// the result is the plain base-ten digit string of the value.
#[verifier::external_body]
pub fn fmt_u64(v: u64) -> (r: String)
    ensures
        r@ == dec_str(v as nat),
{
    v.to_string()
}

/// Format a signed number in decimal.
pub fn fmt_i64(v: i64) -> (r: String)
    ensures
        r@ == dec_str_i64(v as int),
{
    if v >= 0 {
        let r = fmt_u64(v as u64);
        r
    } else {
        let mag: u64 = ((-(v + 1)) as u64) + 1;
        proof {
            assert(mag as int == -(v as int));
        }
        let digits = fmt_u64(mag);
        let mut r = String::from_str("-");
        proof {
            reveal_strlit("-");
            assert(r@ =~= seq!['-']);
        }
        r.append(digits.as_str());
        r
    }
}

/// Whether a character is a decimal digit.
pub open spec fn is_dec_digit(c: char) -> bool {
    '0' <= c && c <= '9'
}

/// The value of a digit character.
pub open spec fn digit_val(c: char) -> nat {
    (c as nat - 48) as nat
}

/// Whether every character of a sequence is a decimal digit.
pub open spec fn all_digits(s: Seq<char>) -> bool {
    forall|i: int| 0 <= i < s.len() ==> is_dec_digit(#[trigger] s[i])
}

/// The numeric value of a digit sequence, most significant digit first.
pub open spec fn digits_val(s: Seq<char>) -> nat
    decreases s.len(),
{
    if s.len() == 0 {
        0
    } else {
        digits_val(s.drop_last()) * 10 + digit_val(s.last())
    }
}

proof fn lemma_digits_val_prefix_le(s: Seq<char>, k: int)
    requires
        0 <= k <= s.len(),
    ensures
        digits_val(s.subrange(0, k)) <= digits_val(s),
    decreases s.len(),
{
    if k < s.len() {
        assert(s.drop_last() =~= s.subrange(0, s.len() - 1));
        lemma_digits_val_prefix_le(s.drop_last(), k);
        assert(s.drop_last().subrange(0, k) =~= s.subrange(0, k));
    } else {
        assert(s.subrange(0, k) =~= s);
    }
}

/// A parsed unsigned decimal number: an optional plus sign, then at least
/// one digit, the value fitting the type; anything else is nothing.
pub open spec fn spec_parse_u64(s: Seq<char>) -> Option<u64> {
    let body = if s.len() > 0 && s[0] == '+' {
        s.drop_first()
    } else {
        s
    };
    if body.len() == 0 || !all_digits(body) {
        None
    } else if digits_val(body) > u64::MAX {
        None
    } else {
        Some(digits_val(body) as u64)
    }
}

/// Parse an unsigned decimal number as `str::parse::<u64>` reads it: an
/// optional plus sign, then digits, rejecting overflow.
pub fn parse_u64(s: &String) -> (r: Option<u64>)
    ensures
        r == spec_parse_u64(s@),
{
    let st: &str = s.as_str();
    let n: usize = st.unicode_len();
    let start: usize = if n > 0 && st.get_char(0) == '+' {
        1
    } else {
        0
    };
    let ghost body = if s@.len() > 0 && s@[0] == '+' {
        s@.drop_first()
    } else {
        s@
    };
    proof {
        assert(body =~= s@.subrange(start as int, n as int));
    }
    if start == n {
        return None;
    }
    let mut i: usize = start;
    let mut val: u64 = 0;
    while i < n
        invariant
            start <= i <= n,
            n == s@.len(),
            st@ == s@,
            body == (if s@.len() > 0 && s@[0] == '+' {
                s@.drop_first()
            } else {
                s@
            }),
            body == s@.subrange(start as int, n as int),
            body.len() == n - start,
            all_digits(s@.subrange(start as int, i as int)),
            val as nat == digits_val(s@.subrange(start as int, i as int)),
        decreases n - i,
    {
        let c: char = st.get_char(i);
        if !(c >= '0' && c <= '9') {
            proof {
                assert(body[i - start] == c);
                assert(!is_dec_digit(body[i - start]));
                assert(!all_digits(body));
            }
            return None;
        }
        let d: u64 = (c as u32 - 48) as u64;
        proof {
            assert(d as nat == digit_val(c));
        }
        let wide: u128 = (val as u128) * 10 + (d as u128);
        if wide > u64::MAX as u128 {
            proof {
                let pre = s@.subrange(start as int, i as int + 1);
                assert(pre.drop_last() =~= s@.subrange(start as int, i as int));
                assert(pre.last() == c);
                assert(digits_val(pre) == val as nat * 10 + digit_val(c));
                assert(digits_val(pre) > u64::MAX);
                assert(body.subrange(0, i as int + 1 - start) =~= pre);
                lemma_digits_val_prefix_le(body, i as int + 1 - start);
                assert(digits_val(body) > u64::MAX);
            }
            return None;
        }
        proof {
            let pre = s@.subrange(start as int, i as int + 1);
            assert(pre.drop_last() =~= s@.subrange(start as int, i as int));
            assert(pre.last() == c);
            assert(digits_val(pre) == val as nat * 10 + digit_val(c));
            assert(body[i - start] == c && is_dec_digit(body[i - start]));
            assert(all_digits(s@.subrange(start as int, i as int + 1)));
        }
        val = wide as u64;
        i += 1;
    }
    proof {
        assert(s@.subrange(start as int, n as int) =~= body);
    }
    Some(val)
}

/// A parsed `u16`, by the same reading with the smaller bound.
pub open spec fn spec_parse_u16(s: Seq<char>) -> Option<u16> {
    match spec_parse_u64(s) {
        Some(v) => if v > u16::MAX {
            None
        } else {
            Some(v as u16)
        },
        None => None,
    }
}

/// Parse an unsigned 16-bit decimal number.
pub fn parse_u16(s: &String) -> (r: Option<u16>)
    ensures
        r == spec_parse_u16(s@),
{
    match parse_u64(s) {
        Some(v) => if v > u16::MAX as u64 {
            None
        } else {
            Some(v as u16)
        },
        None => None,
    }
}

/// Lines joined by a line feed, with no trailing separator.
pub open spec fn spec_join_lines(ls: Seq<Seq<char>>) -> Seq<char>
    decreases ls.len(),
{
    if ls.len() == 0 {
        Seq::empty()
    } else if ls.len() == 1 {
        ls[0]
    } else {
        spec_join_lines(ls.drop_last()) + seq!['\n'] + ls.last()
    }
}

/// Join text lines with a line feed between them.
pub fn join_lines(lines: &Vec<String>) -> (r: String)
    ensures
        r@ == spec_join_lines(lines@.map_values(|s: String| s@)),
{
    let ghost ls = lines@.map_values(|s: String| s@);
    let n: usize = lines.len();
    let mut acc = String::new();
    let mut i: usize = 0;
    while i < n
        invariant
            i <= n,
            n == lines@.len(),
            ls == lines@.map_values(|s: String| s@),
            acc@ == spec_join_lines(ls.subrange(0, i as int)),
        decreases n - i,
    {
        if i > 0 {
            acc.append("\n");
            proof {
                reveal_strlit("\n");
                assert("\n"@ =~= seq!['\n']);
            }
        }
        acc.append(lines[i].as_str());
        proof {
            let pre = ls.subrange(0, i as int + 1);
            assert(pre.drop_last() =~= ls.subrange(0, i as int));
            assert(pre.last() == ls[i as int]);
            if i == 0 {
                assert(acc@ =~= spec_join_lines(pre));
            }
        }
        i += 1;
    }
    proof {
        assert(ls.subrange(0, n as int) =~= ls);
    }
    acc
}


/// Ten to a power.
pub open spec fn pow10(n: nat) -> int
    decreases n,
{
    if n == 0 {
        1
    } else {
        10 * pow10((n - 1) as nat)
    }
}

/// `pow10` of a small exponent is positive and fits the bound the
/// comparison arithmetic needs.
pub proof fn lemma_pow10_bounds(n: nat)
    requires
        n <= 18,
    ensures
        1 <= pow10(n) <= 1_000_000_000_000_000_000,
{
    lemma_pow10_pos(n);
    lemma_pow10_mono_le(n, 18);
    lemma_pow10_eighteen();
}

proof fn lemma_pow10_pos(n: nat)
    ensures
        pow10(n) >= 1,
    decreases n,
{
    if n > 0 {
        lemma_pow10_pos((n - 1) as nat);
    }
}

/// `pow10` grows with the exponent.
pub proof fn lemma_pow10_mono_le(m: nat, n: nat)
    requires
        m <= n,
    ensures
        pow10(m) <= pow10(n),
    decreases n,
{
    if m < n {
        lemma_pow10_mono_le(m, (n - 1) as nat);
        lemma_pow10_pos((n - 1) as nat);
        assert(pow10(n) == 10 * pow10((n - 1) as nat));
    }
}

proof fn lemma_pow10_eighteen()
    ensures
        pow10(18) == 1_000_000_000_000_000_000,
{
    assert(pow10(0) == 1);
    assert(pow10(1) == 10);
    assert(pow10(2) == 100);
    assert(pow10(3) == 1000);
    assert(pow10(4) == 10000);
    assert(pow10(5) == 100000);
    assert(pow10(6) == 1000000);
    assert(pow10(7) == 10000000);
    assert(pow10(8) == 100000000);
    assert(pow10(9) == 1000000000);
    assert(pow10(10) == 10000000000);
    assert(pow10(11) == 100000000000);
    assert(pow10(12) == 1000000000000);
    assert(pow10(13) == 10000000000000);
    assert(pow10(14) == 100000000000000);
    assert(pow10(15) == 1000000000000000);
    assert(pow10(16) == 10000000000000000);
    assert(pow10(17) == 100000000000000000);
    assert(pow10(18) == 1000000000000000000);
}

/// Compute ten to a power.
pub fn pow10_i64(n: u32) -> (r: i64)
    requires
        n <= 18,
    ensures
        r as int == pow10(n as nat),
        1 <= r <= 1_000_000_000_000_000_000,
{
    proof {
        lemma_pow10_bounds(n as nat);
    }
    let mut r: i64 = 1;
    let mut i: u32 = 0;
    while i < n
        invariant
            i <= n,
            n <= 18,
            r as int == pow10(i as nat),
            1 <= r <= 1_000_000_000_000_000_000,
        decreases n - i,
    {
        proof {
            lemma_pow10_bounds((i + 1) as nat);
        }
        r = r * 10;
        i = i + 1;
    }
    r
}

} // verus!
