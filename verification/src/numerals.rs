//! Decimal numerals: recognising and reading signed and unsigned 32-bit
//! integer literals, and printing values back as decimal text.

use vstd::prelude::*;

verus! {

/// An ASCII decimal digit.
pub open spec fn is_digit(c: char) -> bool {
    '0' <= c && c <= '9'
}

/// The numeric value of a digit character.
pub open spec fn digit_value(c: char) -> int {
    c as int - '0' as int
}

/// Every character of the sequence is a decimal digit.
pub open spec fn all_digits(s: Seq<char>) -> bool {
    forall|i: int| 0 <= i < s.len() ==> is_digit(#[trigger] s[i])
}

/// The value of a digit string, most significant digit first.
pub open spec fn digits_value(s: Seq<char>) -> int
    decreases s.len(),
{
    if s.len() == 0 {
        0
    } else {
        digits_value(s.drop_last()) * 10 + digit_value(s.last())
    }
}

pub proof fn lemma_digits_value_nonneg(s: Seq<char>)
    requires
        all_digits(s),
    ensures
        digits_value(s) >= 0,
    decreases s.len(),
{
    if s.len() > 0 {
        assert(all_digits(s.drop_last()));
        lemma_digits_value_nonneg(s.drop_last());
    }
}

/// Extending a digit string can only grow its value.
pub proof fn lemma_digits_value_prefix_le(s: Seq<char>, j: int)
    requires
        all_digits(s),
        0 <= j <= s.len(),
    ensures
        digits_value(s.take(j)) <= digits_value(s),
    decreases s.len() - j,
{
    if j == s.len() {
        assert(s.take(j) =~= s);
    } else {
        lemma_digits_value_prefix_le(s, j + 1);
        assert(s.take(j + 1).drop_last() =~= s.take(j));
        assert(all_digits(s.take(j)));
        lemma_digits_value_nonneg(s.take(j));
        assert(digits_value(s.take(j + 1)) == digits_value(s.take(j)) * 10 + digit_value(
            s.take(j + 1).last(),
        ));
    }
}

/// A well-formed unsigned 32-bit decimal literal: one or more digits whose
/// value fits.
pub open spec fn is_u32_literal(s: Seq<char>) -> bool {
    s.len() > 0 && all_digits(s) && digits_value(s) <= u32::MAX
}

pub open spec fn u32_literal_value(s: Seq<char>) -> u32 {
    digits_value(s) as u32
}

/// The digit part of a signed literal, after any single leading sign.
pub open spec fn i32_body(s: Seq<char>) -> Seq<char> {
    if s.len() > 0 && (s[0] == '+' || s[0] == '-') {
        s.subrange(1, s.len() as int)
    } else {
        s
    }
}

pub open spec fn i32_is_negative(s: Seq<char>) -> bool {
    s.len() > 0 && s[0] == '-'
}

/// A well-formed signed 32-bit decimal literal: an optional sign, one or more
/// digits, value within the `i32` range.
pub open spec fn is_i32_literal(s: Seq<char>) -> bool {
    let body = i32_body(s);
    &&& body.len() > 0
    &&& all_digits(body)
    &&& (if i32_is_negative(s) {
        -digits_value(body) >= i32::MIN
    } else {
        digits_value(body) <= i32::MAX
    })
}

pub open spec fn i32_literal_value(s: Seq<char>) -> i32 {
    if i32_is_negative(s) {
        (-digits_value(i32_body(s))) as i32
    } else {
        digits_value(i32_body(s)) as i32
    }
}

/// Reads the digit run `s[from..]` as an unsigned value, refusing a value
/// above `bound`, an empty run, or any non-digit character.
fn parse_digits_bounded(s: &[char], from: usize, bound: u64) -> (r: Option<u64>)
    requires
        from <= s@.len(),
        bound <= 0xFFFF_FFFFu64,
    ensures
        ({
            let tail = s@.subrange(from as int, s@.len() as int);
            if tail.len() > 0 && all_digits(tail) && digits_value(tail) <= bound {
                r == Some(digits_value(tail) as u64)
            } else {
                r == None::<u64>
            }
        }),
{
    let ghost tail = s@.subrange(from as int, s@.len() as int);
    let len = s.len();
    if from == len {
        return None;
    }
    let mut acc: u64 = 0;
    let mut i: usize = from;
    while i < len
        invariant
            from <= i <= len,
            from < len,
            len == s@.len(),
            bound <= 0xFFFF_FFFFu64,
            tail == s@.subrange(from as int, len as int),
            all_digits(tail.take(i - from)),
            acc == digits_value(tail.take(i - from)),
            acc <= bound,
        decreases len - i,
    {
        let c = s[i];
        if !('0' <= c && c <= '9') {
            assert(!is_digit(tail[i - from]));
            return None;
        }
        let d: u64 = (c as u64) - 48;
        assert(d == digit_value(tail[i - from]));
        let next: u64 = acc * 10 + d;
        proof {
            assert(tail.take(i - from + 1).drop_last() =~= tail.take(i - from));
            assert(digits_value(tail.take(i - from + 1)) == acc * 10 + d);
        }
        if next > bound {
            proof {
                assert(all_digits(tail.take(i - from + 1)));
                if all_digits(tail) && digits_value(tail) <= bound {
                    lemma_digits_value_prefix_le(tail, i - from + 1);
                }
            }
            return None;
        }
        acc = next;
        i += 1;
    }
    proof {
        assert(tail.take(i - from) =~= tail);
    }
    Some(acc)
}

/// Reads a whole character run as an unsigned 32-bit literal, exactly when it
/// is one.
pub fn parse_u32_chars(s: &[char]) -> (r: Option<u32>)
    ensures
        r == (if is_u32_literal(s@) {
            Some(u32_literal_value(s@))
        } else {
            None::<u32>
        }),
{
    proof {
        assert(s@.subrange(0, s@.len() as int) =~= s@);
        if is_u32_literal(s@) {
            lemma_digits_value_nonneg(s@);
        }
    }
    match parse_digits_bounded(s, 0, 0xFFFF_FFFFu64) {
        Some(v) => Some(v as u32),
        None => None,
    }
}

/// Reads a whole character run as a signed 32-bit literal (optional leading
/// `+` or `-`), exactly when it is one.
pub fn parse_i32_chars(s: &[char]) -> (r: Option<i32>)
    ensures
        r == (if is_i32_literal(s@) {
            Some(i32_literal_value(s@))
        } else {
            None::<i32>
        }),
{
    if s.len() == 0 {
        return None;
    }
    let c0 = s[0];
    let negative = c0 == '-';
    let from: usize = if c0 == '-' || c0 == '+' {
        1
    } else {
        0
    };
    proof {
        if from == 1 {
            assert(i32_body(s@) =~= s@.subrange(1, s@.len() as int));
        } else {
            assert(i32_body(s@) =~= s@.subrange(0, s@.len() as int));
        }
        if all_digits(i32_body(s@)) {
            lemma_digits_value_nonneg(i32_body(s@));
        }
    }
    let bound: u64 = if negative {
        0x8000_0000u64
    } else {
        0x7FFF_FFFFu64
    };
    match parse_digits_bounded(s, from, bound) {
        Some(v) => {
            if negative {
                Some((-(v as i64)) as i32)
            } else {
                Some(v as i32)
            }
        },
        None => None,
    }
}

/// The canonical decimal digit string of an unsigned value, no leading zeros.
pub open spec fn dec_digits(n: nat) -> Seq<char>
    decreases n,
{
    if n < 10 {
        seq![digit_char(n as int)]
    } else {
        dec_digits(n / 10) + seq![digit_char((n % 10) as int)]
    }
}

/// The digit character of a value between 0 and 9.
pub open spec fn digit_char(d: int) -> char {
    if d == 0 {
        '0'
    } else if d == 1 {
        '1'
    } else if d == 2 {
        '2'
    } else if d == 3 {
        '3'
    } else if d == 4 {
        '4'
    } else if d == 5 {
        '5'
    } else if d == 6 {
        '6'
    } else if d == 7 {
        '7'
    } else if d == 8 {
        '8'
    } else {
        '9'
    }
}

fn digit_char_exec(d: u32) -> (r: char)
    requires
        d < 10,
    ensures
        r == digit_char(d as int),
{
    match d {
        0 => '0',
        1 => '1',
        2 => '2',
        3 => '3',
        4 => '4',
        5 => '5',
        6 => '6',
        7 => '7',
        8 => '8',
        _ => '9',
    }
}

fn push_dec_digits(n: u32, out: &mut Vec<char>)
    ensures
        final(out)@ == old(out)@ + dec_digits(n as nat),
    decreases n,
{
    if n < 10 {
        out.push(digit_char_exec(n));
    } else {
        push_dec_digits(n / 10, out);
        out.push(digit_char_exec(n % 10));
        proof {
            assert(old(out)@ + dec_digits(n as nat) =~= old(out)@ + dec_digits((n as nat) / 10)
                + seq![digit_char(((n as nat) % 10) as int)]);
        }
    }
}

/// The canonical decimal text of a signed value: a `-` sign exactly when
/// negative, then the digits of the magnitude.
pub open spec fn i32_dec_repr(n: int) -> Seq<char> {
    if n < 0 {
        seq!['-'] + dec_digits((-n) as nat)
    } else {
        dec_digits(n as nat)
    }
}

/// Writes a signed value as decimal characters.
pub fn i32_to_chars(n: i32) -> (r: Vec<char>)
    ensures
        r@ == i32_dec_repr(n as int),
{
    let mut out: Vec<char> = Vec::new();
    if n >= 0 {
        push_dec_digits(n as u32, &mut out);
        proof {
            assert(out@ =~= i32_dec_repr(n as int));
        }
    } else {
        out.push('-');
        let magnitude: u32 = (-(n as i64)) as u32;
        assert(magnitude == -(n as int));
        push_dec_digits(magnitude, &mut out);
        proof {
            assert(out@ =~= seq!['-'] + dec_digits((-(n as int)) as nat));
        }
    }
    out
}

} // verus!
