//! Decimal text: rendering integers as decimal strings and parsing them
//! back, with the exact grammar `str::parse` accepts.

use vstd::prelude::*;

verus! {

/// The character for a single decimal digit value.
pub open spec fn char_of_digit(d: int) -> char {
    if d == 0 {
        '0'
    } else if d == 1 {
        '1'
    } else if d == 2 {
        '2'
    } else if d == 3 {
        '3'
    } else if d == 4 {
        '4'
    } else if d == 5 {
        '5'
    } else if d == 6 {
        '6'
    } else if d == 7 {
        '7'
    } else if d == 8 {
        '8'
    } else {
        '9'
    }
}

/// Decimal representation of a non-negative integer, most significant
/// digit first, with no leading zeros (a lone zero for 0).
pub open spec fn spec_udec(n: nat) -> Seq<char>
    decreases n,
{
    if n < 10 {
        seq![char_of_digit(n as int)]
    } else {
        spec_udec(n / 10) + seq![char_of_digit((n % 10) as int)]
    }
}

/// A run of `n` zero characters, used for fixed-width padding.
pub open spec fn zeros(n: int) -> Seq<char> {
    Seq::new(if n < 0 { 0 } else { n as nat }, |i: int| '0')
}

fn digit_str(d: u64) -> (r: &'static str)
    requires
        d < 10,
    ensures
        r@ == seq![char_of_digit(d as int)],
{
    proof {
        reveal_strlit("0");
        reveal_strlit("1");
        reveal_strlit("2");
        reveal_strlit("3");
        reveal_strlit("4");
        reveal_strlit("5");
        reveal_strlit("6");
        reveal_strlit("7");
        reveal_strlit("8");
        reveal_strlit("9");
    }
    let r = match d {
        0 => "0",
        1 => "1",
        2 => "2",
        3 => "3",
        4 => "4",
        5 => "5",
        6 => "6",
        7 => "7",
        8 => "8",
        _ => "9",
    };
    proof {
        assert(r@ =~= seq![char_of_digit(d as int)]);
    }
    r
}

/// Render `n` in decimal.
pub fn u64_to_dec(n: u64) -> (r: String)
    ensures
        r@ == spec_udec(n as nat),
    decreases n,
{
    if n < 10 {
        String::from_str(digit_str(n))
    } else {
        let mut s = u64_to_dec(n / 10);
        s.append(digit_str(n % 10));
        s
    }
}

/// Decimal representation of an integer: a minus sign before the digits
/// of the magnitude when negative.
pub open spec fn spec_idec(n: int) -> Seq<char> {
    if n >= 0 {
        spec_udec(n as nat)
    } else {
        seq!['-'] + spec_udec((-n) as nat)
    }
}

/// Render `n` in decimal, with a minus sign when negative.
pub fn i64_to_dec(n: i64) -> (r: String)
    ensures
        r@ == spec_idec(n as int),
{
    if n >= 0 {
        u64_to_dec(n as u64)
    } else {
        let mag: u64 = (-(n as i128)) as u64;
        let mut s = String::from_str("-");
        proof {
            reveal_strlit("-");
            assert(s@ =~= seq!['-']);
        }
        s.append(u64_to_dec(mag).as_str());
        s
    }
}

/// The fixed-width rendering of `n`: the decimal text, zero-padded after
/// any sign until `width` characters are reached; longer renderings are
/// kept whole.
pub open spec fn spec_zero_padded(n: int, width: int) -> Seq<char> {
    if n >= 0 {
        let d = spec_udec(n as nat);
        zeros(width - d.len()) + d
    } else {
        let d = spec_udec((-n) as nat);
        seq!['-'] + zeros(width - 1 - d.len()) + d
    }
}

/// Render `n` in decimal, zero-padded after any sign to `width`
/// characters.
pub fn i64_to_dec_padded(n: i64, width: usize) -> (r: String)
    ensures
        r@ == spec_zero_padded(n as int, width as int),
{
    let digits = if n >= 0 {
        u64_to_dec(n as u64)
    } else {
        u64_to_dec((-(n as i128)) as u64)
    };
    let dn = digits.unicode_len();
    let pad_to = if n < 0 && width > 0 {
        width - 1
    } else {
        width
    };
    let mut s = if n < 0 {
        let s0 = String::from_str("-");
        proof {
            reveal_strlit("-");
            assert(s0@ =~= seq!['-']);
        }
        s0
    } else {
        String::new()
    };
    let ghost head = s@;
    let mut k: usize = dn;
    proof {
        assert(s@ =~= head + zeros(0));
    }
    while k < pad_to
        invariant
            s@ == head + zeros(k - dn),
            k >= dn,
            k == dn || k <= pad_to,
        decreases pad_to - k,
    {
        s.append("0");
        proof {
            reveal_strlit("0");
            assert(s@ =~= head + zeros(k + 1 - dn));
        }
        k = k + 1;
    }
    proof {
        if pad_to <= dn {
            assert(zeros(pad_to - (dn as int)) =~= zeros(0));
        }
        assert(s@ =~= head + zeros(pad_to - (dn as int)));
    }
    s.append(digits.as_str());
    proof {
        if n >= 0 {
            assert(s@ =~= spec_zero_padded(n as int, width as int));
        } else {
            if width > 0 {
                assert(s@ =~= spec_zero_padded(n as int, width as int));
            } else {
                assert(zeros(width - 1 - spec_udec((-n) as nat).len()) =~= zeros(
                    0 - (dn as int),
                ));
                assert(s@ =~= spec_zero_padded(n as int, width as int));
            }
        }
    }
    s
}

/// Whether `c` is a decimal digit.
pub open spec fn is_digit_char(c: char) -> bool {
    '0' <= c <= '9'
}

/// The numeric value of a digit character.
pub open spec fn digit_val(c: char) -> int {
    c as int - '0' as int
}

/// Whether every character of `s` is a decimal digit.
pub open spec fn all_digits(s: Seq<char>) -> bool {
    forall|i: int| 0 <= i < s.len() ==> is_digit_char(#[trigger] s[i])
}

/// The value of a digit string read in base ten.
pub open spec fn digits_val(s: Seq<char>) -> int
    decreases s.len(),
{
    if s.len() == 0 {
        0
    } else {
        digits_val(s.drop_last()) * 10 + digit_val(s.last())
    }
}

/// A digit string has a non-negative value.
pub proof fn lemma_digits_val_nonneg(s: Seq<char>)
    requires
        all_digits(s),
    ensures
        digits_val(s) >= 0,
    decreases s.len(),
{
    if s.len() > 0 {
        assert(all_digits(s.drop_last()));
        lemma_digits_val_nonneg(s.drop_last());
    }
}

/// The value of a digit string is at least the value of any prefix.
pub proof fn lemma_digits_val_prefix_le(s: Seq<char>, i: int)
    requires
        all_digits(s),
        0 <= i <= s.len(),
    ensures
        digits_val(s.take(i)) <= digits_val(s),
    decreases s.len() - i,
{
    if i < s.len() {
        lemma_digits_val_prefix_le(s.drop_last(), i);
        assert(s.drop_last().take(i) =~= s.take(i));
        assert(all_digits(s.drop_last()));
        lemma_digits_val_nonneg(s.drop_last());
        assert(digit_val(s.last()) >= 0);
    } else {
        assert(s.take(i) =~= s);
    }
}

/// The result of parsing `s` as a decimal integer with optional sign:
/// the exact grammar `str::parse` accepts for the built-in integers,
/// before any range check.
pub open spec fn spec_parse_signed(s: Seq<char>) -> Option<int> {
    let signed = s.len() > 0 && (s[0] == '+' || s[0] == '-');
    let ds = if signed {
        s.drop_first()
    } else {
        s
    };
    if ds.len() == 0 || !all_digits(ds) {
        None
    } else if signed && s[0] == '-' {
        Some(-digits_val(ds))
    } else {
        Some(digits_val(ds))
    }
}

/// The result of parsing `s` as an integer constrained to
/// `lo ..= hi`: what `str::parse` gives for a built-in integer type
/// with those bounds.
pub open spec fn spec_parse_in(s: Seq<char>, lo: int, hi: int) -> Option<int> {
    match spec_parse_signed(s) {
        Some(v) => if lo <= v <= hi {
            Some(v)
        } else {
            None
        },
        None => None,
    }
}

/// The sign-skipping offset for `s`: one when a sign character leads,
/// zero otherwise.
pub open spec fn sign_len(s: Seq<char>) -> int {
    if s.len() > 0 && (s[0] == '+' || s[0] == '-') {
        1
    } else {
        0
    }
}

/// Parse the digit string `s[from..]` on top of the already-read
/// magnitude `acc`, keeping the running value at most `limit`.
fn parse_digits(s: &str, from: usize, acc: u64, limit: u64) -> (r: Option<u64>)
    requires
        sign_len(s@) <= from <= s@.len(),
        all_digits(s@.subrange(0, from as int).skip(sign_len(s@))),
        acc as int == digits_val(s@.subrange(0, from as int).skip(sign_len(s@))),
        acc <= limit,
    ensures
        ({
            let rest = s@.skip(sign_len(s@));
            match r {
                Some(v) => all_digits(rest) && v as int == digits_val(rest) && v <= limit,
                None => !all_digits(rest) || digits_val(rest) > limit,
            }
        }),
    decreases s@.len() - from,
{
    let ghost start: int = sign_len(s@);
    let ghost rest = s@.skip(start);
    let n = s.unicode_len();
    if from == n {
        proof {
            assert(s@.subrange(0, from as int) =~= s@);
        }
        return Some(acc);
    }
    let c = s.get_char(from);
    if !('0' <= c && c <= '9') {
        proof {
            assert(rest[from - start] == s@[from as int]);
            assert(!all_digits(rest));
        }
        return None;
    }
    let d: u64 = (c as u32 as u64) - 48;
    proof {
        assert(d as int == digit_val(c));
        assert(d <= 9);
    }
    let ghost prefix = s@.subrange(0, from + 1).skip(start);
    proof {
        assert(prefix.drop_last() =~= s@.subrange(0, from as int).skip(start));
        assert(prefix.last() == c);
        assert(all_digits(prefix)) by {
            assert forall|k: int| 0 <= k < prefix.len() implies is_digit_char(
                #[trigger] prefix[k],
            ) by {
                if k < prefix.len() - 1 {
                    assert(prefix[k] == prefix.drop_last()[k]);
                }
            }
        }
        assert(digits_val(prefix) == acc * 10 + d);
    }
    if acc > limit / 10 || (acc == limit / 10 && d > limit % 10) {
        proof {
            assert(acc * 10 + d > limit) by (nonlinear_arith)
                requires
                    acc > limit / 10 || (acc == limit / 10 && d > limit % 10),
                    limit == (limit / 10) * 10 + limit % 10,
                    0 <= limit % 10 < 10,
                    acc >= 0,
                    d >= 0,
            ;
            if all_digits(rest) {
                assert(prefix =~= rest.take(from + 1 - start));
                lemma_digits_val_prefix_le(rest, from + 1 - start);
            }
        }
        return None;
    }
    let next = acc * 10 + d;
    proof {
        assert(s@.skip(from as int)[0] == c);
    }
    parse_digits(s, from + 1, next, limit)
}

/// Parse `s` as a 64-bit signed integer, exactly as `str::parse::<i64>`
/// does: an optional sign, one or more digits, nothing else, and a
/// value in range.
pub fn parse_i64_str(s: &str) -> (r: Option<i64>)
    ensures
        match spec_parse_in(s@, i64::MIN as int, i64::MAX as int) {
            Some(v) => r matches Some(x) && x as int == v,
            None => r is None,
        },
{
    let n = s.unicode_len();
    if n == 0 {
        return None;
    }
    let c0 = s.get_char(0);
    let neg = c0 == '-';
    let start: usize = if c0 == '-' || c0 == '+' {
        1
    } else {
        0
    };
    proof {
        assert(start as int == sign_len(s@));
    }
    if start == n {
        proof {
            assert(s@.drop_first() =~= s@.skip(1));
        }
        return None;
    }
    let limit: u64 = if neg {
        9223372036854775808
    } else {
        9223372036854775807
    };
    proof {
        assert(s@.subrange(0, start as int).skip(start as int) =~= Seq::<char>::empty());
    }
    let parsed = parse_digits(s, start, 0, limit);
    proof {
        if start == 1 {
            assert(s@.drop_first() =~= s@.skip(1));
        } else {
            assert(s@.skip(0) =~= s@);
        }
    }
    match parsed {
        Some(v) => {
            if neg {
                Some((-(v as i128)) as i64)
            } else {
                Some(v as i64)
            }
        },
        None => None,
    }
}

/// Parse `s` as a 32-bit signed integer, exactly as `str::parse::<i32>`
/// does.
pub fn parse_i32_str(s: &str) -> (r: Option<i32>)
    ensures
        match spec_parse_in(s@, i32::MIN as int, i32::MAX as int) {
            Some(v) => r matches Some(x) && x as int == v,
            None => r is None,
        },
{
    match parse_i64_str(s) {
        Some(v) => {
            if v >= -2147483648 && v <= 2147483647 {
                Some(v as i32)
            } else {
                None
            }
        },
        None => None,
    }
}

} // verus!
