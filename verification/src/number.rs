//! Reading and writing unsigned integers as text, as `from_str_radix`,
//! `str::parse` and `to_string` do for the unsigned integer types.
use vstd::prelude::*;
use crate::text::push_char;

verus! {

/// The value of an ASCII letter or digit as a digit (`0-9`, then `a-z` and
/// `A-Z` from 10 to 35); 36 for any other character, which is a digit in no
/// radix.
pub open spec fn digit_value(c: char) -> nat {
    if '0' <= c && c <= '9' {
        (c as int - '0' as int) as nat
    } else if 'a' <= c && c <= 'z' {
        (c as int - 'a' as int + 10) as nat
    } else if 'A' <= c && c <= 'Z' {
        (c as int - 'A' as int + 10) as nat
    } else {
        36
    }
}

/// Every character of `s` is a digit in `radix`.
pub open spec fn all_digits(s: Seq<char>, radix: nat) -> bool {
    forall|i: int| 0 <= i < s.len() ==> #[trigger] digit_value(s[i]) < radix
}

/// The value of the digit string `s` in `radix`, most significant digit first.
pub open spec fn digits_value(s: Seq<char>, radix: nat) -> nat
    decreases s.len(),
{
    if s.len() == 0 {
        0
    } else {
        digits_value(s.drop_last(), radix) * radix + digit_value(s.last())
    }
}

/// The digits of an unsigned number: the text without one leading `+`.
pub open spec fn unsigned_digits(s: Seq<char>) -> Seq<char> {
    if s.len() > 0 && s[0] == '+' {
        s.drop_first()
    } else {
        s
    }
}

/// What `from_str_radix` of an unsigned type whose largest value is `max`
/// gives for `s`: an optional `+` followed by at least one digit, the value
/// being at most `max`.
pub open spec fn parse_unsigned(s: Seq<char>, radix: nat, max: nat) -> Option<nat> {
    let d = unsigned_digits(s);
    if d.len() > 0 && all_digits(d, radix) && digits_value(d, radix) <= max {
        Some(digits_value(d, radix))
    } else {
        None
    }
}

/// The decimal digit character for `d < 10`.
pub open spec fn digit_char(d: nat) -> char {
    ('0' as int + d) as char
}

/// The decimal representation of `n`, without leading zeros.
pub open spec fn decimal(n: nat) -> Seq<char>
    decreases n,
{
    if n < 10 {
        seq![digit_char(n)]
    } else {
        decimal(n / 10).push(digit_char(n % 10))
    }
}

proof fn lemma_digits_value_prefix(s: Seq<char>, k: int, radix: nat)
    requires
        0 <= k <= s.len(),
        radix >= 1,
    ensures
        digits_value(s.take(k), radix) <= digits_value(s, radix),
    decreases s.len(),
{
    if k < s.len() {
        assert(s.drop_last().take(k) =~= s.take(k));
        lemma_digits_value_prefix(s.drop_last(), k, radix);
        let v = digits_value(s.drop_last(), radix);
        assert(v * radix >= v) by (nonlinear_arith)
            requires
                radix >= 1,
        ;
    } else {
        assert(s.take(k) =~= s);
    }
}

proof fn lemma_decimal_digits(n: nat)
    ensures
        decimal(n).len() > 0,
        all_digits(decimal(n), 10),
        digits_value(decimal(n), 10) == n,
        decimal(n)[0] != '+',
    decreases n,
{
    if n >= 10 {
        lemma_decimal_digits(n / 10);
        let d = decimal(n);
        assert(d.drop_last() =~= decimal(n / 10));
        assert forall|i: int| 0 <= i < d.len() implies #[trigger] digit_value(d[i]) < 10 by {
            if i < d.len() - 1 {
                assert(d[i] == decimal(n / 10)[i]);
            }
        }
        assert(d[0] == decimal(n / 10)[0]);
        assert(digit_value(digit_char((n % 10) as nat)) == n % 10);
        assert((n / 10) * 10 + n % 10 == n);
        assert(digits_value(d.drop_last(), 10) == n / 10);
        assert(d.last() == digit_char((n % 10) as nat));
        assert(digits_value(d, 10) == digits_value(d.drop_last(), 10) * 10 + digit_value(d.last()));
    } else {
        assert(digit_value(digit_char(n)) == n);
        assert(decimal(n).drop_last() =~= Seq::<char>::empty());
        assert(digits_value(Seq::<char>::empty(), 10) == 0);
    }
}

/// Reading back the decimal text of a number gives the number: `n.to_string()`
/// parses (`str::parse`) to `n` in any unsigned type that holds `n`.
pub proof fn lemma_parse_decimal_roundtrip(n: nat, max: nat)
    requires
        n <= max,
    ensures
        parse_unsigned(decimal(n), 10, max) == Some(n),
{
    lemma_decimal_digits(n);
}

/// The decimal text of a number has no leading zero, except for the number
/// zero, which is the single digit `0`; and each of its characters is a
/// decimal digit.
pub proof fn lemma_decimal_is_canonical(n: nat)
    ensures
        decimal(n).len() > 0,
        n == 0 <==> decimal(n) == seq!['0'],
        n > 0 ==> decimal(n)[0] != '0',
        forall|i: int| 0 <= i < decimal(n).len() ==> '0' <= #[trigger] decimal(n)[i] <= '9',
    decreases n,
{
    if n >= 10 {
        lemma_decimal_is_canonical(n / 10);
        let d = decimal(n);
        assert(d[0] == decimal(n / 10)[0]);
        assert forall|i: int| 0 <= i < d.len() implies '0' <= #[trigger] d[i] <= '9' by {
            if i < d.len() - 1 {
                assert(d[i] == decimal(n / 10)[i]);
            }
        }
        assert(d.len() > 1);
        assert(seq!['0'].len() == 1);
        assert(d != seq!['0']);
    } else {
        if n == 0 {
            assert(decimal(n) =~= seq!['0']);
        } else {
            assert(decimal(n)[0] == digit_char(n));
            assert(digit_char(n) != '0');
            assert(seq!['0'][0] == '0');
        }
    }
}

/// The digit value of a character, as `digit_value` states it.
fn char_digit_value(c: char) -> (d: u32)
    ensures
        d == digit_value(c),
{
    if '0' <= c && c <= '9' {
        (c as u32) - ('0' as u32)
    } else if 'a' <= c && c <= 'z' {
        (c as u32) - ('a' as u32) + 10
    } else if 'A' <= c && c <= 'Z' {
        (c as u32) - ('A' as u32) + 10
    } else {
        36
    }
}

/// `from_str_radix` for an unsigned integer type whose largest value is `max`.
pub fn parse_unsigned_chars(s: &[char], radix: u32, max: u64) -> (r: Option<u64>)
    requires
        2 <= radix <= 36,
    ensures
        match parse_unsigned(s@, radix as nat, max as nat) {
            Some(v) => r == Some(v as u64),
            None => r is None,
        },
{
    let n = s.len();
    let start: usize = if n > 0 && s[0] == '+' {
        1
    } else {
        0
    };
    let ghost d = unsigned_digits(s@);
    assert(d =~= s@.skip(start as int));
    if start == n {
        return None;
    }
    let mut acc: u128 = 0;
    let mut k: usize = start;
    assert(d.take(0) =~= Seq::<char>::empty());
    while k < n
        invariant
            n == s@.len(),
            start <= k <= n,
            d == s@.skip(start as int),
            d == unsigned_digits(s@),
            2 <= radix <= 36,
            all_digits(d.take(k - start), radix as nat),
            acc == digits_value(d.take(k - start), radix as nat),
            acc <= max,
        decreases n - k,
    {
        let dv = char_digit_value(s[k]);
        assert(d[k - start] == s@[k as int]);
        let ghost t = d.take(k - start + 1);
        assert(t.drop_last() =~= d.take(k - start));
        if dv >= radix {
            assert(!all_digits(d, radix as nat)) by {
                assert(digit_value(d[k - start]) >= radix);
            }
            assert(parse_unsigned(s@, radix as nat, max as nat) is None);
            return None;
        }
        assert(acc * (radix as u128) <= (max as u128) * 36) by (nonlinear_arith)
            requires
                acc <= max,
                radix <= 36,
        ;
        acc = acc * (radix as u128) + (dv as u128);
        assert forall|i: int| 0 <= i < t.len() implies #[trigger] digit_value(t[i]) < radix by {
            if i < t.len() - 1 {
                assert(t[i] == d.take(k - start)[i]);
            }
        }
        if acc > max as u128 {
            proof {
                if all_digits(d, radix as nat) {
                    lemma_digits_value_prefix(d, k - start + 1, radix as nat);
                }
            }
            assert(parse_unsigned(s@, radix as nat, max as nat) is None);
            return None;
        }
        k = k + 1;
    }
    assert(d.take(n - start) =~= d);
    Some(acc as u64)
}

/// `str::parse::<u64>` (decimal).
pub fn parse_u64(s: &[char]) -> (r: Option<u64>)
    ensures
        match parse_unsigned(s@, 10, u64::MAX as nat) {
            Some(v) => r == Some(v as u64),
            None => r is None,
        },
{
    parse_unsigned_chars(s, 10, u64::MAX)
}

/// `str::parse::<u32>` (decimal).
pub fn parse_u32(s: &[char]) -> (r: Option<u32>)
    ensures
        match parse_unsigned(s@, 10, u32::MAX as nat) {
            Some(v) => r == Some(v as u32),
            None => r is None,
        },
{
    match parse_unsigned_chars(s, 10, u32::MAX as u64) {
        Some(v) => Some(v as u32),
        None => None,
    }
}

/// `u16::from_str_radix` with the given radix.
pub fn parse_u16_radix(s: &[char], radix: u32) -> (r: Option<u16>)
    requires
        2 <= radix <= 36,
    ensures
        match parse_unsigned(s@, radix as nat, u16::MAX as nat) {
            Some(v) => r == Some(v as u16),
            None => r is None,
        },
{
    match parse_unsigned_chars(s, radix, u16::MAX as u64) {
        Some(v) => Some(v as u16),
        None => None,
    }
}

/// Appends the decimal text of `n` to `s`.
pub fn push_decimal(s: &mut String, n: u64)
    ensures
        final(s)@ == old(s)@ + decimal(n as nat),
    decreases n,
{
    if n >= 10 {
        push_decimal(s, n / 10);
    }
    let d = (n % 10) as u32;
    let c = char_from_digit(d);
    push_char(s, c);
    if n >= 10 {
        assert(decimal(n as nat) == decimal((n / 10) as nat).push(digit_char((n % 10) as nat)));
    }
}

/// The character of a decimal digit.
fn char_from_digit(d: u32) -> (c: char)
    requires
        d < 10,
    ensures
        c == digit_char(d as nat),
{
    if d == 0 {
        '0'
    } else if d == 1 {
        '1'
    } else if d == 2 {
        '2'
    } else if d == 3 {
        '3'
    } else if d == 4 {
        '4'
    } else if d == 5 {
        '5'
    } else if d == 6 {
        '6'
    } else if d == 7 {
        '7'
    } else if d == 8 {
        '8'
    } else {
        '9'
    }
}

/// `n.to_string()`.
pub fn decimal_string(n: u64) -> (s: String)
    ensures
        s@ == decimal(n as nat),
{
    let mut s = String::new();
    push_decimal(&mut s, n);
    assert(Seq::<char>::empty() + decimal(n as nat) =~= decimal(n as nat));
    s
}

} // verus!
