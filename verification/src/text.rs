use vstd::prelude::*;
use vstd::string::StringExecFns;

verus! {

/// Appends one character to a string (`String::push`).
#[verifier::external_body]
pub(crate) fn push_char(s: &mut String, c: char)
    ensures
        final(s)@ == old(s)@.push(c),
{
    s.push(c);
}

/// The ASCII digit character of `d < 10`.
pub open spec fn digit_char(d: int) -> char {
    (('0' as int) + d) as char
}

/// The decimal representation of `n`, without leading zeros.
pub open spec fn decimal_chars(n: nat) -> Seq<char>
    decreases n,
{
    if n < 10 {
        seq![digit_char(n as int)]
    } else {
        decimal_chars(n / 10).push(digit_char((n % 10) as int))
    }
}

/// Appends the decimal representation of `n` to `s`.
pub fn push_decimal(s: &mut String, n: u64)
    ensures
        final(s)@ == old(s)@ + decimal_chars(n as nat),
    decreases n,
{
    if n >= 10 {
        push_decimal(s, n / 10);
    }
    let d = (n % 10) as u8;
    let c = (48u8 + d) as char;
    push_char(s, c);
}

pub fn decimal_string(n: u64) -> (s: String)
    ensures
        s@ == decimal_chars(n as nat),
{
    let mut s = String::new();
    push_decimal(&mut s, n);
    s
}


/// Number of characters of the decimal representation of `n`.
pub fn decimal_len(n: u64) -> (len: u64)
    ensures
        len == decimal_chars(n as nat).len(),
        1 <= len,
        n >= 10 ==> len <= n,
    decreases n,
{
    if n >= 10 {
        decimal_len(n / 10) + 1
    } else {
        1
    }
}

/// The decimal representation of `n`, padded on the left with zeros up to `width` characters.
pub open spec fn padded_decimal_chars(n: nat, width: nat) -> Seq<char> {
    let digits = decimal_chars(n);
    if digits.len() < width {
        Seq::new((width - digits.len()) as nat, |i: int| '0') + digits
    } else {
        digits
    }
}

/// Appends `n` in decimal, padded on the left with zeros up to `width` characters.
pub fn push_padded_decimal(s: &mut String, n: u64, width: usize)
    ensures
        final(s)@ == old(s)@ + padded_decimal_chars(n as nat, width as nat),
{
    let len = decimal_len(n);
    let ghost start = s@;
    if len < width as u64 {
        let zeros = width - len as usize;
        for i in 0..zeros
            invariant
                s@ == start + Seq::new(i as nat, |k: int| '0'),
        {
            push_char(s, '0');
            assert(s@ =~= start + Seq::new((i + 1) as nat, |k: int| '0'));
        }
    }
    let ghost mid = s@;
    push_decimal(s, n);
    assert(s@ =~= start + padded_decimal_chars(n as nat, width as nat));
}

// Region: parsing ---------------------------------------------------------------

pub open spec fn is_ascii_digit(b: u8) -> bool {
    48 <= b <= 57
}

pub open spec fn all_digits(s: Seq<u8>) -> bool {
    forall|i: int| 0 <= i < s.len() ==> is_ascii_digit(#[trigger] s[i])
}

/// The number that a sequence of ASCII digits writes in decimal.
pub open spec fn digits_value(s: Seq<u8>) -> int
    decreases s.len(),
{
    if s.len() == 0 {
        0
    } else {
        digits_value(s.drop_last()) * 10 + (s.last() - 48)
    }
}

/// What the standard library's `from_str` of an unsigned integer reads in `s`, before the
/// bound of the type is checked: an optional `+` followed by one or more ASCII digits.
pub open spec fn unsigned_literal(s: Seq<u8>) -> Option<int> {
    let digits = if s.len() > 0 && s[0] == 43 {
        s.skip(1)
    } else {
        s
    };
    if digits.len() > 0 && all_digits(digits) {
        Some(digits_value(digits))
    } else {
        None
    }
}

/// The value an unsigned integer type with maximum `max` parses from `s`.
pub open spec fn parsed_unsigned(s: Seq<u8>, max: int) -> Option<int> {
    match unsigned_literal(s) {
        Some(v) => if v <= max {
            Some(v)
        } else {
            None
        },
        None => None,
    }
}

proof fn lemma_digits_value_prefix(s: Seq<u8>, k: int)
    requires
        all_digits(s),
        0 <= k <= s.len(),
    ensures
        digits_value(s) >= digits_value(s.take(k)),
        digits_value(s.take(k)) >= 0,
    decreases s.len(),
{
    if k == s.len() {
        assert(s.take(k) =~= s);
        lemma_digits_value_nonneg(s);
    } else {
        let d = s.drop_last();
        assert(d.take(k) =~= s.take(k));
        assert(all_digits(d)) by {
            assert forall|i: int| 0 <= i < d.len() implies is_ascii_digit(#[trigger] d[i]) by {
                assert(d[i] == s[i]);
            }
        }
        lemma_digits_value_prefix(d, k);
        lemma_digits_value_nonneg(d);
        assert(is_ascii_digit(s[s.len() - 1]));
    }
}

proof fn lemma_digits_value_nonneg(s: Seq<u8>)
    requires
        all_digits(s),
    ensures
        digits_value(s) >= 0,
    decreases s.len(),
{
    if s.len() > 0 {
        let d = s.drop_last();
        assert(all_digits(d)) by {
            assert forall|i: int| 0 <= i < d.len() implies is_ascii_digit(#[trigger] d[i]) by {
                assert(d[i] == s[i]);
            }
        }
        lemma_digits_value_nonneg(d);
        assert(is_ascii_digit(s[s.len() - 1]));
    }
}

/// Parses an unsigned integer no greater than `max` the way the standard library's
/// `from_str` of an unsigned integer type does.
pub fn parse_unsigned(s: &[u8], max: u64) -> (r: Option<u64>)
    ensures
        parsed_unsigned(s@, max as int) matches Some(v) ==> 0 <= v <= max,
        match parsed_unsigned(s@, max as int) {
            Some(v) => r == Some(v as u64),
            None => r is None,
        },
{
    let n = s.len();
    let mut i: usize = 0;
    if n > 0 && s[0] == 43u8 {
        i = 1;
    }
    let start = i;
    let ghost digits = s@.skip(start as int);
    assert(digits =~= if s@.len() > 0 && s@[0] == 43 { s@.skip(1) } else { s@ });
    if i == n {
        return None;
    }
    let mut acc: u64 = 0;
    while i < n
        invariant
            n == s@.len(),
            start <= i <= n,
            start < n,
            digits == s@.skip(start as int),
            digits == (if s@.len() > 0 && s@[0] == 43 {
                s@.skip(1)
            } else {
                s@
            }),
            all_digits(s@.subrange(start as int, i as int)),
            acc as int == digits_value(s@.subrange(start as int, i as int)),
            acc <= max,
        decreases n - i,
    {
        let b = s[i];
        let ghost pre = s@.subrange(start as int, i as int);
        let ghost next = s@.subrange(start as int, i + 1);
        assert(next.drop_last() =~= pre);
        if b < 48u8 || b > 57u8 {
            assert(!all_digits(digits)) by {
                assert(digits[i - start] == b);
                assert(!is_ascii_digit(digits[i - start]));
            }
            assert(unsigned_literal(s@) is None);
            return None;
        }
        let d = (b - 48u8) as u64;
        if d > max || acc > (max - d) / 10 {
            assert(acc * 10 + d > max) by (nonlinear_arith)
                requires
                    d > max || acc > (max - d) / 10,
                    acc >= 0,
            ;
            assert(all_digits(next));
            proof {
                if all_digits(digits) {
                    assert(next =~= digits.take(i + 1 - start));
                    lemma_digits_value_prefix(digits, i + 1 - start);
                }
            }
            return None;
        }
        assert(acc * 10 + d <= max) by (nonlinear_arith)
            requires
                d <= max,
                acc <= (max - d) / 10,
        ;
        acc = acc * 10 + d;
        i = i + 1;
    }
    assert(s@.subrange(start as int, n as int) =~= digits);
    proof {
        lemma_digits_value_nonneg(digits);
    }
    Some(acc)
}

// Region: printing then parsing ---------------------------------------------------------

/// The bytes of a string of ASCII characters.
pub open spec fn ascii_bytes(s: Seq<char>) -> Seq<u8> {
    s.map_values(|c: char| c as u8)
}

proof fn lemma_decimal_digits(n: nat)
    ensures
        decimal_chars(n).len() > 0,
        all_digits(ascii_bytes(decimal_chars(n))),
        digits_value(ascii_bytes(decimal_chars(n))) == n,
    decreases n,
{
    let c = decimal_chars(n);
    let b = ascii_bytes(c);
    if n < 10 {
        assert(b =~= seq![(48 + n) as u8]);
        assert(b.drop_last() =~= Seq::<u8>::empty());
        assert(digits_value(b) == digits_value(b.drop_last()) * 10 + (b.last() - 48));
        assert(b.last() == (48 + n) as u8);
    } else {
        lemma_decimal_digits(n / 10);
        let prev = ascii_bytes(decimal_chars(n / 10));
        assert(b =~= prev.push((48 + n % 10) as u8));
        assert(b.drop_last() =~= prev);
        assert(digits_value(b) == digits_value(prev) * 10 + (b.last() - 48));
        assert(b.last() - 48 == n % 10);
        assert((n / 10) * 10 + n % 10 == n);
        assert forall|i: int| 0 <= i < b.len() implies is_ascii_digit(#[trigger] b[i]) by {
            if i < prev.len() {
                assert(b[i] == prev[i]);
            }
        }
    }
}

/// Writing a number in decimal and parsing it back gives the number, when it fits in the type
/// parsed to: a field reset to its previous value reads that value again.
pub proof fn law_parse_printed_decimal(n: nat, max: nat)
    requires
        n <= max,
    ensures
        parsed_unsigned(ascii_bytes(decimal_chars(n)), max as int) == Some(n as int),
{
    lemma_decimal_digits(n);
    let b = ascii_bytes(decimal_chars(n));
    assert(is_ascii_digit(b[0]));
}

} // verus!
