//! Decimal text encoding of 64-bit fingerprints.
//!
//! The installed fingerprint is persisted as a single line of decimal
//! digits.  Encoding and parsing are exact inverses, which is what makes
//! the cached-installation check sound: whatever was written after a
//! successful install is read back as the very same value.

use vstd::prelude::*;

verus! {

/// Is `c` one of the ten ASCII decimal digit characters?
pub open spec fn is_dec_digit(c: char) -> bool {
    c == '0' || c == '1' || c == '2' || c == '3' || c == '4' || c == '5' || c == '6' || c == '7'
        || c == '8' || c == '9'
}

/// Numeric value of a decimal digit character (unspecified for other characters).
pub open spec fn char_digit(c: char) -> int {
    if c == '0' {
        0
    } else if c == '1' {
        1
    } else if c == '2' {
        2
    } else if c == '3' {
        3
    } else if c == '4' {
        4
    } else if c == '5' {
        5
    } else if c == '6' {
        6
    } else if c == '7' {
        7
    } else if c == '8' {
        8
    } else {
        9
    }
}

/// Digit character for a value below ten.
pub open spec fn digit_char(d: int) -> char {
    if d == 0 {
        '0'
    } else if d == 1 {
        '1'
    } else if d == 2 {
        '2'
    } else if d == 3 {
        '3'
    } else if d == 4 {
        '4'
    } else if d == 5 {
        '5'
    } else if d == 6 {
        '6'
    } else if d == 7 {
        '7'
    } else if d == 8 {
        '8'
    } else {
        '9'
    }
}

/// The decimal digit characters of `n`, most significant first.
pub open spec fn dec_chars(n: u64) -> Seq<char>
    decreases n,
{
    if n < 10 {
        seq![digit_char(n as int)]
    } else {
        dec_chars(n / 10).push(digit_char((n % 10) as int))
    }
}

/// Value of a sequence of decimal digit characters.
pub open spec fn dec_val(s: Seq<char>) -> int
    decreases s.len(),
{
    if s.len() == 0 {
        0
    } else {
        dec_val(s.drop_last()) * 10 + char_digit(s.last())
    }
}

/// Exact meaning of parsing: a nonempty all-digit string whose value
/// fits in 64 bits parses to that value; everything else is rejected.
pub open spec fn parse_dec(s: Seq<char>) -> Option<u64> {
    if s.len() > 0 && (forall|i: int| 0 <= i < s.len() ==> is_dec_digit(s[i])) && dec_val(s)
        <= u64::MAX {
        Some(dec_val(s) as u64)
    } else {
        None
    }
}

/// The one-character string for a digit value.
fn digit_str(d: u64) -> (r: &'static str)
    requires
        d < 10,
    ensures
        r@ =~= seq![digit_char(d as int)],
        r@.len() == 1,
{
    proof {
        reveal_strlit("0");
        reveal_strlit("1");
        reveal_strlit("2");
        reveal_strlit("3");
        reveal_strlit("4");
        reveal_strlit("5");
        reveal_strlit("6");
        reveal_strlit("7");
        reveal_strlit("8");
        reveal_strlit("9");
    }
    if d == 0 {
        "0"
    } else if d == 1 {
        "1"
    } else if d == 2 {
        "2"
    } else if d == 3 {
        "3"
    } else if d == 4 {
        "4"
    } else if d == 5 {
        "5"
    } else if d == 6 {
        "6"
    } else if d == 7 {
        "7"
    } else if d == 8 {
        "8"
    } else {
        "9"
    }
}

/// Render `n` in decimal, most significant digit first.
pub fn encode_dec(n: u64) -> (r: String)
    ensures
        r@ == dec_chars(n),
    decreases n,
{
    if n < 10 {
        let r = digit_str(n).to_owned();
        proof {
            assert(r@ =~= dec_chars(n));
        }
        r
    } else {
        let mut r = encode_dec(n / 10);
        r.append(digit_str(n % 10));
        proof {
            assert(r@ =~= dec_chars(n));
        }
        r
    }
}

/// All characters produced by the encoder are decimal digits.
pub proof fn lemma_dec_chars_digits(n: u64)
    ensures
        forall|i: int| 0 <= i < dec_chars(n).len() ==> is_dec_digit(dec_chars(n)[i]),
        dec_chars(n).len() > 0,
    decreases n,
{
    if n < 10 {
    } else {
        lemma_dec_chars_digits(n / 10);
        assert(forall|i: int|
            0 <= i < dec_chars(n).len() - 1 ==> dec_chars(n)[i] == dec_chars(n / 10)[i]);
    }
}

/// The value of the encoded digits is the encoded number.
pub proof fn lemma_dec_chars_val(n: u64)
    ensures
        dec_val(dec_chars(n)) == n,
    decreases n,
{
    if n < 10 {
        assert(dec_chars(n).drop_last() =~= Seq::<char>::empty());
        assert(dec_chars(n).last() == digit_char(n as int));
        assert(char_digit(digit_char(n as int)) == n);
        assert(dec_val(Seq::<char>::empty()) == 0);
        assert(dec_val(dec_chars(n)) == dec_val(dec_chars(n).drop_last()) * 10 + char_digit(
            dec_chars(n).last(),
        ));
    } else {
        lemma_dec_chars_val(n / 10);
        assert(dec_chars(n).drop_last() =~= dec_chars(n / 10));
        assert(dec_chars(n).last() == digit_char((n % 10) as int));
        assert(char_digit(digit_char((n % 10) as int)) == n % 10);
        assert(dec_val(dec_chars(n)) == (n / 10) * 10 + n % 10);
        assert(n == (n / 10) * 10 + n % 10) by (nonlinear_arith);
    }
}

/// Round trip: parsing an encoded fingerprint yields the fingerprint.
pub proof fn lemma_dec_round_trip(n: u64)
    ensures
        parse_dec(dec_chars(n)) == Some(n),
{
    lemma_dec_chars_digits(n);
    lemma_dec_chars_val(n);
}

/// Digit-string values only grow as more digits are appended.
proof fn lemma_dec_val_prefix_le(s: Seq<char>, j: int)
    requires
        0 <= j <= s.len(),
        forall|i: int| 0 <= i < s.len() ==> is_dec_digit(s[i]),
    ensures
        dec_val(s.subrange(0, j)) <= dec_val(s),
    decreases s.len() - j,
{
    if j == s.len() {
        assert(s.subrange(0, j) =~= s);
    } else {
        lemma_dec_val_prefix_le(s, j + 1);
        let t = s.subrange(0, j + 1);
        assert(t.drop_last() =~= s.subrange(0, j));
        assert(t.last() == s[j]);
        assert(dec_val(s.subrange(0, j)) * 10 + char_digit(s[j]) == dec_val(t));
        assert(char_digit(s[j]) >= 0);
        assert(dec_val(s.subrange(0, j)) >= 0 ==> dec_val(s.subrange(0, j)) <= dec_val(t));
        lemma_dec_val_nonneg(s.subrange(0, j));
    }
}

/// Digit-string values are never negative.
proof fn lemma_dec_val_nonneg(s: Seq<char>)
    requires
        forall|i: int| 0 <= i < s.len() ==> is_dec_digit(s[i]),
    ensures
        dec_val(s) >= 0,
    decreases s.len(),
{
    if s.len() > 0 {
        lemma_dec_val_nonneg(s.drop_last());
    }
}

/// Parse a decimal string, rejecting anything that is not a plain
/// all-digit rendering of a value that fits in 64 bits.
pub fn parse_dec_str(s: &str) -> (r: Option<u64>)
    ensures
        r == parse_dec(s@),
{
    let n = s.unicode_len();
    if n == 0 {
        return None;
    }
    let mut acc: u64 = 0;
    let mut i: usize = 0;
    while i < n
        invariant
            0 <= i <= n,
            n == s@.len(),
            forall|k: int| 0 <= k < i ==> is_dec_digit(s@[k]),
            acc == dec_val(s@.subrange(0, i as int)),
        decreases n - i,
    {
        let c = s.get_char(i);
        let d: u64 = if c == '0' {
            0
        } else if c == '1' {
            1
        } else if c == '2' {
            2
        } else if c == '3' {
            3
        } else if c == '4' {
            4
        } else if c == '5' {
            5
        } else if c == '6' {
            6
        } else if c == '7' {
            7
        } else if c == '8' {
            8
        } else if c == '9' {
            9
        } else {
            return None;
        };
        if acc > (u64::MAX - d) / 10 {
            proof {
                let t = s@.subrange(0, i + 1);
                assert(t.drop_last() =~= s@.subrange(0, i as int));
                assert(t.last() == s@[i as int]);
                assert(dec_val(t) == acc * 10 + d);
                if forall|k: int| 0 <= k < s@.len() ==> is_dec_digit(s@[k]) {
                    lemma_dec_val_prefix_le(s@, i + 1);
                    assert(dec_val(s@) > u64::MAX);
                }
            }
            return None;
        }
        proof {
            let t = s@.subrange(0, i + 1);
            assert(t.drop_last() =~= s@.subrange(0, i as int));
            assert(t.last() == s@[i as int]);
        }
        acc = acc * 10 + d;
        i = i + 1;
    }
    proof {
        assert(s@.subrange(0, n as int) =~= s@);
    }
    Some(acc)
}

} // verus!
