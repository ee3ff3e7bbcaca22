//! Decimal digit strings: the value of a run of digits, and the decimal
//! rendering of a number, each proved to be the other's inverse.

use vstd::prelude::*;

use crate::text::digit_val;
use crate::text::is_digit_char;

verus! {

/// The value of a run of decimal digits, most significant first.
pub open spec fn digits_val(s: Seq<char>) -> int
    decreases s.len(),
{
    if s.len() == 0 {
        0
    } else {
        digits_val(s.drop_last()) * 10 + digit_val(s.last())
    }
}

/// A run of digits has a non-negative value.
pub proof fn lemma_digits_val_nonneg(s: Seq<char>)
    requires
        forall|k: int| 0 <= k < s.len() ==> is_digit_char(s[k]),
    ensures
        digits_val(s) >= 0,
    decreases s.len(),
{
    if s.len() > 0 {
        let t = s.drop_last();
        assert(forall|k: int| 0 <= k < t.len() ==> t[k] == s[k] && is_digit_char(#[trigger] t[k]));
        lemma_digits_val_nonneg(t);
        assert(is_digit_char(s.last()));
    }
}

/// Extending a run of digits to the right never lowers its value.
pub proof fn lemma_digits_val_extend_ge(s: Seq<char>, i: int)
    requires
        0 <= i <= s.len(),
        forall|k: int| 0 <= k < s.len() ==> is_digit_char(s[k]),
    ensures
        digits_val(s) >= digits_val(s.take(i)),
    decreases s.len() - i,
{
    if i == s.len() {
        assert(s.take(i) =~= s);
    } else {
        let t = s.drop_last();
        assert(forall|k: int| 0 <= k < t.len() ==> t[k] == s[k] && is_digit_char(#[trigger] t[k]));
        assert(s.take(i) =~= t.take(i));
        lemma_digits_val_extend_ge(t, i);
        lemma_digits_val_nonneg(t);
        assert(is_digit_char(s.last()));
    }
}

/// Parse a non-empty run of decimal digits; `None` exactly when the
/// value does not fit in 16 bits.
pub fn parse_u16_digits(s: &str) -> (r: Option<u16>)
    requires
        s@.len() >= 1,
        forall|k: int| 0 <= k < s@.len() ==> is_digit_char(s@[k]),
    ensures
        match r {
            Some(v) => v == digits_val(s@) && digits_val(s@) <= u16::MAX,
            None => digits_val(s@) > u16::MAX,
        },
{
    let n = s.unicode_len();
    let mut acc: u32 = 0;
    let mut i: usize = 0;
    proof {
        assert(s@.take(0) =~= Seq::<char>::empty());
    }
    while i < n
        invariant
            i <= n,
            n == s@.len(),
            forall|k: int| 0 <= k < s@.len() ==> is_digit_char(s@[k]),
            acc == digits_val(s@.take(i as int)),
            acc <= 65535,
        decreases n - i,
    {
        let c = s.get_char(i);
        assert(is_digit_char(s@[i as int]));
        let d: u32 = (c as u32) - 48;
        let next: u32 = acc * 10 + d;
        proof {
            let t = s@.take(i + 1);
            assert(t.drop_last() =~= s@.take(i as int));
            assert(t.last() == s@[i as int]);
            assert(next == digits_val(s@.take(i + 1)));
        }
        if next > 65535 {
            proof {
                lemma_digits_val_extend_ge(s@, i + 1);
            }
            return None;
        }
        acc = next;
        i = i + 1;
    }
    proof {
        assert(s@.take(n as int) =~= s@);
    }
    Some(acc as u16)
}

/// The digit character for a value between 0 and 9.
pub open spec fn digit_char_of(d: int) -> char {
    if d == 0 {
        '0'
    } else if d == 1 {
        '1'
    } else if d == 2 {
        '2'
    } else if d == 3 {
        '3'
    } else if d == 4 {
        '4'
    } else if d == 5 {
        '5'
    } else if d == 6 {
        '6'
    } else if d == 7 {
        '7'
    } else if d == 8 {
        '8'
    } else {
        '9'
    }
}

/// The decimal rendering of a non-negative number, without leading zeros.
pub open spec fn dec_str(n: int) -> Seq<char>
    decreases n,
{
    if n <= 9 {
        seq![digit_char_of(n)]
    } else {
        dec_str(n / 10).push(digit_char_of(n % 10))
    }
}

/// The decimal rendering consists of digits and parses back to the
/// number it was made from.
pub proof fn lemma_dec_str_digits(n: int)
    requires
        n >= 0,
    ensures
        dec_str(n).len() >= 1,
        forall|k: int| 0 <= k < dec_str(n).len() ==> is_digit_char(dec_str(n)[k]),
        digits_val(dec_str(n)) == n,
    decreases n,
{
    if n <= 9 {
        let s = seq![digit_char_of(n)];
        assert(s.drop_last() =~= Seq::<char>::empty());
        assert(digits_val(Seq::<char>::empty()) == 0);
        assert(digits_val(s) == digit_val(digit_char_of(n)));
        assert(digit_val(digit_char_of(n)) == n);
    } else {
        lemma_dec_str_digits(n / 10);
        let s = dec_str(n);
        assert(s.drop_last() =~= dec_str(n / 10));
        assert(s.last() == digit_char_of(n % 10));
        assert(digit_val(digit_char_of(n % 10)) == n % 10);
        assert(forall|k: int| 0 <= k < s.len() - 1 ==> s[k] == dec_str(n / 10)[k]);
        assert((n / 10) * 10 + n % 10 == n) by (nonlinear_arith);
        assert(digits_val(s) == digits_val(s.drop_last()) * 10 + digit_val(s.last()));
        assert(digits_val(s.drop_last()) == n / 10);
        assert(digit_val(s.last()) == n % 10);
    }
}

/// The one-character string for a digit value.
fn digit_str(n: u16) -> (r: String)
    requires
        n <= 9,
    ensures
        r@ == seq![digit_char_of(n as int)],
{
    let r = if n == 0 {
        String::from_str("0")
    } else if n == 1 {
        String::from_str("1")
    } else if n == 2 {
        String::from_str("2")
    } else if n == 3 {
        String::from_str("3")
    } else if n == 4 {
        String::from_str("4")
    } else if n == 5 {
        String::from_str("5")
    } else if n == 6 {
        String::from_str("6")
    } else if n == 7 {
        String::from_str("7")
    } else if n == 8 {
        String::from_str("8")
    } else {
        String::from_str("9")
    };
    proof {
        reveal_strlit("0");
        reveal_strlit("1");
        reveal_strlit("2");
        reveal_strlit("3");
        reveal_strlit("4");
        reveal_strlit("5");
        reveal_strlit("6");
        reveal_strlit("7");
        reveal_strlit("8");
        reveal_strlit("9");
        assert(r@ =~= seq![digit_char_of(n as int)]);
    }
    r
}

/// Render a 16-bit number in decimal, exactly as [`dec_str`] says.
pub fn u16_to_string(n: u16) -> (r: String)
    ensures
        r@ == dec_str(n as int),
    decreases n,
{
    if n <= 9 {
        digit_str(n)
    } else {
        let mut r = u16_to_string(n / 10);
        let d = digit_str(n % 10);
        r.append(d.as_str());
        proof {
            assert(r@ =~= dec_str(n as int));
        }
        r
    }
}

} // verus!
