//! Sequence-number extraction: a block's raw name must end in a
//! bracketed run of decimal digits, `Title [3]`, which orders the
//! block among the versions of its logical path.

use vstd::prelude::*;

use crate::digits::dec_str;
use crate::digits::digits_val;
use crate::digits::lemma_dec_str_digits;
use crate::digits::parse_u16_digits;
use crate::errors::BlockError;
use crate::text::is_digit;
use crate::text::is_digit_char;

verus! {

/// `s` carries a sequence suffix starting at position `i`: an opening
/// bracket there, at least one decimal digit, and a closing bracket as
/// the very last character.
pub open spec fn seq_suffix_at(s: Seq<char>, i: int) -> bool {
    &&& 0 <= i <= s.len() - 3
    &&& s[i] == '['
    &&& s[s.len() - 1] == ']'
    &&& forall|j: int| i < j < s.len() - 1 ==> is_digit_char(s[j])
}

/// `s` ends in a bracketed run of decimal digits.
pub open spec fn has_seq_suffix(s: Seq<char>) -> bool {
    exists|i: int| seq_suffix_at(s, i)
}

/// The position where the sequence suffix starts.
pub open spec fn suffix_pos(s: Seq<char>) -> int {
    choose|i: int| seq_suffix_at(s, i)
}

/// The numeric value of the sequence suffix.
pub open spec fn suffix_num(s: Seq<char>) -> int {
    digits_val(s.subrange(suffix_pos(s) + 1, s.len() - 1))
}

/// `s` with the sequence suffix removed and nothing else changed.
pub open spec fn clean_name(s: Seq<char>) -> Seq<char> {
    s.take(suffix_pos(s))
}

/// Only one position can carry the sequence suffix, since an opening
/// bracket is not a digit.
pub proof fn lemma_suffix_pos_unique(s: Seq<char>, i1: int, i2: int)
    requires
        seq_suffix_at(s, i1),
        seq_suffix_at(s, i2),
    ensures
        i1 == i2,
{
    if i1 < i2 {
        assert(is_digit_char(s[i2]));
    }
    if i2 < i1 {
        assert(is_digit_char(s[i1]));
    }
}

/// Appending `[n]` to any name gives a name whose extraction yields
/// exactly `n` and the unsuffixed name back.
pub proof fn lemma_suffix_round_trip(p: Seq<char>, n: u16)
    ensures
        has_seq_suffix(p + seq!['['] + dec_str(n as int) + seq![']']),
        suffix_num(p + seq!['['] + dec_str(n as int) + seq![']']) == n,
        clean_name(p + seq!['['] + dec_str(n as int) + seq![']']) == p,
{
    lemma_dec_str_digits(n as int);
    let d = dec_str(n as int);
    let s = p + seq!['['] + d + seq![']'];
    assert(s.len() == p.len() + d.len() + 2);
    assert(s[p.len() as int] == '[');
    assert(s[s.len() - 1] == ']');
    assert(forall|j: int|
        p.len() < j < s.len() - 1 ==> s[j] == d[j - p.len() - 1] && is_digit_char(#[trigger] s[j]));
    assert(seq_suffix_at(s, p.len() as int));
    assert(seq_suffix_at(s, suffix_pos(s)));
    lemma_suffix_pos_unique(s, suffix_pos(s), p.len() as int);
    assert(s.subrange(p.len() as int + 1, s.len() - 1) =~= d);
    assert(s.take(p.len() as int) =~= p);
}

/// A name whose closing bracket is not preceded by a digit has no
/// sequence suffix; trailing bracketed letters fail extraction.
pub proof fn lemma_no_digit_no_suffix(s: Seq<char>)
    requires
        s.len() >= 2,
        s[s.len() - 1] == ']',
        !is_digit_char(s[s.len() - 2]),
    ensures
        !has_seq_suffix(s),
{
    assert forall|i: int| !seq_suffix_at(s, i) by {
        if seq_suffix_at(s, i) {
            assert(is_digit_char(s[s.len() - 2]));
        }
    }
}

/// Extract the sequence number and the clean name from a raw block
/// name; fails exactly when no trailing `[digits]` suffix is there or
/// its value does not fit in 16 bits.
pub fn strip_number_in_str(a_string: &String) -> (r: Result<(u16, String), BlockError>)
    ensures
        r is Ok <==> has_seq_suffix(a_string@) && suffix_num(a_string@) <= u16::MAX,
        r matches Ok(p) ==> p.0 == suffix_num(a_string@) && p.1@ == clean_name(a_string@),
        r matches Err(e) ==> e == BlockError::MissingSequenceNumber,
{
    let s = a_string.as_str();
    let n = s.unicode_len();
    if n < 3 {
        proof {
            assert forall|i: int| !seq_suffix_at(s@, i) by {}
        }
        return Err(BlockError::MissingSequenceNumber);
    }
    if s.get_char(n - 1) != ']' {
        proof {
            assert forall|i: int| !seq_suffix_at(s@, i) by {}
        }
        return Err(BlockError::MissingSequenceNumber);
    }
    let mut k: usize = n - 2;
    while k > 0 && is_digit(s.get_char(k))
        invariant
            k <= n - 2,
            3 <= n == s@.len(),
            forall|j: int| k < j <= n - 2 ==> is_digit_char(s@[j]),
        decreases k,
    {
        k = k - 1;
    }
    if is_digit(s.get_char(k)) {
        proof {
            assert(k == 0);
            assert forall|i: int| !seq_suffix_at(s@, i) by {
                if seq_suffix_at(s@, i) {
                    assert(s@[i] == '[');
                    if i == 0 {
                        assert(is_digit_char(s@[0]));
                    } else {
                        assert(is_digit_char(s@[i]));
                    }
                }
            }
        }
        return Err(BlockError::MissingSequenceNumber);
    }
    if s.get_char(k) != '[' {
        proof {
            assert forall|i: int| !seq_suffix_at(s@, i) by {
                if seq_suffix_at(s@, i) {
                    if i < k {
                        assert(is_digit_char(s@[k as int]));
                    } else if i > k {
                        assert(is_digit_char(s@[i]));
                    }
                }
            }
        }
        return Err(BlockError::MissingSequenceNumber);
    }
    if k == n - 2 {
        proof {
            assert forall|i: int| !seq_suffix_at(s@, i) by {
                if seq_suffix_at(s@, i) {
                    assert(i < k);
                    assert(is_digit_char(s@[k as int]));
                }
            }
        }
        return Err(BlockError::MissingSequenceNumber);
    }
    proof {
        assert(seq_suffix_at(s@, k as int));
        assert(seq_suffix_at(s@, suffix_pos(s@)));
        lemma_suffix_pos_unique(s@, suffix_pos(s@), k as int);
    }
    let digits = s.substring_char(k + 1, n - 1);
    match parse_u16_digits(digits) {
        Option::None => Err(BlockError::MissingSequenceNumber),
        Option::Some(v) => {
            let clean = String::from_str(s.substring_char(0, k));
            proof {
                assert(clean@ =~= clean_name(a_string@));
            }
            Ok((v, clean))
        },
    }
}

} // verus!
