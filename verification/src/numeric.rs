//! Fixed-width binary rendering of addresses and decimal reading of
//! address-instruction operands.

use vstd::prelude::*;

use crate::text::is_digit;

verus! {

/// The value `n` written in binary with exactly `w` digits, most significant
/// first; digits beyond the `w` low bits of `n` are not represented.
pub open spec fn bin_of(n: nat, w: nat) -> Seq<char>
    decreases w,
{
    if w == 0 {
        Seq::empty()
    } else {
        bin_of(n / 2, (w - 1) as nat) + seq![if n % 2 == 1 { '1' } else { '0' }]
    }
}

/// A binary rendering always has exactly its requested width.
pub proof fn lemma_bin_of_len(n: nat, w: nat)
    ensures
        bin_of(n, w).len() == w,
    decreases w,
{
    if w > 0 {
        lemma_bin_of_len(n / 2, (w - 1) as nat);
    }
}

/// The numeric value of a sequence of decimal digits, most significant first;
/// an empty sequence reads as zero.
pub open spec fn dec_val(s: Seq<char>) -> nat
    decreases s.len(),
{
    if s.len() == 0 {
        0
    } else {
        dec_val(s.drop_last()) * 10 + (s.last() as u32 - 48) as nat
    }
}

/// Renders `n`'s low `w` bits as a binary string, most significant first.
pub fn bin_string(n: u16, w: usize) -> (s: String)
    ensures
        s@ == bin_of(n as nat, w as nat),
    decreases w,
{
    if w == 0 {
        let s = String::new();
        proof {
            assert(s@ =~= bin_of(n as nat, 0));
        }
        s
    } else {
        let mut s = bin_string(n / 2, w - 1);
        if n % 2 == 1 {
            s.append("1");
            proof {
                reveal_strlit("1");
                assert(s@ =~= bin_of(n as nat, w as nat));
            }
        } else {
            s.append("0");
            proof {
                reveal_strlit("0");
                assert(s@ =~= bin_of(n as nat, w as nat));
            }
        }
        s
    }
}

/// Reads a decimal operand. Returns its value when every character is a
/// digit and the value fits below `bound`; `None` otherwise.
pub fn parse_decimal(s: &str, bound: u16) -> (r: Option<u16>)
    requires
        0 < bound,
        s@.len() > 0,
        forall|i: int| 0 <= i < s@.len() ==> is_digit(s@[i]),
    ensures
        match r {
            Some(v) => v < bound && v as nat == dec_val(s@),
            None => dec_val(s@) >= bound,
        },
{
    let n = s.unicode_len();
    let mut acc: u32 = 0;
    let mut i: usize = 0;
    while i < n
        invariant
            i <= n,
            n == s@.len(),
            forall|j: int| 0 <= j < s@.len() ==> is_digit(s@[j]),
            acc as nat == dec_val(s@.subrange(0, i as int)),
            acc < bound,
        decreases n - i,
    {
        let c = s.get_char(i);
        let d: u32 = c as u32 - 48;
        proof {
            assert(is_digit(s@[i as int]));
            assert(s@.subrange(0, i as int + 1).drop_last() =~= s@.subrange(0, i as int));
        }
        let next: u32 = acc * 10 + d;
        if next >= bound as u32 {
            proof {
                lemma_dec_val_grows(s@, i as int + 1);
            }
            return None;
        }
        acc = next;
        i = i + 1;
    }
    proof {
        assert(s@.subrange(0, n as int) =~= s@);
    }
    Some(acc as u16)
}

/// Extending a digit string never lowers its value: the value of a prefix is
/// at most the value of the whole.
pub proof fn lemma_dec_val_grows(s: Seq<char>, i: int)
    requires
        0 <= i <= s.len(),
    ensures
        dec_val(s.subrange(0, i)) <= dec_val(s),
    decreases s.len() - i,
{
    if i == s.len() {
        assert(s.subrange(0, i) =~= s);
    } else {
        lemma_dec_val_grows(s, i + 1);
        assert(s.subrange(0, i + 1).drop_last() =~= s.subrange(0, i));
        assert(dec_val(s.subrange(0, i)) <= dec_val(s.subrange(0, i + 1)));
    }
}

} // verus!
