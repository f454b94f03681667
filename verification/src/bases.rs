//! Classification of nucleotide bytes: the canonical bases A, T, G, C,
//! the ambiguity symbol N, and their lowercase variants.

use vstd::prelude::*;

verus! {

/// The byte is `A` or `a`.
pub open spec fn is_base_a(b: u8) -> bool {
    b == 65 || b == 97
}

/// The byte is `T` or `t`.
pub open spec fn is_base_t(b: u8) -> bool {
    b == 84 || b == 116
}

/// The byte is `G` or `g`.
pub open spec fn is_base_g(b: u8) -> bool {
    b == 71 || b == 103
}

/// The byte is `C` or `c`.
pub open spec fn is_base_c(b: u8) -> bool {
    b == 67 || b == 99
}

/// The byte is `N` or `n`.
pub open spec fn is_base_n(b: u8) -> bool {
    b == 78 || b == 110
}

/// The byte is a canonical, unambiguous base: A, T, G or C in either case.
pub open spec fn is_acgt(b: u8) -> bool {
    is_base_a(b) || is_base_t(b) || is_base_g(b) || is_base_c(b)
}

/// The byte is one of the five recognised symbols A, T, G, C or N.
pub open spec fn is_acgtn(b: u8) -> bool {
    is_acgt(b) || is_base_n(b)
}

/// Every byte of the sequence is a canonical base.
pub open spec fn seq_all_acgt(s: Seq<u8>) -> bool {
    forall|i: int| 0 <= i < s.len() ==> is_acgt(s[i])
}

/// Decides whether every byte of `s` is a canonical base (A/T/G/C, either case).
pub fn all_acgt(s: &Vec<u8>) -> (r: bool)
    ensures
        r == seq_all_acgt(s@),
{
    let mut i: usize = 0;
    while i < s.len()
        invariant
            0 <= i <= s@.len(),
            forall|j: int| 0 <= j < i ==> is_acgt(s@[j]),
        decreases s@.len() - i,
    {
        let b = s[i];
        if !(b == 65 || b == 97 || b == 84 || b == 116 || b == 71 || b == 103 || b == 67 || b == 99)
        {
            assert(!is_acgt(s@[i as int]));
            return false;
        }
        i = i + 1;
    }
    true
}

} // verus!
