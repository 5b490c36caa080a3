//! Fieldnorms: the number of tokens of a field, compressed into a byte.

use vstd::prelude::*;
use vstd::arithmetic::power2;

verus! {

/// The number of tokens that a fieldnorm id stands for. Up to forty tokens each number has an id;
/// behind that, eight ids share a range that is twice as wide as the one before.
pub open spec fn decoded(id: u8) -> nat {
    let i = (id - 24) as nat;
    if id < 32 {
        id as nat
    } else {
        24 + (8 + i % 8) * power2::pow2((i / 8 - 1) as nat)
    }
}

/// The greatest fieldnorm id that does not stand for more than `fieldnorm` tokens.
pub open spec fn encoded(fieldnorm: u32) -> u8 {
    choose|id: u8| #![trigger decoded(id)] is_encoded(fieldnorm, id)
}

/// `id` does not stand for more than `fieldnorm` tokens, and every greater id does.
pub open spec fn is_encoded(fieldnorm: u32, id: u8) -> bool {
    decoded(id) <= fieldnorm && forall|other: u8| id < other ==> #[trigger] decoded(other)
        > fieldnorm
}

/// Reads and writes fieldnorm ids.
pub struct FieldNormReader {}

proof fn encoded_is_unique(fieldnorm: u32, id: u8)
    requires
        is_encoded(fieldnorm, id),
    ensures
        encoded(fieldnorm) == id,
{
    let other = encoded(fieldnorm);
    assert(decoded(id) <= fieldnorm);
    assert(is_encoded(fieldnorm, other));
}

impl FieldNormReader {
    /// Returns the number of tokens that a fieldnorm id stands for.
    pub fn id_to_fieldnorm(id: u8) -> (r: u32)
        ensures
            r == decoded(id),
    {
        if id < 32 {
            return id as u32;
        }
        let i: u8 = id - 24;
        let first: u32 = 8 + (i % 8) as u32;
        let shift: u8 = i / 8 - 1;
        let mut value: u32 = first;
        let mut k: u8 = 0;
        proof {
            power2::lemma2_to64();
        }
        while k < shift
            invariant
                k <= shift <= 27,
                first <= 15,
                value == first * power2::pow2(k as nat),
            decreases shift - k,
        {
            proof {
                power2::lemma_pow2_unfold((k + 1) as nat);
                power2::lemma2_to64();
                if k < 26 {
                    power2::lemma_pow2_strictly_increases(k as nat, 26);
                }
                assert(first * power2::pow2((k + 1) as nat) == 2 * (first * power2::pow2(k as nat)))
                    by (nonlinear_arith)
                    requires
                        power2::pow2((k + 1) as nat) == 2 * power2::pow2(k as nat),
                ;
                assert(first * power2::pow2(k as nat) <= 15 * 0x4000000) by (nonlinear_arith)
                    requires
                        first <= 15,
                        power2::pow2(k as nat) <= 0x4000000,
                ;
            }
            value = value * 2;
            k += 1;
        }
        proof {
            power2::lemma2_to64();
            if shift < 27 {
                power2::lemma_pow2_strictly_increases(shift as nat, 27);
            }
            assert(first * power2::pow2(shift as nat) <= 15 * 0x8000000) by (nonlinear_arith)
                requires
                    first <= 15,
                    power2::pow2(shift as nat) <= 0x8000000,
            ;
        }
        24 + value
    }

    /// Returns the greatest fieldnorm id that does not stand for more than `fieldnorm` tokens.
    pub fn fieldnorm_to_id(fieldnorm: u32) -> (r: u8)
        ensures
            is_encoded(fieldnorm, r),
            r == encoded(fieldnorm),
    {
        let mut id: u8 = 255;
        while id > 0
            invariant
                forall|other: u8| id < other ==> #[trigger] decoded(other) > fieldnorm,
            decreases id,
        {
            if FieldNormReader::id_to_fieldnorm(id) <= fieldnorm {
                proof {
                    encoded_is_unique(fieldnorm, id);
                }
                return id;
            }
            id -= 1;
        }
        proof {
            encoded_is_unique(fieldnorm, 0);
        }
        0
    }
}

} // verus!
