//! The XOR checksum over a sentence body, and its sensitivity law: any
//! single corrupted byte changes the checksum.

use vstd::prelude::*;

use crate::common::D0;
use crate::common::D9;
use crate::common::LET_A;
use crate::common::LET_F;
use crate::common::LOW_A;
use crate::common::LOW_F;

verus! {

/// The bytewise XOR of `s`.
pub open spec fn xor_of(s: Seq<u8>) -> u8
    decreases s.len(),
{
    if s.len() == 0 {
        0
    } else {
        xor_of(s.drop_last()) ^ s.last()
    }
}

/// Computes the XOR checksum of a sentence body.
pub fn checksum(body: &[u8]) -> (r: u8)
    ensures
        r == xor_of(body@),
{
    let n = body.len();
    let mut acc: u8 = 0;
    let mut i: usize = 0;
    proof {
        assert(body@.subrange(0, 0) =~= Seq::<u8>::empty());
    }
    while i < n
        invariant
            0 <= i <= n,
            n == body@.len(),
            acc == xor_of(body@.subrange(0, i as int)),
        decreases n - i,
    {
        proof {
            assert(body@.subrange(0, i + 1).drop_last() =~= body@.subrange(0, i as int));
            assert(body@.subrange(0, i + 1).last() == body@[i as int]);
        }
        acc = acc ^ body[i];
        i = i + 1;
    }
    proof {
        assert(body@.subrange(0, n as int) =~= body@);
    }
    acc
}

/// The value of one ASCII hex digit, upper or lower case.
pub open spec fn hex_val(b: u8) -> Option<u8> {
    if D0 <= b && b <= D9 {
        Some((b - D0) as u8)
    } else if LET_A <= b && b <= LET_F {
        Some((b - LET_A + 10) as u8)
    } else if LOW_A <= b && b <= LOW_F {
        Some((b - LOW_A + 10) as u8)
    } else {
        None
    }
}

/// Decodes one hex digit.
pub fn hex_digit(b: u8) -> (r: Option<u8>)
    ensures
        r == hex_val(b),
{
    if D0 <= b && b <= D9 {
        Some(b - D0)
    } else if LET_A <= b && b <= LET_F {
        Some(b - LET_A + 10)
    } else if LOW_A <= b && b <= LOW_F {
        Some(b - LOW_A + 10)
    } else {
        None
    }
}

/// Corrupting exactly one body byte — in particular flipping any single
/// bit — always changes the XOR checksum, so a sentence whose declared
/// checksum matched before the corruption can never validate afterwards.
pub proof fn lemma_checksum_sensitivity(b1: Seq<u8>, b2: Seq<u8>, i: int)
    requires
        b1.len() == b2.len(),
        0 <= i < b1.len(),
        b1[i] != b2[i],
        forall|j: int| 0 <= j < b1.len() && j != i ==> b1[j] == b2[j],
    ensures
        xor_of(b1) != xor_of(b2),
    decreases b1.len(),
{
    let n = b1.len() as int;
    if i == n - 1 {
        assert(b1.drop_last() =~= b2.drop_last()) by {
            assert(forall|j: int| 0 <= j < n - 1 ==> b1.drop_last()[j] == b1[j] && b2.drop_last()[
            j] == b2[j]);
        }
        let x = xor_of(b1.drop_last());
        let a = b1.last();
        let b = b2.last();
        assert(a != b);
        assert((x ^ a) != (x ^ b)) by (bit_vector)
            requires
                a != b,
        ;
    } else {
        assert(b1.last() == b2.last());
        assert(b1.drop_last()[i] == b1[i] && b2.drop_last()[i] == b2[i]);
        assert(forall|j: int|
            0 <= j < b1.drop_last().len() && j != i ==> b1.drop_last()[j] == b2.drop_last()[j]);
        lemma_checksum_sensitivity(b1.drop_last(), b2.drop_last(), i);
        let y1 = xor_of(b1.drop_last());
        let y2 = xor_of(b2.drop_last());
        let c = b1.last();
        assert((y1 ^ c) != (y2 ^ c)) by (bit_vector)
            requires
                y1 != y2,
        ;
    }
}

} // verus!
