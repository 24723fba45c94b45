//! Big-endian byte strings read as numbers.
use vstd::prelude::*;

verus! {

/// The number that `bytes` spell in big-endian order (most significant byte first).
pub open spec fn be_value(bytes: Seq<u8>) -> nat
    decreases bytes.len(),
{
    if bytes.len() == 0 {
        0
    } else {
        be_value(bytes.drop_last()) * 256 + bytes.last() as nat
    }
}

/// Reading one more byte shifts the value up by a byte.
pub proof fn lemma_be_value_push(bytes: Seq<u8>, i: int)
    requires
        0 <= i < bytes.len(),
    ensures
        be_value(bytes.subrange(0, i + 1)) == be_value(bytes.subrange(0, i)) * 256 + bytes[i],
{
    assert(bytes.subrange(0, i + 1).drop_last() =~= bytes.subrange(0, i));
}

/// A longer prefix never spells a smaller number.
pub proof fn lemma_be_value_prefix_monotone(bytes: Seq<u8>, i: int, j: int)
    requires
        0 <= i <= j <= bytes.len(),
    ensures
        be_value(bytes.subrange(0, i)) <= be_value(bytes.subrange(0, j)),
    decreases j - i,
{
    if i < j {
        lemma_be_value_prefix_monotone(bytes, i, j - 1);
        lemma_be_value_push(bytes, j - 1);
    }
}

} // verus!
