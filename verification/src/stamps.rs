//! Commit versions: the bytes the database orders transactions by.

use vstd::prelude::*;

verus! {

/// A commit version as a number, most significant byte first.
pub open spec fn stamp_value(stamp: Seq<u8>) -> nat
    decreases stamp.len(),
{
    if stamp.len() == 0 {
        0
    } else {
        stamp_value(stamp.drop_last()) * 256 + stamp.last() as nat
    }
}

/// Ordering commit versions as numbers is ordering their bytes: of two stamps of
/// one length, the smaller is the one with the smaller byte where they first
/// differ.
pub proof fn commit_order_is_byte_order(a: Seq<u8>, b: Seq<u8>, i: int)
    requires
        a.len() == b.len(),
        0 <= i < a.len(),
        a.take(i) == b.take(i),
        a[i] < b[i],
    ensures
        stamp_value(a) < stamp_value(b),
    decreases a.len(),
{
    if i == a.len() - 1 {
        assert(a.drop_last() =~= a.take(i));
        assert(b.drop_last() =~= b.take(i));
    } else {
        let x = a.drop_last();
        let y = b.drop_last();
        assert(x.take(i) =~= a.take(i));
        assert(y.take(i) =~= b.take(i));
        commit_order_is_byte_order(x, y, i);
    }
}

/// A commit version of at most twelve bytes as a number.
pub fn stamp_number(stamp: &[u8]) -> (r: u128)
    requires
        stamp@.len() <= 12,
    ensures
        r == stamp_value(stamp@),
{
    let mut value: u128 = 0;
    let mut i: usize = 0;
    let ghost mut bound: nat = 1;
    assert(stamp@.take(0) =~= Seq::<u8>::empty());
    while i < stamp.len()
        invariant
            i <= stamp@.len() <= 12,
            value == stamp_value(stamp@.take(i as int)),
            value < bound,
            i == 0 ==> bound == 1,
            i == 1 ==> bound == 0x100,
            i == 2 ==> bound == 0x1_0000,
            i == 3 ==> bound == 0x100_0000,
            i == 4 ==> bound == 0x1_0000_0000,
            i == 5 ==> bound == 0x100_0000_0000,
            i == 6 ==> bound == 0x1_0000_0000_0000,
            i == 7 ==> bound == 0x100_0000_0000_0000,
            i == 8 ==> bound == 0x1_0000_0000_0000_0000,
            i == 9 ==> bound == 0x100_0000_0000_0000_0000,
            i == 10 ==> bound == 0x1_0000_0000_0000_0000_0000,
            i == 11 ==> bound == 0x100_0000_0000_0000_0000_0000,
            i == 12 ==> bound == 0x1_0000_0000_0000_0000_0000_0000,
        decreases stamp@.len() - i,
    {
        assert(stamp@.take(i as int + 1).drop_last() =~= stamp@.take(i as int));
        value = value * 256 + stamp[i] as u128;
        proof {
            bound = bound * 256;
        }
        i = i + 1;
    }
    assert(stamp@.take(i as int) =~= stamp@);
    value
}

/// Whether a commit has filled a versionstamp in: not all of its first ten bytes
/// are placeholders.
pub open spec fn is_filled_in(stamp: Seq<u8>) -> bool {
    exists|i: int| 0 <= i < 10 && stamp[i] != 0xff
}

/// Whether a commit has filled a versionstamp in.
pub fn is_complete(stamp: &[u8; 12]) -> (r: bool)
    ensures
        r == is_filled_in(stamp@),
{
    let mut i: usize = 0;
    while i < 10
        invariant
            i <= 10,
            forall|k: int| 0 <= k < i ==> stamp@[k] == 0xff,
        decreases 10 - i,
    {
        if stamp[i] != 0xff {
            assert(stamp@[i as int] != 0xff);
            return true;
        }
        i = i + 1;
    }
    false
}

} // verus!
