//! What holds of every number in a message.
use crate::wire::{
    le16, le32, le64, read_array, read_u16, read_u32, read_u64, u16_at, u32_at, u64_at, zeros,
};
use vstd::prelude::*;

verus! {

/// A number is written lowest byte first, each byte counting 256 times as much as the one before.
pub proof fn bytes_add_up(a: u16, b: u32, c: u64)
    ensures
        le16(a).len() == 2,
        a == le16(a)[0] + 0x100 * le16(a)[1],
        le32(b).len() == 4,
        b == le32(b)[0] + 0x100 * le32(b)[1] + 0x1_0000 * le32(b)[2] + 0x100_0000 * le32(b)[3],
        le64(c).len() == 8,
        c == le64(c)[0] + 0x100 * le64(c)[1] + 0x1_0000 * le64(c)[2] + 0x100_0000 * le64(c)[3]
            + 0x1_0000_0000 * le64(c)[4] + 0x100_0000_0000 * le64(c)[5] + 0x1_0000_0000_0000
            * le64(c)[6] + 0x100_0000_0000_0000 * le64(c)[7],
{
    lemma_four(b);
    let low = (c % 4294967296) as u32;
    let high = (c / 4294967296) as u32;
    lemma_four(low);
    lemma_four(high);
    assert(le64(c)[0] == le32(low)[0] && le64(c)[1] == le32(low)[1]);
    assert(le64(c)[2] == le32(low)[2] && le64(c)[3] == le32(low)[3]);
    assert(le64(c)[4] == le32(high)[0] && le64(c)[5] == le32(high)[1]);
    assert(le64(c)[6] == le32(high)[2] && le64(c)[7] == le32(high)[3]);
}

proof fn lemma_four(b: u32)
    ensures
        le32(b).len() == 4,
        b == le32(b)[0] + 0x100 * le32(b)[1] + 0x1_0000 * le32(b)[2] + 0x100_0000 * le32(b)[3],
{
    let low = (b % 65536) as u16;
    let high = (b / 65536) as u16;
    assert(le32(b)[0] == le16(low)[0] && le32(b)[1] == le16(low)[1]);
    assert(le32(b)[2] == le16(high)[0] && le32(b)[3] == le16(high)[1]);
}

/// A number is read lowest byte first.
pub proof fn numbers_are_read_lowest_first(b: Seq<u8>, i: int)
    ensures
        u16_at(b, i) == b[i] + 0x100 * b[i + 1],
        u32_at(b, i) == b[i] + 0x100 * b[i + 1] + 0x1_0000 * b[i + 2] + 0x100_0000 * b[i + 3],
        u64_at(b, i) == b[i] + 0x100 * b[i + 1] + 0x1_0000 * b[i + 2] + 0x100_0000 * b[i + 3]
            + 0x1_0000_0000 * b[i + 4] + 0x100_0000_0000 * b[i + 5] + 0x1_0000_0000_0000 * b[i + 6]
            + 0x100_0000_0000_0000 * b[i + 7],
{
    assert(i + 4 + 1 == i + 5 && i + 4 + 2 == i + 6 && i + 4 + 2 + 1 == i + 7);
    assert(u16_at(b, i + 4) == b[i + 4] + 0x100 * b[i + 5]);
    assert(u16_at(b, i + 6) == b[i + 6] + 0x100 * b[i + 7]);
}

/// Reading gives the number in the bytes at the place.
pub proof fn reading_gives_the_number(b: &[u8], i: usize, two: u16, four: u32, eight: u64)
    requires
        i + 8 <= b@.len(),
        call_ensures(read_u16, (b, i), two),
        call_ensures(read_u32, (b, i), four),
        call_ensures(read_u64, (b, i), eight),
    ensures
        two == b@[i as int] + 0x100 * b@[i + 1],
        four == two + 0x1_0000 * b@[i + 2] + 0x100_0000 * b@[i + 3],
        eight == four + 0x1_0000_0000 * b@[i + 4] + 0x100_0000_0000 * b@[i + 5]
            + 0x1_0000_0000_0000 * b@[i + 6] + 0x100_0000_0000_0000 * b@[i + 7],
{
    numbers_are_read_lowest_first(b@, i as int);
}

/// Reading a run of bytes gives the bytes at the place, in order.
pub proof fn reading_gives_the_bytes<const N: usize>(b: &[u8], at: usize, r: [u8; N])
    requires
        at + N <= b@.len(),
        call_ensures(read_array::<N>, (b, at), r),
    ensures
        forall|k: int| 0 <= k < N ==> #[trigger] r@[k] == b@[at + k],
{
}

/// Filling holds nothing but zeros.
pub proof fn zeros_are_zero(n: nat, i: int)
    requires
        0 <= i < n,
    ensures
        zeros(n).len() == n,
        zeros(n)[i] == 0,
{
}

} // verus!
