//! Moves and copies of bytes inside a fixed-size array.
//!
//! These are the primitives that the string's mutations are built from. Each
//! one says exactly which bytes of the array change and what they become.

use vstd::prelude::*;

verus! {

/// Copies `src` into `buf`, starting at position `at`. The other bytes of
/// `buf` keep their values.
pub fn copy_into<const N: usize>(buf: &mut [u8; N], at: usize, src: &[u8])
    requires
        at + src@.len() <= N,
    ensures
        final(buf)@ == old(buf)@.subrange(0, at as int) + src@ + old(buf)@.subrange(
            at + src@.len(),
            N as int,
        ),
{
    let count: usize = src.len();
    let mut i: usize = 0;
    while i < count
        invariant
            count == src@.len(),
            at + count <= N,
            i <= count,
            buf@ == old(buf)@.subrange(0, at as int) + src@.subrange(0, i as int) + old(
                buf,
            )@.subrange(at + i, N as int),
        decreases count - i,
    {
        buf[at + i] = src[i];
        assert(buf@ =~= old(buf)@.subrange(0, at as int) + src@.subrange(0, i + 1) + old(
            buf,
        )@.subrange(at + i + 1, N as int));
        i += 1;
    }
    assert(src@.subrange(0, count as int) =~= src@);
}

/// Moves the bytes at positions `from..to` towards the end by `by` places.
/// The ranges may overlap. Bytes outside the destination keep their values.
pub fn shift_right<const N: usize>(buf: &mut [u8; N], from: usize, to: usize, by: usize)
    requires
        from <= to,
        to + by <= N,
    ensures
        final(buf)@ == old(buf)@.subrange(0, from + by) + old(buf)@.subrange(
            from as int,
            to as int,
        ) + old(buf)@.subrange(to + by, N as int),
{
    let mut i: usize = to;
    while i > from
        invariant
            from <= i <= to,
            to + by <= N,
            buf@.len() == N,
            forall|j: int| 0 <= j < i + by ==> buf@[j] == old(buf)@[j],
            forall|j: int| i + by <= j < to + by ==> buf@[j] == old(buf)@[j - by],
            forall|j: int| to + by <= j < N ==> buf@[j] == old(buf)@[j],
        decreases i,
    {
        i -= 1;
        buf[i + by] = buf[i];
    }
    assert(buf@ =~= old(buf)@.subrange(0, from + by) + old(buf)@.subrange(from as int, to as int)
        + old(buf)@.subrange(to + by, N as int));
}

/// Moves the bytes at positions `from..to` towards the start by `by` places.
/// The ranges may overlap. Bytes outside the destination keep their values.
pub fn shift_left<const N: usize>(buf: &mut [u8; N], from: usize, to: usize, by: usize)
    requires
        by <= from <= to <= N,
    ensures
        final(buf)@ == old(buf)@.subrange(0, from - by) + old(buf)@.subrange(
            from as int,
            to as int,
        ) + old(buf)@.subrange(to - by, N as int),
{
    let mut i: usize = from;
    while i < to
        invariant
            by <= from <= i <= to <= N,
            buf@.len() == N,
            forall|j: int| 0 <= j < from - by ==> buf@[j] == old(buf)@[j],
            forall|j: int| from - by <= j < i - by ==> buf@[j] == old(buf)@[j + by],
            forall|j: int| i - by <= j < N ==> buf@[j] == old(buf)@[j],
        decreases to - i,
    {
        buf[i - by] = buf[i];
        i += 1;
    }
    assert(buf@ =~= old(buf)@.subrange(0, from - by) + old(buf)@.subrange(from as int, to as int)
        + old(buf)@.subrange(to - by, N as int));
}

/// Sets every byte of `buf` from position `from` on to zero.
pub fn zero_from<const N: usize>(buf: &mut [u8; N], from: usize)
    requires
        from <= N,
    ensures
        final(buf)@ == old(buf)@.subrange(0, from as int) + Seq::new(
            (N - from) as nat,
            |i: int| 0u8,
        ),
{
    let mut i: usize = from;
    while i < N
        invariant
            from <= i <= N,
            buf@.len() == N,
            forall|j: int| 0 <= j < from ==> buf@[j] == old(buf)@[j],
            forall|j: int| from <= j < i ==> buf@[j] == 0,
        decreases N - i,
    {
        buf[i] = 0;
        i += 1;
    }
    assert(buf@ =~= old(buf)@.subrange(0, from as int) + Seq::new(
        (N - from) as nat,
        |i: int| 0u8,
    ));
}

} // verus!
