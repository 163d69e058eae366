//! Little-endian `u64` fields inside byte buffers.
use vstd::prelude::*;

verus! {

/// The number whose `n` little-endian base-256 digits start at index `at` of `buf`.
pub open spec fn le_value(buf: Seq<u8>, at: int, n: nat) -> nat
    decreases n,
{
    if n == 0 {
        0
    } else {
        buf[at] as nat + 256 * le_value(buf, at + 1, (n - 1) as nat)
    }
}

/// Base-256 digit `i` of `value`, the least significant digit being digit 0.
pub open spec fn le_digit(value: nat, i: nat) -> u8
    decreases i,
{
    if i == 0 {
        (value % 256) as u8
    } else {
        le_digit(value / 256, (i - 1) as nat)
    }
}

/// What a reader finds in the eight bytes at `offset`: zero where the buffer is too short.
pub open spec fn u64_at(buf: Seq<u8>, offset: int) -> nat {
    if buf.len() < offset + 8 {
        0
    } else {
        le_value(buf, offset, 8)
    }
}

/// `buf` with the eight bytes at `offset` replaced by the digits of `value`, or `buf` itself
/// where it is too short to hold them.
pub open spec fn with_u64(buf: Seq<u8>, offset: int, value: nat) -> Seq<u8> {
    if buf.len() < offset + 8 {
        buf
    } else {
        Seq::new(
            buf.len(),
            |k: int|
                if offset <= k < offset + 8 {
                    le_digit(value, (k - offset) as nat)
                } else {
                    buf[k]
                },
        )
    }
}

/// Reads the little-endian `u64` at `offset`, or zero where `buf` ends before its last byte.
pub fn read_u64(buf: &[u8], offset: usize) -> (value: u64)
    requires
        offset + 8 <= usize::MAX,
    ensures
        value == u64_at(buf@, offset as int),
{
    if buf.len() < offset + 8 {
        return 0;
    }
    proof {
        reveal_with_fuel(le_value, 9);
    }
    let low: u64 = buf[offset] as u64 + 256 * (buf[offset + 1] as u64 + 256 * (
    buf[offset + 2] as u64 + 256 * buf[offset + 3] as u64));
    let high: u64 = buf[offset + 4] as u64 + 256 * (buf[offset + 5] as u64 + 256 * (
    buf[offset + 6] as u64 + 256 * buf[offset + 7] as u64));
    low + 0x1_0000_0000 * high
}

/// Writes `val` as a little-endian `u64` at `offset`. A buffer that ends before the last of the
/// eight bytes is left as it is.
pub fn write_u64(buf: &mut [u8], offset: usize, val: u64)
    requires
        offset + 8 <= usize::MAX,
    ensures
        final(buf)@ == with_u64(old(buf)@, offset as int, val as nat),
{
    if buf.len() >= offset + 8 {
        let ghost before = buf@;
        let mut rest: u64 = val;
        let mut i: usize = 0;
        while i < 8
            invariant
                i <= 8,
                before == old(buf)@,
                buf@.len() == before.len(),
                offset + 8 <= before.len() <= usize::MAX,
                forall|j: nat| #[trigger]
                    le_digit(rest as nat, j) == le_digit(val as nat, i as nat + j),
                forall|k: int|
                    0 <= k < before.len() ==> #[trigger] buf@[k] == if offset <= k < offset + i {
                        le_digit(val as nat, (k - offset) as nat)
                    } else {
                        before[k]
                    },
            decreases 8 - i,
        {
            assert(le_digit(rest as nat, 0) == le_digit(val as nat, i as nat));
            buf[offset + i] = (rest % 256) as u8;
            assert forall|j: nat| #[trigger]
                le_digit((rest / 256) as nat, j) == le_digit(val as nat, i as nat + 1 + j) by {
                assert(le_digit(rest as nat, j + 1) == le_digit((rest / 256) as nat, j));
            }
            rest = rest / 256;
            i = i + 1;
        }
    }
}

/// Two buffers that agree on `n` bytes from `at` hold the same number there.
pub proof fn lemma_le_value_local(a: Seq<u8>, b: Seq<u8>, at: int, n: nat)
    requires
        forall|k: int| at <= k < at + n ==> a[k] == b[k],
    ensures
        le_value(a, at, n) == le_value(b, at, n),
    decreases n,
{
    if n > 0 {
        lemma_le_value_local(a, b, at + 1, (n - 1) as nat);
    }
}

/// Eight bytes hold a number below 2^64.
pub proof fn lemma_u64_at_bound(buf: Seq<u8>, offset: int)
    ensures
        u64_at(buf, offset) <= u64::MAX,
{
    reveal_with_fuel(le_value, 9);
}

/// What was written at an offset is read back from it.
pub proof fn law_read_back(buf: Seq<u8>, offset: int, value: u64)
    requires
        0 <= offset,
        offset + 8 <= buf.len(),
    ensures
        u64_at(with_u64(buf, offset, value as nat), offset) == value,
{
    reveal_with_fuel(le_value, 9);
    reveal_with_fuel(le_digit, 8);
}

/// A write leaves every field that does not overlap it as it was, and keeps the buffer's length.
pub proof fn law_write_is_local(buf: Seq<u8>, offset: int, value: u64, other: int)
    requires
        0 <= offset,
        0 <= other,
        other + 8 <= offset || offset + 8 <= other,
    ensures
        u64_at(with_u64(buf, offset, value as nat), other) == u64_at(buf, other),
        with_u64(buf, offset, value as nat).len() == buf.len(),
{
    if other + 8 <= buf.len() {
        lemma_le_value_local(with_u64(buf, offset, value as nat), buf, other, 8);
    }
}

/// Writing back what a field holds changes nothing.
pub proof fn law_write_back(buf: Seq<u8>, offset: int)
    requires
        0 <= offset,
    ensures
        with_u64(buf, offset, u64_at(buf, offset)) == buf,
{
    reveal_with_fuel(le_value, 9);
    reveal_with_fuel(le_digit, 8);
    if offset + 8 <= buf.len() {
        assert(with_u64(buf, offset, u64_at(buf, offset)) =~= buf);
    }
}

/// Of two writes at one offset only the second shows.
pub proof fn law_last_write_wins(buf: Seq<u8>, offset: int, first: u64, second: u64)
    requires
        0 <= offset,
    ensures
        with_u64(with_u64(buf, offset, first as nat), offset, second as nat) == with_u64(
            buf,
            offset,
            second as nat,
        ),
{
    assert(with_u64(with_u64(buf, offset, first as nat), offset, second as nat) =~= with_u64(
        buf,
        offset,
        second as nat,
    ));
}

/// A field is the sum of its eight bytes, each counted by its place.
pub proof fn law_field_is_its_bytes(buf: Seq<u8>, at: int)
    requires
        0 <= at,
        at + 8 <= buf.len(),
    ensures
        le_value(buf, at, 8) == buf[at] + 0x100 * buf[at + 1] + 0x1_0000 * buf[at + 2] + 0x100_0000
            * buf[at + 3] + 0x1_0000_0000 * buf[at + 4] + 0x100_0000_0000 * buf[at + 5]
            + 0x1_0000_0000_0000 * buf[at + 6] + 0x100_0000_0000_0000 * buf[at + 7],
{
    reveal_with_fuel(le_value, 9);
}

/// A field that lies inside the buffer is read as the sum of its bytes, and any other as zero.
pub proof fn law_read(buf: Seq<u8>, offset: int)
    requires
        0 <= offset,
    ensures
        offset + 8 <= buf.len() ==> u64_at(buf, offset) == buf[offset] + 0x100 * buf[offset + 1]
            + 0x1_0000 * buf[offset + 2] + 0x100_0000 * buf[offset + 3] + 0x1_0000_0000 * buf[offset
            + 4] + 0x100_0000_0000 * buf[offset + 5] + 0x1_0000_0000_0000 * buf[offset + 6]
            + 0x100_0000_0000_0000 * buf[offset + 7],
        offset + 8 > buf.len() ==> u64_at(buf, offset) == 0,
{
    if offset + 8 <= buf.len() {
        law_field_is_its_bytes(buf, offset);
    }
}

/// A field that lies inside the buffer is written so that its bytes sum to the value and no other
/// byte changes; any other write changes nothing.
pub proof fn law_write(buf: Seq<u8>, offset: int, value: u64)
    requires
        0 <= offset,
    ensures
        with_u64(buf, offset, value as nat).len() == buf.len(),
        forall|k: int|
            0 <= k < buf.len() && !(offset <= k < offset + 8) ==> with_u64(
                buf,
                offset,
                value as nat,
            )[k] == buf[k],
        offset + 8 <= buf.len() ==> ({
            let new = with_u64(buf, offset, value as nat);
            value == new[offset] + 0x100 * new[offset + 1] + 0x1_0000 * new[offset + 2] + 0x100_0000
                * new[offset + 3] + 0x1_0000_0000 * new[offset + 4] + 0x100_0000_0000 * new[offset
                + 5] + 0x1_0000_0000_0000 * new[offset + 6] + 0x100_0000_0000_0000 * new[offset + 7]
        }),
        offset + 8 > buf.len() ==> with_u64(buf, offset, value as nat) == buf,
{
    if offset + 8 <= buf.len() {
        law_read_back(buf, offset, value);
        law_read(with_u64(buf, offset, value as nat), offset);
    }
}

} // verus!
