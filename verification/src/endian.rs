//! Little-endian integers of a given width, as the wire format stores them.

use vstd::prelude::*;

verus! {

/// The `width` bytes that store `x` with the least significant byte first.
/// Bits of `x` beyond the width are dropped.
pub open spec fn le_bytes(x: nat, width: nat) -> Seq<u8>
    decreases width,
{
    if width == 0 {
        Seq::empty()
    } else {
        seq![(x % 256) as u8] + le_bytes(x / 256, (width - 1) as nat)
    }
}

/// The number that the bytes `s` store, the least significant byte first.
pub open spec fn le_value(s: Seq<u8>) -> nat
    decreases s.len(),
{
    if s.len() == 0 {
        0
    } else {
        s[0] as nat + 256 * le_value(s.skip(1))
    }
}

/// The number of values that `width` bytes can tell apart: 256 to the power `width`.
pub open spec fn le_limit(width: nat) -> nat
    decreases width,
{
    if width == 0 {
        1
    } else {
        256 * le_limit((width - 1) as nat)
    }
}

/// `le_bytes` yields exactly `width` bytes.
pub proof fn lemma_le_bytes_len(x: nat, width: nat)
    ensures
        le_bytes(x, width).len() == width,
    decreases width,
{
    if width > 0 {
        lemma_le_bytes_len(x / 256, (width - 1) as nat);
    }
}

/// A byte string stores a number below the limit of its length.
pub proof fn lemma_le_value_bound(s: Seq<u8>)
    ensures
        le_value(s) < le_limit(s.len()),
    decreases s.len(),
{
    if s.len() > 0 {
        lemma_le_value_bound(s.skip(1));
    }
}

/// Reading back the bytes of a number that fits the width gives the number.
pub proof fn lemma_le_value_of_bytes(x: nat, width: nat)
    requires
        x < le_limit(width),
    ensures
        le_value(le_bytes(x, width)) == x,
    decreases width,
{
    if width > 0 {
        let s = le_bytes(x, width);
        let rest = le_bytes(x / 256, (width - 1) as nat);
        lemma_le_bytes_len(x, width);
        lemma_le_value_of_bytes(x / 256, (width - 1) as nat);
        assert(s.skip(1) =~= rest);
        assert(s[0] == (x % 256) as u8);
    }
}

/// The limits of one byte and of the three payload widths of the format.
pub proof fn lemma_le_limits()
    ensures
        le_limit(1) == 0x100,
        le_limit(2) == 0x1_0000,
        le_limit(4) == 0x1_0000_0000,
        le_limit(8) == 0x1_0000_0000_0000_0000,
{
    reveal_with_fuel(le_limit, 9);
}

/// Appends the `width` little-endian bytes of `x` to `out`.
pub(crate) fn push_le(out: &mut Vec<u8>, x: u64, width: usize)
    ensures
        final(out)@ == old(out)@ + le_bytes(x as nat, width as nat),
    decreases width,
{
    if width > 0 {
        out.push((x % 256) as u8);
        push_le(out, x / 256, width - 1);
        assert(final(out)@ =~= old(out)@ + le_bytes(x as nat, width as nat));
    }
}

/// Reads the number stored in the `width` bytes of `bytes` that start at `start`.
pub(crate) fn read_le(bytes: &[u8], start: usize, width: usize) -> (v: u64)
    requires
        width <= 8,
        start + width <= bytes.len(),
    ensures
        v == le_value(bytes@.subrange(start as int, start + width)),
    decreases width,
{
    if width == 0 {
        0
    } else {
        let rest = read_le(bytes, start + 1, width - 1);
        proof {
            let s = bytes@.subrange(start as int, start + width);
            let tail = bytes@.subrange(start + 1, start + width);
            assert(s.skip(1) =~= tail);
            lemma_le_value_bound(tail);
            reveal_with_fuel(le_limit, 9);
        }
        bytes[start] as u64 + 256 * rest
    }
}

} // verus!
