//! Integers as bytes, lowest first, and signed numbers as the unsigned ones
//! with the same bits.
use vstd::prelude::*;

verus! {

/// The number that a little-endian byte string stands for.
pub open spec fn le_value(bytes: Seq<u8>) -> nat
    decreases bytes.len(),
{
    if bytes.len() == 0 {
        0
    } else {
        bytes[0] as nat + 256 * le_value(bytes.skip(1))
    }
}

/// The lowest `width` little-endian bytes of a number.
pub open spec fn le_bytes(value: nat, width: nat) -> Seq<u8>
    decreases width,
{
    if width == 0 {
        Seq::<u8>::empty()
    } else {
        seq![(value % 256) as u8] + le_bytes(value / 256, (width - 1) as nat)
    }
}

/// How many different values `width` bytes can hold.
pub open spec fn byte_capacity(width: nat) -> nat
    decreases width,
{
    if width == 0 {
        1
    } else {
        256 * byte_capacity((width - 1) as nat)
    }
}

/// The capacities of the widths in use.
pub proof fn lemma_byte_capacity()
    ensures
        byte_capacity(0) == 1,
        byte_capacity(1) == 0x100,
        byte_capacity(2) == 0x1_0000,
        byte_capacity(4) == 0x1_0000_0000,
        byte_capacity(8) == 0x1_0000_0000_0000_0000,
{
    reveal_with_fuel(byte_capacity, 9);
}

/// A wider field holds at least as many values.
pub proof fn lemma_byte_capacity_grows(narrow: nat, wide: nat)
    requires
        narrow <= wide,
    ensures
        byte_capacity(narrow) <= byte_capacity(wide),
        byte_capacity(narrow) >= 1,
    decreases wide,
{
    if narrow < wide {
        lemma_byte_capacity_grows(narrow, (wide - 1) as nat);
    } else if narrow > 0 {
        lemma_byte_capacity_grows((narrow - 1) as nat, (narrow - 1) as nat);
    }
}

/// A little-endian byte string stands for a number its width can hold.
pub proof fn lemma_le_value_bounded(bytes: Seq<u8>)
    ensures
        le_value(bytes) < byte_capacity(bytes.len()),
    decreases bytes.len(),
{
    if bytes.len() > 0 {
        lemma_le_value_bounded(bytes.skip(1));
    }
}

/// Encoding a number takes exactly the bytes asked for.
pub proof fn lemma_le_bytes_len(value: nat, width: nat)
    ensures
        le_bytes(value, width).len() == width,
    decreases width,
{
    if width > 0 {
        lemma_le_bytes_len(value / 256, (width - 1) as nat);
    }
}

/// Reading an encoded number gives it back, wherever it fits the width.
pub proof fn lemma_le_round_trip(value: nat, width: nat)
    requires
        value < byte_capacity(width),
    ensures
        le_value(le_bytes(value, width)) == value,
    decreases width,
{
    if width > 0 {
        lemma_le_round_trip(value / 256, (width - 1) as nat);
        let bytes = le_bytes(value, width);
        assert(bytes.skip(1) =~= le_bytes(value / 256, (width - 1) as nat));
    }
}

/// Encoding the number a byte string stands for gives the bytes back.
pub proof fn lemma_le_bytes_of_value(bytes: Seq<u8>)
    ensures
        le_bytes(le_value(bytes), bytes.len()) == bytes,
    decreases bytes.len(),
{
    if bytes.len() > 0 {
        let rest = bytes.skip(1);
        lemma_le_bytes_of_value(rest);
        assert(le_value(bytes) % 256 == bytes[0] as nat);
        assert(le_value(bytes) / 256 == le_value(rest));
        assert(le_bytes(le_value(bytes), bytes.len()) =~= seq![bytes[0]] + rest);
        assert(seq![bytes[0]] + rest =~= bytes);
    } else {
        assert(bytes =~= Seq::<u8>::empty());
    }
}

/// The signed number with the same 64 bits.
pub open spec fn signed_value(bits: nat) -> int {
    if bits < 0x8000_0000_0000_0000 {
        bits as int
    } else {
        bits - 0x1_0000_0000_0000_0000
    }
}

/// The unsigned number with the same 64 bits.
pub open spec fn unsigned_bits(value: int) -> nat {
    if value >= 0 {
        value as nat
    } else {
        (value + 0x1_0000_0000_0000_0000) as nat
    }
}

/// Reinterprets 64 bits as a signed number.
pub fn to_signed(bits: u64) -> (r: i64)
    ensures
        r == signed_value(bits as nat),
{
    let value: i64 = bits as i64;
    assert(bits < 0x8000_0000_0000_0000u64 ==> (bits as i64) == bits) by (bit_vector);
    assert(bits >= 0x8000_0000_0000_0000u64 ==> (bits as i64) == bits - 0x1_0000_0000_0000_0000)
        by (bit_vector);
    value
}

/// Reads `width` little-endian bytes at `at`.
pub fn le_at(buf: &[u8], at: usize, width: usize) -> (r: u64)
    requires
        at + width <= buf@.len(),
        width <= 8,
    ensures
        r == le_value(buf@.subrange(at as int, at + width)),
        r < byte_capacity(width as nat),
{
    let len: usize = buf.len();
    let mut k: usize = width;
    let mut value: u64 = 0;
    proof {
        lemma_byte_capacity();
    }
    while k > 0
        invariant
            k <= width <= 8,
            at + width <= len == buf@.len(),
            value == le_value(buf@.subrange(at + k, at + width)),
            value < byte_capacity((width - k) as nat),
        decreases k,
    {
        k = k - 1;
        let ghost tail = buf@.subrange(at + k, at + width);
        proof {
            assert(tail.skip(1) =~= buf@.subrange(at + k + 1, at + width));
            lemma_le_value_bounded(tail);
            lemma_byte_capacity_grows((width - k) as nat, 8);
            lemma_byte_capacity();
        }
        value = buf[at + k] as u64 + 256 * value;
    }
    value
}

} // verus!
