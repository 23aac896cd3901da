//! Little-endian words in byte sequences.

use vstd::prelude::*;

verus! {

/// The number that `bytes` writes in base 256, least significant byte first.
pub open spec fn le_value(bytes: Seq<u8>) -> nat
    decreases bytes.len(),
{
    if bytes.len() == 0 {
        0
    } else {
        bytes[0] as nat + 256 * le_value(bytes.drop_first())
    }
}

/// The `u32` at offset `at`.
pub fn read_le32(bytes: &[u8], at: usize) -> (word: u32)
    requires
        at + 4 <= bytes@.len(),
    ensures
        word as nat == le_value(bytes@.subrange(at as int, at + 4)),
{
    proof {
        lemma_le_value_4(bytes@.subrange(at as int, at + 4));
    }
    (bytes[at] as u32) + 0x100 * (bytes[at + 1] as u32) + 0x1_0000 * (bytes[at + 2] as u32)
        + 0x100_0000 * (bytes[at + 3] as u32)
}

/// The `u64` at offset `at`.
pub fn read_le64(bytes: &[u8], at: usize) -> (word: u64)
    requires
        at + 8 <= bytes@.len(),
    ensures
        word as nat == le_value(bytes@.subrange(at as int, at + 8)),
{
    let ghost s = bytes@.subrange(at as int, at + 8);
    assert(bytes@.len() == bytes.len());
    let low: u32 = read_le32(bytes, at);
    let high: u32 = read_le32(bytes, at + 4);
    proof {
        assert(s.take(4) =~= bytes@.subrange(at as int, at + 4));
        assert(s.skip(4) =~= bytes@.subrange(at + 4, at + 8));
        lemma_le_value_split(s);
    }
    (low as u64) + 0x1_0000_0000 * (high as u64)
}

/// A four-byte word, written out.
pub proof fn lemma_le_value_4(s: Seq<u8>)
    requires
        s.len() == 4,
    ensures
        le_value(s) == s[0] + 0x100 * s[1] + 0x1_0000 * s[2] + 0x100_0000 * s[3],
{
    reveal_with_fuel(le_value, 5);
    assert(s.drop_first().drop_first().drop_first().drop_first().len() == 0);
}

/// An eight-byte word is its low half plus its high half shifted up by 32 bits.
proof fn lemma_le_value_split(s: Seq<u8>)
    requires
        s.len() == 8,
    ensures
        le_value(s) == le_value(s.take(4)) + 0x1_0000_0000 * le_value(s.skip(4)),
{
    lemma_le_value_4(s.take(4));
    reveal_with_fuel(le_value, 5);
    assert(s.drop_first().drop_first().drop_first().drop_first() =~= s.skip(4));
}

/// Byte sequences of one length that write the same number are the same.
pub proof fn lemma_le_value_injective(a: Seq<u8>, b: Seq<u8>)
    requires
        a.len() == b.len(),
        le_value(a) == le_value(b),
    ensures
        a == b,
    decreases a.len(),
{
    if a.len() > 0 {
        lemma_le_value_injective(a.drop_first(), b.drop_first());
        assert(a =~= seq![a[0]] + a.drop_first());
        assert(b =~= seq![b[0]] + b.drop_first());
    } else {
        assert(a =~= b);
    }
}

/// Eight bytes write a number that fits in 64 bits.
pub proof fn lemma_le_value_bound(s: Seq<u8>)
    requires
        s.len() == 8,
    ensures
        le_value(s) <= u64::MAX,
{
    lemma_le_value_split(s);
    lemma_le_value_4(s.take(4));
    lemma_le_value_4(s.skip(4));
}

/// Words are little-endian: byte `k` counts `256` to the power of `k`.
pub proof fn law_words_are_little_endian(s: Seq<u8>)
    ensures
        s.len() == 4 ==> le_value(s) == s[0] + 0x100 * s[1] + 0x1_0000 * s[2] + 0x100_0000 * s[3],
        s.len() == 8 ==> le_value(s) == s[0] + 0x100 * s[1] + 0x1_0000 * s[2] + 0x100_0000 * s[3]
            + 0x1_0000_0000 * (s[4] + 0x100 * s[5] + 0x1_0000 * s[6] + 0x100_0000 * s[7]),
{
    if s.len() == 4 {
        lemma_le_value_4(s);
    }
    if s.len() == 8 {
        lemma_le_value_split(s);
        lemma_le_value_4(s.take(4));
        lemma_le_value_4(s.skip(4));
    }
}

} // verus!
