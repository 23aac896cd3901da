//! The memory-mapped view of the NOR part.

use vstd::prelude::*;

use crate::bytes::read_le32;

verus! {

/// A mapped, readable stretch of the address space: `bytes[k]` is what a read
/// of address `base + k` returns.
#[derive(Clone, Copy)]
pub struct NorWindow<'a> {
    pub base: u32,
    pub bytes: &'a [u8],
}

impl<'a> NorWindow<'a> {
    /// The window does not run past the end of the 32-bit address space.
    pub open spec fn wf(self) -> bool {
        self.base + self.bytes@.len() <= 0x1_0000_0000
    }

    /// Whether the `len` bytes at `addr` lie inside the window.
    pub open spec fn spans(self, addr: int, len: int) -> bool {
        self.base <= addr && 0 <= len && addr + len <= self.base + self.bytes@.len()
    }

    /// The `len` bytes at `addr`.
    pub open spec fn span(self, addr: int, len: int) -> Seq<u8> {
        self.bytes@.subrange(addr - self.base, addr - self.base + len)
    }

    /// The little-endian word at `addr`.
    pub open spec fn word(self, addr: int) -> u32 {
        crate::bytes::le_value(self.span(addr, 4)) as u32
    }

    /// Whether the `len` bytes at `addr` lie inside the window.
    pub fn covers(&self, addr: u32, len: u32) -> (inside: bool)
        ensures
            inside == self.spans(addr as int, len as int),
    {
        addr >= self.base && (addr - self.base) as u64 + len as u64 <= self.bytes.len() as u64
    }

    /// The little-endian word at `addr`.
    pub fn rd32(&self, addr: u32) -> (word: u32)
        requires
            self.spans(addr as int, 4),
        ensures
            word == self.word(addr as int),
    {
        read_le32(self.bytes, (addr - self.base) as usize)
    }

    /// The `len` bytes at `addr`.
    pub fn nor_slice(&self, addr: u32, len: u32) -> (bytes: &'a [u8])
        requires
            self.spans(addr as int, len as int),
        ensures
            bytes@ == self.span(addr as int, len as int),
    {
        assert(self.bytes@.len() == self.bytes.len());
        let at: usize = (addr - self.base) as usize;
        vstd::slice::slice_subrange(self.bytes, at, at + len as usize)
    }

    /// A read of address `a` returns byte `a - base` of the window. What spans
    /// inside the window is what ends inside it, and a word is four bytes, the
    /// least significant first.
    pub proof fn law_reads_return_the_mapped_bytes(self, addr: int, len: int)
        ensures
            self.wf() <==> self.base + self.bytes@.len() <= 0x1_0000_0000,
            self.spans(addr, len) <==> (self.base <= addr && 0 <= len && addr + len <= self.base
                + self.bytes@.len()),
            self.spans(addr, len) ==> {
                &&& self.span(addr, len).len() == len
                &&& forall|k: int|
                    0 <= k < len ==> #[trigger] self.span(addr, len)[k] == self.bytes@[addr
                        - self.base + k]
            },
            self.spans(addr, 4) ==> {
                let at = addr - self.base;
                self.word(addr) == self.bytes@[at] + 0x100 * self.bytes@[at + 1] + 0x1_0000
                    * self.bytes@[at + 2] + 0x100_0000 * self.bytes@[at + 3]
            },
    {
        if self.spans(addr, 4) {
            crate::bytes::law_words_are_little_endian(self.span(addr, 4));
        }
    }
}

} // verus!
