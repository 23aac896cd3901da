//! Intermediate representation of a compiled schedule.
//!
//! Everything here is what the network compiler produced, as constant data.
//! Nothing in this module executes anything or knows about the peripheral: it
//! is the contract between the code generator and [`crate::device`].
//!
//! A [`Model`] is immutable. The expensive per-model state, the relocated
//! blobs, lives in a [`crate::program::Program`], so several models share one
//! device and one activation arena without their schedules being duplicated.

use vstd::prelude::*;

use crate::bytes::read_le64;

verus! {

/// Which caller-supplied buffer a relocation binds to.
#[derive(Clone, Copy, Debug, PartialEq, Eq)]
pub enum Io {
    Input,
    Output,
}

/// One blob container together with its symbol-name relocations.
///
/// `data` is either a bare blob, executable straight from flash and without
/// relocations, or a container that must be parsed, copied into RAM and
/// patched before dispatch.
#[derive(Clone, Copy, Debug)]
pub struct Epoch {
    pub data: &'static [u64],
    pub relocs: &'static [(&'static str, Io)],
}

/// A CPU-side operator interleaved between hardware epochs.
#[derive(Clone, Copy, Debug, PartialEq, Eq)]
pub enum SwOp {
    SpaceToDepth {
        in_addr: u32,
        in_h: u32,
        in_w: u32,
        in_c: u32,
        out_addr: u32,
        bs_h: u32,
        bs_w: u32,
        elem_bytes: u32,
    },
    DepthToSpace {
        in_addr: u32,
        in_h: u32,
        in_w: u32,
        in_c: u32,
        out_addr: u32,
        bs_h: u32,
        bs_w: u32,
        elem_bytes: u32,
    },
    ResizeLinearHp {
        in_addr: u32,
        in_h: u32,
        in_w: u32,
        in_c: u32,
        out_addr: u32,
        out_h: u32,
        out_w: u32,
        is_signed: bool,
    },
}

/// One entry of a compiled schedule, in dispatch order.
///
/// The cache fences are often no-ops under the arena's memory mapping, but
/// they are kept so that a change of that mapping does not silently introduce
/// coherency bugs.
#[derive(Clone, Copy, Debug)]
pub enum Op {
    Hw(Epoch),
    Sw(SwOp),
    CacheInvalidate { addr: u32, size: u32 },
    CacheClean { addr: u32, size: u32 },
}

/// Where the final output tensor lands.
#[derive(Clone, Copy, Debug, PartialEq, Eq)]
pub enum Scores {
    /// At a fixed activation-arena address baked into the schedule. The
    /// caller's output binding is ignored.
    RawInt8 { addr: u32, count: usize },
    /// In the caller-supplied buffer, through a relocation on the last
    /// hardware epoch.
    UserInt8 { count: usize },
}

impl Scores {
    /// Byte count of the output tensor, whichever form it takes.
    pub open spec fn size(self) -> usize {
        match self {
            Scores::RawInt8 { count, .. } => count,
            Scores::UserInt8 { count } => count,
        }
    }

    /// Byte count of the output tensor, whichever form it takes.
    pub fn count(&self) -> (count: usize)
        ensures
            count == self.size(),
    {
        match *self {
            Scores::RawInt8 { count, .. } => count,
            Scores::UserInt8 { count } => count,
        }
    }
}

/// A complete compiled network.
///
/// `id` names the entry of the flash weight manifest. That string is the only
/// link between the schedule in the binary and the weight image in NOR, so a
/// typo surfaces as a refusal to run rather than as a wrong answer.
#[derive(Clone, Copy, Debug)]
pub struct Model {
    pub id: &'static str,
    pub ops: &'static [Op],
    pub scores: Scores,
    pub input_bytes: usize,
    pub output_bytes: usize,
}

impl Model {
    /// The hardware epochs of the schedule.
    pub open spec fn hw_ops(self) -> Seq<Op> {
        self.ops@.filter(|op: Op| op is Hw)
    }

    /// The software operators of the schedule.
    pub open spec fn sw_ops(self) -> Seq<Op> {
        self.ops@.filter(|op: Op| op is Sw)
    }

    /// Number of hardware epochs in the schedule.
    pub fn hw_epochs(&self) -> (count: usize)
        ensures
            count == self.hw_ops().len(),
    {
        let ghost is_hw = |op: Op| op is Hw;
        let mut count: usize = 0;
        let mut i: usize = 0;
        while i < self.ops.len()
            invariant
                i <= self.ops@.len(),
                count <= i,
                is_hw == (|op: Op| op is Hw),
                count == self.ops@.take(i as int).filter(is_hw).len(),
            decreases self.ops@.len() - i,
        {
            proof {
                lemma_filter_take(self.ops@, is_hw, i as int);
            }
            if let Op::Hw(_) = &self.ops[i] {
                count = count + 1;
            }
            i = i + 1;
        }
        assert(self.ops@.take(i as int) =~= self.ops@);
        count
    }
}

/// Filtering one more element keeps it exactly when it satisfies `pred`.
pub proof fn lemma_filter_take<T>(s: Seq<T>, pred: spec_fn(T) -> bool, i: int)
    requires
        0 <= i < s.len(),
    ensures
        s.take(0).filter(pred).len() == 0,
        s.take(i + 1).filter(pred) == (if pred(s[i]) {
            s.take(i).filter(pred).push(s[i])
        } else {
            s.take(i).filter(pred)
        }),
{
    reveal(Seq::filter);
    assert(s.take(i + 1).drop_last() =~= s.take(i));
}

/// A half-open byte range `[base, base + len)`.
#[derive(Clone, Copy, Debug, PartialEq, Eq)]
pub struct Region {
    pub base: u32,
    pub len: u32,
}

impl Region {
    pub fn new(base: u32, len: u32) -> (region: Self)
        ensures
            region == (Region { base, len }),
    {
        Self { base, len }
    }

    /// The first address past the range.
    pub fn end(&self) -> (end: u32)
        requires
            self.base + self.len <= u32::MAX,
        ensures
            end == self.base + self.len,
    {
        self.base + self.len
    }
}

/// Physical addresses of the caller-owned input and output tensors.
#[derive(Clone, Copy, Debug, PartialEq, Eq)]
pub struct IoBinding {
    pub input: u32,
    pub output: u32,
}

impl IoBinding {
    /// The address that a relocation of role `io` is patched with.
    pub open spec fn address(self, io: Io) -> u32 {
        match io {
            Io::Input => self.input,
            Io::Output => self.output,
        }
    }

    /// The address that a relocation of role `io` is patched with.
    pub fn address_of(&self, io: Io) -> (addr: u32)
        ensures
            addr == self.address(io),
    {
        match io {
            Io::Input => self.input,
            Io::Output => self.output,
        }
    }
}

/// The bytes of an epoch blob.
#[derive(Clone, Copy, Debug, PartialEq, Eq)]
pub struct Blob<const N: usize>(pub [u8; N]);

/// The little-endian `u64` words that `bytes` holds.
pub open spec fn words_of(bytes: Seq<u8>) -> Seq<u64> {
    Seq::new(
        bytes.len() / 8,
        |i: int| crate::bytes::le_value(bytes.subrange(8 * i, 8 * i + 8)) as u64,
    )
}

/// The `u64` word stream of a blob.
///
/// A blob is a whole number of words; any other length means that the file it
/// came from is truncated or is the wrong file.
pub fn blob_words<const N: usize>(b: &Blob<N>) -> (words: Vec<u64>)
    requires
        N % 8 == 0,
    ensures
        words@ == words_of(b.0@),
{
    let bytes: &[u8] = b.0.as_slice();
    let mut words: Vec<u64> = Vec::new();
    let mut i: usize = 0;
    while i < N / 8
        invariant
            i <= N / 8,
            bytes@ == b.0@,
            bytes@.len() == N,
            words@ == words_of(b.0@).take(i as int),
        decreases N / 8 - i,
    {
        words.push(read_le64(bytes, 8 * i));
        i = i + 1;
        assert(words@ =~= words_of(b.0@).take(i as int));
    }
    assert(words@ =~= words_of(b.0@));
    words
}

/// No byte of a blob is lost: blobs of one length with the same words are the
/// same blob.
pub proof fn law_words_determine_the_blob(a: Seq<u8>, b: Seq<u8>)
    requires
        a.len() == b.len(),
        a.len() % 8 == 0,
        words_of(a) == words_of(b),
    ensures
        a == b,
{
    assert forall|k: int| 0 <= k < a.len() implies a[k] == b[k] by {
        let i = k / 8;
        let wa = a.subrange(8 * i, 8 * i + 8);
        let wb = b.subrange(8 * i, 8 * i + 8);
        crate::bytes::lemma_le_value_bound(wa);
        crate::bytes::lemma_le_value_bound(wb);
        assert(words_of(a)[i] == crate::bytes::le_value(wa) as u64);
        assert(words_of(b)[i] == crate::bytes::le_value(wb) as u64);
        crate::bytes::lemma_le_value_injective(wa, wb);
        assert(a[k] == wa[k - 8 * i]);
        assert(b[k] == wb[k - 8 * i]);
    }
    assert(a =~= b);
}

/// Word `i` of a blob is its bytes `8*i` to `8*i + 7`, the least significant
/// first, and the words cover the blob.
pub proof fn law_words_are_taken_in_order(bytes: Seq<u8>, i: int)
    requires
        bytes.len() % 8 == 0,
        0 <= i < bytes.len() / 8,
    ensures
        8 * words_of(bytes).len() == bytes.len(),
        words_of(bytes)[i] == bytes[8 * i] + 0x100 * bytes[8 * i + 1] + 0x1_0000 * bytes[8 * i + 2]
            + 0x100_0000 * bytes[8 * i + 3] + 0x1_0000_0000 * (bytes[8 * i + 4] + 0x100 * bytes[8
            * i + 5] + 0x1_0000 * bytes[8 * i + 6] + 0x100_0000 * bytes[8 * i + 7]),
{
    let word = bytes.subrange(8 * i, 8 * i + 8);
    crate::bytes::law_words_are_little_endian(word);
    crate::bytes::lemma_le_value_bound(word);
}

/// The hardware epochs of a schedule are counted once each, and so are its
/// software operators.
pub proof fn law_ops_are_counted_by_kind(model: Model)
    ensures
        model.hw_ops().len() == Set::new(
            |i: int| 0 <= i < model.ops@.len() && model.ops@[i] is Hw,
        ).len(),
        model.sw_ops().len() == Set::new(
            |i: int| 0 <= i < model.ops@.len() && model.ops@[i] is Sw,
        ).len(),
{
    let n = model.ops@.len() as int;
    lemma_filter_counts(model.ops@, |op: Op| op is Hw, n);
    lemma_filter_counts(model.ops@, |op: Op| op is Sw, n);
    assert(model.ops@.take(n) =~= model.ops@);
    assert(Set::new(|i: int| 0 <= i < n && model.ops@[i] is Hw) =~= Set::new(
        |i: int| 0 <= i < n && (|op: Op| op is Hw)(model.ops@[i]),
    ));
    assert(Set::new(|i: int| 0 <= i < n && model.ops@[i] is Sw) =~= Set::new(
        |i: int| 0 <= i < n && (|op: Op| op is Sw)(model.ops@[i]),
    ));
}

/// Filtering keeps as many elements as there are positions that satisfy `pred`.
pub proof fn lemma_filter_counts<T>(s: Seq<T>, pred: spec_fn(T) -> bool, n: int)
    requires
        0 <= n <= s.len(),
    ensures
        Set::new(|i: int| 0 <= i < n && pred(s[i])).finite(),
        s.take(n).filter(pred).len() == Set::new(|i: int| 0 <= i < n && pred(s[i])).len(),
    decreases n,
{
    let all = Set::new(|i: int| 0 <= i < n && pred(s[i]));
    if n == 0 {
        reveal(Seq::filter);
        assert(s.take(0).len() == 0);
        assert(all =~= Set::empty());
    } else {
        lemma_filter_counts(s, pred, n - 1);
        lemma_filter_take(s, pred, n - 1);
        let before = Set::new(|i: int| 0 <= i < n - 1 && pred(s[i]));
        if pred(s[n - 1]) {
            assert(all =~= before.insert(n - 1));
        } else {
            assert(all =~= before);
        }
    }
}

/// A tensor's byte count is the count its scores give, wherever they land, and
/// each role of a relocation leads to the buffer of that role.
pub proof fn law_scores_and_roles_are_kept_apart(addr: u32, count: usize, io: IoBinding)
    ensures
        (Scores::RawInt8 { addr, count }).size() == count,
        (Scores::UserInt8 { count }).size() == count,
        io.address(Io::Input) == io.input,
        io.address(Io::Output) == io.output,
{
}

} // verus!
