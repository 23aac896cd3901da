//! Weight-image validation against the NOR manifest.
//!
//! The CPU hands the accelerator a base address and the accelerator fetches
//! the weights on its own, so an erased or stale image is invisible at every
//! other layer: the schedule runs to the end and the output is blank. The
//! check here reads the image before anything is dispatched and refuses to go
//! on rather than produce a plausible answer.
//!
//! Erasure is per sector, each model has its own slot, and a partial re-flash
//! can leave one image valid and its neighbour blank. So the check is per
//! model, and the cheap scan judges each erase sector on its own.
//!
//! # Manifest
//!
//! One erase sector, written alongside each weight image:
//!
//! ```text
//! offset  size  field
//! 0x00    4     magic     "N6MF" little-endian
//! 0x04    4     version   currently 1
//! 0x08    4     count     number of entries
//! 0x0C    4     crc32     CRC-32 of the entry array (count * 32 bytes)
//! 0x10    ..    entries
//!
//! entry (32 bytes)
//! 0x00    16    id        model id, ASCII, NUL-padded
//! 0x10    4     base      NOR address of the weight image
//! 0x14    4     len       image length in bytes
//! 0x18    4     crc32     CRC-32 of the image
//! 0x1C    4     flags     bit 0: resident (copied to SRAM at boot)
//! ```

use vstd::prelude::*;

use crate::bytes::read_le32;
use crate::nor::NorWindow;

verus! {

/// `"N6MF"` little-endian.
pub const MAGIC: u32 = 0x464D_364E;

/// The manifest version this code reads.
pub const VERSION: u32 = 1;

/// Bytes of manifest before the first entry.
pub const HEADER_BYTES: u32 = 16;

/// Bytes of one manifest entry.
pub const ENTRY_BYTES: u32 = 32;

/// Bytes between samples when scanning for an erased image.
pub const SCAN_STRIDE: u32 = 4096;

/// What a word of erased flash reads as.
pub const ERASED_WORD: u32 = 0xFFFF_FFFF;

/// Where the manifest lives and how coarsely the part erases.
#[derive(Clone, Copy, Debug, PartialEq, Eq)]
pub struct ManifestLocation {
    pub base: u32,
    /// Size of the reserved region, used only to bound the entry count.
    pub size: u32,
    /// Erase granularity of the NOR part: the unit at which a span is judged
    /// to be blank.
    pub erase_sector: u32,
}

/// A weight image, as its manifest entry describes it.
#[derive(Clone, Copy, Debug, PartialEq, Eq)]
pub struct WeightInfo {
    pub base: u32,
    pub len: u32,
    pub crc32: u32,
    pub resident: bool,
}

/// Why a weight image was refused.
#[derive(Clone, Copy, Debug, PartialEq, Eq)]
pub enum WeightError {
    /// The manifest sector is blank. Nothing has ever written it.
    ManifestErased,
    /// Present, but not a manifest.
    ManifestBadMagic { magic: u32 },
    /// A manifest of a version this code cannot read.
    ManifestBadVersion { version: u32 },
    /// `count` is impossible for the sector size.
    ManifestBadCount { count: u32 },
    /// The entry array does not match its own CRC: a torn write.
    ManifestCorrupt { stored: u32, computed: u32 },
    /// No entry for this model id.
    ModelNotFound,
    /// The manifest disagrees with the build about where the image lives.
    SlotMismatch { manifest: u32, expected: u32 },
    /// An erase sector of the image reads back as blank flash. `at` is the
    /// address of the first such sector.
    ImageErased { at: u32 },
    /// The image is present but does not match its recorded CRC.
    ImageCorrupt { stored: u32, computed: u32 },
}

/// The remedy where the manifest or the entry is missing or damaged.
pub const HINT_REFLASH: &'static str = "re-run flash.py for this model's weight target — it writes the image and the manifest entry describing it in one session";

/// The remedy where the image is not in the slot the build expects.
pub const HINT_MOVED: &'static str = "the flashed image predates a memory.toml change — re-flash, and if the slot base moved, regenerate the model (the base is baked into the EC blob)";

/// The remedy where the slot has been erased.
pub const HINT_ERASED: &'static str = "the weight slot has been erased — most likely another flash target overlapped it; check the partition table in memory.toml, then re-flash";

/// The remedy where the image does not match its CRC.
pub const HINT_DAMAGED: &'static str = "the weight image is damaged — re-flash";

impl WeightError {
    /// The remedy for this failure.
    pub open spec fn remedy(self) -> &'static str {
        match self {
            WeightError::SlotMismatch { .. } => HINT_MOVED,
            WeightError::ImageErased { .. } => HINT_ERASED,
            WeightError::ImageCorrupt { .. } => HINT_DAMAGED,
            _ => HINT_REFLASH,
        }
    }

    /// A one-line remedy, because the failure is always operator-facing.
    pub fn hint(&self) -> (text: &'static str)
        ensures
            text@ == self.remedy()@,
    {
        match self {
            WeightError::ManifestErased
            | WeightError::ManifestBadMagic { .. }
            | WeightError::ManifestBadVersion { .. }
            | WeightError::ManifestBadCount { .. }
            | WeightError::ManifestCorrupt { .. }
            | WeightError::ModelNotFound => HINT_REFLASH,
            WeightError::SlotMismatch { .. } => HINT_MOVED,
            WeightError::ImageErased { .. } => HINT_ERASED,
            WeightError::ImageCorrupt { .. } => HINT_DAMAGED,
        }
    }
}

/// Nibble-wise table of the reflected CRC-32 polynomial.
const CRC_TABLE: [u32; 16] = [
    0x0000_0000, 0x1DB7_1064, 0x3B6E_20C8, 0x26D9_30AC,
    0x76DC_4190, 0x6B6B_51F4, 0x4DB2_6158, 0x5005_713C,
    0xEDB8_8320, 0xF00F_9344, 0xD6D6_A3E8, 0xCB61_B38C,
    0x9B64_C2B0, 0x86D3_D2D4, 0xA00A_E278, 0xBDBD_F21C,
];

/// One step of the reflected CRC-32 register.
pub open spec fn crc_shift(c: u32) -> u32 {
    if c & 1 == 1 {
        (c >> 1) ^ 0xEDB8_8320
    } else {
        c >> 1
    }
}

/// Four steps of the register.
pub open spec fn crc_shift4(c: u32) -> u32 {
    crc_shift(crc_shift(crc_shift(crc_shift(c))))
}

/// The register after one more byte: the byte is added to the low end, then
/// the register takes eight steps.
pub open spec fn crc_feed(c: u32, b: u8) -> u32 {
    crc_shift4(crc_shift4(c ^ (b as u32)))
}

/// The register after `bytes`, starting from all ones.
pub open spec fn crc_register(bytes: Seq<u8>) -> u32
    decreases bytes.len(),
{
    if bytes.len() == 0 {
        0xFFFF_FFFF
    } else {
        crc_feed(crc_register(bytes.drop_last()), bytes.last())
    }
}

/// CRC-32 (IEEE 802.3, reflected) of `bytes`.
pub open spec fn crc32_of(bytes: Seq<u8>) -> u32 {
    !crc_register(bytes)
}

spec fn table_entry(n: u32) -> u32 {
    if n == 0 { 0x0000_0000 } else if n == 1 { 0x1DB7_1064 }
    else if n == 2 { 0x3B6E_20C8 } else if n == 3 { 0x26D9_30AC }
    else if n == 4 { 0x76DC_4190 } else if n == 5 { 0x6B6B_51F4 }
    else if n == 6 { 0x4DB2_6158 } else if n == 7 { 0x5005_713C }
    else if n == 8 { 0xEDB8_8320 } else if n == 9 { 0xF00F_9344 }
    else if n == 10 { 0xD6D6_A3E8 } else if n == 11 { 0xCB61_B38C }
    else if n == 12 { 0x9B64_C2B0 } else if n == 13 { 0x86D3_D2D4 }
    else if n == 14 { 0xA00A_E278 } else { 0xBDBD_F21C }
}

/// One table look-up takes the register four steps.
proof fn lemma_table_steps(c: u32)
    ensures
        CRC_TABLE@[(c & 0x0F) as int] ^ (c >> 4) == crc_shift4(c),
        c & 0x0F < 16,
{
    assert(c & 0x0F < 16) by (bit_vector);
    assert(table_entry(c & 0x0F) ^ (c >> 4) == crc_shift4(c)) by (bit_vector);
    let n = c & 0x0F;
    assert(CRC_TABLE@[n as int] == table_entry(n));
}

/// CRC-32 of `bytes`, four bits at a time.
pub fn crc32(bytes: &[u8]) -> (crc: u32)
    ensures
        crc == crc32_of(bytes@),
{
    let mut crc: u32 = 0xFFFF_FFFF;
    let mut i: usize = 0;
    while i < bytes.len()
        invariant
            i <= bytes@.len(),
            crc == crc_register(bytes@.take(i as int)),
        decreases bytes@.len() - i,
    {
        let b: u8 = bytes[i];
        let ghost c0 = crc;
        proof {
            let x = c0 ^ (b as u32);
            lemma_table_steps(x);
            assert((c0 ^ (b as u32)) >> 4 == (c0 >> 4) ^ ((b as u32) >> 4)) by (bit_vector);
            assert(bytes@.take(i + 1).drop_last() =~= bytes@.take(i as int));
        }
        crc = CRC_TABLE[((crc ^ b as u32) & 0x0F) as usize] ^ (crc >> 4);
        let ghost c1 = crc;
        proof {
            let t = CRC_TABLE@[((c0 ^ (b as u32)) & 0x0F) as int];
            assert(t ^ ((c0 >> 4) ^ ((b as u32) >> 4)) == (t ^ (c0 >> 4)) ^ ((b as u32) >> 4))
                by (bit_vector);
            lemma_table_steps(c1 ^ ((b as u32) >> 4));
            assert((c1 ^ ((b as u32) >> 4)) >> 4 == c1 >> 4) by (bit_vector);
        }
        crc = CRC_TABLE[((crc ^ (b as u32 >> 4)) & 0x0F) as usize] ^ (crc >> 4);
        i = i + 1;
    }
    proof {
        assert(bytes@.take(i as int) =~= bytes@);
    }
    !crc
}

/// Where the sector that starts at offset `sector` ends.
pub open spec fn sector_end(len: int, erase_sector: int, sector: int) -> int {
    if sector + erase_sector < len {
        sector + erase_sector
    } else {
        len
    }
}

/// Whether the scan reads the word at offset `off` to judge the sector at
/// `sector`: one word every `SCAN_STRIDE` bytes, and the last word.
pub open spec fn sampled(len: int, erase_sector: int, sector: int, off: int) -> bool {
    let end = sector_end(len, erase_sector, sector);
    &&& sector <= off
    &&& off + 4 <= end
    &&& (off - sector) % (SCAN_STRIDE as int) == 0 || off == end - 4
}

/// Whether every byte of `[addr, addr + len)` reads as erased flash.
pub open spec fn all_erased(nor: NorWindow, addr: int, len: int) -> bool {
    forall|k: int| 0 <= k < len ==> #[trigger] nor.span(addr, len)[k] == 0xFF
}

/// Whether a sector is judged to be blank: every sampled word of it reads as
/// erased flash or, where it is too short to hold a word, every byte of it.
pub open spec fn sector_blank(
    nor: NorWindow,
    base: int,
    len: int,
    erase_sector: int,
    sector: int,
) -> bool {
    let end = sector_end(len, erase_sector, sector);
    if end - sector < 4 {
        all_erased(nor, base + sector, end - sector)
    } else {
        forall|off: int| #[trigger]
            sampled(len, erase_sector, sector, off) ==> nor.word(base + off) == ERASED_WORD
    }
}

/// The address of the first blank sector at or after offset `sector`.
pub open spec fn first_blank(
    nor: NorWindow,
    base: int,
    len: int,
    erase_sector: int,
    sector: int,
) -> Option<u32>
    decreases len + erase_sector - sector,
{
    if sector >= len || erase_sector <= 0 {
        None
    } else if sector_blank(nor, base, len, erase_sector, sector) {
        Some((base + sector) as u32)
    } else {
        first_blank(nor, base, len, erase_sector, sector + erase_sector)
    }
}

/// The address at which an image counts as erased. An image too short to
/// hold a word counts as erased from its start, and so does one on a part
/// whose sectors are empty.
pub open spec fn erased_at(nor: NorWindow, base: int, len: int, erase_sector: int) -> Option<u32> {
    if len < 4 || erase_sector == 0 {
        Some(base as u32)
    } else {
        first_blank(nor, base, len, erase_sector, 0)
    }
}

/// Cheap erased-image detector.
///
/// A full CRC over a large image costs real boot time, so this samples
/// instead: one word every `SCAN_STRIDE` bytes, judged per erase sector. If
/// any sector reads back entirely as `0xFF`, the image is reported as erased;
/// see [`law_erased_sector_is_caught`]. It detects erasure, not corruption.
pub fn scan_erased(nor: &NorWindow, base: u32, len: u32, erase_sector: u32) -> (at: Option<u32>)
    requires
        nor.wf(),
        nor.spans(base as int, len as int),
    ensures
        at == erased_at(*nor, base as int, len as int, erase_sector as int),
{
    if len < 4 || erase_sector == 0 {
        return Some(base);
    }
    let mut sector: u64 = 0;
    while sector < len as u64
        invariant
            nor.wf(),
            nor.spans(base as int, len as int),
            erase_sector > 0,
            len >= 4,
            sector <= len + erase_sector,
            erased_at(*nor, base as int, len as int, erase_sector as int) == first_blank(
                *nor,
                base as int,
                len as int,
                erase_sector as int,
                sector as int,
            ),
        decreases len + erase_sector - sector,
    {
        let next: u64 = sector + erase_sector as u64;
        let end: u64 = if next < len as u64 {
            next
        } else {
            len as u64
        };
        let blank = scan_sector(nor, base, len, erase_sector, sector, end);
        if blank {
            return Some(base + sector as u32);
        }
        sector = next;
    }
    None
}

/// Whether the sector `[sector, end)` is judged to be blank.
fn scan_sector(
    nor: &NorWindow,
    base: u32,
    len: u32,
    erase_sector: u32,
    sector: u64,
    end: u64,
) -> (blank: bool)
    requires
        nor.wf(),
        nor.spans(base as int, len as int),
        erase_sector > 0,
        sector < len,
        end == sector_end(len as int, erase_sector as int, sector as int),
    ensures
        blank == sector_blank(
            *nor,
            base as int,
            len as int,
            erase_sector as int,
            sector as int,
        ),
{
    if end - sector < 4 {
        return bytes_erased(nor.nor_slice(base + sector as u32, (end - sector) as u32));
    }
    let mut off: u64 = sector;
    while off + 4 <= end
        invariant
            nor.wf(),
            nor.spans(base as int, len as int),
            sector <= off <= end + SCAN_STRIDE,
            sector + 4 <= end <= len,
            end == sector_end(len as int, erase_sector as int, sector as int),
            (off - sector) % (SCAN_STRIDE as int) == 0,
            forall|o: int|
                sector <= o < off && o + 4 <= end && (o - sector) % (SCAN_STRIDE as int) == 0
                    ==> #[trigger] nor.word(base + o) == ERASED_WORD,
        decreases end + SCAN_STRIDE - off,
    {
        if nor.rd32(base + off as u32) != ERASED_WORD {
            assert(sampled(len as int, erase_sector as int, sector as int, off as int));
            return false;
        }
        off = off + SCAN_STRIDE as u64;
    }
    // The last word is always sampled: a stride that does not divide the
    // sector would otherwise leave the tail unexamined.
    if nor.rd32(base + (end - 4) as u32) != ERASED_WORD {
        assert(sampled(len as int, erase_sector as int, sector as int, end - 4));
        return false;
    }
    true
}

/// Whether every one of `bytes` reads as erased flash.
fn bytes_erased(bytes: &[u8]) -> (erased: bool)
    ensures
        erased == forall|k: int| 0 <= k < bytes@.len() ==> #[trigger] bytes@[k] == 0xFF,
{
    let mut i: usize = 0;
    while i < bytes.len()
        invariant
            i <= bytes@.len(),
            forall|k: int| 0 <= k < i ==> #[trigger] bytes@[k] == 0xFF,
        decreases bytes@.len() - i,
    {
        if bytes[i] != 0xFF {
            return false;
        }
        i = i + 1;
    }
    true
}

/// A word of the manifest header.
pub open spec fn header_word(nor: NorWindow, loc: ManifestLocation, offset: int) -> u32 {
    nor.word(loc.base + offset)
}

/// The most entries the reserved region has room for.
pub open spec fn entry_room(loc: ManifestLocation) -> int {
    (loc.size - HEADER_BYTES) / (ENTRY_BYTES as int)
}

/// The entry array, `count` entries long.
pub open spec fn entry_array(nor: NorWindow, loc: ManifestLocation) -> Seq<u8> {
    nor.span(loc.base + HEADER_BYTES, header_word(nor, loc, 8) * ENTRY_BYTES)
}

/// What is wrong with the manifest itself, if anything.
pub open spec fn manifest_fault(nor: NorWindow, loc: ManifestLocation) -> Option<WeightError> {
    let magic = header_word(nor, loc, 0);
    let version = header_word(nor, loc, 4);
    let count = header_word(nor, loc, 8);
    let stored = header_word(nor, loc, 12);
    let computed = crc32_of(entry_array(nor, loc));
    if magic == ERASED_WORD {
        Some(WeightError::ManifestErased)
    } else if magic != MAGIC {
        Some(WeightError::ManifestBadMagic { magic })
    } else if version != VERSION {
        Some(WeightError::ManifestBadVersion { version })
    } else if count == 0 || count > entry_room(loc) {
        Some(WeightError::ManifestBadCount { count })
    } else if computed != stored {
        Some(WeightError::ManifestCorrupt { stored, computed })
    } else {
        None
    }
}

/// Entry `i` of an entry array.
pub open spec fn entry(entries: Seq<u8>, i: int) -> Seq<u8> {
    entries.subrange(i * ENTRY_BYTES, i * ENTRY_BYTES + ENTRY_BYTES)
}

/// Whether an entry's NUL-padded id field spells `id`.
pub open spec fn names(e: Seq<u8>, id: Seq<u8>) -> bool {
    &&& id.len() <= 16
    &&& forall|k: int| 0 <= k < id.len() ==> #[trigger] id[k] == e[k] && e[k] != 0
    &&& id.len() < 16 ==> e[id.len() as int] == 0
}

/// The first of the entries from `i` to `count` that is named `id`.
pub open spec fn first_named(entries: Seq<u8>, id: Seq<u8>, count: int, i: int) -> Option<int>
    decreases count - i,
{
    if i >= count {
        None
    } else if names(entry(entries, i), id) {
        Some(i)
    } else {
        first_named(entries, id, count, i + 1)
    }
}

/// The image that an entry describes.
pub open spec fn described(e: Seq<u8>) -> WeightInfo {
    WeightInfo {
        base: crate::bytes::le_value(e.subrange(16, 20)) as u32,
        len: crate::bytes::le_value(e.subrange(20, 24)) as u32,
        crc32: crate::bytes::le_value(e.subrange(24, 28)) as u32,
        resident: crate::bytes::le_value(e.subrange(28, 32)) % 2 == 1,
    }
}

/// What the manifest says about the image of model `id`, for a build that
/// expects it at `expected_base`.
pub open spec fn located(
    nor: NorWindow,
    loc: ManifestLocation,
    id: Seq<u8>,
    expected_base: u32,
) -> Result<WeightInfo, WeightError> {
    match manifest_fault(nor, loc) {
        Some(fault) => Err(fault),
        None => {
            let entries = entry_array(nor, loc);
            match first_named(entries, id, header_word(nor, loc, 8) as int, 0) {
                None => Err(WeightError::ModelNotFound),
                Some(i) => {
                    let info = described(entry(entries, i));
                    if info.base != expected_base {
                        Err(
                            WeightError::SlotMismatch {
                                manifest: info.base,
                                expected: expected_base,
                            },
                        )
                    } else {
                        Ok(info)
                    }
                },
            }
        },
    }
}

/// What is wrong with an image, if anything.
pub open spec fn image_fault(
    nor: NorWindow,
    info: WeightInfo,
    erase_sector: u32,
    full_crc: bool,
) -> Option<WeightError> {
    let computed = crc32_of(nor.span(info.base as int, info.len as int));
    match erased_at(nor, info.base as int, info.len as int, erase_sector as int) {
        Some(at) => Some(WeightError::ImageErased { at }),
        None => if full_crc && computed != info.crc32 {
            Some(WeightError::ImageCorrupt { stored: info.crc32, computed })
        } else {
            None
        },
    }
}

/// The outcome of a whole verification.
pub open spec fn verified(
    nor: NorWindow,
    loc: ManifestLocation,
    id: Seq<u8>,
    expected_base: u32,
    full_crc: bool,
) -> Result<WeightInfo, WeightError> {
    match located(nor, loc, id, expected_base) {
        Err(fault) => Err(fault),
        Ok(info) => match image_fault(nor, info, loc.erase_sector, full_crc) {
            Some(fault) => Err(fault),
            None => Ok(info),
        },
    }
}

/// Whether the reserved region has room for a header, the header is mapped,
/// and so are the entries that it counts, unless there are too many of them.
pub open spec fn manifest_mapped(nor: NorWindow, loc: ManifestLocation) -> bool {
    let count = header_word(nor, loc, 8);
    &&& nor.wf()
    &&& loc.size >= HEADER_BYTES
    &&& nor.spans(loc.base as int, HEADER_BYTES as int)
    &&& count <= entry_room(loc) ==> nor.spans(
        loc.base as int,
        HEADER_BYTES + count * ENTRY_BYTES,
    )
}

/// Whether the image that the manifest gives for `id`, if it gives one, is
/// mapped.
pub open spec fn image_mapped(
    nor: NorWindow,
    loc: ManifestLocation,
    id: Seq<u8>,
    expected_base: u32,
) -> bool {
    located(nor, loc, id, expected_base) matches Ok(info) ==> nor.spans(
        info.base as int,
        info.len as int,
    )
}

/// Whether the id field of entry `e` spells `id`.
fn entry_named(e: &[u8], id: &[u8]) -> (named: bool)
    requires
        e@.len() == ENTRY_BYTES,
    ensures
        named == names(e@, id@),
{
    if id.len() > 16 {
        return false;
    }
    let mut k: usize = 0;
    while k < id.len()
        invariant
            e@.len() == ENTRY_BYTES,
            k <= id@.len() <= 16,
            forall|j: int| 0 <= j < k ==> #[trigger] id@[j] == e@[j] && e@[j] != 0,
        decreases id@.len() - k,
    {
        if id[k] != e[k] || e[k] == 0 {
            return false;
        }
        assert(id@[k as int] == e@[k as int]);
        k = k + 1;
    }
    id.len() == 16 || e[id.len()] == 0
}

/// Look up `id` in the manifest.
///
/// `expected_base` is the slot address the build was compiled against; a
/// disagreement means that the flashed image is stale.
pub fn locate(
    nor: &NorWindow,
    loc: &ManifestLocation,
    id: &str,
    expected_base: u32,
) -> (result: Result<WeightInfo, WeightError>)
    requires
        manifest_mapped(*nor, *loc),
    ensures
        result == located(*nor, *loc, vstd::utf8::encode_utf8(id@), expected_base),
{
    // Refuse absurd counts before trusting `count` for a length calculation:
    // a blank sector reads back as all ones.
    let max_entries: u32 = (loc.size - HEADER_BYTES) / ENTRY_BYTES;

    let magic: u32 = nor.rd32(loc.base);
    if magic == ERASED_WORD {
        return Err(WeightError::ManifestErased);
    }
    if magic != MAGIC {
        return Err(WeightError::ManifestBadMagic { magic });
    }
    let version: u32 = nor.rd32(loc.base + 4);
    if version != VERSION {
        return Err(WeightError::ManifestBadVersion { version });
    }
    let count: u32 = nor.rd32(loc.base + 8);
    if count == 0 || count > max_entries {
        return Err(WeightError::ManifestBadCount { count });
    }
    let stored: u32 = nor.rd32(loc.base + 12);

    let entries = nor.nor_slice(loc.base + HEADER_BYTES, count * ENTRY_BYTES);
    let computed: u32 = crc32(entries);
    if computed != stored {
        return Err(WeightError::ManifestCorrupt { stored, computed });
    }
    let id_bytes = id.as_bytes();
    let mut i: u32 = 0;
    while i < count
        invariant
            i <= count,
            entries@.len() == count * ENTRY_BYTES,
            count * ENTRY_BYTES <= u32::MAX,
            entries@ == entry_array(*nor, *loc),
            count == header_word(*nor, *loc, 8),
            manifest_fault(*nor, *loc) is None,
            id_bytes@ == vstd::utf8::encode_utf8(id@),
            first_named(entries@, id_bytes@, count as int, 0) == first_named(
                entries@,
                id_bytes@,
                count as int,
                i as int,
            ),
        decreases count - i,
    {
        let at: usize = (i * ENTRY_BYTES) as usize;
        let e = vstd::slice::slice_subrange(entries, at, at + ENTRY_BYTES as usize);
        assert(e@ == entry(entries@, i as int));
        if entry_named(e, id_bytes) {
            let base: u32 = read_le32(e, 16);
            let len: u32 = read_le32(e, 20);
            let crc: u32 = read_le32(e, 24);
            let flags: u32 = read_le32(e, 28);
            assert((flags & 1 != 0) == (flags % 2 == 1)) by (bit_vector);
            if base != expected_base {
                return Err(WeightError::SlotMismatch { manifest: base, expected: expected_base });
            }
            return Ok(WeightInfo { base, len, crc32: crc, resident: flags & 1 != 0 });
        }
        i = i + 1;
    }
    Err(WeightError::ModelNotFound)
}

/// Check an image that the manifest describes.
///
/// `full_crc` reads the entire image; without it the image is only scanned
/// for erased sectors.
pub fn check_image(
    nor: &NorWindow,
    info: &WeightInfo,
    erase_sector: u32,
    full_crc: bool,
) -> (fault: Option<WeightError>)
    requires
        nor.wf(),
        nor.spans(info.base as int, info.len as int),
    ensures
        fault == image_fault(*nor, *info, erase_sector, full_crc),
{
    if let Some(at) = scan_erased(nor, info.base, info.len, erase_sector) {
        return Some(WeightError::ImageErased { at });
    }
    if full_crc {
        let computed: u32 = crc32(nor.nor_slice(info.base, info.len));
        if computed != info.crc32 {
            return Some(WeightError::ImageCorrupt { stored: info.crc32, computed });
        }
    }
    None
}

/// Whether the manifest, and the image that it gives for `id`, if it gives
/// one, can be read through `nor`; see [`manifest_mapped`] and
/// [`image_mapped`].
pub fn is_mapped(nor: &NorWindow, loc: &ManifestLocation, id: &str, expected_base: u32) -> (mapped:
    bool)
    ensures
        mapped == (manifest_mapped(*nor, *loc) && image_mapped(
            *nor,
            *loc,
            vstd::utf8::encode_utf8(id@),
            expected_base,
        )),
{
    if nor.bytes.len() as u64 > 0x1_0000_0000 - nor.base as u64 || loc.size < HEADER_BYTES
        || !nor.covers(loc.base, HEADER_BYTES) {
        return false;
    }
    let count: u32 = nor.rd32(loc.base + 8);
    if count <= (loc.size - HEADER_BYTES) / ENTRY_BYTES && !nor.covers(
        loc.base,
        HEADER_BYTES + count * ENTRY_BYTES,
    ) {
        return false;
    }
    match locate(nor, loc, id, expected_base) {
        Ok(info) => nor.covers(info.base, info.len),
        Err(_) => true,
    }
}

/// Look up `id` in the manifest and verify its weight image.
pub fn verify(
    nor: &NorWindow,
    loc: &ManifestLocation,
    id: &str,
    expected_base: u32,
    full_crc: bool,
) -> (result: Result<WeightInfo, WeightError>)
    requires
        manifest_mapped(*nor, *loc),
        image_mapped(*nor, *loc, vstd::utf8::encode_utf8(id@), expected_base),
    ensures
        result == verified(*nor, *loc, vstd::utf8::encode_utf8(id@), expected_base, full_crc),
{
    match locate(nor, loc, id, expected_base) {
        Err(fault) => Err(fault),
        Ok(info) => match check_image(nor, &info, loc.erase_sector, full_crc) {
            Some(fault) => Err(fault),
            None => Ok(info),
        },
    }
}

proof fn lemma_first_blank_steps(
    nor: NorWindow,
    base: int,
    len: int,
    erase_sector: int,
    k: int,
)
    requires
        erase_sector > 0,
        k >= 0,
        base >= 0,
        base + len <= 0x1_0000_0000,
    ensures
        match first_blank(nor, base, len, erase_sector, k * erase_sector) {
            None => forall|j: int|
                j >= k && j * erase_sector < len ==> !sector_blank(
                    nor,
                    base,
                    len,
                    erase_sector,
                    #[trigger] (j * erase_sector),
                ),
            Some(at) => exists|j: int|
                {
                    &&& j >= k
                    &&& #[trigger] (j * erase_sector) < len
                    &&& at == base + j * erase_sector
                    &&& sector_blank(nor, base, len, erase_sector, j * erase_sector)
                    &&& forall|i: int|
                        k <= i < j ==> !sector_blank(
                            nor,
                            base,
                            len,
                            erase_sector,
                            #[trigger] (i * erase_sector),
                        )
                },
        },
    decreases len + erase_sector - k * erase_sector,
{
    let here = k * erase_sector;
    assert(here >= 0) by (nonlinear_arith)
        requires
            here == k * erase_sector,
            k >= 0,
            erase_sector > 0,
    ;
    assert((k + 1) * erase_sector == here + erase_sector) by (nonlinear_arith)
        requires
            here == k * erase_sector,
    ;
    if here >= len {
        assert forall|j: int| j >= k implies #[trigger] (j * erase_sector) >= len by {
            assert(j * erase_sector >= k * erase_sector) by (nonlinear_arith)
                requires
                    j >= k,
                    erase_sector > 0,
            ;
        }
    } else if sector_blank(nor, base, len, erase_sector, here) {
        assert(k * erase_sector < len);
    } else {
        lemma_first_blank_steps(nor, base, len, erase_sector, k + 1);
        match first_blank(nor, base, len, erase_sector, here + erase_sector) {
            None => {
                assert forall|j: int| j >= k && j * erase_sector < len implies !sector_blank(
                    nor,
                    base,
                    len,
                    erase_sector,
                    #[trigger] (j * erase_sector),
                ) by {
                    if j > k {
                        assert(j >= k + 1);
                    }
                }
            },
            Some(at) => {
                let j = choose|j: int|
                    {
                        &&& j >= k + 1
                        &&& #[trigger] (j * erase_sector) < len
                        &&& at == base + j * erase_sector
                        &&& sector_blank(nor, base, len, erase_sector, j * erase_sector)
                        &&& forall|i: int|
                            k + 1 <= i < j ==> !sector_blank(
                                nor,
                                base,
                                len,
                                erase_sector,
                                #[trigger] (i * erase_sector),
                            )
                    };
                assert(j * erase_sector < len);
                assert forall|i: int| k <= i < j implies !sector_blank(
                    nor,
                    base,
                    len,
                    erase_sector,
                    #[trigger] (i * erase_sector),
                ) by {
                    if i > k {
                        assert(k + 1 <= i);
                    }
                }
            },
        }
    }
}

/// The scan passes an image exactly when no sector of it is blank, and what
/// it reports otherwise is the address of the first blank sector.
pub proof fn law_scan_reports_first_blank_sector(
    nor: NorWindow,
    base: int,
    len: int,
    erase_sector: int,
)
    requires
        erase_sector > 0,
        base >= 0,
        len >= 4,
        base + len <= 0x1_0000_0000,
    ensures
        match erased_at(nor, base, len, erase_sector) {
            None => forall|j: int|
                j >= 0 && j * erase_sector < len ==> !sector_blank(
                    nor,
                    base,
                    len,
                    erase_sector,
                    #[trigger] (j * erase_sector),
                ),
            Some(at) => exists|j: int|
                {
                    &&& j >= 0
                    &&& #[trigger] (j * erase_sector) < len
                    &&& at == base + j * erase_sector
                    &&& sector_blank(nor, base, len, erase_sector, j * erase_sector)
                    &&& forall|i: int|
                        0 <= i < j ==> !sector_blank(
                            nor,
                            base,
                            len,
                            erase_sector,
                            #[trigger] (i * erase_sector),
                        )
                },
        },
{
    lemma_first_blank_steps(nor, base, len, erase_sector, 0);
}

proof fn lemma_erased_word(nor: NorWindow, addr: int, len: int, at: int)
    requires
        nor.spans(addr, len),
        all_erased(nor, addr, len),
        addr <= at,
        at + 4 <= addr + len,
    ensures
        nor.word(at) == ERASED_WORD,
{
    let w = nor.span(at, 4);
    assert forall|k: int| 0 <= k < 4 implies w[k] == 0xFF by {
        assert(w[k] == nor.span(addr, len)[at - addr + k]);
    }
    crate::bytes::lemma_le_value_4(w);
}

/// An erase sector that reads entirely as erased flash is caught, wherever in
/// the image it lies and however little of the image it holds: the scan
/// reports that sector or an earlier one.
pub proof fn law_erased_sector_is_caught(
    nor: NorWindow,
    base: int,
    len: int,
    erase_sector: int,
    k: int,
)
    requires
        nor.wf(),
        nor.spans(base, len),
        erase_sector > 0,
        k >= 0,
        k * erase_sector < len,
        all_erased(
            nor,
            base + k * erase_sector,
            sector_end(len, erase_sector, k * erase_sector) - k * erase_sector,
        ),
    ensures
        erased_at(nor, base, len, erase_sector) matches Some(at) && at <= base + k * erase_sector,
{
    let sector = k * erase_sector;
    let end = sector_end(len, erase_sector, sector);
    assert(sector >= 0) by (nonlinear_arith)
        requires
            sector == k * erase_sector,
            k >= 0,
            erase_sector > 0,
    ;
    assert forall|off: int| #[trigger]
        sampled(len, erase_sector, sector, off) implies nor.word(base + off) == ERASED_WORD by {
        lemma_erased_word(nor, base + sector, end - sector, base + off);
    }
    assert(sector_blank(nor, base, len, erase_sector, k * erase_sector));
    if len >= 4 {
        law_scan_reports_first_blank_sector(nor, base, len, erase_sector);
        match erased_at(nor, base, len, erase_sector) {
            None => {
                assert(k * erase_sector < len);
            },
            Some(at) => {
                let j = choose|j: int|
                    {
                        &&& j >= 0
                        &&& #[trigger] (j * erase_sector) < len
                        &&& at == base + j * erase_sector
                        &&& sector_blank(nor, base, len, erase_sector, j * erase_sector)
                        &&& forall|i: int|
                            0 <= i < j ==> !sector_blank(
                                nor,
                                base,
                                len,
                                erase_sector,
                                #[trigger] (i * erase_sector),
                            )
                    };
                assert(j <= k);
                assert(j * erase_sector <= k * erase_sector) by (nonlinear_arith)
                    requires
                        j <= k,
                        erase_sector > 0,
                ;
            },
        }
    }
}

/// A slot that has been erased as a whole is reported at its base.
pub proof fn law_erased_slot_is_reported_at_its_base(
    nor: NorWindow,
    base: u32,
    len: u32,
    erase_sector: int,
)
    requires
        nor.wf(),
        nor.spans(base as int, len as int),
        erase_sector >= 0,
        all_erased(nor, base as int, len as int),
    ensures
        erased_at(nor, base as int, len as int, erase_sector) == Some(base),
{
    if len >= 4 && erase_sector > 0 {
        let end = sector_end(len as int, erase_sector, 0);
        assert forall|k: int| 0 <= k < end implies #[trigger] nor.span(base as int, end)[k]
            == 0xFF by {
            assert(nor.span(base as int, end)[k] == nor.span(base as int, len as int)[k]);
        }
        assert forall|off: int| #[trigger]
            sampled(len as int, erase_sector, 0, off) implies nor.word(base + off)
            == ERASED_WORD by {
            lemma_erased_word(nor, base as int, len as int, base + off);
        }
    }
}

/// The look-up finds the first entry of that name, or none if there is none.
pub proof fn law_lookup_finds_first_of_name(entries: Seq<u8>, id: Seq<u8>, count: int, from: int)
    ensures
        match first_named(entries, id, count, from) {
            None => forall|j: int| from <= j < count ==> !names(#[trigger] entry(entries, j), id),
            Some(i) => {
                &&& from <= i < count
                &&& names(entry(entries, i), id)
                &&& forall|j: int| from <= j < i ==> !names(#[trigger] entry(entries, j), id)
            },
        },
    decreases count - from,
{
    if from < count && !names(entry(entries, from), id) {
        law_lookup_finds_first_of_name(entries, id, count, from + 1);
    }
}

/// An image is accepted exactly when the manifest is intact, the first entry
/// of that name puts the image where the build expects it, the image holds a
/// word, no sector of it is blank, and, where the whole image is read, its CRC
/// is the recorded one.
pub proof fn law_accepts_exactly_sound_images(
    nor: NorWindow,
    loc: ManifestLocation,
    id: Seq<u8>,
    expected_base: u32,
    full_crc: bool,
    info: WeightInfo,
)
    requires
        manifest_mapped(nor, loc),
        image_mapped(nor, loc, id, expected_base),
    ensures
        verified(nor, loc, id, expected_base, full_crc) == Ok::<WeightInfo, WeightError>(info) <==> {
            &&& manifest_fault(nor, loc) is None
            &&& exists|i: int|
                {
                    &&& 0 <= i < header_word(nor, loc, 8)
                    &&& info == described(#[trigger] entry(entry_array(nor, loc), i))
                    &&& names(entry(entry_array(nor, loc), i), id)
                    &&& forall|j: int|
                        0 <= j < i ==> !names(#[trigger] entry(entry_array(nor, loc), j), id)
                }
            &&& info.base == expected_base
            &&& info.len >= 4
            &&& loc.erase_sector > 0
            &&& forall|j: int|
                j >= 0 && j * loc.erase_sector < info.len ==> !sector_blank(
                    nor,
                    info.base as int,
                    info.len as int,
                    loc.erase_sector as int,
                    #[trigger] (j * loc.erase_sector),
                )
            &&& full_crc ==> crc32_of(nor.span(info.base as int, info.len as int)) == info.crc32
        },
{
    let entries = entry_array(nor, loc);
    let count = header_word(nor, loc, 8) as int;
    law_lookup_finds_first_of_name(entries, id, count, 0);
    if manifest_fault(nor, loc) is None && (exists|i: int|
        {
            &&& 0 <= i < count
            &&& info == described(#[trigger] entry(entries, i))
            &&& names(entry(entries, i), id)
            &&& forall|j: int| 0 <= j < i ==> !names(#[trigger] entry(entries, j), id)
        }) {
        let i = choose|i: int|
            {
                &&& 0 <= i < count
                &&& info == described(#[trigger] entry(entries, i))
                &&& names(entry(entries, i), id)
                &&& forall|j: int| 0 <= j < i ==> !names(#[trigger] entry(entries, j), id)
            };
        match first_named(entries, id, count, 0) {
            None => {},
            Some(f) => {
                if f < i {
                    assert(!names(entry(entries, f), id));
                }
                if i < f {
                    assert(!names(entry(entries, i), id));
                }
                assert(f == i);
            },
        }
    }
    match located(nor, loc, id, expected_base) {
        Ok(found) => {
            let f = first_named(entries, id, count, 0)->0;
            assert(found == described(entry(entries, f)));
            if found.len >= 4 && loc.erase_sector > 0 {
                law_scan_reports_first_blank_sector(
                    nor,
                    found.base as int,
                    found.len as int,
                    loc.erase_sector as int,
                );
            }
        },
        Err(_) => {},
    }
}

/// Reading the whole image only ever adds one refusal: where the results with
/// and without the CRC check differ, the image passes without it and is found
/// corrupt with it. So what is refused without the check is refused with it
/// for the same reason, and what passes with it passes without it.
pub proof fn law_crc_check_only_adds_corruption(
    nor: NorWindow,
    loc: ManifestLocation,
    id: Seq<u8>,
    expected_base: u32,
)
    ensures
        verified(nor, loc, id, expected_base, true) != verified(
            nor,
            loc,
            id,
            expected_base,
            false,
        ) ==> {
            &&& verified(nor, loc, id, expected_base, false) matches Ok(info)
            &&& verified(nor, loc, id, expected_base, true) == Err::<WeightInfo, WeightError>(
                WeightError::ImageCorrupt {
                    stored: info.crc32,
                    computed: crc32_of(nor.span(info.base as int, info.len as int)),
                },
            )
        },
        verified(nor, loc, id, expected_base, false) is Err ==> verified(
            nor,
            loc,
            id,
            expected_base,
            true,
        ) == verified(nor, loc, id, expected_base, false),
        verified(nor, loc, id, expected_base, true) is Ok ==> verified(
            nor,
            loc,
            id,
            expected_base,
            false,
        ) == verified(nor, loc, id, expected_base, true),
{
}

/// The CRC of no bytes is zero. With one more byte, the inverted CRC takes the
/// byte in at its low end and then divides by the reflected polynomial
/// `0xEDB88320`, one bit at a time, eight times: a low bit of one is shifted
/// out and the polynomial is added, a low bit of zero is shifted out.
pub proof fn law_crc_divides_by_the_polynomial(bytes: Seq<u8>, byte: u8)
    ensures
        crc32_of(Seq::empty()) == 0,
        ({
            let r0 = !crc32_of(bytes) ^ (byte as u32);
            let r1 = if r0 & 1 == 1 { (r0 >> 1) ^ 0xEDB8_8320 } else { r0 >> 1 };
            let r2 = if r1 & 1 == 1 { (r1 >> 1) ^ 0xEDB8_8320 } else { r1 >> 1 };
            let r3 = if r2 & 1 == 1 { (r2 >> 1) ^ 0xEDB8_8320 } else { r2 >> 1 };
            let r4 = if r3 & 1 == 1 { (r3 >> 1) ^ 0xEDB8_8320 } else { r3 >> 1 };
            let r5 = if r4 & 1 == 1 { (r4 >> 1) ^ 0xEDB8_8320 } else { r4 >> 1 };
            let r6 = if r5 & 1 == 1 { (r5 >> 1) ^ 0xEDB8_8320 } else { r5 >> 1 };
            let r7 = if r6 & 1 == 1 { (r6 >> 1) ^ 0xEDB8_8320 } else { r6 >> 1 };
            let r8 = if r7 & 1 == 1 { (r7 >> 1) ^ 0xEDB8_8320 } else { r7 >> 1 };
            crc32_of(bytes.push(byte)) == !r8
        }),
{
    assert(!0xFFFF_FFFFu32 == 0) by (bit_vector);
    let register = crc_register(bytes);
    assert(!(!register) == register) by (bit_vector);
    assert(bytes.push(byte).drop_last() =~= bytes);
}

proof fn lemma_feed_is_injective(c: u32, b: u8, d: u32, e: u8)
    ensures
        b == e && crc_feed(c, b) == crc_feed(d, e) ==> c == d,
        c == d && crc_feed(c, b) == crc_feed(d, e) ==> b == e,
{
    let x = c ^ (b as u32);
    let y = d ^ (e as u32);
    lemma_shift4_is_injective(x, y);
    lemma_shift4_is_injective(crc_shift4(x), crc_shift4(y));
    assert(b == e && x == y ==> c == d) by (bit_vector)
        requires
            x == c ^ (b as u32),
            y == d ^ (e as u32),
    ;
    assert(c == d && x == y ==> b == e) by (bit_vector)
        requires
            x == c ^ (b as u32),
            y == d ^ (e as u32),
    ;
}

proof fn lemma_shift4_is_injective(x: u32, y: u32)
    ensures
        crc_shift4(x) == crc_shift4(y) ==> x == y,
{
    assert(crc_shift4(x) == crc_shift4(y) ==> x == y) by (bit_vector);
}

/// A CRC takes in every byte: changing any single one of them changes it.
pub proof fn law_crc_detects_any_changed_byte(a: Seq<u8>, b: Seq<u8>, i: int)
    requires
        a.len() == b.len(),
        0 <= i < a.len(),
        a[i] != b[i],
        forall|k: int| 0 <= k < a.len() && k != i ==> #[trigger] a[k] == b[k],
    ensures
        crc32_of(a) != crc32_of(b),
    decreases a.len(),
{
    let ra = crc_register(a);
    let rb = crc_register(b);
    assert(!ra == !rb ==> ra == rb) by (bit_vector);
    let (fa, fb) = (a.drop_last(), b.drop_last());
    lemma_feed_is_injective(crc_register(fa), a.last(), crc_register(fb), b.last());
    if i < a.len() - 1 {
        law_crc_detects_any_changed_byte(fa, fb, i);
    } else {
        assert(fa =~= fb);
    }
}

/// An entry is taken for an id exactly when the bytes of its id field before
/// the first NUL, or all sixteen if there is none, are the bytes of the id.
pub proof fn law_entry_is_named_by_its_whole_id_field(e: Seq<u8>, id: Seq<u8>)
    requires
        e.len() == 32,
    ensures
        names(e, id) <==> exists|n: int|
            {
                &&& 0 <= n <= 16
                &&& forall|k: int| 0 <= k < n ==> #[trigger] e[k] != 0
                &&& n < 16 ==> e[n] == 0
                &&& id == #[trigger] e.take(n)
            },
{
    if names(e, id) {
        let n = id.len() as int;
        assert forall|k: int| 0 <= k < n implies #[trigger] e[k] != 0 by {
            assert(id[k] == e[k]);
        }
        assert(id =~= e.take(n));
    }
}

/// No entry is taken for two different ids.
pub proof fn law_entry_has_one_name(e: Seq<u8>, a: Seq<u8>, b: Seq<u8>)
    requires
        e.len() == 32,
        names(e, a),
        names(e, b),
    ensures
        a == b,
{
    if a.len() < b.len() {
        assert(b[a.len() as int] == e[a.len() as int]);
    }
    if b.len() < a.len() {
        assert(a[b.len() as int] == e[b.len() as int]);
    }
    assert forall|k: int| 0 <= k < a.len() implies a[k] == b[k] by {
        assert(a[k] == e[k]);
        assert(b[k] == e[k]);
    }
    assert(a =~= b);
}

/// Entry `i` is the 32 bytes from `32 * i` on. Its base, its length and its
/// CRC are the little-endian words at 16, 20 and 24, and bit 0 of the word at
/// 28 says whether the image is resident.
pub proof fn law_entry_fields_have_their_places(entries: Seq<u8>, i: int)
    requires
        0 <= i,
        32 * i + 32 <= entries.len(),
    ensures
        ({
            let e = entry(entries, i);
            let b = |k: int| entries[32 * i + k] as int;
            let word = |k: int| b(k) + 0x100 * b(k + 1) + 0x1_0000 * b(k + 2) + 0x100_0000 * b(k + 3);
            &&& e.len() == 32
            &&& forall|k: int| 0 <= k < 32 ==> #[trigger] e[k] == entries[32 * i + k]
            &&& described(e).base == word(16)
            &&& described(e).len == word(20)
            &&& described(e).crc32 == word(24)
            &&& described(e).resident == (b(28) % 2 == 1)
        }),
{
    let e = entry(entries, i);
    crate::bytes::law_words_are_little_endian(e.subrange(16, 20));
    crate::bytes::law_words_are_little_endian(e.subrange(20, 24));
    crate::bytes::law_words_are_little_endian(e.subrange(24, 28));
    crate::bytes::law_words_are_little_endian(e.subrange(28, 32));
}

/// How a sector is judged. Where it is too short to hold a word it is blank if
/// every byte of it reads `0xFF`. Otherwise it is blank if four bytes of
/// `0xFF` stand at every 4096th byte of it, counted from its start, that is
/// followed by three more, and at its end.
pub proof fn law_blank_sector_reads_as_erased(
    nor: NorWindow,
    base: int,
    len: int,
    erase_sector: int,
    sector: int,
)
    requires
        nor.spans(base, len),
        erase_sector > 0,
        0 <= sector < len,
    ensures
        ({
            let end = if sector + erase_sector < len { sector + erase_sector } else { len };
            let at = base - nor.base;
            sector_blank(nor, base, len, erase_sector, sector) <==> if end - sector < 4 {
                forall|off: int| sector <= off < end ==> #[trigger] nor.bytes@[at + off] == 0xFF
            } else {
                forall|off: int|
                    sector <= off <= end - 4 && ((off - sector) % 4096 == 0 || off == end - 4) ==> {
                        &&& #[trigger] nor.bytes@[at + off] == 0xFF
                        &&& nor.bytes@[at + off + 1] == 0xFF
                        &&& nor.bytes@[at + off + 2] == 0xFF
                        &&& nor.bytes@[at + off + 3] == 0xFF
                    }
            }
        }),
{
    let end = sector_end(len, erase_sector, sector);
    let at = base - nor.base;
    if end - sector < 4 {
        let tail = nor.span(base + sector, end - sector);
        if all_erased(nor, base + sector, end - sector) {
            assert forall|off: int| sector <= off < end implies #[trigger] nor.bytes@[at + off]
                == 0xFF by {
                assert(tail[off - sector] == 0xFF);
                assert(nor.bytes@[at + off] == tail[off - sector]);
            }
        } else {
            let k = choose|k: int| 0 <= k < end - sector && #[trigger] tail[k] != 0xFF;
            assert(nor.bytes@[at + (sector + k)] == tail[k]);
        }
    } else {
        assert forall|off: int| sector <= off <= end - 4 implies (#[trigger] nor.word(base + off)
            == ERASED_WORD <==> (nor.bytes@[at + off] == 0xFF && nor.bytes@[at + off + 1] == 0xFF
            && nor.bytes@[at + off + 2] == 0xFF && nor.bytes@[at + off + 3] == 0xFF)) by {
            nor.law_reads_return_the_mapped_bytes(base + off, 4);
        }
        if sector_blank(nor, base, len, erase_sector, sector) {
            assert forall|off: int|
                sector <= off <= end - 4 && ((off - sector) % 4096 == 0 || off == end
                    - 4) implies {
                &&& #[trigger] nor.bytes@[at + off] == 0xFF
                &&& nor.bytes@[at + off + 1] == 0xFF
                &&& nor.bytes@[at + off + 2] == 0xFF
                &&& nor.bytes@[at + off + 3] == 0xFF
            } by {
                assert(sampled(len, erase_sector, sector, off));
                assert(nor.word(base + off) == ERASED_WORD);
            }
        } else {
            let off = choose|off: int| #[trigger]
                sampled(len, erase_sector, sector, off) && nor.word(base + off) != ERASED_WORD;
            assert(nor.bytes@[at + off] == nor.bytes@[at + off]);
        }
    }
}

/// An image that cannot hold a word is reported as erased at its base, and so
/// is any image on a part with empty sectors.
pub proof fn law_unjudgeable_image_is_reported_at_its_base(
    nor: NorWindow,
    base: u32,
    len: int,
    erase_sector: int,
)
    ensures
        len < 4 || erase_sector == 0 ==> erased_at(nor, base as int, len, erase_sector) == Some(
            base,
        ),
{
}

/// Every outcome of a verification has its cause, and no two causes go
/// together.
///
/// `word(k)` is the word at byte `k` of the manifest, which is intact if its
/// magic, its version, its count and the CRC of its entries are right. The
/// entry that counts is the first of those named `id`.
pub proof fn law_verification_outcomes_have_their_causes(
    nor: NorWindow,
    loc: ManifestLocation,
    id: Seq<u8>,
    expected_base: u32,
    full_crc: bool,
)
    requires
        manifest_mapped(nor, loc),
        image_mapped(nor, loc, id, expected_base),
    ensures
        ({
            let at = loc.base - nor.base;
            let b = |k: int| nor.bytes@[at + k] as int;
            let word = |k: int| b(k) + 0x100 * b(k + 1) + 0x1_0000 * b(k + 2) + 0x100_0000 * b(k + 3);
            let entries = nor.bytes@.subrange(at + 16, at + 16 + 32 * word(8));
            let readable = word(0) == 0x464D_364E && word(4) == 1;
            let counted = readable && 0 < word(8) <= (loc.size - 16) / 32;
            let intact = counted && crc32_of(entries) == word(12);
            let first = |i: int|
                {
                    &&& 0 <= i < word(8)
                    &&& names(entry(entries, i), id)
                    &&& forall|j: int| 0 <= j < i ==> !names(#[trigger] entry(entries, j), id)
                };
            match verified(nor, loc, id, expected_base, full_crc) {
                Err(WeightError::ManifestErased) => word(0) == 0xFFFF_FFFF,
                Err(WeightError::ManifestBadMagic { magic }) => {
                    magic == word(0) && magic != 0xFFFF_FFFF && magic != 0x464D_364E
                },
                Err(WeightError::ManifestBadVersion { version }) => {
                    word(0) == 0x464D_364E && version == word(4) && version != 1
                },
                Err(WeightError::ManifestBadCount { count }) => {
                    readable && !counted && count == word(8)
                },
                Err(WeightError::ManifestCorrupt { stored, computed }) => {
                    &&& counted
                    &&& stored == word(12)
                    &&& computed == crc32_of(entries)
                    &&& stored != computed
                },
                Err(WeightError::ModelNotFound) => {
                    intact && forall|j: int|
                        0 <= j < word(8) ==> !names(#[trigger] entry(entries, j), id)
                },
                Err(WeightError::SlotMismatch { manifest, expected }) => {
                    intact && manifest != expected && expected == expected_base && exists|i: int|
                        first(i) && described(#[trigger] entry(entries, i)).base == manifest
                },
                Err(WeightError::ImageErased { at }) => {
                    intact && exists|i: int|
                        {
                            let info = described(#[trigger] entry(entries, i));
                            &&& first(i) && info.base == expected_base
                            &&& erased_at(
                                nor,
                                info.base as int,
                                info.len as int,
                                loc.erase_sector as int,
                            ) == Some(at)
                        }
                },
                Err(WeightError::ImageCorrupt { stored, computed }) => {
                    intact && full_crc && stored != computed && exists|i: int|
                        {
                            let info = described(#[trigger] entry(entries, i));
                            let start = info.base - nor.base;
                            &&& first(i) && info.base == expected_base
                            &&& erased_at(
                                nor,
                                info.base as int,
                                info.len as int,
                                loc.erase_sector as int,
                            ) is None
                            &&& stored == info.crc32
                            &&& computed == crc32_of(nor.bytes@.subrange(start, start + info.len))
                        }
                },
                Ok(info) => {
                    let start = info.base - nor.base;
                    &&& intact
                    &&& exists|i: int| first(i) && described(#[trigger] entry(entries, i)) == info
                    &&& info.base == expected_base
                    &&& erased_at(
                        nor,
                        info.base as int,
                        info.len as int,
                        loc.erase_sector as int,
                    ) is None
                    &&& full_crc ==> crc32_of(nor.bytes@.subrange(start, start + info.len))
                        == info.crc32
                },
            }
        }),
{
    nor.law_reads_return_the_mapped_bytes(loc.base as int, 4);
    nor.law_reads_return_the_mapped_bytes(loc.base + 4, 4);
    nor.law_reads_return_the_mapped_bytes(loc.base + 8, 4);
    nor.law_reads_return_the_mapped_bytes(loc.base + 12, 4);
    let entries = entry_array(nor, loc);
    let count = header_word(nor, loc, 8) as int;
    law_lookup_finds_first_of_name(entries, id, count, 0);
    if let Some(i) = first_named(entries, id, count, 0) {
        assert(names(entry(entries, i), id));
    }
}

/// Verification is the look-up and then the check of the image that it finds.
/// What the look-up refuses is refused for the same reason, and never for the
/// image. What it finds is the first entry of that name in an intact manifest,
/// in the slot that the build expects.
pub proof fn law_lookup_and_image_check_make_up_verification(
    nor: NorWindow,
    loc: ManifestLocation,
    id: Seq<u8>,
    expected_base: u32,
    full_crc: bool,
)
    requires
        manifest_mapped(nor, loc),
    ensures
        ({
            let at = loc.base - nor.base;
            let b = |k: int| nor.bytes@[at + k] as int;
            let word = |k: int| b(k) + 0x100 * b(k + 1) + 0x1_0000 * b(k + 2) + 0x100_0000 * b(k + 3);
            let entries = nor.bytes@.subrange(at + 16, at + 16 + 32 * word(8));
            match located(nor, loc, id, expected_base) {
                Err(fault) => {
                    &&& !(fault is ImageErased) && !(fault is ImageCorrupt)
                    &&& verified(nor, loc, id, expected_base, full_crc) == Err::<
                        WeightInfo,
                        WeightError,
                    >(fault)
                },
                Ok(info) => {
                    &&& word(0) == 0x464D_364E && word(4) == 1
                    &&& 0 < word(8) <= (loc.size - 16) / 32
                    &&& crc32_of(entries) == word(12)
                    &&& info.base == expected_base
                    &&& exists|i: int|
                        {
                            &&& 0 <= i < word(8)
                            &&& described(#[trigger] entry(entries, i)) == info
                            &&& names(entry(entries, i), id)
                            &&& forall|j: int|
                                0 <= j < i ==> !names(#[trigger] entry(entries, j), id)
                        }
                    &&& verified(nor, loc, id, expected_base, full_crc) == match image_fault(
                        nor,
                        info,
                        loc.erase_sector,
                        full_crc,
                    ) {
                        Some(fault) => Err::<WeightInfo, WeightError>(fault),
                        None => Ok(info),
                    }
                },
            }
        }),
{
    nor.law_reads_return_the_mapped_bytes(loc.base as int, 4);
    nor.law_reads_return_the_mapped_bytes(loc.base + 4, 4);
    nor.law_reads_return_the_mapped_bytes(loc.base + 8, 4);
    nor.law_reads_return_the_mapped_bytes(loc.base + 12, 4);
    law_lookup_finds_first_of_name(
        entry_array(nor, loc),
        id,
        header_word(nor, loc, 8) as int,
        0,
    );
}

/// Why an image is refused: it is erased, or, where the whole of it is read,
/// the CRC of its bytes is not the recorded one.
pub proof fn law_images_are_refused_for_their_bytes(
    nor: NorWindow,
    info: WeightInfo,
    erase_sector: u32,
    full_crc: bool,
)
    requires
        nor.spans(info.base as int, info.len as int),
    ensures
        ({
            let erased = erased_at(nor, info.base as int, info.len as int, erase_sector as int);
            let start = info.base - nor.base;
            let crc = crc32_of(nor.bytes@.subrange(start, start + info.len));
            match image_fault(nor, info, erase_sector, full_crc) {
                None => erased is None && (full_crc ==> crc == info.crc32),
                Some(WeightError::ImageErased { at }) => erased == Some(at),
                Some(WeightError::ImageCorrupt { stored, computed }) => {
                    &&& erased is None && full_crc
                    &&& stored == info.crc32 && computed == crc && stored != computed
                },
                Some(_) => false,
            }
        }),
{
}

/// What has to be mapped for a verification: the sixteen bytes of header, the
/// entries that it counts, unless the reserved region has no room for them,
/// and the image of the entry that it finds.
pub proof fn law_mapping_is_what_is_read(
    nor: NorWindow,
    loc: ManifestLocation,
    id: Seq<u8>,
    expected_base: u32,
)
    ensures
        manifest_mapped(nor, loc) <==> {
            let at = loc.base - nor.base;
            let size = nor.bytes@.len();
            &&& nor.base + size <= 0x1_0000_0000
            &&& loc.size >= 16
            &&& at >= 0
            &&& at + 16 <= size
            &&& {
                let count = nor.bytes@[at + 8] + 0x100 * nor.bytes@[at + 9] + 0x1_0000
                    * nor.bytes@[at + 10] + 0x100_0000 * nor.bytes@[at + 11];
                count <= (loc.size - 16) / 32 ==> at + 16 + 32 * count <= size
            }
        },
        image_mapped(nor, loc, id, expected_base) <==> (located(
            nor,
            loc,
            id,
            expected_base,
        ) matches Ok(info) ==> nor.base <= info.base && info.base + info.len <= nor.base
            + nor.bytes@.len()),
{
    nor.law_reads_return_the_mapped_bytes(loc.base + 8, 4);
}

/// Every refusal has the remedy for its cause.
pub proof fn law_remedies_fit_their_causes(fault: WeightError)
    ensures
        fault is SlotMismatch ==> fault.remedy()@
            == "the flashed image predates a memory.toml change — re-flash, and if the slot base moved, regenerate the model (the base is baked into the EC blob)"@,
        fault is ImageErased ==> fault.remedy()@
            == "the weight slot has been erased — most likely another flash target overlapped it; check the partition table in memory.toml, then re-flash"@,
        fault is ImageCorrupt ==> fault.remedy()@ == "the weight image is damaged — re-flash"@,
        fault is ManifestErased || fault is ManifestBadMagic || fault is ManifestBadVersion
            || fault is ManifestBadCount || fault is ManifestCorrupt || fault is ModelNotFound
            ==> fault.remedy()@
            == "re-run flash.py for this model's weight target — it writes the image and the manifest entry describing it in one session"@,
{
}

} // verus!
