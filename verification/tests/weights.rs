use npu_runtime::nor::NorWindow;
use npu_runtime::weights::{
    check_image, crc32, is_mapped, locate, scan_erased, verify, ManifestLocation, WeightError, WeightInfo,
    HINT_DAMAGED, HINT_ERASED, HINT_MOVED, HINT_REFLASH,
};

const NOR_BASE: u32 = 0x7000_0000;
const IMAGE_AT: usize = 0x2000;
const SLOT: u32 = NOR_BASE + 0x2000;
const SECTOR: u32 = 0x1000;
const IMAGE_LEN: usize = 0x3000;

fn location() -> ManifestLocation {
    ManifestLocation { base: NOR_BASE, size: 0x1000, erase_sector: SECTOR }
}

fn put32(bytes: &mut Vec<u8>, at: usize, word: u32) {
    for (k, b) in word.to_le_bytes().iter().enumerate() {
        bytes[at + k] = *b;
    }
}

fn image() -> Vec<u8> {
    (0..IMAGE_LEN).map(|k| (k % 251) as u8).collect()
}

fn add_entry(bytes: &mut Vec<u8>, i: usize, id: &[u8], base: u32, len: u32, crc: u32, flags: u32) {
    let at = 16 + 32 * i;
    for k in 0..16 {
        bytes[at + k] = if k < id.len() { id[k] } else { 0 };
    }
    put32(bytes, at + 16, base);
    put32(bytes, at + 20, len);
    put32(bytes, at + 24, crc);
    put32(bytes, at + 28, flags);
}

fn seal(bytes: &mut Vec<u8>, count: usize) {
    put32(bytes, 0, 0x464D_364E);
    put32(bytes, 4, 1);
    put32(bytes, 8, count as u32);
    let crc = crc32(&bytes[16..16 + 32 * count]);
    put32(bytes, 12, crc);
}

fn flash() -> Vec<u8> {
    let mut bytes = vec![0xFFu8; 0x8000];
    let img = image();
    bytes[IMAGE_AT..IMAGE_AT + IMAGE_LEN].copy_from_slice(&img);
    add_entry(&mut bytes, 0, b"other", SLOT + 4, 8, 1, 0);
    add_entry(&mut bytes, 1, b"deeplab", SLOT, IMAGE_LEN as u32, crc32(&img), 1);
    seal(&mut bytes, 2);
    bytes
}

fn check(bytes: &[u8], id: &str, expected: u32, full: bool) -> Result<WeightInfo, WeightError> {
    let nor = NorWindow { base: NOR_BASE, bytes };
    verify(&nor, &location(), id, expected, full)
}

#[test]
fn crc_of_known_strings() {
    assert_eq!(crc32(b""), 0);
    assert_eq!(crc32(b"123456789"), 0xCBF4_3926);
    assert_eq!(crc32(b"The quick brown fox jumps over the lazy dog"), 0x414F_A339);
}

#[test]
fn window_reads_little_endian() {
    let bytes = [0x4E, 0x36, 0x4D, 0x46, 0x01];
    let nor = NorWindow { base: 0x7000_0000, bytes: &bytes };
    assert_eq!(nor.rd32(0x7000_0000), 0x464D_364E);
    assert_eq!(nor.rd32(0x7000_0001), 0x0146_4D36);
    assert_eq!(nor.nor_slice(0x7000_0002, 2), &[0x4D, 0x46]);
    assert!(nor.covers(0x7000_0000, 5));
    assert!(!nor.covers(0x7000_0000, 6));
    assert!(!nor.covers(0x6FFF_FFFF, 1));
}

#[test]
fn sound_image_is_accepted() {
    let bytes = flash();
    let want = WeightInfo {
        base: SLOT,
        len: IMAGE_LEN as u32,
        crc32: crc32(&image()),
        resident: true,
    };
    assert_eq!(check(&bytes, "deeplab", SLOT, false), Ok(want));
    assert_eq!(check(&bytes, "deeplab", SLOT, true), Ok(want));
}

#[test]
fn resident_is_bit_zero_of_the_flags() {
    let mut bytes = flash();
    add_entry(&mut bytes, 1, b"deeplab", SLOT, IMAGE_LEN as u32, 7, 0xFFFF_FFFE);
    seal(&mut bytes, 2);
    assert_eq!(check(&bytes, "deeplab", SLOT, false).map(|i| i.resident), Ok(false));
}

#[test]
fn blank_manifest_is_refused() {
    let bytes = vec![0xFFu8; 0x8000];
    assert_eq!(check(&bytes, "deeplab", SLOT, false), Err(WeightError::ManifestErased));
}

#[test]
fn foreign_magic_is_refused() {
    let mut bytes = flash();
    put32(&mut bytes, 0, 0x1234_5678);
    assert_eq!(
        check(&bytes, "deeplab", SLOT, false),
        Err(WeightError::ManifestBadMagic { magic: 0x1234_5678 })
    );
}

#[test]
fn other_version_is_refused() {
    let mut bytes = flash();
    put32(&mut bytes, 4, 2);
    assert_eq!(
        check(&bytes, "deeplab", SLOT, false),
        Err(WeightError::ManifestBadVersion { version: 2 })
    );
}

#[test]
fn impossible_counts_are_refused() {
    let mut bytes = flash();
    put32(&mut bytes, 8, 0);
    assert_eq!(
        check(&bytes, "deeplab", SLOT, false),
        Err(WeightError::ManifestBadCount { count: 0 })
    );
    // (0x1000 - 16) / 32 == 127 entries fit.
    put32(&mut bytes, 8, 128);
    assert_eq!(
        check(&bytes, "deeplab", SLOT, false),
        Err(WeightError::ManifestBadCount { count: 128 })
    );
    put32(&mut bytes, 8, 127);
    assert!(matches!(
        check(&bytes, "deeplab", SLOT, false),
        Err(WeightError::ManifestCorrupt { .. })
    ));
}

#[test]
fn torn_entry_array_is_refused() {
    let mut bytes = flash();
    let stored = crc32(&bytes[16..16 + 64]);
    bytes[20] ^= 1;
    let computed = crc32(&bytes[16..16 + 64]);
    assert_eq!(
        check(&bytes, "deeplab", SLOT, false),
        Err(WeightError::ManifestCorrupt { stored, computed })
    );
}

#[test]
fn unknown_model_is_not_found() {
    let bytes = flash();
    assert_eq!(check(&bytes, "yolo", SLOT, false), Err(WeightError::ModelNotFound));
    assert_eq!(check(&bytes, "deepla", SLOT, false), Err(WeightError::ModelNotFound));
    assert_eq!(check(&bytes, "deeplab2", SLOT, false), Err(WeightError::ModelNotFound));
    assert_eq!(
        check(&bytes, "an-id-of-seventeen", SLOT, false),
        Err(WeightError::ModelNotFound)
    );
}

#[test]
fn id_may_fill_its_field() {
    let mut bytes = flash();
    add_entry(&mut bytes, 0, b"sixteen-byte-id!", SLOT, IMAGE_LEN as u32, 9, 0);
    seal(&mut bytes, 2);
    assert_eq!(check(&bytes, "sixteen-byte-id!", SLOT, false).map(|i| i.crc32), Ok(9));
    assert_eq!(check(&bytes, "sixteen-byte-id!x", SLOT, false), Err(WeightError::ModelNotFound));
}

#[test]
fn first_entry_of_a_name_counts() {
    let mut bytes = flash();
    add_entry(&mut bytes, 0, b"deeplab", SLOT, IMAGE_LEN as u32, 42, 0);
    seal(&mut bytes, 2);
    assert_eq!(check(&bytes, "deeplab", SLOT, false).map(|i| i.crc32), Ok(42));
}

#[test]
fn moved_slot_is_refused() {
    let bytes = flash();
    assert_eq!(
        check(&bytes, "deeplab", SLOT + 0x1000, false),
        Err(WeightError::SlotMismatch { manifest: SLOT, expected: SLOT + 0x1000 })
    );
}

#[test]
fn erased_slot_is_reported_at_its_base() {
    let mut bytes = flash();
    for b in &mut bytes[IMAGE_AT..IMAGE_AT + IMAGE_LEN] {
        *b = 0xFF;
    }
    assert_eq!(check(&bytes, "deeplab", SLOT, false), Err(WeightError::ImageErased { at: SLOT }));
}

#[test]
fn erased_sector_is_caught_wherever_it_lies() {
    for sector in 0..3usize {
        let mut bytes = flash();
        let at = IMAGE_AT + sector * SECTOR as usize;
        for b in &mut bytes[at..at + SECTOR as usize] {
            *b = 0xFF;
        }
        let want = SLOT + sector as u32 * SECTOR;
        assert_eq!(
            check(&bytes, "deeplab", SLOT, true),
            Err(WeightError::ImageErased { at: want })
        );
    }
}

#[test]
fn last_word_of_a_sector_is_sampled() {
    let mut bytes = flash();
    for b in &mut bytes[IMAGE_AT..IMAGE_AT + SECTOR as usize] {
        *b = 0xFF;
    }
    bytes[IMAGE_AT + SECTOR as usize - 1] = 0;
    assert!(check(&bytes, "deeplab", SLOT, false).is_ok());
}

#[test]
fn stride_samples_inside_a_large_sector() {
    let mut bytes = vec![0xFFu8; 0x4000];
    let loc = 0x1_0000;
    let nor = NorWindow { base: NOR_BASE, bytes: &bytes };
    assert_eq!(scan_erased(&nor, NOR_BASE, 0x3000, loc), Some(NOR_BASE));
    bytes[0x1000] = 0;
    let nor = NorWindow { base: NOR_BASE, bytes: &bytes };
    assert_eq!(scan_erased(&nor, NOR_BASE, 0x3000, loc), None);
    bytes[0x1000] = 0xFF;
    bytes[0x1004] = 0;
    let nor = NorWindow { base: NOR_BASE, bytes: &bytes };
    assert_eq!(scan_erased(&nor, NOR_BASE, 0x3000, loc), Some(NOR_BASE));
}

#[test]
fn image_too_short_to_sample_counts_as_erased() {
    let bytes = [1u8, 2, 3, 4];
    let nor = NorWindow { base: NOR_BASE, bytes: &bytes };
    assert_eq!(scan_erased(&nor, NOR_BASE, 3, SECTOR), Some(NOR_BASE));
    assert_eq!(scan_erased(&nor, NOR_BASE, 4, SECTOR), None);
}

#[test]
fn short_last_sector_is_judged_by_its_bytes() {
    let mut bytes = vec![0u8; 0x1002];
    let nor = NorWindow { base: NOR_BASE, bytes: &bytes };
    assert_eq!(scan_erased(&nor, NOR_BASE, 0x1002, SECTOR), None);
    for k in 0xFFE..0x1002 {
        bytes[k] = 0xFF;
    }
    let nor = NorWindow { base: NOR_BASE, bytes: &bytes };
    assert_eq!(scan_erased(&nor, NOR_BASE, 0x1002, SECTOR), Some(NOR_BASE + 0x1000));
}

#[test]
fn blank_tail_shorter_than_a_word_is_reported() {
    let base = 0x7038_0000;
    let mut bytes = vec![0u8; 0x1_0002];
    bytes[0x1_0000] = 0xFF;
    bytes[0x1_0001] = 0xFF;
    let nor = NorWindow { base, bytes: &bytes };
    assert_eq!(scan_erased(&nor, base, 0x1_0002, 0x1_0000), Some(0x7039_0000));
    bytes[0x1_0001] = 0xFE;
    let nor = NorWindow { base, bytes: &bytes };
    assert_eq!(scan_erased(&nor, base, 0x1_0002, 0x1_0000), None);
}

#[test]
fn sectors_shorter_than_a_word_are_judged_one_by_one() {
    let bytes = [0xFFu8, 0, 0xFF, 0xFF, 0];
    let nor = NorWindow { base: NOR_BASE, bytes: &bytes };
    assert_eq!(scan_erased(&nor, NOR_BASE, 5, 2), Some(NOR_BASE + 2));
    assert_eq!(scan_erased(&nor, NOR_BASE, 5, 3), None);
    assert_eq!(scan_erased(&nor, NOR_BASE, 5, 1), Some(NOR_BASE));
}

#[test]
fn empty_sectors_count_as_erased() {
    let bytes = [1u8; 8];
    let nor = NorWindow { base: NOR_BASE, bytes: &bytes };
    assert_eq!(scan_erased(&nor, NOR_BASE, 8, 0), Some(NOR_BASE));
    let flash = flash();
    let nor = NorWindow { base: NOR_BASE, bytes: &flash };
    let loc = ManifestLocation { erase_sector: 0, ..location() };
    assert_eq!(
        verify(&nor, &loc, "deeplab", SLOT, true),
        Err(WeightError::ImageErased { at: SLOT })
    );
}

#[test]
fn mapping_is_told_apart() {
    let mut bytes = flash();
    let nor = NorWindow { base: NOR_BASE, bytes: &bytes };
    assert!(is_mapped(&nor, &location(), "deeplab", SLOT));
    let nor = NorWindow { base: NOR_BASE, bytes: &bytes[..IMAGE_AT + IMAGE_LEN - 1] };
    assert!(!is_mapped(&nor, &location(), "deeplab", SLOT));
    assert!(is_mapped(&nor, &location(), "deeplab", SLOT + 4));
    assert!(is_mapped(&nor, &location(), "absent", SLOT));
    let nor = NorWindow { base: NOR_BASE, bytes: &bytes[..79] };
    assert!(!is_mapped(&nor, &location(), "absent", SLOT));
    let nor = NorWindow { base: NOR_BASE, bytes: &bytes[..80] };
    assert!(is_mapped(&nor, &location(), "absent", SLOT));
    let nor = NorWindow { base: NOR_BASE, bytes: &bytes[..15] };
    assert!(!is_mapped(&nor, &location(), "absent", SLOT));
    let small = ManifestLocation { size: 15, ..location() };
    let nor = NorWindow { base: NOR_BASE, bytes: &bytes };
    assert!(!is_mapped(&nor, &small, "absent", SLOT));
    let nor = NorWindow { base: 0xFFFF_FFF0, bytes: &bytes };
    assert!(!is_mapped(&nor, &location(), "absent", SLOT));
    put32(&mut bytes, 8, 0xFFFF_FFFF);
    let nor = NorWindow { base: NOR_BASE, bytes: &bytes[..16] };
    assert!(is_mapped(&nor, &location(), "absent", SLOT));
}

#[test]
fn corruption_shows_only_in_the_full_crc() {
    let mut bytes = flash();
    let stored = crc32(&image());
    bytes[IMAGE_AT + 100] ^= 0x10;
    let computed = crc32(&bytes[IMAGE_AT..IMAGE_AT + IMAGE_LEN]);
    assert!(check(&bytes, "deeplab", SLOT, false).is_ok());
    assert_eq!(
        check(&bytes, "deeplab", SLOT, true),
        Err(WeightError::ImageCorrupt { stored, computed })
    );
}

#[test]
fn lookup_and_image_check_make_up_verification() {
    let bytes = flash();
    let nor = NorWindow { base: NOR_BASE, bytes: &bytes };
    let info = locate(&nor, &location(), "deeplab", SLOT).unwrap();
    assert_eq!(check_image(&nor, &info, SECTOR, true), None);
    assert_eq!(verify(&nor, &location(), "deeplab", SLOT, true), Ok(info));
}

#[test]
fn hints_name_the_remedy() {
    assert_eq!(WeightError::ManifestErased.hint(), HINT_REFLASH);
    assert_eq!(WeightError::ManifestBadMagic { magic: 0 }.hint(), HINT_REFLASH);
    assert_eq!(WeightError::ManifestBadVersion { version: 0 }.hint(), HINT_REFLASH);
    assert_eq!(WeightError::ManifestBadCount { count: 0 }.hint(), HINT_REFLASH);
    assert_eq!(WeightError::ManifestCorrupt { stored: 0, computed: 1 }.hint(), HINT_REFLASH);
    assert_eq!(WeightError::ModelNotFound.hint(), HINT_REFLASH);
    assert_eq!(WeightError::SlotMismatch { manifest: 0, expected: 1 }.hint(), HINT_MOVED);
    assert_eq!(WeightError::ImageErased { at: 0 }.hint(), HINT_ERASED);
    assert_eq!(WeightError::ImageCorrupt { stored: 0, computed: 1 }.hint(), HINT_DAMAGED);
    assert_eq!(HINT_DAMAGED, "the weight image is damaged — re-flash");
    assert_eq!(
        HINT_ERASED,
        "the weight slot has been erased — most likely another flash target overlapped it; \
         check the partition table in memory.toml, then re-flash"
    );
}
