use savegen::fs_save::HexU64;
use savegen::save_stubs::{get_decompressed, Savefile};
use savegen::SaveError;
use sha2::{Digest, Sha256};
use std::io::Write;

fn compress(data: &[u8]) -> Vec<u8> {
    let mut enc = lz4_flex::frame::FrameEncoder::new(Vec::new());
    enc.write_all(data).unwrap();
    enc.finish().unwrap()
}

fn template(seed: u8, len: usize) -> Vec<u8> {
    (0..len).map(|i| (i as u8).wrapping_add(seed)).collect()
}

#[test]
fn decompression_round_trip() {
    let t4 = template(4, 0x4100);
    let t5 = template(5, 0x4100);
    let (c4, c5) = (compress(&t4), compress(&t5));
    for tag in 0..=4u8 {
        assert_eq!(get_decompressed(tag, &c4, &c5).unwrap(), t4);
    }
    assert_eq!(get_decompressed(5, &c4, &c5).unwrap(), t5);
}

#[test]
fn unsupported_version_rejected() {
    let c4 = compress(&template(4, 0x4100));
    let c5 = compress(&template(5, 0x4100));
    assert_eq!(get_decompressed(9, &c4, &c5).unwrap_err(), SaveError::UnsupportedVersion);
    assert_eq!(
        Savefile::new(9, &c4, &c5, HexU64::new(0x8000000000000000)).unwrap_err(),
        SaveError::UnsupportedVersion
    );
    assert_eq!(get_decompressed(6, &c4, &c5).unwrap_err(), SaveError::UnsupportedVersion);
}

#[test]
fn corrupt_template_rejected() {
    let c4 = compress(&template(4, 0x4100));
    assert_eq!(
        Savefile::new(5, &c4, b"not an lz4 frame", HexU64::new(1)).unwrap_err(),
        SaveError::CorruptTemplate
    );
    // A template shorter than the patched layout is a packaging defect.
    let short = compress(&template(5, 0x100));
    assert_eq!(
        Savefile::new(5, &c4, &short, HexU64::new(1)).unwrap_err(),
        SaveError::CorruptTemplate
    );
}

#[test]
fn identifier_propagation() {
    let c4 = compress(&template(4, 0x4100));
    let c5 = compress(&template(5, 0x4100));
    let id = 0x8000000000000000u64;
    let sav = Savefile::new(5, &c4, &c5, HexU64::new(id)).unwrap();
    let buf = sav.bytes();
    assert_eq!(&buf[0x6f0..0x6f8], &id.to_le_bytes());
    assert_eq!(&buf[0x8f0..0x8f8], &id.to_le_bytes());
}

#[test]
fn inner_hash_fixup() {
    let c4 = compress(&template(4, 0x4100));
    let c5 = compress(&template(5, 0x4100));
    let sav = Savefile::new(5, &c4, &c5, HexU64::new(0x8000000000000001)).unwrap();
    let buf = sav.bytes();
    let digest = Sha256::digest(&buf[0x300..0x4000]);
    assert_eq!(&buf[0x108..0x128], digest.as_slice());
    // The digest really was recomputed: it differs from what the
    // template held there.
    assert_ne!(&buf[0x108..0x128], &template(5, 0x4100)[0x108..0x128]);
}

#[test]
fn patching_is_deterministic() {
    let c4 = compress(&template(4, 0x4100));
    let c5 = compress(&template(5, 0x4100));
    let id = HexU64::new(0x8000000000000001);
    let a = Savefile::new(5, &c4, &c5, id).unwrap();
    let b = Savefile::new(5, &c4, &c5, id).unwrap();
    assert_eq!(a.bytes(), b.bytes());
}

#[test]
fn version_tag_selects_template() {
    let t4 = template(4, 0x4100);
    let t5 = template(5, 0x4100);
    let (c4, c5) = (compress(&t4), compress(&t5));
    let id = HexU64::new(0x8000000000000001);
    let from4 = Savefile::new(0, &c4, &c5, id).unwrap();
    let from5 = Savefile::new(5, &c4, &c5, id).unwrap();
    // Bytes outside the patched regions still come from the selected
    // template.
    assert_eq!(from4.bytes()[0x4050], t4[0x4050]);
    assert_eq!(from5.bytes()[0x4050], t5[0x4050]);
    assert_ne!(from4.bytes(), from5.bytes());
}

#[test]
fn untouched_bytes_survive_patching() {
    let t5 = template(5, 0x4100);
    let c4 = compress(&template(4, 0x4100));
    let c5 = compress(&t5);
    let sav = Savefile::new(5, &c4, &c5, HexU64::new(0x8000000000000001)).unwrap();
    let buf = sav.bytes();
    assert_eq!(buf.len(), t5.len());
    assert_eq!(&buf[0..0x108], &t5[0..0x108]);
    assert_eq!(&buf[0x128..0x6f0], &t5[0x128..0x6f0]);
    assert_eq!(&buf[0x6f8..0x8f0], &t5[0x6f8..0x8f0]);
    assert_eq!(&buf[0x8f8..], &t5[0x8f8..]);
}

#[test]
fn patch_saveid_repatches_in_place() {
    let c4 = compress(&template(4, 0x4100));
    let c5 = compress(&template(5, 0x4100));
    let first = HexU64::new(0x8000000000000001);
    let second = HexU64::new(0x8000000000000002);
    let mut sav = Savefile::new(5, &c4, &c5, first).unwrap();
    sav.patch_saveid(second);
    let direct = Savefile::new(5, &c4, &c5, second).unwrap();
    assert_eq!(sav.bytes(), direct.bytes());
}
