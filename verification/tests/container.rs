use savegen::fs_save::{HexU64, SaveDataAttribute};
use savegen::imkv::{register_save, Imen, Imkv};
use savegen::SaveError;

fn count_field(enc: &[u8]) -> u32 {
    u32::from_le_bytes([enc[8], enc[9], enc[10], enc[11]])
}

#[test]
fn entry_round_trip() {
    for (key, value) in [
        (vec![], vec![]),
        (vec![1u8, 2, 3], vec![]),
        (vec![], vec![9u8]),
        (vec![0xde, 0xad], vec![0xbe, 0xef, 0x00]),
        (vec![0x55; 0x10000], vec![0xaa; 0x10000]),
    ] {
        let e = Imen::from_kv(key.clone(), value.clone()).unwrap();
        let enc = e.encode();
        assert_eq!(enc.len(), 12 + key.len() + value.len());
        assert_eq!(&enc[0..4], b"IMEN");
        let back = Imen::decode(&enc).unwrap();
        assert_eq!(back.key(), &key);
        assert_eq!(back.value(), &value);
    }
}

#[test]
fn entry_decode_errors() {
    assert_eq!(Imen::decode(b"IME").unwrap_err(), SaveError::TruncatedInput);
    assert_eq!(Imen::decode(b"XMEN\x00\x00\x00\x00\x00\x00\x00\x00").unwrap_err(), SaveError::BadMagic);
    assert_eq!(Imen::decode(b"IMEN\x00\x00\x00").unwrap_err(), SaveError::TruncatedInput);
    // Declared key length longer than what follows.
    assert_eq!(
        Imen::decode(b"IMEN\x05\x00\x00\x00\x00\x00\x00\x00abc").unwrap_err(),
        SaveError::TruncatedInput
    );
}

#[test]
fn empty_container_round_trip() {
    let c = Imkv::new();
    let enc = c.encode();
    assert_eq!(&enc[0..4], b"IMKV");
    assert_eq!(&enc[4..8], &[0, 0, 0, 0]); // reserved word
    assert_eq!(count_field(&enc), 0);
    assert_eq!(enc.len(), 12);
    let back = Imkv::decode(&enc).unwrap();
    assert_eq!(back.entries().len(), 0);
}

#[test]
fn container_round_trip() {
    let mut c = Imkv::new();
    c.insert(vec![1, 2], vec![3]).unwrap();
    c.insert(vec![], vec![]).unwrap();
    c.insert(vec![9; 40], vec![8; 100]).unwrap();
    let enc = c.encode();
    assert_eq!(count_field(&enc), 3);
    let back = Imkv::decode(&enc).unwrap();
    assert_eq!(back.entries().len(), 3);
    assert_eq!(back.entries()[0].key(), &vec![1u8, 2]);
    assert_eq!(back.entries()[0].value(), &vec![3u8]);
    assert_eq!(back.entries()[1].key(), &Vec::<u8>::new());
    assert_eq!(back.entries()[2].key(), &vec![9u8; 40]);
    assert_eq!(back.entries()[2].value(), &vec![8u8; 100]);
    // Re-encoding the decoded container reproduces the bytes.
    assert_eq!(back.encode(), enc);
}

#[test]
fn count_field_tracks_insertions() {
    let mut c = Imkv::new();
    for i in 0..5u8 {
        c.insert(vec![i], vec![i, i]).unwrap();
        let enc = c.encode();
        assert_eq!(count_field(&enc) as usize, c.entries().len());
        assert_eq!(c.entries().len(), (i + 1) as usize);
    }
}

#[test]
fn container_decode_errors() {
    assert_eq!(Imkv::decode(b"IM").unwrap_err(), SaveError::TruncatedInput);
    assert_eq!(Imkv::decode(b"XMKV\x00\x00\x00\x00\x00\x00\x00\x00").unwrap_err(), SaveError::BadMagic);
    assert_eq!(Imkv::decode(b"IMKV\x00\x00\x00").unwrap_err(), SaveError::TruncatedInput);
    // Count says one entry but none follows.
    assert_eq!(
        Imkv::decode(b"IMKV\x00\x00\x00\x00\x01\x00\x00\x00").unwrap_err(),
        SaveError::TruncatedInput
    );
    // An entry with the wrong magic inside.
    assert_eq!(
        Imkv::decode(b"IMKV\x00\x00\x00\x00\x01\x00\x00\x00XXEN\x00\x00\x00\x00\x00\x00\x00\x00")
            .unwrap_err(),
        SaveError::BadMagic
    );
    // A non-zero reserved word is read and ignored.
    assert!(Imkv::decode(b"IMKV\xff\x00\x00\x00\x00\x00\x00\x00").is_ok());
}

#[test]
fn duplicate_key_is_skipped() {
    let saveid = 0x8000000000000042u64;
    let mut c = Imkv::new();
    assert_eq!(register_save(&mut c, saveid, 0x1000).unwrap(), true);
    assert_eq!(c.entries().len(), 1);
    // An identical encoded key is detected byte-exactly and skipped.
    assert_eq!(register_save(&mut c, saveid, 0x9999).unwrap(), false);
    assert_eq!(c.entries().len(), 1);
    assert_eq!(count_field(&c.encode()), 1);
    // A different identifier still registers.
    assert_eq!(register_save(&mut c, 0x8000000000000043, 0x1000).unwrap(), true);
    assert_eq!(c.entries().len(), 2);
}

#[test]
fn registered_entry_matches_records() {
    let saveid = 0x8000000000000120u64;
    let mut c = Imkv::new();
    register_save(&mut c, saveid, 0xc0000).unwrap();
    let entry = &c.entries()[0];
    assert_eq!(entry.key(), &SaveDataAttribute::new_system(HexU64::new(saveid)).encode());
    let val = savegen::fs_save::WhateverTheValueIs::decode(entry.value()).unwrap();
    assert_eq!(val.saveid.0, saveid);
    assert_eq!(val.save_size, 0xc0000);
}

#[test]
fn contains_key_is_byte_exact() {
    let mut c = Imkv::new();
    c.insert(vec![1, 2, 3], vec![]).unwrap();
    assert!(c.contains_key(&[1, 2, 3]));
    assert!(!c.contains_key(&[1, 2]));
    assert!(!c.contains_key(&[1, 2, 4]));
    assert!(!c.contains_key(&[]));
}

#[test]
fn map_key_and_value_update_lengths() {
    let mut e = Imen::from_kv(vec![1], vec![2]).unwrap();
    let n = e.map_key(|mut k| {
        k.push(9);
        k
    });
    assert_eq!(n, 2);
    assert_eq!(e.key(), &vec![1, 9]);
    assert_eq!(e.value(), &vec![2]);
    let n = e.map_value(|_| vec![7, 7, 7]);
    assert_eq!(n, 3);
    assert_eq!(e.value(), &vec![7, 7, 7]);
    // The encoded lengths follow the mutation.
    let enc = e.encode();
    assert_eq!(&enc[4..8], &[2, 0, 0, 0]);
    assert_eq!(&enc[8..12], &[3, 0, 0, 0]);
}

#[test]
fn map_entries_resets_count() {
    let mut c = Imkv::new();
    c.insert(vec![1], vec![2]).unwrap();
    let extra = Imen::from_kv(vec![3], vec![4]).unwrap();
    let n = c.map_entries(move |mut es| {
        es.push(extra);
        es
    });
    assert_eq!(n, 2);
    assert_eq!(c.entries().len(), 2);
    assert_eq!(count_field(&c.encode()), 2);
}

#[test]
fn render_formats_entry() {
    let e = Imen::from_kv(vec![0xde, 0xad], vec![0xbe]).unwrap();
    assert_eq!(e.render(), "IMEN\n  Key (0x2):\tdead\n  Value (0x1):\tbe");
    let empty = Imen::from_kv(vec![], vec![]).unwrap();
    assert_eq!(empty.render(), "IMEN\n  Key (0x0):\t\n  Value (0x0):\t");
}
