use savegen::fs_save::{
    HexU64, SaveDataAttribute, SaveDataCreationInfo, SaveDataRank, SaveDataType,
    WhateverTheValueIs,
};
use savegen::SaveError;

#[test]
fn system_attribute_round_trip() {
    let x = HexU64::new(0x8000000000000042);
    let attr = SaveDataAttribute::new_system(x);
    let enc = attr.encode();
    assert_eq!(enc.len(), 0x40);
    let back = SaveDataAttribute::decode(&enc).unwrap();
    assert_eq!(back.appid.0, 0);
    assert_eq!(back.userid, [0, 0]);
    assert_eq!(back.system_save_data_id.0, 0x8000000000000042);
    assert!(matches!(back.save_type, SaveDataType::System));
    assert!(matches!(back.rank, SaveDataRank::Primary));
    assert_eq!(back.index, 0);
    assert_eq!(back.padding, 0);
    assert_eq!(back.unk, [0, 0, 0]);
}

#[test]
fn attribute_layout_is_little_endian() {
    let attr = SaveDataAttribute {
        appid: HexU64::new(0x0102030405060708),
        userid: [0x1111111111111111, 0x2222222222222222],
        system_save_data_id: HexU64::new(0x8000000000000001),
        save_type: SaveDataType::Cache,
        rank: SaveDataRank::Secondary,
        index: 0x0304,
        padding: 0xdeadbeef,
        unk: [1, 2, 3],
    };
    let enc = attr.encode();
    assert_eq!(&enc[0..8], &[8, 7, 6, 5, 4, 3, 2, 1]);
    assert_eq!(&enc[0x18..0x20], &[1, 0, 0, 0, 0, 0, 0, 0x80]);
    assert_eq!(enc[0x20], 5); // Cache
    assert_eq!(enc[0x21], 1); // Secondary
    assert_eq!(&enc[0x22..0x24], &[4, 3]);
    // Padding and reserved words are always written as zero.
    assert!(enc[0x24..0x40].iter().all(|&b| b == 0));
}

#[test]
fn attribute_enum_discriminants() {
    let mut enc = SaveDataAttribute::new_system(HexU64::new(1)).encode();
    for (code, ty) in [
        (0u8, SaveDataType::System),
        (1, SaveDataType::Account),
        (2, SaveDataType::Bcat),
        (3, SaveDataType::Device),
        (4, SaveDataType::Temporary),
        (5, SaveDataType::Cache),
        (6, SaveDataType::SystemBcat),
    ] {
        enc[0x20] = code;
        let back = SaveDataAttribute::decode(&enc).unwrap();
        assert!(back.save_type == ty);
    }
    enc[0x20] = 7;
    assert_eq!(
        SaveDataAttribute::decode(&enc).unwrap_err(),
        SaveError::InvalidEnumValue
    );
    enc[0x20] = 0;
    enc[0x21] = 2;
    assert_eq!(
        SaveDataAttribute::decode(&enc).unwrap_err(),
        SaveError::InvalidEnumValue
    );
}

#[test]
fn attribute_truncated() {
    let enc = SaveDataAttribute::new_system(HexU64::new(1)).encode();
    assert_eq!(
        SaveDataAttribute::decode(&enc[..0x3f]).unwrap_err(),
        SaveError::TruncatedInput
    );
    assert_eq!(SaveDataAttribute::decode(&[]).unwrap_err(), SaveError::TruncatedInput);
    // Trailing extra bytes are ignored.
    let mut long = enc.clone();
    long.push(0xff);
    assert!(SaveDataAttribute::decode(&long).is_ok());
}

#[test]
fn attribute_padding_read_write_asymmetry() {
    // Adversarial non-zero padding survives decoding untouched...
    let mut enc = SaveDataAttribute::new_system(HexU64::new(9)).encode();
    enc[0x24] = 0xff;
    enc[0x28] = 0xee;
    let back = SaveDataAttribute::decode(&enc).unwrap();
    assert_eq!(back.padding, 0xff);
    assert_eq!(back.unk[0], 0xee);
    // ...but is normalized to zero on the next encode: the round trip
    // is not byte-identical for such inputs, by design.
    let re = back.encode();
    assert_ne!(re, enc);
    assert!(re[0x24..0x40].iter().all(|&b| b == 0));
}

#[test]
fn value_record_round_trip() {
    let v = WhateverTheValueIs {
        saveid: HexU64::new(0x8000000000000120),
        save_size: 0xc0000,
        unknown: [0; 0x30],
    };
    let enc = v.encode();
    assert_eq!(enc.len(), 0x40);
    assert_eq!(&enc[0..8], &[0x20, 0x01, 0, 0, 0, 0, 0, 0x80]);
    assert_eq!(&enc[8..16], &[0, 0, 0x0c, 0, 0, 0, 0, 0]);
    assert!(enc[0x10..0x40].iter().all(|&b| b == 0));
    let back = WhateverTheValueIs::decode(&enc).unwrap();
    assert_eq!(back.saveid.0, v.saveid.0);
    assert_eq!(back.save_size, v.save_size);
    assert_eq!(back.unknown, [0; 0x30]);
}

#[test]
fn value_record_reserved_asymmetry() {
    let v = WhateverTheValueIs {
        saveid: HexU64::new(1),
        save_size: 2,
        unknown: [0xaa; 0x30],
    };
    // The in-memory reserved tail is ignored on encode...
    let enc = v.encode();
    assert!(enc[0x10..0x40].iter().all(|&b| b == 0));
    // ...while a non-zero tail read from disk is preserved in memory.
    let mut dirty = enc.clone();
    dirty[0x10] = 0x55;
    let back = WhateverTheValueIs::decode(&dirty).unwrap();
    assert_eq!(back.unknown[0], 0x55);
}

#[test]
fn value_record_truncated() {
    assert_eq!(
        WhateverTheValueIs::decode(&[0u8; 0x3f]).unwrap_err(),
        SaveError::TruncatedInput
    );
}

#[test]
fn creation_info_decode() {
    let mut b = vec![0u8; 0x40];
    b[0] = 0x40; // size
    b[8] = 0x10; // journal size
    b[16] = 0x20; // available size
    b[24..32].copy_from_slice(&0x8000000000000001u64.to_le_bytes());
    b[0x20] = 0x02; // flags
    b[0x24] = 0x01; // space id
    b[0x25] = 0x7f;
    let info = SaveDataCreationInfo::decode(&b).unwrap();
    assert_eq!(info.size.0, 0x40);
    assert_eq!(info.journal_size.0, 0x10);
    assert_eq!(info.avail_size.0, 0x20);
    assert_eq!(info.owner_id.0, 0x8000000000000001);
    assert_eq!(info.flags, 2);
    assert_eq!(info.space_id, 1);
    assert_eq!(info.unk, 0x7f);
    assert_eq!(info.uninit, [0; 0x1a]);
    assert_eq!(
        SaveDataCreationInfo::decode(&b[..0x20]).unwrap_err(),
        SaveError::TruncatedInput
    );
}
