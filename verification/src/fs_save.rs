//! The fixed-width records that make up the save index's keys and
//! values: the 64-bit identifier with its canonical hex text form, the
//! save attribute used as a key, the save value record, and the
//! read-only creation-info record.
//!
//! All multi-byte integers are little-endian. Decoding fails with
//! `TruncatedInput` when fewer bytes remain than the fixed width
//! requires and never fails on trailing extra bytes; encoding always
//! writes reserved and padding fields as zero, whatever was read.

use crate::bytes::{append_u16_le, append_u32_le, append_u64_le, append_zeros, hex_char_str, spec_hex_digit};
use crate::SaveError;
use vstd::bytes::{spec_u16_from_le_bytes, spec_u32_from_le_bytes, spec_u64_from_le_bytes, spec_u16_to_le_bytes, spec_u32_to_le_bytes, spec_u64_to_le_bytes, lemma_auto_spec_u16_to_from_le_bytes, lemma_auto_spec_u32_to_from_le_bytes, lemma_auto_spec_u64_to_from_le_bytes};
use vstd::arithmetic::power::pow;
use vstd::prelude::*;

verus! {

/// The identifier of the save-index container itself, which must never
/// be treated as an indexable save.
pub const FS_INDEX_SAVEID: u64 = 0x8000000000000000;

/// A 64-bit identifier. Its canonical text form is exactly sixteen
/// lowercase hexadecimal digits, zero-padded, with no prefix.
#[derive(Clone, Copy, Debug, PartialEq, Eq, Structural)]
pub struct HexU64(pub u64);

pub type ProgramId = HexU64;

/// The nibble of `v` rendered at position `i` (0 is the most
/// significant) of the sixteen-digit text form.
pub open spec fn spec_nibble(v: u64, i: int) -> int {
    ((v >> (((15 - i) * 4) as u64)) & 0xf) as int
}

/// The canonical text form: sixteen lowercase hex digits.
pub open spec fn spec_hex16(v: u64) -> Seq<char> {
    Seq::new(16, |i: int| spec_hex_digit(spec_nibble(v, i)))
}

impl HexU64 {
    pub fn new(val: u64) -> (r: Self)
        ensures
            r.0 == val,
    {
        Self(val)
    }

    /// Render the identifier in its canonical text form.
    pub fn to_hex_string(&self) -> (s: String)
        ensures
            s@ == spec_hex16(self.0),
            s@.len() == 16,
    {
        let v = self.0;
        let mut s = String::new();
        for i in 0..16usize
            invariant
                s@ == spec_hex16(v).take(i as int),
        {
            let sh: u64 = (60 - 4 * i) as u64;
            let d: u8 = ((v >> sh) & 0xf) as u8;
            proof {
                assert((v >> sh) & 0xf < 16) by (bit_vector);
                assert(sh == ((15 - i as int) * 4) as u64);
                assert(d as int == spec_nibble(v, i as int));
            }
            s.append(hex_char_str(d));
            proof {
                assert(spec_hex16(v).take(i + 1) =~= spec_hex16(v).take(i as int).push(
                    spec_hex_digit(d as int),
                ));
            }
        }
        proof {
            assert(spec_hex16(v).take(16) =~= spec_hex16(v));
        }
        s
    }
}

impl From<u64> for HexU64 {
    fn from(value: u64) -> (r: Self) {
        Self(value)
    }
}

impl vstd::std_specs::convert::FromSpecImpl<u64> for HexU64 {
    open spec fn obeys_from_spec() -> bool {
        true
    }

    open spec fn from_spec(v: u64) -> Self {
        HexU64(v)
    }
}

/// The kind of save a `SaveDataAttribute` describes. On disk it is a
/// single byte holding the variant's position, `System` being 0.
#[derive(Clone, Copy, Debug, PartialEq, Eq, Structural)]
pub enum SaveDataType {
    System,
    Account,
    Bcat,
    Device,
    Temporary,
    Cache,
    SystemBcat,
}

/// The rank byte of a `SaveDataAttribute`; `Primary` is 0.
#[derive(Clone, Copy, Debug, PartialEq, Eq, Structural)]
pub enum SaveDataRank {
    Primary,
    Secondary,
}

pub open spec fn spec_save_type_code(t: SaveDataType) -> u8 {
    match t {
        SaveDataType::System => 0,
        SaveDataType::Account => 1,
        SaveDataType::Bcat => 2,
        SaveDataType::Device => 3,
        SaveDataType::Temporary => 4,
        SaveDataType::Cache => 5,
        SaveDataType::SystemBcat => 6,
    }
}

pub open spec fn spec_save_type_from(c: u8) -> Option<SaveDataType> {
    if c == 0 {
        Some(SaveDataType::System)
    } else if c == 1 {
        Some(SaveDataType::Account)
    } else if c == 2 {
        Some(SaveDataType::Bcat)
    } else if c == 3 {
        Some(SaveDataType::Device)
    } else if c == 4 {
        Some(SaveDataType::Temporary)
    } else if c == 5 {
        Some(SaveDataType::Cache)
    } else if c == 6 {
        Some(SaveDataType::SystemBcat)
    } else {
        None
    }
}

pub open spec fn spec_rank_code(r: SaveDataRank) -> u8 {
    match r {
        SaveDataRank::Primary => 0,
        SaveDataRank::Secondary => 1,
    }
}

pub open spec fn spec_rank_from(c: u8) -> Option<SaveDataRank> {
    if c == 0 {
        Some(SaveDataRank::Primary)
    } else if c == 1 {
        Some(SaveDataRank::Secondary)
    } else {
        None
    }
}

fn save_type_code(t: SaveDataType) -> (r: u8)
    ensures
        r == spec_save_type_code(t),
{
    match t {
        SaveDataType::System => 0,
        SaveDataType::Account => 1,
        SaveDataType::Bcat => 2,
        SaveDataType::Device => 3,
        SaveDataType::Temporary => 4,
        SaveDataType::Cache => 5,
        SaveDataType::SystemBcat => 6,
    }
}

fn save_type_from(c: u8) -> (r: Option<SaveDataType>)
    ensures
        r == spec_save_type_from(c),
{
    match c {
        0 => Some(SaveDataType::System),
        1 => Some(SaveDataType::Account),
        2 => Some(SaveDataType::Bcat),
        3 => Some(SaveDataType::Device),
        4 => Some(SaveDataType::Temporary),
        5 => Some(SaveDataType::Cache),
        6 => Some(SaveDataType::SystemBcat),
        _ => None,
    }
}

fn rank_code(r: SaveDataRank) -> (c: u8)
    ensures
        c == spec_rank_code(r),
{
    match r {
        SaveDataRank::Primary => 0,
        SaveDataRank::Secondary => 1,
    }
}

fn rank_from(c: u8) -> (r: Option<SaveDataRank>)
    ensures
        r == spec_rank_from(c),
{
    match c {
        0 => Some(SaveDataRank::Primary),
        1 => Some(SaveDataRank::Secondary),
        _ => None,
    }
}

/// The key record of a save-index entry: 0x40 bytes, every unused
/// field zero-filled on encode.
#[derive(Clone, Copy, Debug, PartialEq)]
pub struct SaveDataAttribute {
    pub appid: ProgramId,
    pub userid: [u64; 2],
    pub system_save_data_id: ProgramId,
    pub save_type: SaveDataType,
    pub rank: SaveDataRank,
    pub index: u16,
    pub padding: u32,
    pub unk: [u64; 3],
}

/// The mathematical content of a `SaveDataAttribute`, field for field.
pub struct AttrModel {
    pub appid: u64,
    pub userid0: u64,
    pub userid1: u64,
    pub system_save_data_id: u64,
    pub save_type: SaveDataType,
    pub rank: SaveDataRank,
    pub index: u16,
    pub padding: u32,
    pub unk0: u64,
    pub unk1: u64,
    pub unk2: u64,
}

impl AttrModel {
    /// The same record with its padding and reserved words forced to
    /// zero, as the encoder always writes them.
    pub open spec fn zero_reserved(self) -> AttrModel {
        AttrModel { padding: 0, unk0: 0, unk1: 0, unk2: 0, ..self }
    }
}

impl SaveDataAttribute {
    pub open spec fn model(&self) -> AttrModel {
        AttrModel {
            appid: self.appid.0,
            userid0: self.userid@[0],
            userid1: self.userid@[1],
            system_save_data_id: self.system_save_data_id.0,
            save_type: self.save_type,
            rank: self.rank,
            index: self.index,
            padding: self.padding,
            unk0: self.unk@[0],
            unk1: self.unk@[1],
            unk2: self.unk@[2],
        }
    }
}

/// The canonical system-save attribute: only the system-save
/// identifier varies, every other field is zero (`System`, `Primary`).
pub open spec fn spec_system_attr(id: u64) -> AttrModel {
    AttrModel {
        appid: 0,
        userid0: 0,
        userid1: 0,
        system_save_data_id: id,
        save_type: SaveDataType::System,
        rank: SaveDataRank::Primary,
        index: 0,
        padding: 0,
        unk0: 0,
        unk1: 0,
        unk2: 0,
    }
}

/// The 0x40-byte wire form of an attribute record.
pub open spec fn spec_enc_attr(m: AttrModel) -> Seq<u8> {
    spec_u64_to_le_bytes(m.appid) + spec_u64_to_le_bytes(m.userid0) + spec_u64_to_le_bytes(m.userid1)
        + spec_u64_to_le_bytes(m.system_save_data_id) + seq![
        spec_save_type_code(m.save_type),
        spec_rank_code(m.rank),
    ] + spec_u16_to_le_bytes(m.index) + spec_u32_to_le_bytes(m.padding) + spec_u64_to_le_bytes(
        m.unk0,
    ) + spec_u64_to_le_bytes(m.unk1) + spec_u64_to_le_bytes(m.unk2)
}

/// What decoding an attribute record yields: `TruncatedInput` under
/// 0x40 bytes, `InvalidEnumValue` on an out-of-range type or rank
/// byte, otherwise the record read field for field. Trailing bytes are
/// ignored.
pub open spec fn spec_parse_attr(b: Seq<u8>) -> Result<AttrModel, SaveError> {
    if b.len() < 0x40 {
        Err(SaveError::TruncatedInput)
    } else {
        match (spec_save_type_from(b[0x20]), spec_rank_from(b[0x21])) {
            (Some(st), Some(rk)) => Ok(
                AttrModel {
                    appid: spec_u64_from_le_bytes(b.subrange(0, 8)),
                    userid0: spec_u64_from_le_bytes(b.subrange(8, 16)),
                    userid1: spec_u64_from_le_bytes(b.subrange(16, 24)),
                    system_save_data_id: spec_u64_from_le_bytes(b.subrange(24, 32)),
                    save_type: st,
                    rank: rk,
                    index: spec_u16_from_le_bytes(b.subrange(0x22, 0x24)),
                    padding: spec_u32_from_le_bytes(b.subrange(0x24, 0x28)),
                    unk0: spec_u64_from_le_bytes(b.subrange(0x28, 0x30)),
                    unk1: spec_u64_from_le_bytes(b.subrange(0x30, 0x38)),
                    unk2: spec_u64_from_le_bytes(b.subrange(0x38, 0x40)),
                },
            ),
            _ => Err(SaveError::InvalidEnumValue),
        }
    }
}

impl SaveDataAttribute {
    /// Build the canonical system-save attribute for one identifier.
    pub fn new_system(system_save_data_id: HexU64) -> (r: Self)
        ensures
            r.model() == spec_system_attr(system_save_data_id.0),
    {
        Self {
            appid: HexU64(0),
            userid: [0u64, 0u64],
            system_save_data_id,
            save_type: SaveDataType::System,
            rank: SaveDataRank::Primary,
            index: 0,
            padding: 0,
            unk: [0u64, 0u64, 0u64],
        }
    }

    /// Encode the record; padding and reserved words are written as
    /// zero whatever the in-memory fields hold.
    pub fn encode(&self) -> (r: Vec<u8>)
        ensures
            r@ == spec_enc_attr(self.model().zero_reserved()),
            r@.len() == 0x40,
    {
        proof {
            lemma_auto_spec_u16_to_from_le_bytes();
            lemma_auto_spec_u32_to_from_le_bytes();
            lemma_auto_spec_u64_to_from_le_bytes();
        }
        let mut out: Vec<u8> = Vec::new();
        append_u64_le(&mut out, self.appid.0);
        append_u64_le(&mut out, self.userid[0]);
        append_u64_le(&mut out, self.userid[1]);
        append_u64_le(&mut out, self.system_save_data_id.0);
        out.push(save_type_code(self.save_type));
        out.push(rank_code(self.rank));
        append_u16_le(&mut out, self.index);
        append_u32_le(&mut out, 0);
        append_u64_le(&mut out, 0);
        append_u64_le(&mut out, 0);
        append_u64_le(&mut out, 0);
        proof {
            assert(out@ =~= spec_enc_attr(self.model().zero_reserved()));
        }
        out
    }

    /// Decode the 0x40-byte prefix of `b` as an attribute record.
    pub fn decode(b: &[u8]) -> (r: Result<Self, SaveError>)
        ensures
            match r {
                Ok(a) => spec_parse_attr(b@) == Ok::<AttrModel, SaveError>(a.model()),
                Err(e) => spec_parse_attr(b@) == Err::<AttrModel, SaveError>(e),
            },
    {
        if b.len() < 0x40 {
            return Err(SaveError::TruncatedInput);
        }
        let appid = crate::bytes::read_u64_le(b, 0);
        let userid0 = crate::bytes::read_u64_le(b, 8);
        let userid1 = crate::bytes::read_u64_le(b, 16);
        let ssid = crate::bytes::read_u64_le(b, 24);
        let st = match save_type_from(*vstd::slice::slice_index_get(b, 0x20)) {
            Some(t) => t,
            None => {
                return Err(SaveError::InvalidEnumValue);
            },
        };
        let rk = match rank_from(*vstd::slice::slice_index_get(b, 0x21)) {
            Some(t) => t,
            None => {
                return Err(SaveError::InvalidEnumValue);
            },
        };
        let index = crate::bytes::read_u16_le(b, 0x22);
        let padding = crate::bytes::read_u32_le(b, 0x24);
        let unk0 = crate::bytes::read_u64_le(b, 0x28);
        let unk1 = crate::bytes::read_u64_le(b, 0x30);
        let unk2 = crate::bytes::read_u64_le(b, 0x38);
        Ok(
            Self {
                appid: HexU64(appid),
                userid: [userid0, userid1],
                system_save_data_id: HexU64(ssid),
                save_type: st,
                rank: rk,
                index,
                padding,
                unk: [unk0, unk1, unk2],
            },
        )
    }
}

/// Round trip at the record level: any attribute record survives an
/// encode followed by a decode, field for field. (The executable
/// encoder zeroes padding and reserved words first; a record that
/// already has them zero therefore round-trips byte-identically.)
pub proof fn lemma_attr_round_trip(m: AttrModel)
    ensures
        spec_parse_attr(spec_enc_attr(m)) == Ok::<AttrModel, SaveError>(m),
{
    lemma_auto_spec_u16_to_from_le_bytes();
    lemma_auto_spec_u32_to_from_le_bytes();
    lemma_auto_spec_u64_to_from_le_bytes();
    let b = spec_enc_attr(m);
    assert(b.len() == 0x40);
    assert(b[0x20] == spec_save_type_code(m.save_type));
    assert(b[0x21] == spec_rank_code(m.rank));
    assert(spec_save_type_from(spec_save_type_code(m.save_type)) == Some(m.save_type));
    assert(spec_rank_from(spec_rank_code(m.rank)) == Some(m.rank));
    assert(b.subrange(0, 8) =~= spec_u64_to_le_bytes(m.appid));
    assert(b.subrange(8, 16) =~= spec_u64_to_le_bytes(m.userid0));
    assert(b.subrange(16, 24) =~= spec_u64_to_le_bytes(m.userid1));
    assert(b.subrange(24, 32) =~= spec_u64_to_le_bytes(m.system_save_data_id));
    assert(b.subrange(0x22, 0x24) =~= spec_u16_to_le_bytes(m.index));
    assert(b.subrange(0x24, 0x28) =~= spec_u32_to_le_bytes(m.padding));
    assert(b.subrange(0x28, 0x30) =~= spec_u64_to_le_bytes(m.unk0));
    assert(b.subrange(0x30, 0x38) =~= spec_u64_to_le_bytes(m.unk1));
    assert(b.subrange(0x38, 0x40) =~= spec_u64_to_le_bytes(m.unk2));
}

/// The canonical system-save attribute decodes back to exactly
/// `{appid: 0, userid: [0, 0], systemSaveId: x, saveType: System,
/// rank: Primary, index: 0, padding: 0, reserved: [0, 0, 0]}` for any
/// identifier `x`.
pub proof fn lemma_system_attr_round_trip(x: u64)
    ensures
        spec_parse_attr(spec_enc_attr(spec_system_attr(x))) == Ok::<AttrModel, SaveError>(
            spec_system_attr(x),
        ),
        spec_system_attr(x).zero_reserved() == spec_system_attr(x),
{
    lemma_attr_round_trip(spec_system_attr(x));
}

/// The value record of a save-index entry: 0x40 bytes, the trailing
/// 0x30 reserved bytes zero-filled on encode.
#[derive(Clone, Copy, Debug, PartialEq)]
pub struct WhateverTheValueIs {
    pub saveid: ProgramId,
    pub save_size: u64,
    pub unknown: [u8; 0x30],
}

/// The mathematical content of a `WhateverTheValueIs` record.
pub struct ValueModel {
    pub saveid: u64,
    pub save_size: u64,
    pub unknown: Seq<u8>,
}

impl ValueModel {
    /// The record with its reserved tail forced to zero, as the
    /// encoder always writes it.
    pub open spec fn zero_reserved(self) -> ValueModel {
        ValueModel { unknown: Seq::new(0x30, |i: int| 0u8), ..self }
    }
}

impl WhateverTheValueIs {
    pub open spec fn model(&self) -> ValueModel {
        ValueModel { saveid: self.saveid.0, save_size: self.save_size, unknown: self.unknown@ }
    }
}

/// The 0x40-byte wire form of a value record.
pub open spec fn spec_enc_value(m: ValueModel) -> Seq<u8> {
    spec_u64_to_le_bytes(m.saveid) + spec_u64_to_le_bytes(m.save_size) + m.unknown
}

/// What decoding a value record yields: `TruncatedInput` under 0x40
/// bytes, otherwise the record read field for field, the reserved tail
/// kept as read. Trailing bytes are ignored.
pub open spec fn spec_parse_value(b: Seq<u8>) -> Result<ValueModel, SaveError> {
    if b.len() < 0x40 {
        Err(SaveError::TruncatedInput)
    } else {
        Ok(
            ValueModel {
                saveid: spec_u64_from_le_bytes(b.subrange(0, 8)),
                save_size: spec_u64_from_le_bytes(b.subrange(8, 16)),
                unknown: b.subrange(0x10, 0x40),
            },
        )
    }
}

impl WhateverTheValueIs {
    /// Encode the record; the reserved tail is written as zero
    /// whatever the in-memory field holds.
    pub fn encode(&self) -> (r: Vec<u8>)
        ensures
            r@ == spec_enc_value(self.model().zero_reserved()),
            r@.len() == 0x40,
    {
        proof {
            lemma_auto_spec_u64_to_from_le_bytes();
        }
        let mut out: Vec<u8> = Vec::new();
        append_u64_le(&mut out, self.saveid.0);
        append_u64_le(&mut out, self.save_size);
        append_zeros(&mut out, 0x30);
        proof {
            assert(out@ =~= spec_enc_value(self.model().zero_reserved()));
        }
        out
    }

    /// Decode the 0x40-byte prefix of `b` as a value record.
    pub fn decode(b: &[u8]) -> (r: Result<Self, SaveError>)
        ensures
            match r {
                Ok(v) => spec_parse_value(b@) == Ok::<ValueModel, SaveError>(v.model()),
                Err(e) => spec_parse_value(b@) == Err::<ValueModel, SaveError>(e),
            },
    {
        if b.len() < 0x40 {
            return Err(SaveError::TruncatedInput);
        }
        let saveid = crate::bytes::read_u64_le(b, 0);
        let save_size = crate::bytes::read_u64_le(b, 8);
        let mut unknown: [u8; 0x30] = [0u8; 0x30];
        for i in 0..0x30usize
            invariant
                b@.len() >= 0x40,
                forall|j: int| 0 <= j < i ==> unknown@[j] == b@[0x10 + j],
        {
            unknown[i] = *vstd::slice::slice_index_get(b, 0x10 + i);
        }
        proof {
            assert(unknown@ =~= b@.subrange(0x10, 0x40));
        }
        Ok(Self { saveid: HexU64(saveid), save_size, unknown })
    }
}

/// Round trip at the record level for the value record.
pub proof fn lemma_value_round_trip(m: ValueModel)
    requires
        m.unknown.len() == 0x30,
    ensures
        spec_parse_value(spec_enc_value(m)) == Ok::<ValueModel, SaveError>(m),
{
    lemma_auto_spec_u64_to_from_le_bytes();
    let b = spec_enc_value(m);
    assert(b.len() == 0x40);
    assert(b.subrange(0, 8) =~= spec_u64_to_le_bytes(m.saveid));
    assert(b.subrange(8, 16) =~= spec_u64_to_le_bytes(m.save_size));
    assert(b.subrange(0x10, 0x40) =~= m.unknown);
}

/// The creation-info record: parsed for inspection, never built or
/// encoded by this library.
#[derive(Clone, Copy, Debug, PartialEq)]
pub struct SaveDataCreationInfo {
    pub size: HexU64,
    pub journal_size: HexU64,
    pub avail_size: HexU64,
    pub owner_id: ProgramId,
    pub flags: u32,
    pub space_id: u8,
    pub unk: u8,
    pub uninit: [u8; 0x1a],
}

/// The mathematical content of a `SaveDataCreationInfo` record.
pub struct CreationModel {
    pub size: u64,
    pub journal_size: u64,
    pub avail_size: u64,
    pub owner_id: u64,
    pub flags: u32,
    pub space_id: u8,
    pub unk: u8,
    pub uninit: Seq<u8>,
}

impl SaveDataCreationInfo {
    pub open spec fn model(&self) -> CreationModel {
        CreationModel {
            size: self.size.0,
            journal_size: self.journal_size.0,
            avail_size: self.avail_size.0,
            owner_id: self.owner_id.0,
            flags: self.flags,
            space_id: self.space_id,
            unk: self.unk,
            uninit: self.uninit@,
        }
    }
}

/// What decoding a creation-info record yields: `TruncatedInput` under
/// 0x40 bytes, otherwise the record read field for field.
pub open spec fn spec_parse_creation(b: Seq<u8>) -> Result<CreationModel, SaveError> {
    if b.len() < 0x40 {
        Err(SaveError::TruncatedInput)
    } else {
        Ok(
            CreationModel {
                size: spec_u64_from_le_bytes(b.subrange(0, 8)),
                journal_size: spec_u64_from_le_bytes(b.subrange(8, 16)),
                avail_size: spec_u64_from_le_bytes(b.subrange(16, 24)),
                owner_id: spec_u64_from_le_bytes(b.subrange(24, 32)),
                flags: spec_u32_from_le_bytes(b.subrange(0x20, 0x24)),
                space_id: b[0x24],
                unk: b[0x25],
                uninit: b.subrange(0x26, 0x40),
            },
        )
    }
}

impl SaveDataCreationInfo {
    /// Decode the 0x40-byte prefix of `b` as a creation-info record.
    pub fn decode(b: &[u8]) -> (r: Result<Self, SaveError>)
        ensures
            match r {
                Ok(c) => spec_parse_creation(b@) == Ok::<CreationModel, SaveError>(c.model()),
                Err(e) => spec_parse_creation(b@) == Err::<CreationModel, SaveError>(e),
            },
    {
        if b.len() < 0x40 {
            return Err(SaveError::TruncatedInput);
        }
        let size = crate::bytes::read_u64_le(b, 0);
        let journal_size = crate::bytes::read_u64_le(b, 8);
        let avail_size = crate::bytes::read_u64_le(b, 16);
        let owner_id = crate::bytes::read_u64_le(b, 24);
        let flags = crate::bytes::read_u32_le(b, 0x20);
        let space_id = *vstd::slice::slice_index_get(b, 0x24);
        let unk = *vstd::slice::slice_index_get(b, 0x25);
        let mut uninit: [u8; 0x1a] = [0u8; 0x1a];
        for i in 0..0x1ausize
            invariant
                b@.len() >= 0x40,
                forall|j: int| 0 <= j < i ==> uninit@[j] == b@[0x26 + j],
        {
            uninit[i] = *vstd::slice::slice_index_get(b, 0x26 + i);
        }
        proof {
            assert(uninit@ =~= b@.subrange(0x26, 0x40));
        }
        Ok(
            Self {
                size: HexU64(size),
                journal_size: HexU64(journal_size),
                avail_size: HexU64(avail_size),
                owner_id: HexU64(owner_id),
                flags,
                space_id,
                unk,
                uninit,
            },
        )
    }
}

/// The numeric value of one hex digit character, lowercase or
/// uppercase; 16 marks a character that is no hex digit.
pub open spec fn spec_hex_digit_val(c: char) -> int {
    let x = c as int;
    if 0x30 <= x <= 0x39 {
        x - 0x30
    } else if 0x61 <= x <= 0x66 {
        x - 0x57
    } else if 0x41 <= x <= 0x46 {
        x - 0x37
    } else {
        16
    }
}

pub open spec fn spec_is_hex_digit(c: char) -> bool {
    spec_hex_digit_val(c) < 16
}

/// A digit of the canonical identifier text form: `0`-`9` or
/// lowercase `a`-`f`.
pub open spec fn spec_is_lower_hex(c: char) -> bool {
    let x = c as int;
    (0x30 <= x <= 0x39) || (0x61 <= x <= 0x66)
}

/// The value of a string of hex digits, most significant first.
pub open spec fn spec_hex_val(s: Seq<char>) -> int
    decreases s.len(),
{
    if s.len() == 0 {
        0
    } else {
        spec_hex_val(s.drop_last()) * 16 + spec_hex_digit_val(s.last())
    }
}

fn hex_digit_val(c: char) -> (r: u8)
    ensures
        r as int == spec_hex_digit_val(c),
{
    let x: u32 = c as u32;
    if 0x30 <= x && x <= 0x39 {
        (x - 0x30) as u8
    } else if 0x61 <= x && x <= 0x66 {
        (x - 0x57) as u8
    } else if 0x41 <= x && x <= 0x46 {
        (x - 0x37) as u8
    } else {
        16
    }
}

/// Read `count` hex digits of `s` starting at `start` as a number.
/// `None` exactly when some character in that range is no hex digit
/// (with `lower_only`, no lowercase hex digit).
fn hex_digits_val(s: &str, start: usize, count: usize, lower_only: bool) -> (r: Option<u64>)
    requires
        start + count <= s@.len(),
        start + count <= usize::MAX,
        1 <= count <= 16,
    ensures
        ({
            let t = s@.subrange(start as int, start + count);
            let ok = forall|i: int|
                0 <= i < t.len() ==> (if lower_only {
                    spec_is_lower_hex(#[trigger] t[i])
                } else {
                    spec_is_hex_digit(t[i])
                });
            match r {
                Some(v) => ok && v as int == spec_hex_val(t),
                None => !ok,
            }
        }),
{
    let ghost t = s@.subrange(start as int, start as int + count);
    let mut v: u64 = 0;
    proof {
        reveal(pow);
        assert(t.subrange(0, 0) =~= Seq::<char>::empty());
    }
    for i in 0..count
        invariant
            start + count <= s@.len(),
            start + count <= usize::MAX,
            1 <= count <= 16,
            t == s@.subrange(start as int, start as int + count),
            forall|j: int|
                0 <= j < i ==> (if lower_only {
                    spec_is_lower_hex(#[trigger] t[j])
                } else {
                    spec_is_hex_digit(t[j])
                }),
            v as int == spec_hex_val(t.subrange(0, i as int)),
            (v as int) < pow(16, i as nat),
    {
        let c: char = s.get_char(start + i);
        proof {
            assert(t[i as int] == s@[start + i]);
        }
        let ok = if lower_only {
            let x: u32 = c as u32;
            (0x30 <= x && x <= 0x39) || (0x61 <= x && x <= 0x66)
        } else {
            hex_digit_val(c) < 16
        };
        if !ok {
            proof {
                if lower_only {
                    assert(!spec_is_lower_hex(t[i as int]));
                } else {
                    assert(!spec_is_hex_digit(t[i as int]));
                }
            }
            return None;
        }
        let d: u8 = hex_digit_val(c);
        proof {
            reveal(pow);
            vstd::arithmetic::power::lemma_pow_increases(16, i as nat, 15);
            assert(pow(16, 15) == 0x1000000000000000) by {
                reveal_with_fuel(pow, 16);
            };
            assert(pow(16, (i + 1) as nat) == 16 * pow(16, i as nat));
            assert(t.subrange(0, i + 1).drop_last() =~= t.subrange(0, i as int));
            assert(t.subrange(0, i + 1).last() == t[i as int]);
        }
        v = v * 16 + (d as u64);
    }
    proof {
        assert(t.subrange(0, count as int) =~= t);
    }
    Some(v)
}

/// Parse a user-supplied identifier: an optional `0x` prefix, then
/// one to sixteen hex digits of either case. `None` exactly when the
/// digits are missing, too many, or not hex.
pub fn parse_hex_u64(s: &str) -> (r: Option<u64>)
    ensures
        ({
            let t = spec_hex_part(s@);
            let ok = 1 <= t.len() <= 16 && forall|i: int|
                0 <= i < t.len() ==> spec_is_hex_digit(#[trigger] t[i]);
            match r {
                Some(v) => ok && v as int == spec_hex_val(t),
                None => !ok,
            }
        }),
{
    let n: usize = s.unicode_len();
    let has_prefix: bool = n >= 2 && s.get_char(0) == '0' && s.get_char(1) == 'x';
    proof {
        reveal_strlit("0");
        reveal_strlit("x");
    }
    let start: usize = if has_prefix {
        2
    } else {
        0
    };
    proof {
        assert(spec_hex_part(s@) =~= s@.subrange(start as int, n as int));
    }
    if n - start < 1 || n - start > 16 {
        return None;
    }
    hex_digits_val(s, start, n - start, false)
}

/// The digits of an identifier string: what follows the optional
/// `0x` prefix.
pub open spec fn spec_hex_part(s: Seq<char>) -> Seq<char> {
    if s.len() >= 2 && s[0] == '0' && s[1] == 'x' {
        s.skip(2)
    } else {
        s
    }
}

/// Whether a 16-digit lowercase hex filename names an indexable save:
/// parsed per the canonical identifier text form, not the reserved
/// index identifier, and with `8` as its leading nibble. Filenames
/// are the only identifier source here, so this is the single place
/// to replace by real header parsing later.
pub fn candidate_save_id(name: &str) -> (r: Option<u64>)
    ensures
        ({
            let ok = name@.len() == 16 && forall|i: int|
                0 <= i < name@.len() ==> spec_is_lower_hex(#[trigger] name@[i]);
            let x = spec_hex_val(name@);
            match r {
                Some(v) => ok && v as int == x && v != FS_INDEX_SAVEID && (v >> 60) == 8,
                None => !ok || x == FS_INDEX_SAVEID as int || ((x as u64) >> 60) != 8,
            }
        }),
{
    let n: usize = name.unicode_len();
    if n != 16 {
        return None;
    }
    let v: u64 = match hex_digits_val(name, 0, 16, true) {
        Some(v) => v,
        None => {
            return None;
        },
    };
    proof {
        assert(name@.subrange(0, 16) =~= name@);
    }
    if v == FS_INDEX_SAVEID {
        return None;
    }
    if (v >> 60) != 8 {
        return None;
    }
    Some(v)
}

} // verus!
