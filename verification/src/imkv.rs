//! The IMKV key-value container: an ordered sequence of entries, each
//! an arbitrary byte key and byte value, with explicit length and
//! count fields that must equal the sequences they describe at all
//! times.
//!
//! On disk a container is the 4-byte magic `IMKV`, a reserved 32-bit
//! zero word, a 32-bit entry count, then that many entries; an entry
//! is the 4-byte magic `IMEN`, a 32-bit key length, a 32-bit value
//! length, then the key bytes and the value bytes. All integers are
//! little-endian.

use crate::bytes::{append_bytes, append_u32_le, bytes_eq, hex_trim_u32, read_u32_le, spec_hex_bytes, spec_hex_trim, to_hex};
use crate::fs_save::{spec_enc_attr, spec_enc_value, spec_system_attr, HexU64, SaveDataAttribute, ValueModel, WhateverTheValueIs};
use crate::SaveError;
use vstd::bytes::{lemma_auto_spec_u32_to_from_le_bytes, spec_u32_from_le_bytes, spec_u32_to_le_bytes};
use vstd::prelude::*;
use vstd::string::StringExecFns;

verus! {

/// The 4-byte magic opening an entry record: ASCII `IMEN`.
pub open spec fn spec_entry_magic() -> Seq<u8> {
    seq![0x49u8, 0x4du8, 0x45u8, 0x4eu8]
}

/// The 4-byte magic opening a container: ASCII `IMKV`.
pub open spec fn spec_container_magic() -> Seq<u8> {
    seq![0x49u8, 0x4du8, 0x4bu8, 0x56u8]
}

/// One key-value entry. The stored length fields always equal the
/// length of the owned buffers; every constructor and mutator
/// maintains this.
#[derive(Debug, Clone)]
pub struct Imen {
    key_len: u32,
    value_len: u32,
    key: Vec<u8>,
    value: Vec<u8>,
}

impl Imen {
    pub closed spec fn spec_key(&self) -> Seq<u8> {
        self.key@
    }

    pub closed spec fn spec_value(&self) -> Seq<u8> {
        self.value@
    }

    pub closed spec fn spec_key_len(&self) -> u32 {
        self.key_len
    }

    pub closed spec fn spec_value_len(&self) -> u32 {
        self.value_len
    }

    /// The key buffer as a value, for speaking about closures handed
    /// to `map_key`.
    pub closed spec fn key_vec(&self) -> Vec<u8> {
        self.key
    }

    /// The value buffer as a value, for speaking about closures
    /// handed to `map_value`.
    pub closed spec fn value_vec(&self) -> Vec<u8> {
        self.value
    }

    /// The length fields equal the buffers they describe.
    pub open spec fn wf(&self) -> bool {
        self.spec_key_len() == self.spec_key().len() && self.spec_value_len()
            == self.spec_value().len()
    }

    /// The entry as the pair of its key and value byte sequences.
    pub open spec fn kv(&self) -> (Seq<u8>, Seq<u8>) {
        (self.spec_key(), self.spec_value())
    }
}

/// The key/value pairs of a sequence of entries, in order.
pub open spec fn spec_kv_of(es: Seq<Imen>) -> Seq<(Seq<u8>, Seq<u8>)> {
    es.map_values(|e: Imen| e.kv())
}

/// Every key and value in the sequence fits its 32-bit length field.
pub open spec fn spec_entries_wf(es: Seq<(Seq<u8>, Seq<u8>)>) -> bool {
    forall|i: int|
        0 <= i < es.len() ==> (#[trigger] es[i]).0.len() <= u32::MAX && es[i].1.len() <= u32::MAX
}

/// The wire form of one entry.
pub open spec fn spec_enc_entry(k: Seq<u8>, v: Seq<u8>) -> Seq<u8> {
    spec_entry_magic() + spec_u32_to_le_bytes(k.len() as u32) + spec_u32_to_le_bytes(
        v.len() as u32,
    ) + k + v
}

/// The wire form of a sequence of entries, in order.
pub open spec fn spec_enc_entries(es: Seq<(Seq<u8>, Seq<u8>)>) -> Seq<u8>
    decreases es.len(),
{
    if es.len() == 0 {
        Seq::empty()
    } else {
        spec_enc_entry(es[0].0, es[0].1) + spec_enc_entries(es.skip(1))
    }
}

/// The wire form of a whole container: magic, reserved zero word,
/// entry count, entries.
pub open spec fn spec_enc_imkv(es: Seq<(Seq<u8>, Seq<u8>)>) -> Seq<u8> {
    spec_container_magic() + spec_u32_to_le_bytes(0u32) + spec_u32_to_le_bytes(es.len() as u32)
        + spec_enc_entries(es)
}

/// What decoding one entry from the front of `b` yields: the key and
/// value byte sequences and the number of bytes consumed, or the
/// first structural failure. `TruncatedInput` when the magic, the
/// length fields or the declared bytes do not fit in `b`; `BadMagic`
/// when the first four bytes are not `IMEN`.
pub open spec fn spec_parse_entry(b: Seq<u8>) -> Result<(Seq<u8>, Seq<u8>, int), SaveError> {
    if b.len() < 4 {
        Err(SaveError::TruncatedInput)
    } else if b.subrange(0, 4) != spec_entry_magic() {
        Err(SaveError::BadMagic)
    } else if b.len() < 12 {
        Err(SaveError::TruncatedInput)
    } else {
        let kl = spec_u32_from_le_bytes(b.subrange(4, 8)) as int;
        let vl = spec_u32_from_le_bytes(b.subrange(8, 12)) as int;
        if b.len() < 12 + kl + vl {
            Err(SaveError::TruncatedInput)
        } else {
            Ok((b.subrange(12, 12 + kl), b.subrange(12 + kl, 12 + kl + vl), 12 + kl + vl))
        }
    }
}

/// What decoding `n` consecutive entries from the front of `b`
/// yields: the entries in order and the total bytes consumed, or the
/// first failure.
pub open spec fn spec_parse_entries(b: Seq<u8>, n: nat) -> Result<
    (Seq<(Seq<u8>, Seq<u8>)>, int),
    SaveError,
>
    decreases n,
{
    if n == 0 {
        Ok((Seq::empty(), 0))
    } else {
        match spec_parse_entry(b) {
            Err(e) => Err(e),
            Ok((k, v, used)) => match spec_parse_entries(b.skip(used), (n - 1) as nat) {
                Err(e) => Err(e),
                Ok((rest, used2)) => Ok((seq![(k, v)] + rest, used + used2)),
            },
        }
    }
}

/// What decoding a container yields: its entries in on-disk order, or
/// the first structural failure. The reserved word is read and not
/// validated; trailing bytes after the declared entries are ignored.
pub open spec fn spec_parse_imkv(b: Seq<u8>) -> Result<Seq<(Seq<u8>, Seq<u8>)>, SaveError> {
    if b.len() < 4 {
        Err(SaveError::TruncatedInput)
    } else if b.subrange(0, 4) != spec_container_magic() {
        Err(SaveError::BadMagic)
    } else if b.len() < 12 {
        Err(SaveError::TruncatedInput)
    } else {
        let n = spec_u32_from_le_bytes(b.subrange(8, 12));
        match spec_parse_entries(b.skip(12), n as nat) {
            Ok((es, used)) => Ok(es),
            Err(e) => Err(e),
        }
    }
}

impl Imen {
    /// Build an entry owning the given key and value buffers.
    /// `LengthOverflow` exactly when either buffer is longer than a
    /// 32-bit length field can state.
    pub fn from_kv(key: Vec<u8>, value: Vec<u8>) -> (r: Result<Self, SaveError>)
        ensures
            match r {
                Ok(e) => e.wf() && e.spec_key() == key@ && e.spec_value() == value@ && key@.len()
                    <= u32::MAX && value@.len() <= u32::MAX,
                Err(err) => err == SaveError::LengthOverflow && (key@.len() > u32::MAX
                    || value@.len() > u32::MAX),
            },
    {
        if key.len() > u32::MAX as usize {
            return Err(SaveError::LengthOverflow);
        }
        if value.len() > u32::MAX as usize {
            return Err(SaveError::LengthOverflow);
        }
        Ok(
            Self {
                key_len: key.len() as u32,
                value_len: value.len() as u32,
                key,
                value,
            },
        )
    }

    pub fn key(&self) -> (r: &Vec<u8>)
        ensures
            r@ == self.spec_key(),
    {
        &self.key
    }

    pub fn value(&self) -> (r: &Vec<u8>)
        ensures
            r@ == self.spec_value(),
    {
        &self.value
    }

    /// Replace the key with the closure's image of it, keeping the
    /// stored length in step. The closure must keep the buffer within
    /// the 32-bit range.
    pub fn map_key<F: FnOnce(Vec<u8>) -> Vec<u8>>(&mut self, f: F) -> (n: u32)
        requires
            old(self).wf(),
            call_requires(f, (old(self).key_vec(),)),
            forall|out: Vec<u8>| #[trigger]
                call_ensures(f, (old(self).key_vec(),), out) ==> out@.len() <= u32::MAX,
        ensures
            call_ensures(f, (old(self).key_vec(),), final(self).key_vec()),
            final(self).wf(),
            n == final(self).spec_key_len(),
            final(self).spec_value() == old(self).spec_value(),
            final(self).spec_value_len() == old(self).spec_value_len(),
    {
        let mut k: Vec<u8> = Vec::new();
        core::mem::swap(&mut self.key, &mut k);
        let k2 = f(k);
        proof {
            assert(call_ensures(f, (old(self).key_vec(),), k2));
            assert(k2@.len() <= u32::MAX);
        }
        let n2: u32 = k2.len() as u32;
        self.key = k2;
        self.key_len = n2;
        n2
    }

    /// Replace the value with the closure's image of it, keeping the
    /// stored length in step. The closure must keep the buffer within
    /// the 32-bit range.
    pub fn map_value<F: FnOnce(Vec<u8>) -> Vec<u8>>(&mut self, f: F) -> (n: u32)
        requires
            old(self).wf(),
            call_requires(f, (old(self).value_vec(),)),
            forall|out: Vec<u8>| #[trigger]
                call_ensures(f, (old(self).value_vec(),), out) ==> out@.len() <= u32::MAX,
        ensures
            call_ensures(f, (old(self).value_vec(),), final(self).value_vec()),
            final(self).wf(),
            n == final(self).spec_value_len(),
            final(self).spec_key() == old(self).spec_key(),
            final(self).spec_key_len() == old(self).spec_key_len(),
    {
        let mut v: Vec<u8> = Vec::new();
        core::mem::swap(&mut self.value, &mut v);
        let v2 = f(v);
        proof {
            assert(call_ensures(f, (old(self).value_vec(),), v2));
            assert(v2@.len() <= u32::MAX);
        }
        let n2: u32 = v2.len() as u32;
        self.value = v2;
        self.value_len = n2;
        n2
    }

    /// Encode the entry in its wire form.
    pub fn encode(&self) -> (r: Vec<u8>)
        requires
            self.wf(),
        ensures
            r@ == spec_enc_entry(self.spec_key(), self.spec_value()),
    {
        let mut out: Vec<u8> = Vec::new();
        out.push(0x49);
        out.push(0x4d);
        out.push(0x45);
        out.push(0x4e);
        append_u32_le(&mut out, self.key_len);
        append_u32_le(&mut out, self.value_len);
        append_bytes(&mut out, self.key.as_slice());
        append_bytes(&mut out, self.value.as_slice());
        proof {
            assert(out@ =~= spec_enc_entry(self.spec_key(), self.spec_value()));
        }
        out
    }

    /// Decode one entry from the front of `b`; trailing bytes are
    /// ignored.
    pub fn decode(b: &[u8]) -> (r: Result<Self, SaveError>)
        ensures
            ({
                let p = spec_parse_entry(b@);
                match r {
                    Ok(e) => e.wf() && (p matches Ok(t) && t.0 == e.spec_key() && t.1
                        == e.spec_value()),
                    Err(err) => p == Err::<(Seq<u8>, Seq<u8>, int), SaveError>(err),
                }
            }),
    {
        match decode_entry_at(b, 0) {
            Ok((e, _end)) => {
                proof {
                    assert(b@.skip(0) =~= b@);
                }
                Ok(e)
            },
            Err(err) => {
                proof {
                    assert(b@.skip(0) =~= b@);
                }
                Err(err)
            },
        }
    }

    /// Human-readable description of the entry: its magic name, the
    /// two length fields in hex, and both buffers as lowercase hex.
    pub fn render(&self) -> (s: String)
        ensures
            s@ == spec_render_entry(
                self.spec_key(),
                self.spec_value(),
                self.spec_key_len(),
                self.spec_value_len(),
            ),
    {
        let mut s = String::from_str("IMEN\n  Key (0x");
        s.append(hex_trim_u32(self.key_len).as_str());
        s.append("):\t");
        s.append(to_hex(self.key.as_slice()).as_str());
        s.append("\n  Value (0x");
        s.append(hex_trim_u32(self.value_len).as_str());
        s.append("):\t");
        s.append(to_hex(self.value.as_slice()).as_str());
        s
    }
}

/// The text form `render` produces for an entry.
pub open spec fn spec_render_entry(k: Seq<u8>, v: Seq<u8>, kl: u32, vl: u32) -> Seq<char> {
    "IMEN\n  Key (0x"@ + spec_hex_trim(kl as nat) + "):\t"@ + spec_hex_bytes(k)
        + "\n  Value (0x"@ + spec_hex_trim(vl as nat) + "):\t"@ + spec_hex_bytes(v)
}

/// Decode one entry starting at `off`, returning the entry and the
/// offset just past it.
fn decode_entry_at(b: &[u8], off: usize) -> (r: Result<(Imen, usize), SaveError>)
    requires
        off <= b@.len(),
    ensures
        match r {
            Ok(p) => p.0.wf() && off <= p.1 <= b@.len() && spec_parse_entry(b@.skip(off as int))
                == Ok::<(Seq<u8>, Seq<u8>, int), SaveError>(
                (p.0.spec_key(), p.0.spec_value(), p.1 - off),
            ),
            Err(err) => spec_parse_entry(b@.skip(off as int)) == Err::<
                (Seq<u8>, Seq<u8>, int),
                SaveError,
            >(err),
        },
{
    let n: usize = b.len();
    let ghost t = b@.skip(off as int);
    if n - off < 4 {
        return Err(SaveError::TruncatedInput);
    }
    let m0: u8 = *vstd::slice::slice_index_get(b, off);
    let m1: u8 = *vstd::slice::slice_index_get(b, off + 1);
    let m2: u8 = *vstd::slice::slice_index_get(b, off + 2);
    let m3: u8 = *vstd::slice::slice_index_get(b, off + 3);
    proof {
        assert(t.subrange(0, 4) =~= seq![
            b@[off as int],
            b@[off + 1],
            b@[off + 2],
            b@[off + 3],
        ]);
    }
    if !(m0 == 0x49 && m1 == 0x4d && m2 == 0x45 && m3 == 0x4e) {
        proof {
            assert(t.subrange(0, 4) != spec_entry_magic());
        }
        return Err(SaveError::BadMagic);
    }
    proof {
        assert(t.subrange(0, 4) == spec_entry_magic());
    }
    if n - off < 12 {
        return Err(SaveError::TruncatedInput);
    }
    let kl32: u32 = read_u32_le(b, off + 4);
    let vl32: u32 = read_u32_le(b, off + 8);
    proof {
        assert(t.subrange(4, 8) =~= b@.subrange(off + 4, off + 8));
        assert(t.subrange(8, 12) =~= b@.subrange(off + 8, off + 12));
    }
    let kl: usize = kl32 as usize;
    let vl: usize = vl32 as usize;
    if kl > n - off - 12 {
        return Err(SaveError::TruncatedInput);
    }
    if vl > n - off - 12 - kl {
        return Err(SaveError::TruncatedInput);
    }
    let key: Vec<u8> = vstd::slice::slice_to_vec(
        vstd::slice::slice_subrange(b, off + 12, off + 12 + kl),
    );
    let value: Vec<u8> = vstd::slice::slice_to_vec(
        vstd::slice::slice_subrange(b, off + 12 + kl, off + 12 + kl + vl),
    );
    proof {
        assert(t.subrange(12, 12 + kl as int) =~= b@.subrange(off + 12, off + 12 + kl));
        assert(t.subrange(12 + kl as int, 12 + kl + vl) =~= b@.subrange(
            off + 12 + kl,
            off + 12 + kl + vl,
        ));
    }
    Ok((Imen { key_len: kl32, value_len: vl32, key, value }, off + 12 + kl + vl))
}

/// The IMKV container: an ordered sequence of entries and an explicit
/// count that always equals the sequence's length.
#[derive(Debug, Clone)]
pub struct Imkv {
    entry_cnt: u32,
    entries: Vec<Imen>,
}

impl Imkv {
    pub closed spec fn spec_imens(&self) -> Seq<Imen> {
        self.entries@
    }

    pub closed spec fn spec_count(&self) -> u32 {
        self.entry_cnt
    }

    /// The entry list as a value, for speaking about closures handed
    /// to `map_entries`.
    pub closed spec fn imens_vec(&self) -> Vec<Imen> {
        self.entries
    }

    /// The container's mathematical content: its entries as pairs of
    /// key and value byte sequences, in insertion order.
    pub open spec fn spec_entries(&self) -> Seq<(Seq<u8>, Seq<u8>)> {
        spec_kv_of(self.spec_imens())
    }

    /// The stored count equals the number of entries and every entry
    /// keeps its own length fields in step.
    pub open spec fn wf(&self) -> bool {
        self.spec_count() == self.spec_imens().len() && forall|i: int|
            0 <= i < self.spec_imens().len() ==> (#[trigger] self.spec_imens()[i]).wf()
    }

    /// An empty container.
    pub fn new() -> (r: Self)
        ensures
            r.wf(),
            r.spec_entries().len() == 0,
            r.spec_count() == 0,
    {
        Self { entry_cnt: 0, entries: Vec::new() }
    }

    /// Append one entry built from the given key and value buffers,
    /// keeping the stored count equal to the number of entries.
    /// `LengthOverflow` exactly when a buffer or the new count does
    /// not fit its 32-bit field; the container is unchanged then.
    pub fn insert(&mut self, key: Vec<u8>, value: Vec<u8>) -> (r: Result<(), SaveError>)
        requires
            old(self).wf(),
        ensures
            match r {
                Ok(u) => {
                    &&& final(self).wf()
                    &&& final(self).spec_entries() == old(self).spec_entries().push((key@, value@))
                    &&& final(self).spec_count() == final(self).spec_entries().len()
                    &&& key@.len() <= u32::MAX
                    &&& value@.len() <= u32::MAX
                    &&& old(self).spec_entries().len() < u32::MAX
                },
                Err(e) => {
                    &&& *final(self) == *old(self)
                    &&& e == SaveError::LengthOverflow
                    &&& (key@.len() > u32::MAX || value@.len() > u32::MAX || old(self).spec_entries().len() >= u32::MAX)
                },
            },
    {
        match Imen::from_kv(key, value) {
            Err(e) => Err(e),
            Ok(en) => {
                if self.entry_cnt == u32::MAX {
                    return Err(SaveError::LengthOverflow);
                }
                self.entries.push(en);
                self.entry_cnt = self.entry_cnt + 1;
                proof {
                    assert(final(self).spec_entries() =~= old(self).spec_entries().push(
                        (key@, value@),
                    ));
                }
                Ok(())
            },
        }
    }

    pub fn entries(&self) -> (r: &Vec<Imen>)
        ensures
            r@ == self.spec_imens(),
    {
        &self.entries
    }

    /// Replace the entry list with the closure's image of it and
    /// reset the stored count to the new length. The closure must
    /// return a list whose length fits the count field and whose
    /// entries are well-formed.
    pub fn map_entries<F: FnOnce(Vec<Imen>) -> Vec<Imen>>(&mut self, f: F) -> (n: u32)
        requires
            call_requires(f, (old(self).imens_vec(),)),
            forall|out: Vec<Imen>| #[trigger]
                call_ensures(f, (old(self).imens_vec(),), out) ==> out@.len() <= u32::MAX && forall|
                    i: int,
                |
                    0 <= i < out@.len() ==> (#[trigger] out@[i]).wf(),
        ensures
            call_ensures(f, (old(self).imens_vec(),), final(self).imens_vec()),
            final(self).wf(),
            n == final(self).spec_count(),
            final(self).spec_count() == final(self).spec_entries().len(),
    {
        let mut es: Vec<Imen> = Vec::new();
        core::mem::swap(&mut self.entries, &mut es);
        let es2 = f(es);
        let n2: u32 = es2.len() as u32;
        self.entries = es2;
        self.entry_cnt = n2;
        n2
    }

    /// Byte-exact scan for an entry whose key equals `key`. This is
    /// the duplicate-detection mechanism: equality is over the full
    /// encoded key, not any semantic field.
    pub fn contains_key(&self, key: &[u8]) -> (r: bool)
        ensures
            r == exists|i: int|
                0 <= i < self.spec_entries().len() && (#[trigger] self.spec_entries()[i]).0
                    == key@,
    {
        let n: usize = self.entries.len();
        for i in 0..n
            invariant
                n == self.spec_imens().len(),
                forall|j: int| 0 <= j < i ==> (#[trigger] self.spec_entries()[j]).0 != key@,
        {
            if bytes_eq(self.entries[i].key.as_slice(), key) {
                proof {
                    assert(0 <= i < self.spec_entries().len() && self.spec_entries()[i as int].0
                        == key@);
                }
                return true;
            }
        }
        false
    }

    /// Encode the container in its wire form; the reserved word is
    /// written as zero and the count field as the number of entries.
    pub fn encode(&self) -> (r: Vec<u8>)
        requires
            self.wf(),
        ensures
            r@ == spec_enc_imkv(self.spec_entries()),
    {
        let ghost es = self.spec_entries();
        let mut out: Vec<u8> = Vec::new();
        out.push(0x49);
        out.push(0x4d);
        out.push(0x4b);
        out.push(0x56);
        append_u32_le(&mut out, 0);
        append_u32_le(&mut out, self.entry_cnt);
        let n: usize = self.entries.len();
        proof {
            assert(out@ =~= spec_container_magic() + spec_u32_to_le_bytes(0u32)
                + spec_u32_to_le_bytes(es.len() as u32) + spec_enc_entries(es.take(0)));
        }
        for i in 0..n
            invariant
                self.wf(),
                es == self.spec_entries(),
                n == self.spec_imens().len(),
                out@ == spec_container_magic() + spec_u32_to_le_bytes(0u32)
                    + spec_u32_to_le_bytes(es.len() as u32) + spec_enc_entries(es.take(i as int)),
        {
            let e = &self.entries[i];
            let mut enc = e.encode();
            out.append(&mut enc);
            proof {
                lemma_enc_entries_take_step(es, i as int);
                assert(out@ =~= spec_container_magic() + spec_u32_to_le_bytes(0u32)
                    + spec_u32_to_le_bytes(es.len() as u32) + spec_enc_entries(
                    es.take(i + 1),
                ));
            }
        }
        proof {
            assert(es.take(n as int) =~= es);
        }
        out
    }

    /// Decode a container; trailing bytes after the declared entries
    /// are ignored, and the reserved word is not validated.
    pub fn decode(b: &[u8]) -> (r: Result<Imkv, SaveError>)
        ensures
            match r {
                Ok(c) => c.wf() && spec_parse_imkv(b@) == Ok::<
                    Seq<(Seq<u8>, Seq<u8>)>,
                    SaveError,
                >(c.spec_entries()),
                Err(e) => spec_parse_imkv(b@) == Err::<Seq<(Seq<u8>, Seq<u8>)>, SaveError>(e),
            },
    {
        let n: usize = b.len();
        if n < 4 {
            return Err(SaveError::TruncatedInput);
        }
        let m0: u8 = *vstd::slice::slice_index_get(b, 0);
        let m1: u8 = *vstd::slice::slice_index_get(b, 1);
        let m2: u8 = *vstd::slice::slice_index_get(b, 2);
        let m3: u8 = *vstd::slice::slice_index_get(b, 3);
        proof {
            assert(b@.subrange(0, 4) =~= seq![b@[0], b@[1], b@[2], b@[3]]);
        }
        if !(m0 == 0x49 && m1 == 0x4d && m2 == 0x4b && m3 == 0x56) {
            proof {
                assert(b@.subrange(0, 4) != spec_container_magic());
            }
            return Err(SaveError::BadMagic);
        }
        proof {
            assert(b@.subrange(0, 4) == spec_container_magic());
        }
        if n < 12 {
            return Err(SaveError::TruncatedInput);
        }
        let cnt32: u32 = read_u32_le(b, 8);
        let cnt: usize = cnt32 as usize;
        let ghost tail = b@.skip(12);
        let mut entries: Vec<Imen> = Vec::new();
        let mut off: usize = 12;
        proof {
            assert(spec_kv_of(entries@) =~= Seq::<(Seq<u8>, Seq<u8>)>::empty());
        }
        for i in 0..cnt
            invariant
                n == b@.len(),
                n >= 12,
                tail == b@.skip(12),
                b@.subrange(0, 4) == spec_container_magic(),
                spec_u32_from_le_bytes(b@.subrange(8, 12)) == cnt32,
                cnt32 as nat == cnt as nat,
                12 <= off <= n,
                entries@.len() == i,
                forall|j: int| 0 <= j < i ==> (#[trigger] entries@[j]).wf(),
                spec_parse_entries(tail, i as nat) == Ok::<(Seq<(Seq<u8>, Seq<u8>)>, int), SaveError>(
                    (spec_kv_of(entries@), off - 12),
                ),
        {
            let ghost u = off - 12;
            match decode_entry_at(b, off) {
                Err(e) => {
                    proof {
                        assert(b@.skip(off as int) =~= tail.skip(u));
                        lemma_parse_entries_split(tail, i as nat, (cnt - i) as nat);
                        assert(i as nat + (cnt - i) as nat == cnt as nat);
                        assert(spec_parse_entries(tail.skip(u), (cnt - i) as nat) == Err::<
                            (Seq<(Seq<u8>, Seq<u8>)>, int),
                            SaveError,
                        >(e));
                        assert(spec_parse_entries(tail, cnt as nat) == Err::<
                            (Seq<(Seq<u8>, Seq<u8>)>, int),
                            SaveError,
                        >(e));
                        assert(cnt32 as nat == cnt as nat);
                        assert(spec_parse_imkv(b@) == Err::<Seq<(Seq<u8>, Seq<u8>)>, SaveError>(
                            e,
                        ));
                    }
                    return Err(e);
                },
                Ok((en, end)) => {
                    let ghost prev = entries@;
                    proof {
                        assert(b@.skip(off as int) =~= tail.skip(u));
                        lemma_parse_entries_split(tail, i as nat, 1);
                        assert(spec_parse_entry(tail.skip(u)) == Ok::<
                            (Seq<u8>, Seq<u8>, int),
                            SaveError,
                        >((en.spec_key(), en.spec_value(), end - off)));
                        assert(seq![en.kv()] + Seq::<(Seq<u8>, Seq<u8>)>::empty() =~= seq![
                            en.kv(),
                        ]);
                        assert(spec_parse_entries(tail.skip(u).skip(end - off), 0) == Ok::<
                            (Seq<(Seq<u8>, Seq<u8>)>, int),
                            SaveError,
                        >((Seq::empty(), 0)));
                        assert(spec_parse_entries(tail.skip(u), 1) == Ok::<
                            (Seq<(Seq<u8>, Seq<u8>)>, int),
                            SaveError,
                        >((seq![en.kv()], end - off)));
                        assert(spec_parse_entries(tail, (i + 1) as nat) == Ok::<
                            (Seq<(Seq<u8>, Seq<u8>)>, int),
                            SaveError,
                        >((spec_kv_of(prev) + seq![en.kv()], end - 12)));
                    }
                    entries.push(en);
                    off = end;
                    proof {
                        assert(entries@ == prev.push(en));
                        assert(spec_kv_of(entries@) =~= spec_kv_of(prev) + seq![en.kv()]);
                        assert(spec_parse_entries(tail, (i + 1) as nat) == Ok::<
                            (Seq<(Seq<u8>, Seq<u8>)>, int),
                            SaveError,
                        >((spec_kv_of(entries@), off - 12)));
                    }
                },
            }
        }
        let c = Imkv { entry_cnt: cnt32, entries };
        proof {
            assert(cnt32 as nat == cnt as nat);
            assert(c.spec_entries() =~= spec_kv_of(entries@));
            assert(spec_parse_imkv(b@) == Ok::<Seq<(Seq<u8>, Seq<u8>)>, SaveError>(
                c.spec_entries(),
            ));
        }
        Ok(c)
    }
}

/// A successful run of `n` entry parses consumes between 0 and all of
/// `b` and yields exactly `n` entries.
proof fn lemma_parse_entries_bounds(b: Seq<u8>, n: nat)
    ensures
        spec_parse_entries(b, n) matches Ok(p) ==> 0 <= p.1 <= b.len() && p.0.len() == n,
    decreases n,
{
    if n != 0 {
        match spec_parse_entry(b) {
            Err(_) => {},
            Ok((k, v, used)) => {
                lemma_parse_entries_bounds(b.skip(used), (n - 1) as nat);
            },
        }
    }
}

/// Splitting a run of `i + j` entry parses at `i`: the whole run
/// succeeds exactly when the first `i` succeed and the next `j`
/// succeed on the remaining bytes, concatenating their results.
proof fn lemma_parse_entries_split(b: Seq<u8>, i: nat, j: nat)
    ensures
        spec_parse_entries(b, i + j) == (match spec_parse_entries(b, i) {
            Err(e) => Err::<(Seq<(Seq<u8>, Seq<u8>)>, int), SaveError>(e),
            Ok((es1, u1)) => match spec_parse_entries(b.skip(u1), j) {
                Err(e) => Err::<(Seq<(Seq<u8>, Seq<u8>)>, int), SaveError>(e),
                Ok((es2, u2)) => Ok((es1 + es2, u1 + u2)),
            },
        }),
    decreases i,
{
    if i == 0 {
        assert(b.skip(0) =~= b);
        match spec_parse_entries(b, j) {
            Ok((es2, u2)) => {
                assert(Seq::<(Seq<u8>, Seq<u8>)>::empty() + es2 =~= es2);
            },
            Err(_) => {},
        }
    } else {
        match spec_parse_entry(b) {
            Err(e) => {},
            Ok((k, v, used)) => {
                lemma_parse_entries_split(b.skip(used), (i - 1) as nat, j);
                lemma_parse_entries_bounds(b.skip(used), (i - 1) as nat);
                match spec_parse_entries(b.skip(used), (i - 1) as nat) {
                    Err(_) => {},
                    Ok((es1t, u1t)) => {
                        assert(b.skip(used).skip(u1t) =~= b.skip(used + u1t));
                        match spec_parse_entries(b.skip(used + u1t), j) {
                            Err(_) => {},
                            Ok((es2, u2)) => {
                                assert(seq![(k, v)] + (es1t + es2) =~= (seq![(k, v)] + es1t)
                                    + es2);
                            },
                        }
                    },
                }
            },
        }
    }
}

/// Extending an encoded prefix by one entry appends that entry's
/// encoding.
proof fn lemma_enc_entries_take_step(es: Seq<(Seq<u8>, Seq<u8>)>, i: int)
    requires
        0 <= i < es.len(),
    ensures
        spec_enc_entries(es.take(i + 1)) == spec_enc_entries(es.take(i)) + spec_enc_entry(
            es[i].0,
            es[i].1,
        ),
    decreases i,
{
    if i == 0 {
        let one = es.take(1);
        assert(one.skip(1) =~= Seq::<(Seq<u8>, Seq<u8>)>::empty());
        assert(spec_enc_entries(one) == spec_enc_entry(es[0].0, es[0].1) + spec_enc_entries(
            one.skip(1),
        ));
        assert(spec_enc_entry(es[0].0, es[0].1) + Seq::<u8>::empty() =~= spec_enc_entry(
            es[0].0,
            es[0].1,
        ));
        assert(es.take(0) =~= Seq::<(Seq<u8>, Seq<u8>)>::empty());
        assert(spec_enc_entries(es.take(0)) + spec_enc_entry(es[0].0, es[0].1) =~= spec_enc_entry(
            es[0].0,
            es[0].1,
        ));
    } else {
        let t = es.skip(1);
        lemma_enc_entries_take_step(t, i - 1);
        assert(es.take(i + 1).skip(1) =~= t.take(i));
        assert(es.take(i).skip(1) =~= t.take(i - 1));
        assert(es.take(i + 1)[0] == es[0]);
        assert(es.take(i)[0] == es[0]);
        assert(t[i - 1] == es[i]);
        assert(spec_enc_entries(es.take(i + 1)) == spec_enc_entry(es[0].0, es[0].1)
            + spec_enc_entries(t.take(i)));
        assert(spec_enc_entries(es.take(i)) == spec_enc_entry(es[0].0, es[0].1)
            + spec_enc_entries(t.take(i - 1)));
        assert(spec_enc_entry(es[0].0, es[0].1) + (spec_enc_entries(t.take(i - 1))
            + spec_enc_entry(es[i].0, es[i].1)) =~= (spec_enc_entry(es[0].0, es[0].1)
            + spec_enc_entries(t.take(i - 1))) + spec_enc_entry(es[i].0, es[i].1));
    }
}

/// Round trip at the entry level: decoding an encoded entry, for any
/// key and value that fit their 32-bit length fields, yields the same
/// key and value and consumes the whole encoding.
pub proof fn lemma_entry_round_trip(k: Seq<u8>, v: Seq<u8>)
    requires
        k.len() <= u32::MAX,
        v.len() <= u32::MAX,
    ensures
        spec_parse_entry(spec_enc_entry(k, v)) == Ok::<(Seq<u8>, Seq<u8>, int), SaveError>(
            (k, v, 12 + k.len() as int + v.len() as int),
        ),
{
    lemma_parse_entry_enc(k, v, Seq::empty());
    assert(spec_enc_entry(k, v) + Seq::<u8>::empty() =~= spec_enc_entry(k, v));
}

/// Decoding an encoded entry from the front of a longer stream yields
/// the entry and consumes exactly its encoding.
proof fn lemma_parse_entry_enc(k: Seq<u8>, v: Seq<u8>, rest: Seq<u8>)
    requires
        k.len() <= u32::MAX,
        v.len() <= u32::MAX,
    ensures
        spec_parse_entry(spec_enc_entry(k, v) + rest) == Ok::<(Seq<u8>, Seq<u8>, int), SaveError>(
            (k, v, 12 + k.len() as int + v.len() as int),
        ),
{
    lemma_auto_spec_u32_to_from_le_bytes();
    let b = spec_enc_entry(k, v) + rest;
    assert(b.subrange(0, 4) =~= spec_entry_magic());
    assert(b.subrange(4, 8) =~= spec_u32_to_le_bytes(k.len() as u32));
    assert(b.subrange(8, 12) =~= spec_u32_to_le_bytes(v.len() as u32));
    assert(b.subrange(12, 12 + k.len() as int) =~= k);
    assert(b.subrange(12 + k.len() as int, 12 + k.len() + v.len() as int) =~= v);
}

/// Decoding an encoded run of entries yields the same entries and
/// consumes the whole encoding.
proof fn lemma_parse_entries_enc(es: Seq<(Seq<u8>, Seq<u8>)>, rest: Seq<u8>)
    requires
        spec_entries_wf(es),
    ensures
        spec_parse_entries(spec_enc_entries(es) + rest, es.len()) == Ok::<
            (Seq<(Seq<u8>, Seq<u8>)>, int),
            SaveError,
        >((es, spec_enc_entries(es).len() as int)),
    decreases es.len(),
{
    lemma_auto_spec_u32_to_from_le_bytes();
    if es.len() == 0 {
        assert(es =~= Seq::<(Seq<u8>, Seq<u8>)>::empty());
    } else {
        let k = es[0].0;
        let v = es[0].1;
        let t = es.skip(1);
        let whole = spec_enc_entries(es) + rest;
        assert(whole =~= spec_enc_entry(k, v) + (spec_enc_entries(t) + rest));
        lemma_parse_entry_enc(k, v, spec_enc_entries(t) + rest);
        let used = 12 + k.len() as int + v.len() as int;
        assert(spec_enc_entry(k, v).len() == used);
        assert(whole.skip(used as int) =~= spec_enc_entries(t) + rest);
        assert(spec_entries_wf(t));
        lemma_parse_entries_enc(t, rest);
        assert(seq![(k, v)] + t =~= es);
    }
}

/// Round trip at the container level: decoding an encoded container,
/// for any entry sequence whose count and lengths fit their 32-bit
/// fields, yields the same entries; and the encoded count field (the
/// four bytes after the magic and the reserved word) always equals
/// the entry sequence's length.
pub proof fn lemma_container_round_trip(es: Seq<(Seq<u8>, Seq<u8>)>)
    requires
        spec_entries_wf(es),
        es.len() <= u32::MAX,
    ensures
        spec_parse_imkv(spec_enc_imkv(es)) == Ok::<Seq<(Seq<u8>, Seq<u8>)>, SaveError>(es),
        spec_enc_imkv(es).subrange(8, 12) == spec_u32_to_le_bytes(es.len() as u32),
{
    lemma_auto_spec_u32_to_from_le_bytes();
    let b = spec_enc_imkv(es);
    assert(b.subrange(0, 4) =~= spec_container_magic());
    assert(b.subrange(8, 12) =~= spec_u32_to_le_bytes(es.len() as u32));
    assert(b.skip(12) =~= spec_enc_entries(es) + Seq::<u8>::empty());
    lemma_parse_entries_enc(es, Seq::empty());
}

/// Round trip for any well-formed container value: decoding what
/// `encode` produces yields exactly the container's entries, and the
/// encoded count field equals the stored entry count, which equals
/// the entry sequence's length.
pub proof fn lemma_container_codec_round_trip(c: &Imkv)
    requires
        c.wf(),
    ensures
        spec_parse_imkv(spec_enc_imkv(c.spec_entries())) == Ok::<Seq<(Seq<u8>, Seq<u8>)>, SaveError>(
            c.spec_entries(),
        ),
        spec_enc_imkv(c.spec_entries()).subrange(8, 12) == spec_u32_to_le_bytes(c.spec_count()),
        c.spec_count() == c.spec_entries().len(),
{
    assert forall|i: int| 0 <= i < c.spec_entries().len() implies (#[trigger] c.spec_entries()[i]).0.len()
        <= u32::MAX && c.spec_entries()[i].1.len() <= u32::MAX by {
        assert(c.spec_entries()[i] == c.spec_imens()[i].kv());
        assert(c.spec_imens()[i].wf());
    }
    lemma_container_round_trip(c.spec_entries());
}

/// Register one discovered save in the index: build the canonical
/// system-save key and the value record for `saveid` and `save_size`,
/// skip the insertion when an entry with the byte-identical encoded
/// key is already present (`Ok(false)`), append it otherwise
/// (`Ok(true)`). The entry count tracks the entry sequence either
/// way.
pub fn register_save(imkv: &mut Imkv, saveid: u64, save_size: u64) -> (r: Result<bool, SaveError>)
    requires
        old(imkv).wf(),
    ensures
        ({
            let key = spec_enc_attr(spec_system_attr(saveid));
            let value = spec_enc_value(
                ValueModel { saveid, save_size, unknown: Seq::new(0x30, |i: int| 0u8) },
            );
            let dup = exists|i: int|
                0 <= i < old(imkv).spec_entries().len() && (#[trigger] old(imkv).spec_entries()[i]).0 == key;
            match r {
                Ok(inserted) => final(imkv).wf() && final(imkv).spec_count() == final(imkv).spec_entries().len() && (if inserted {
                    !dup && final(imkv).spec_entries() == old(imkv).spec_entries().push(
                        (key, value),
                    )
                } else {
                    dup && *final(imkv) == *old(imkv)
                }),
                Err(e) => e == SaveError::LengthOverflow && !dup && old(imkv).spec_entries().len() >= u32::MAX && *final(imkv) == *old(imkv),
            }
        }),
{
    let key = SaveDataAttribute::new_system(HexU64::new(saveid)).encode();
    let value = WhateverTheValueIs {
        saveid: HexU64::new(saveid),
        save_size,
        unknown: [0u8; 0x30],
    }.encode();
    if imkv.contains_key(key.as_slice()) {
        return Ok(false);
    }
    match imkv.insert(key, value) {
        Ok(u) => Ok(true),
        Err(e) => Err(e),
    }
}

} // verus!
