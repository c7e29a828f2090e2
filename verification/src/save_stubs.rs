//! The template patcher: turn a compressed, identifier-agnostic save
//! template into a save stub addressed to one identifier.
//!
//! Patching writes the identifier's eight little-endian bytes into
//! the two extra-data regions that mirror it (absolute offsets 0x6f0
//! and 0x8f0), then recomputes the inner integrity digest: the
//! SHA-256 of bytes [0x300, 0x4000) of the patched buffer, stored in
//! the 32-byte header slot at [0x108, 0x128). The outer integrity
//! field is deliberately left stale; the external repacking tool
//! recomputes it.

use crate::SaveError;
use vstd::bytes::{lemma_auto_spec_u64_to_from_le_bytes, spec_u64_to_le_bytes};
use vstd::prelude::*;

verus! {

/// The SHA-256 digest of a byte sequence, as a function of the bytes
/// alone.
pub uninterp spec fn spec_sha256(data: Seq<u8>) -> Seq<u8>;

/// What an lz4 frame stream decompresses to, as a function of the
/// compressed bytes alone; `None` when the stream is not a valid
/// frame.
pub uninterp spec fn spec_lz4_frame(src: Seq<u8>) -> Option<Seq<u8>>;

/// Relies on sha2::Sha256::digest: a 32-byte digest that depends on
/// the hashed bytes alone.
#[verifier::external_body]
fn sha256_span(data: &Vec<u8>, start: usize, end: usize) -> (r: Vec<u8>)
    requires
        start <= end <= data@.len(),
    ensures
        r@ == spec_sha256(data@.subrange(start as int, end as int)),
        r@.len() == 32,
{
    <sha2::Sha256 as sha2::digest::Digest>::digest(&data[start..end]).to_vec()
}

/// Relies on lz4_flex::frame::FrameDecoder: decompression of an lz4
/// frame stream, a function of the input bytes alone; any read error
/// means the stream is not a valid frame.
#[verifier::external_body]
fn lz4_decompress(src: &[u8]) -> (r: Option<Vec<u8>>)
    ensures
        match r {
            Some(v) => spec_lz4_frame(src@) == Some(v@),
            None => spec_lz4_frame(src@) == None::<Seq<u8>>,
        },
{
    let mut dec = lz4_flex::frame::FrameDecoder::new(src);
    let mut buf = Vec::new();
    match std::io::Read::read_to_end(&mut dec, &mut buf) {
        Ok(_) => Some(buf),
        Err(_) => None,
    }
}

/// Decompress the template selected by `version`: tags 0 through 4
/// map to the first template, tag 5 to the second, anything else is
/// `UnsupportedVersion`; a template that does not decompress is
/// `CorruptTemplate`.
pub fn get_decompressed(version: u8, v4_lz4: &[u8], v5_lz4: &[u8]) -> (r: Result<
    Vec<u8>,
    SaveError,
>)
    ensures
        match r {
            Ok(buf) => version <= 5 && spec_lz4_frame(
                if version <= 4 {
                    v4_lz4@
                } else {
                    v5_lz4@
                },
            ) == Some(buf@),
            Err(SaveError::UnsupportedVersion) => version > 5,
            Err(SaveError::CorruptTemplate) => version <= 5 && spec_lz4_frame(
                if version <= 4 {
                    v4_lz4@
                } else {
                    v5_lz4@
                },
            ) == None::<Seq<u8>>,
            Err(_) => false,
        },
{
    let src: &[u8] = if version <= 4 {
        v4_lz4
    } else if version == 5 {
        v5_lz4
    } else {
        return Err(SaveError::UnsupportedVersion);
    };
    match lz4_decompress(src) {
        Some(buf) => Ok(buf),
        None => Err(SaveError::CorruptTemplate),
    }
}

/// The buffer after the identifier's little-endian bytes are written
/// at the two mirror offsets.
pub open spec fn spec_id_patched(t: Seq<u8>, id: u64) -> Seq<u8> {
    spec_write_at(spec_write_at(t, 0x6f0, spec_u64_to_le_bytes(id)), 0x8f0, spec_u64_to_le_bytes(id))
}

/// The fully patched buffer: identifiers written, then the inner
/// digest over [0x300, 0x4000) stored at [0x108, 0x128).
pub open spec fn spec_patched(t: Seq<u8>, id: u64) -> Seq<u8> {
    let mid = spec_id_patched(t, id);
    spec_write_at(mid, 0x108, spec_sha256(mid.subrange(0x300, 0x4000)))
}

/// `s` with `d` overwriting its bytes from `pos` on; the length never
/// changes and bytes past the end are dropped.
pub open spec fn spec_write_at(s: Seq<u8>, pos: int, d: Seq<u8>) -> Seq<u8> {
    Seq::new(
        s.len(),
        |i: int|
            if pos <= i < pos + d.len() {
                d[i - pos]
            } else {
                s[i]
            },
    )
}

/// Write all of `d` into `buf` starting at `pos`.
fn write_at(buf: &mut Vec<u8>, pos: usize, d: &Vec<u8>)
    requires
        pos + d@.len() <= old(buf)@.len(),
    ensures
        final(buf)@ == spec_write_at(old(buf)@, pos as int, d@),
{
    let n: usize = d.len();
    let bn: usize = buf.len();
    for i in 0..n
        invariant
            n == d@.len(),
            bn == buf@.len(),
            pos + n <= buf@.len(),
            buf@.len() == old(buf)@.len(),
            forall|j: int|
                0 <= j < buf@.len() ==> buf@[j] == (if pos <= j < pos + i {
                    d@[j - pos]
                } else {
                    old(buf)@[j]
                }),
    {
        buf[pos + i] = d[i];
    }
    proof {
        assert(buf@ =~= spec_write_at(old(buf)@, pos as int, d@));
    }
}

/// A decompressed save template or patched save stub, owned as one
/// byte buffer.
#[derive(Debug, Clone)]
pub struct Savefile(pub Vec<u8>);

impl Savefile {
    /// Decompress the template for `version` and patch it for
    /// `saveid`. Fails with `UnsupportedVersion` for an unknown tag
    /// and with `CorruptTemplate` when the template does not
    /// decompress or is shorter than the patched layout requires; no
    /// buffer is produced then.
    pub fn new(version: u8, v4_lz4: &[u8], v5_lz4: &[u8], saveid: crate::fs_save::HexU64) -> (r:
        Result<Savefile, SaveError>)
        ensures
            ({
                let src = if version <= 4 {
                    v4_lz4@
                } else {
                    v5_lz4@
                };
                match r {
                    Ok(s) => version <= 5 && (spec_lz4_frame(src) matches Some(t) && t.len()
                        >= 0x4000 && s.0@ == spec_patched(t, saveid.0)),
                    Err(SaveError::UnsupportedVersion) => version > 5,
                    Err(SaveError::CorruptTemplate) => version <= 5 && (spec_lz4_frame(src)
                        matches Some(t) ==> t.len() < 0x4000),
                    Err(_) => false,
                }
            }),
    {
        let buf = match get_decompressed(version, v4_lz4, v5_lz4) {
            Ok(buf) => buf,
            Err(e) => {
                return Err(e);
            },
        };
        if buf.len() < 0x4000 {
            return Err(SaveError::CorruptTemplate);
        }
        let mut this = Savefile(buf);
        this.patch_saveid(saveid);
        Ok(this)
    }

    /// Patch the buffer in place for `saveid`: write its eight
    /// little-endian bytes at 0x6f0 and 0x8f0, then store the SHA-256
    /// of the patched bytes [0x300, 0x4000) at [0x108, 0x128).
    pub fn patch_saveid(&mut self, saveid: crate::fs_save::HexU64)
        requires
            old(self).0@.len() >= 0x4000,
        ensures
            final(self).0@ == spec_patched(old(self).0@, saveid.0),
            final(self).0@.len() == old(self).0@.len(),
            final(self).0@.subrange(0x6f0, 0x6f8) == spec_u64_to_le_bytes(saveid.0),
            final(self).0@.subrange(0x8f0, 0x8f8) == spec_u64_to_le_bytes(saveid.0),
            final(self).0@.subrange(0x108, 0x128) == spec_sha256(
                final(self).0@.subrange(0x300, 0x4000),
            ),
    {
        proof {
            lemma_auto_spec_u64_to_from_le_bytes();
        }
        let mut idb: Vec<u8> = vstd::bytes::u64_to_le_bytes(saveid.0);
        write_at(&mut self.0, 0x6f0, &idb);
        write_at(&mut self.0, 0x8f0, &idb);
        proof {
            assert(self.0@ =~= spec_id_patched(old(self).0@, saveid.0));
        }
        let hash = sha256_span(&self.0, 0x300, 0x4000);
        let ghost mid = self.0@;
        write_at(&mut self.0, 0x108, &hash);
        proof {
            assert(self.0@ =~= spec_patched(old(self).0@, saveid.0));
            assert(final(self).0@.subrange(0x6f0, 0x6f8) =~= spec_u64_to_le_bytes(saveid.0));
            assert(final(self).0@.subrange(0x8f0, 0x8f8) =~= spec_u64_to_le_bytes(saveid.0));
            assert(final(self).0@.subrange(0x300, 0x4000) =~= mid.subrange(0x300, 0x4000));
            assert(final(self).0@.subrange(0x108, 0x128) =~= spec_sha256(
                mid.subrange(0x300, 0x4000),
            ));
        }
    }

    /// The patched buffer as bytes.
    pub fn bytes(&self) -> (r: &Vec<u8>)
        ensures
            r@ == self.0@,
    {
        &self.0
    }
}

/// Patching is deterministic: the same template bytes and the same
/// identifier give byte-identical output, however often it is run.
pub proof fn lemma_patch_deterministic(t1: Seq<u8>, t2: Seq<u8>, id1: u64, id2: u64)
    requires
        t1 == t2,
        id1 == id2,
    ensures
        spec_patched(t1, id1) == spec_patched(t2, id2),
{
}

} // verus!
