//! Byte-buffer helpers shared by the record and container codecs:
//! little-endian reads and writes, byte-exact comparison, and the
//! lowercase hexadecimal text forms used throughout the save format.

use vstd::prelude::*;
use vstd::string::StringExecFns;

verus! {

/// The lowercase hexadecimal digit for a nibble value.
pub open spec fn spec_hex_digit(d: int) -> char {
    if d == 0 {
        '0'
    } else if d == 1 {
        '1'
    } else if d == 2 {
        '2'
    } else if d == 3 {
        '3'
    } else if d == 4 {
        '4'
    } else if d == 5 {
        '5'
    } else if d == 6 {
        '6'
    } else if d == 7 {
        '7'
    } else if d == 8 {
        '8'
    } else if d == 9 {
        '9'
    } else if d == 10 {
        'a'
    } else if d == 11 {
        'b'
    } else if d == 12 {
        'c'
    } else if d == 13 {
        'd'
    } else if d == 14 {
        'e'
    } else {
        'f'
    }
}

pub(crate) fn hex_char_str(d: u8) -> (r: &'static str)
    requires
        d < 16,
    ensures
        r@.len() == 1,
        r@[0] == spec_hex_digit(d as int),
{
    proof {
        reveal_strlit("0");
        reveal_strlit("1");
        reveal_strlit("2");
        reveal_strlit("3");
        reveal_strlit("4");
        reveal_strlit("5");
        reveal_strlit("6");
        reveal_strlit("7");
        reveal_strlit("8");
        reveal_strlit("9");
        reveal_strlit("a");
        reveal_strlit("b");
        reveal_strlit("c");
        reveal_strlit("d");
        reveal_strlit("e");
        reveal_strlit("f");
    }
    match d {
        0 => "0",
        1 => "1",
        2 => "2",
        3 => "3",
        4 => "4",
        5 => "5",
        6 => "6",
        7 => "7",
        8 => "8",
        9 => "9",
        10 => "a",
        11 => "b",
        12 => "c",
        13 => "d",
        14 => "e",
        _ => "f",
    }
}

/// Two lowercase hex digits per byte, in order.
pub open spec fn spec_hex_bytes(bs: Seq<u8>) -> Seq<char> {
    Seq::new(
        2 * bs.len(),
        |i: int|
            if i % 2 == 0 {
                spec_hex_digit((bs[i / 2] >> 4u8) as int)
            } else {
                spec_hex_digit((bs[i / 2] & 0xfu8) as int)
            },
    )
}

/// Render a byte string as lowercase hex, two digits per byte.
pub fn to_hex(v: &[u8]) -> (s: String)
    ensures
        s@ == spec_hex_bytes(v@),
{
    let n: usize = v.len();
    let mut s = String::new();
    for i in 0..n
        invariant
            n == v@.len(),
            s@ == spec_hex_bytes(v@.take(i as int)),
    {
        let b: u8 = *vstd::slice::slice_index_get(v, i);
        proof {
            assert(b >> 4u8 < 16 && b & 0xfu8 < 16) by (bit_vector);
        }
        s.append(hex_char_str(b >> 4u8));
        s.append(hex_char_str(b & 0xfu8));
        proof {
            assert(spec_hex_bytes(v@.take(i + 1)) =~= spec_hex_bytes(v@.take(i as int)) + seq![
                spec_hex_digit((b >> 4u8) as int),
                spec_hex_digit((b & 0xfu8) as int),
            ]);
        }
    }
    proof {
        assert(v@.take(n as int) =~= v@);
    }
    s
}

/// The minimal (no leading zero) lowercase hex form of a number, as
/// printed by the container inspector for length fields.
pub open spec fn spec_hex_trim(v: nat) -> Seq<char>
    decreases v,
{
    if v < 16 {
        seq![spec_hex_digit(v as int)]
    } else {
        spec_hex_trim(v / 16).push(spec_hex_digit((v % 16) as int))
    }
}

/// Render a 32-bit number as minimal lowercase hex.
pub fn hex_trim_u32(v: u32) -> (s: String)
    ensures
        s@ == spec_hex_trim(v as nat),
    decreases v,
{
    if v < 16 {
        let s = String::from_str(hex_char_str(v as u8));
        proof {
            assert(s@ =~= seq![spec_hex_digit(v as int)]);
        }
        s
    } else {
        let mut s = hex_trim_u32(v / 16);
        s.append(hex_char_str((v % 16) as u8));
        proof {
            assert((v as nat) / 16 == (v / 16) as nat);
            assert((v as nat) % 16 == (v % 16) as nat);
            assert(s@ =~= spec_hex_trim((v / 16) as nat).push(spec_hex_digit((v % 16) as int)));
        }
        s
    }
}

/// Append the bytes of `src` to `out`, in order.
pub fn append_bytes(out: &mut Vec<u8>, src: &[u8])
    ensures
        final(out)@ == old(out)@ + src@,
{
    let n: usize = src.len();
    for i in 0..n
        invariant
            n == src@.len(),
            out@ == old(out)@ + src@.take(i as int),
    {
        out.push(*vstd::slice::slice_index_get(src, i));
        proof {
            assert(old(out)@ + src@.take(i + 1) =~= (old(out)@ + src@.take(i as int)).push(
                src@[i as int],
            ));
        }
    }
    proof {
        assert(src@.take(n as int) =~= src@);
    }
}

/// Append `n` zero bytes to `out`.
pub fn append_zeros(out: &mut Vec<u8>, n: usize)
    ensures
        final(out)@ == old(out)@ + Seq::new(n as nat, |i: int| 0u8),
{
    for i in 0..n
        invariant
            out@ == old(out)@ + Seq::new(i as nat, |j: int| 0u8),
    {
        out.push(0u8);
        proof {
            assert(Seq::new((i + 1) as nat, |j: int| 0u8) =~= Seq::new(i as nat, |j: int| 0u8).push(
                0u8,
            ));
            assert(old(out)@ + Seq::new((i + 1) as nat, |j: int| 0u8) =~= (old(out)@ + Seq::new(
                i as nat,
                |j: int| 0u8,
            )).push(0u8));
        }
    }
}

/// Byte-exact comparison of two byte strings.
pub fn bytes_eq(a: &[u8], b: &[u8]) -> (r: bool)
    ensures
        r == (a@ == b@),
{
    if a.len() != b.len() {
        return false;
    }
    let n: usize = a.len();
    for i in 0..n
        invariant
            n == a@.len(),
            a@.len() == b@.len(),
            forall|j: int| 0 <= j < i ==> a@[j] == b@[j],
    {
        if *vstd::slice::slice_index_get(a, i) != *vstd::slice::slice_index_get(b, i) {
            return false;
        }
    }
    proof {
        assert(a@ =~= b@);
    }
    true
}

/// Read the little-endian 32-bit word at `off`.
pub fn read_u32_le(b: &[u8], off: usize) -> (r: u32)
    requires
        off + 4 <= b@.len(),
    ensures
        r == vstd::bytes::spec_u32_from_le_bytes(b@.subrange(off as int, off as int + 4)),
{
    let _n: usize = b.len();
    vstd::bytes::u32_from_le_bytes(vstd::slice::slice_subrange(b, off, off + 4))
}

/// Read the little-endian 64-bit word at `off`.
pub fn read_u64_le(b: &[u8], off: usize) -> (r: u64)
    requires
        off + 8 <= b@.len(),
    ensures
        r == vstd::bytes::spec_u64_from_le_bytes(b@.subrange(off as int, off as int + 8)),
{
    let _n: usize = b.len();
    vstd::bytes::u64_from_le_bytes(vstd::slice::slice_subrange(b, off, off + 8))
}

/// Read the little-endian 16-bit word at `off`.
pub fn read_u16_le(b: &[u8], off: usize) -> (r: u16)
    requires
        off + 2 <= b@.len(),
    ensures
        r == vstd::bytes::spec_u16_from_le_bytes(b@.subrange(off as int, off as int + 2)),
{
    let _n: usize = b.len();
    vstd::bytes::u16_from_le_bytes(vstd::slice::slice_subrange(b, off, off + 2))
}

/// Append the little-endian encoding of a 32-bit word.
pub fn append_u32_le(out: &mut Vec<u8>, v: u32)
    ensures
        final(out)@ == old(out)@ + vstd::bytes::spec_u32_to_le_bytes(v),
{
    let mut bs = vstd::bytes::u32_to_le_bytes(v);
    out.append(&mut bs);
}

/// Append the little-endian encoding of a 64-bit word.
pub fn append_u64_le(out: &mut Vec<u8>, v: u64)
    ensures
        final(out)@ == old(out)@ + vstd::bytes::spec_u64_to_le_bytes(v),
{
    let mut bs = vstd::bytes::u64_to_le_bytes(v);
    out.append(&mut bs);
}

/// Append the little-endian encoding of a 16-bit word.
pub fn append_u16_le(out: &mut Vec<u8>, v: u16)
    ensures
        final(out)@ == old(out)@ + vstd::bytes::spec_u16_to_le_bytes(v),
{
    let mut bs = vstd::bytes::u16_to_le_bytes(v);
    out.append(&mut bs);
}

} // verus!
