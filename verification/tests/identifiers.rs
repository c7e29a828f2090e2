use savegen::bytes::{hex_trim_u32, to_hex};
use savegen::fs_save::{candidate_save_id, parse_hex_u64, HexU64};

#[test]
fn canonical_text_form() {
    let id = HexU64::new(0x8000000000000001);
    assert_eq!(id.to_hex_string(), "8000000000000001");
}

#[test]
fn text_form_zero_padded() {
    assert_eq!(HexU64::new(0).to_hex_string(), "0000000000000000");
    assert_eq!(HexU64::new(0xabc).to_hex_string(), "0000000000000abc");
    assert_eq!(HexU64::new(u64::MAX).to_hex_string(), "ffffffffffffffff");
}

#[test]
fn bytes_to_hex() {
    assert_eq!(to_hex(&[0xde, 0xad, 0xbe, 0xef]), "deadbeef");
    assert_eq!(to_hex(&[]), "");
    assert_eq!(to_hex(&[0x00, 0x0f]), "000f");
}

#[test]
fn trimmed_hex() {
    assert_eq!(hex_trim_u32(0), "0");
    assert_eq!(hex_trim_u32(0x1a), "1a");
    assert_eq!(hex_trim_u32(0xffffffff), "ffffffff");
}

#[test]
fn parse_hex_accepts_prefix_and_case() {
    assert_eq!(parse_hex_u64("0x1f"), Some(0x1f));
    assert_eq!(parse_hex_u64("1F"), Some(0x1f));
    assert_eq!(parse_hex_u64("8000000000000001"), Some(0x8000000000000001));
    assert_eq!(parse_hex_u64("0"), Some(0));
}

#[test]
fn parse_hex_rejects_bad_input() {
    assert_eq!(parse_hex_u64(""), None);
    assert_eq!(parse_hex_u64("0x"), None);
    assert_eq!(parse_hex_u64("xyz"), None);
    assert_eq!(parse_hex_u64("12345678901234567"), None);
    assert_eq!(parse_hex_u64("12 34"), None);
}

#[test]
fn candidate_accepts_canonical_save_names() {
    assert_eq!(candidate_save_id("8000000000000001"), Some(0x8000000000000001));
    assert_eq!(candidate_save_id("8000000000000120"), Some(0x8000000000000120));
}

#[test]
fn candidate_skips_reserved_and_foreign_names() {
    // The index container's own identifier is never indexable.
    assert_eq!(candidate_save_id("8000000000000000"), None);
    // Leading nibble must be 8.
    assert_eq!(candidate_save_id("7000000000000001"), None);
    assert_eq!(candidate_save_id("0000000000000001"), None);
    // Not the canonical 16-lowercase-hex-digit form.
    assert_eq!(candidate_save_id("800000000000001"), None);
    assert_eq!(candidate_save_id("80000000000000012"), None);
    assert_eq!(candidate_save_id("800000000000000G"), None);
    assert_eq!(candidate_save_id("800000000000000A"), None);
    assert_eq!(candidate_save_id(""), None);
}
