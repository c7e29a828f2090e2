pub mod bytes;
pub mod fs_save;
pub mod imkv;
pub mod save_stubs;

use vstd::prelude::*;

verus! {

/// Errors surfaced by the record codec, the container codec and the
/// template patcher. All are deterministic consequences of the input:
/// none indicates a transient condition worth retrying.
#[derive(Clone, Copy, Debug, PartialEq, Eq, Structural)]
pub enum SaveError {
    /// A 4-byte magic did not match the expected constant.
    BadMagic,
    /// The input ended before the fixed or declared width was available.
    TruncatedInput,
    /// An enum field held a discriminant outside the defined range.
    InvalidEnumValue,
    /// A key, value or entry count does not fit in its 32-bit field.
    LengthOverflow,
    /// A template version tag outside the supported set.
    UnsupportedVersion,
    /// The selected template failed to decompress or is too short.
    CorruptTemplate,
}

} // verus!
