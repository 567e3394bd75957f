//! Unique identifiers for the files that a commit writes.

use vstd::arithmetic::power::pow;
use vstd::prelude::*;

verus! {

/// The `k`-th of the 32 hexadecimal digits of a 128-bit value, most significant first.
pub open spec fn nibble(value: u128, k: int) -> int {
    (value as int / pow(16, (31 - k) as nat)) % 16
}

/// The lower case hexadecimal notation of a number below 16.
pub open spec fn hex_digit(d: int) -> char {
    if d < 10 {
        (48 + d) as char
    } else {
        (87 + d) as char
    }
}

/// How many hyphens stand before position `i` of a hyphenated UUID.
pub open spec fn hyphens_before(i: int) -> int {
    if i <= 8 {
        0
    } else if i <= 13 {
        1
    } else if i <= 18 {
        2
    } else if i <= 23 {
        3
    } else {
        4
    }
}

/// The hyphenated notation of a UUID: 32 hexadecimal digits in groups of 8, 4, 4, 4 and 12.
pub open spec fn hyphenated(value: u128) -> Seq<char> {
    Seq::new(
        36,
        |i: int|
            if i == 8 || i == 13 || i == 18 || i == 23 {
                '-'
            } else {
                hex_digit(nibble(value, i - hyphens_before(i)))
            },
    )
}

/// Whether a value carries the version and variant bits of a version 7 UUID.
pub open spec fn is_version_7(value: u128) -> bool {
    &&& nibble(value, 12) == 7
    &&& nibble(value, 16) / 4 == 2
}

/// A new UUID of version 7, from `uuid::Uuid::now_v7`.
///
/// Claimed of every outcome: the version and variant bits are those of version 7. The value
/// depends on the clock and on random bits, so which value comes is left open. The call panics
/// where the machine's clock stands before 1970 or gives no random bytes.
#[verifier::external_body]
pub(crate) fn new_uuid() -> (value: u128)
    ensures
        is_version_7(value),
{
    uuid::Uuid::now_v7().as_u128()
}

/// The text of a UUID, from the `Display` implementation of `uuid::Uuid`.
///
/// Claimed: it is the lower case hyphenated notation of the value.
#[verifier::external_body]
pub(crate) fn uuid_text(value: u128) -> (text: String)
    ensures
        text@ == hyphenated(value),
{
    uuid::Uuid::from_u128(value).to_string()
}

} // verus!
