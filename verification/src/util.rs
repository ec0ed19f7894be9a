//! Identifiers: short ids derived from numbers, and random UUIDs.
use vstd::prelude::*;

verus! {

/// The code that block-id, over the 62 letters and digits and with this seed and least
/// length, gives the number `value`.
pub uninterp spec fn block_id_alnum(seed: u128, min_length: u8, value: u64) -> Seq<char>;

pub open spec fn is_ascii_alnum(c: char) -> bool {
    ('0' <= c && c <= '9') || ('a' <= c && c <= 'z') || ('A' <= c && c <= 'Z')
}

/// `block_id::BlockId::new(Alphabet::alphanumeric(), seed, min_length).encode_string(value)`:
/// always a code, since every step of block-id's encoding keeps its digits below the
/// alphabet's size; the code is the named one, at least `min_length` long, made of ASCII
/// letters and digits.
#[verifier::external_body]
fn block_id_encode(seed: u128, min_length: u8, value: u64) -> (r: Option<String>)
    ensures
        r matches Some(s) && s@ == block_id_alnum(seed, min_length, value)
            && s@.len() >= min_length
            && forall|i: int| 0 <= i < s@.len() ==> #[trigger] is_ascii_alnum(s@[i]),
{
    block_id::BlockId::new(block_id::Alphabet::alphanumeric(), seed, min_length).encode_string(value)
}

/// The seed of short ids.
pub const SHORT_ID_SEED: u128 = 9876;

/// The least length of short ids.
pub const SHORT_ID_LENGTH: u8 = 6;

/// The short id of `c`: its block-id code, at least six ASCII letters and digits.
pub fn short_id(c: u64) -> (r: String)
    ensures
        r@ == block_id_alnum(SHORT_ID_SEED, SHORT_ID_LENGTH, c),
        r@.len() >= SHORT_ID_LENGTH,
        forall|i: int| 0 <= i < r@.len() ==> #[trigger] is_ascii_alnum(r@[i]),
{
    match block_id_encode(SHORT_ID_SEED, SHORT_ID_LENGTH, c) {
        Some(s) => s,
        None => {
            assert(false);
            String::new()
        },
    }
}

pub open spec fn is_lower_hex_digit(c: char) -> bool {
    ('0' <= c && c <= '9') || ('a' <= c && c <= 'f')
}

/// A version-4 UUID in its hyphenated lower-case form: 36 chars, hyphens at 8, 13, 18 and
/// 23, hexadecimal digits elsewhere, the version digit '4' at 14 and the variant digit
/// ('8', '9', 'a' or 'b') at 19.
pub open spec fn is_uuid_v4_text(s: Seq<char>) -> bool {
    &&& s.len() == 36
    &&& forall|i: int| 0 <= i < 36 ==> if i == 8 || i == 13 || i == 18 || i == 23 {
        #[trigger] s[i] == '-'
    } else {
        is_lower_hex_digit(s[i])
    }
    &&& s[14] == '4'
    &&& (s[19] == '8' || s[19] == '9' || s[19] == 'a' || s[19] == 'b')
}

/// `uuid::Uuid::new_v4().to_string()`: a random UUID, in its hyphenated lower-case form.
#[verifier::external_body]
fn new_uuid_v4() -> (r: String)
    ensures
        is_uuid_v4_text(r@),
{
    uuid::Uuid::new_v4().to_string()
}

/// A fresh random UUID.
pub fn uuid_v4() -> (r: String)
    ensures
        is_uuid_v4_text(r@),
{
    new_uuid_v4()
}

}
