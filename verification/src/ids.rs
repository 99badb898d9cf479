use vstd::prelude::*;
use rand::Rng;

verus! {

/// A fresh random identifier from `uuid::Uuid::new_v4`, as its 128 bit
/// value. The crate draws 128 random bits and then sets the version field
/// (bits 76 to 79) to 4 and the variant field (bits 62 and 63) to binary
/// 10; nothing else is promised, as the rest is random.
#[verifier::external_body]
pub(crate) fn fresh_id() -> (id: u128)
    ensures
        (id >> 76u128) & 0xfu128 == 4,
        (id >> 62u128) & 0x3u128 == 2,
{
    uuid::Uuid::new_v4().as_u128()
}

/// A character drawn by `rand::distributions::Alphanumeric`: an ASCII
/// digit or letter.
pub open spec fn is_ascii_alphanumeric(c: char) -> bool {
    ('0' <= c && c <= '9') || ('A' <= c && c <= 'Z') || ('a' <= c && c <= 'z')
}

/// `len` random characters drawn with `rand::thread_rng()` from
/// `rand::distributions::Alphanumeric`. The crate samples one character per
/// item from the 62 ASCII digits and letters; which ones come out is chance.
#[verifier::external_body]
pub(crate) fn random_alphanumeric(len: usize) -> (s: String)
    ensures
        s@.len() == len,
        forall|i: int| 0 <= i < s@.len() ==> is_ascii_alphanumeric(#[trigger] s@[i]),
{
    rand::thread_rng().sample_iter(&rand::distributions::Alphanumeric).take(len).map(char::from).collect()
}

} // verus!
