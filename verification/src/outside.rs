//! Calls into other crates, each with the contract that the library relies on.
//!
//! Nothing here is proved: the contracts state what the crates document.

use vstd::prelude::*;
use rand::Rng;

verus! {

/// The `rand` crate's handle to the generator of the current thread.
#[verifier::external_type_specification]
#[verifier::external_body]
pub struct ExThreadRng(rand::rngs::ThreadRng);

/// `rand::thread_rng`: a handle to the generator of the calling thread.
/// Nothing is claimed of it.
#[verifier::external_body]
pub(crate) fn thread_source() -> rand::rngs::ThreadRng {
    rand::thread_rng()
}

/// `Rng::gen_range` on `0..bound`: some index below `bound`. The range must
/// not be empty.
#[verifier::external_body]
pub(crate) fn draw_index(rng: &mut rand::rngs::ThreadRng, bound: usize) -> (index: usize)
    requires
        bound > 0,
    ensures
        index < bound,
{
    rng.gen_range(0..bound)
}

/// `Rng::gen` for `u64`: any 64-bit value.
#[verifier::external_body]
pub(crate) fn draw_u64(rng: &mut rand::rngs::ThreadRng) -> u64 {
    rng.gen::<u64>()
}

/// `Rng::gen_range` on `min..=max`: some integer of the closed range, which
/// must not be empty.
#[verifier::external_body]
pub(crate) fn draw_i64(rng: &mut rand::rngs::ThreadRng, min: i64, max: i64) -> (value: i64)
    requires
        min <= max,
    ensures
        min <= value <= max,
{
    rng.gen_range(min..=max)
}

/// Lower-case letters of the basic Latin alphabet, and nothing else.
pub open spec fn lowercase(s: Seq<u8>) -> bool {
    forall|i: int| 0 <= i < s.len() ==> 97 <= #[trigger] s[i] <= 122
}

/// `random_string::generate` with the crate's lower-case charset: `length`
/// letters. The crate reserves the string's capacity at once, which the
/// allocator refuses above `isize::MAX`, which is `usize::MAX / 2`.
#[verifier::external_body]
pub(crate) fn random_letters(length: usize) -> (text: Vec<u8>)
    requires
        length <= usize::MAX / 2,
    ensures
        text@.len() == length,
        lowercase(text@),
{
    random_string::generate(length, random_string::charsets::ALPHA_LOWER).into_bytes()
}

/// `random_string::generate_rng` with the crate's lower-case charset: letters,
/// as many as some length of `low..high`. The range must not be empty.
#[verifier::external_body]
pub(crate) fn random_letters_between(low: usize, high: usize) -> (text: Vec<u8>)
    requires
        low < high <= usize::MAX / 2,
    ensures
        low <= text@.len() < high,
        lowercase(text@),
{
    random_string::generate_rng(low..high, random_string::charsets::ALPHA_LOWER).into_bytes()
}

/// Whether position `i` of a UUID's text holds a hyphen.
pub open spec fn hyphen_at(i: int) -> bool {
    i == 8 || i == 13 || i == 18 || i == 23
}

/// A lower-case hexadecimal digit.
pub open spec fn hex_digit(b: u8) -> bool {
    48 <= b <= 57 || 97 <= b <= 102
}

/// The text of a UUID whose hexadecimal digits are all `digit`.
pub open spec fn uuid_of(digit: u8) -> Seq<u8> {
    Seq::new(
        36,
        |i: int|
            if hyphen_at(i) {
                45u8
            } else {
                digit
            },
    )
}

/// The text of some UUID of version 4: 36 characters, hyphens after 8, 13, 18
/// and 23 characters, lower-case hexadecimal digits elsewhere, the version
/// digit 4, and a variant digit of 8, 9, a or b.
pub open spec fn uuid_v4_text(s: Seq<u8>) -> bool {
    &&& s.len() == 36
    &&& forall|i: int|
        0 <= i < 36 ==> if hyphen_at(i) {
            #[trigger] s[i] == 45
        } else {
            hex_digit(s[i])
        }
    &&& s[14] == 52
    &&& (s[19] == 56 || s[19] == 57 || s[19] == 97 || s[19] == 98)
}

/// `Uuid::nil`, in the crate's default textual form: hyphenated, all digits 0.
#[verifier::external_body]
pub(crate) fn uuid_nil_text() -> (text: Vec<u8>)
    ensures
        text@ == uuid_of(48),
{
    uuid::Uuid::nil().to_string().into_bytes()
}

/// `Uuid::max`, in the crate's default textual form: hyphenated, all digits f.
#[verifier::external_body]
pub(crate) fn uuid_max_text() -> (text: Vec<u8>)
    ensures
        text@ == uuid_of(102),
{
    uuid::Uuid::max().to_string().into_bytes()
}

/// `Uuid::new_v4`, in the crate's default textual form: hyphenated lower-case
/// hexadecimal of 122 random bits, the version and the variant.
#[verifier::external_body]
pub(crate) fn uuid_v4() -> (text: Vec<u8>)
    ensures
        uuid_v4_text(text@),
{
    uuid::Uuid::new_v4().to_string().into_bytes()
}

/// `num_cpus::get`: the number of processors that the system reports, which
/// the crate documents to be at least one.
#[verifier::external_body]
pub(crate) fn cpu_count() -> (count: usize)
    ensures
        count >= 1,
{
    num_cpus::get()
}

} // verus!
