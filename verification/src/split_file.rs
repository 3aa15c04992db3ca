//! The names of the files in the cache directory. Split ids are unique, so
//! the directory is flat: one file per split, named by the split's id.

use ulid::Ulid;
use vstd::arithmetic::power2::pow2;
use vstd::prelude::*;
use vstd::string::StringExecFns;

verus! {

/// The length of an id written out.
pub const ULID_TEXT_LEN: usize = 26;

/// The digits of Crockford's Base32, in the order of their values.
pub open spec fn crockford_alphabet() -> Seq<char> {
    seq![
        '0', '1', '2', '3', '4', '5', '6', '7', '8', '9', 'A', 'B', 'C', 'D', 'E', 'F', 'G', 'H',
        'J', 'K', 'M', 'N', 'P', 'Q', 'R', 'S', 'T', 'V', 'W', 'X', 'Y', 'Z',
    ]
}

/// The value of the digit at `place` of an id written out: the places are
/// counted from the left, and each digit stands for five bits of the id, the
/// last digit for the lowest five.
pub open spec fn crockford_value(split_ulid: u128, place: int) -> int {
    (split_ulid as int / pow2((5 * (ULID_TEXT_LEN - 1 - place)) as nat) as int) % 32
}

/// The id written out: its Crockford Base32 text, of `ULID_TEXT_LEN` digits.
pub open spec fn ulid_text(split_ulid: u128) -> Seq<char> {
    Seq::new(
        ULID_TEXT_LEN as nat,
        |place: int| crockford_alphabet()[crockford_value(split_ulid, place)],
    )
}

/// `Ulid::to_string`: the Crockford Base32 text of the id, which has 26
/// digits whatever the id: from the last digit to the first, each is the
/// alphabet's character for the next five bits of the id.
#[verifier::external_body]
pub(crate) fn ulid_to_string(split_ulid: u128) -> (text: String)
    ensures
        text@ == ulid_text(split_ulid),
{
    Ulid(split_ulid).to_string()
}

/// The name of the file that holds a split: the id's text and the
/// extension `.split`.
pub open spec fn split_file_name(split_ulid: u128) -> Seq<char> {
    ulid_text(split_ulid) + ".split"@
}

/// The name of the file that holds a split.
pub fn split_file(split_ulid: u128) -> (name: String)
    ensures
        name@ == split_file_name(split_ulid),
        name@.len() == ULID_TEXT_LEN + 6,
{
    let mut name = ulid_to_string(split_ulid);
    name.append(".split");
    proof {
        reveal_strlit(".split");
    }
    name
}

} // verus!
