use vstd::prelude::*;
use vstd::string::StringExecFns;

use crate::message::FileId;

verus! {

pub open spec fn pow16(e: nat) -> nat
    decreases e,
{
    if e == 0 {
        1
    } else {
        16 * pow16((e - 1) as nat)
    }
}

/// The `j`-th hexadecimal digit of a 128-bit id, most significant first.
pub open spec fn nibble(id: u128, j: int) -> int {
    (id as int / pow16((31 - j) as nat) as int) % 16
}

pub open spec fn hex_digit(d: int) -> char {
    seq!['0', '1', '2', '3', '4', '5', '6', '7', '8', '9', 'a', 'b', 'c', 'd', 'e', 'f'][d]
}

pub open spec fn is_hyphen_position(p: int) -> bool {
    p == 8 || p == 13 || p == 18 || p == 23
}

/// How many hyphens come before position `p` of the hyphenated form.
pub open spec fn hyphens_before(p: int) -> int {
    if p > 23 {
        4
    } else if p > 18 {
        3
    } else if p > 13 {
        2
    } else if p > 8 {
        1
    } else {
        0
    }
}

/// The hyphenated lower-case form of a UUID: 8-4-4-4-12 hexadecimal digits.
pub open spec fn hyphenated(id: u128) -> Seq<char> {
    Seq::new(
        36,
        |p: int|
            if is_hyphen_position(p) {
                '-'
            } else {
                hex_digit(nibble(id, p - hyphens_before(p)))
            },
    )
}

/// Relies on uuid::Uuid::new_v4: a fresh random UUID, handed over as its 128 bits.
#[verifier::external_body]
pub(crate) fn new_uuid() -> (r: u128) {
    uuid::Uuid::new_v4().as_u128()
}

/// Relies on uuid's Display for Uuid, which writes the hyphenated lower-case form.
#[verifier::external_body]
fn uuid_to_string(id: u128) -> (r: String)
    ensures
        r@ == hyphenated(id),
{
    uuid::Uuid::from_u128(id).to_string()
}

pub open spec fn file_name_of(file_id: FileId) -> Seq<char> {
    hyphenated(file_id) + seq!['.', 'r', 'c', 's']
}

/// The name of the file that holds a document: its id, hyphenated, with the `.rcs` extension.
pub fn create_file_name(file_id: FileId) -> (r: String)
    ensures
        r@ == file_name_of(file_id),
{
    proof {
        reveal_strlit(".rcs");
    }
    uuid_to_string(file_id).concat(".rcs")
}

} // verus!
