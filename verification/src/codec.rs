//! The container format: one MessagePack value, written and read by
//! `rmp_serde`.
//!
//! A container is an array of one element, the array of the files; each file
//! is an array of its name, its extension and its content, the content being
//! an array of integers. This is what `rmp_serde` writes for a struct with one
//! field that holds a vector of structs with these three fields.
//!
//! Nothing in this module is proved: it states what the library relies on.

use vstd::prelude::*;

verus! {

#[verifier::external_type_specification]
#[verifier::external_body]
pub struct ExEncodeError(rmp_serde::encode::Error);

#[verifier::external_type_specification]
#[verifier::external_body]
pub struct ExDecodeError(rmp_serde::decode::Error);

/// The longest string, in bytes, the longest content and the largest number
/// of files that the format can hold: MessagePack writes each length in at
/// most 32 bits.
pub const MAX_LEN: usize = 0xffff_ffff;

/// Whether every length in `rows` can be written: the number of rows, and
/// in each row the bytes of name and extension in UTF-8 and the bytes of
/// the content.
pub open spec fn packable(rows: Seq<(Seq<char>, Seq<char>, Seq<u8>)>) -> bool {
    &&& rows.len() <= MAX_LEN
    &&& forall|i: int|
        0 <= i < rows.len() ==> {
            &&& vstd::utf8::encode_utf8((#[trigger] rows[i]).0).len() <= MAX_LEN
            &&& vstd::utf8::encode_utf8(rows[i].1).len() <= MAX_LEN
            &&& rows[i].2.len() <= MAX_LEN
        }
}

/// The bytes of the container that holds `rows`: what `rmp_serde::to_vec`
/// returns for them.
pub uninterp spec fn packed(rows: Seq<(Seq<char>, Seq<char>, Seq<u8>)>) -> Seq<u8>;

/// The rows that `bytes` hold, where they are a container: what
/// `rmp_serde::from_slice` returns for them.
pub uninterp spec fn unpacked(bytes: Seq<u8>) -> Option<Seq<(Seq<char>, Seq<char>, Seq<u8>)>>;

/// Calls `rmp_serde::to_vec` on a tuple of one element, the rows.
///
/// Believed of it: the bytes it returns depend on the rows alone, and
/// `rmp_serde::from_slice` reads the same rows back from them. Both hold
/// only while every length fits in 32 bits, which the caller has to see to:
/// beyond that the lengths are written cut off, or counting the elements
/// overflows. The call fails where the buffer cannot grow.
#[verifier::external_body]
pub(crate) fn pack_rows(rows: &Vec<(&String, &String, &Vec<u8>)>) -> (outcome: Result<
    Vec<u8>,
    rmp_serde::encode::Error,
>)
    requires
        packable(rows.deep_view()),
    ensures
        outcome matches Ok(bytes) ==> bytes@ == packed(rows.deep_view()),
        outcome matches Ok(bytes) ==> unpacked(bytes@) == Some(rows.deep_view()),
{
    rmp_serde::to_vec(&(rows,))
}

/// Calls `rmp_serde::from_slice` for a tuple of one element, the rows.
///
/// Believed of it: whether it succeeds, and with which rows, depends on the
/// bytes alone.
#[verifier::external_body]
pub(crate) fn unpack_rows(bytes: &[u8]) -> (outcome: Result<
    Vec<(String, String, Vec<u8>)>,
    rmp_serde::decode::Error,
>)
    ensures
        match outcome {
            Ok(rows) => unpacked(bytes@) == Some(rows.deep_view()),
            Err(_) => unpacked(bytes@) is None,
        },
{
    match rmp_serde::from_slice::<(Vec<(String, String, Vec<u8>)>,)>(bytes) {
        Ok((rows,)) => Ok(rows),
        Err(error) => Err(error),
    }
}

} // verus!
