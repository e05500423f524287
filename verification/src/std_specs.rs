//! Contracts for the parts of the standard library that the decoder calls
//! and that `vstd` leaves unspecified. Nothing in this file is proved.

use std::path::PathBuf;
use vstd::prelude::*;
use vstd::utf8::{decode_utf8, valid_utf8};

verus! {

/// `std::io::Error`, carried through the input unopened.
#[verifier::external_type_specification]
#[verifier::external_body]
pub struct ExIoError(std::io::Error);

/// `std::string::FromUtf8Error`, the failure of `String::from_utf8`.
#[verifier::external_type_specification]
#[verifier::external_body]
pub struct ExFromUtf8Error(std::string::FromUtf8Error);

/// `std::path::PathBuf`, the form in which a command holds its executable.
#[verifier::external_type_specification]
#[verifier::external_body]
pub struct ExPathBuf(std::path::PathBuf);

/// `String::from_utf8` succeeds exactly on well-formed UTF-8, and the string
/// it then returns is the text that those bytes encode.
pub assume_specification[ String::from_utf8 ](vec: Vec<u8>) -> (res: Result<
    String,
    std::string::FromUtf8Error,
>)
    ensures
        res is Ok <==> valid_utf8(vec@),
        res matches Ok(text) ==> text@ == decode_utf8(vec@),
;

/// The path that `PathBuf::from` makes of a text.
pub uninterp spec fn path_of(text: Seq<char>) -> PathBuf;

/// `PathBuf::from` on a `String`: the path depends on the text alone.
#[verifier::external_body]
pub(crate) fn path_from(text: String) -> (path: PathBuf)
    ensures
        path == path_of(text@),
{
    PathBuf::from(text)
}

} // verus!
