//! The crate's trusted boundary: declarations for the outside
//! interface-definition parser and for std's UTF-8 decoding.  Everything else
//! in the crate is verified against the contracts stated here.

use vstd::prelude::*;
use vstd::utf8::{decode_utf8, valid_utf8};
use wai_bindgen_gen_core::wai_parser::Interface;

verus! {

/// The structured interface value produced by the outside parser.  This crate
/// treats it as a black box: it is carried through, never inspected.
#[verifier::external_type_specification]
#[verifier::external_body]
pub struct ExInterface(Interface);

/// What `Interface::parse` returns for a given file name and source text:
/// the parsed interface, or nothing when the text is rejected.  The parser is
/// a pure function of these two arguments, so the result bears a name.
pub uninterp spec fn wai_parse(name: Seq<char>, text: Seq<char>) -> Option<Interface>;

/// Relies on `wai_bindgen_gen_core::wai_parser::Interface::parse`: it parses
/// interface-definition text into an `Interface` or reports an error, and it
/// never touches the filesystem (its submodule loader unconditionally fails),
/// so the outcome depends on the two arguments alone.
#[verifier::external_body]
pub(crate) fn parse_interface(name: &str, text: &str) -> (r: Option<Interface>)
    ensures
        r == wai_parse(name@, text@),
{
    Interface::parse(name, text).ok()
}

/// Relies on `String::from_utf8`: it succeeds exactly on valid UTF-8 input
/// and then decodes it, the same coding that vstd's `valid_utf8` and
/// `decode_utf8` specify.
#[verifier::external_body]
pub(crate) fn utf8_to_string(bytes: Vec<u8>) -> (r: Option<String>)
    ensures
        r is Some <==> valid_utf8(bytes@),
        r is Some ==> r->0@ == decode_utf8(bytes@),
{
    String::from_utf8(bytes).ok()
}

} // verus!
