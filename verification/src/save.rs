//! The save-file message that surrounding tooling exchanges with an editor
//! or client: a request to write a produced file out, carrying the file's
//! name and content.  The request type itself is a marker with no values;
//! the parameters travel with it.

use vstd::prelude::*;

verus! {

/// Marker for the save-file request; it carries no payload of its own, the
/// parameters travel beside it.
#[allow(non_camel_case_types)]
#[derive(Debug, Clone, Copy, PartialEq, Eq, Structural)]
pub enum saveFileRequest {
    Request,
}

/// Parameters of the save-file request.
#[allow(non_camel_case_types)]
#[derive(Debug, Clone, PartialEq, Eq)]
pub struct saveFileParams {
    pub file_name: Option<String>,
    pub file_content: Option<Vec<u8>>,
}

impl saveFileParams {
    /// Builds save-file parameters for a named file with the given content.
    pub fn new(file_name: Option<String>, file_content: Option<Vec<u8>>) -> (r: saveFileParams)
        ensures
            r.file_name == file_name,
            r.file_content == file_content,
    {
        saveFileParams { file_name, file_content }
    }
}

} // verus!
