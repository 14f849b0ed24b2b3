//! The file-read and file-write commands.
//!
//! The application performs the filesystem call and hands its outcome in
//! as a plain `Result`; the functions here build the command's answer from
//! it: the `DesignFile` record on a successful read, or the command's
//! error message with the underlying cause embedded verbatim.

use vstd::prelude::*;
use vstd::string::StringExecFns;

verus! {

/// The record returned by a successful file read: the path exactly as the
/// caller gave it, paired with the file's full textual content.
#[derive(Debug)]
pub struct DesignFile {
    pub path: String,
    pub content: String,
}

/// The message reported when a file cannot be read, with the underlying
/// cause's description embedded verbatim.
pub open spec fn read_error_message(cause: Seq<char>) -> Seq<char> {
    "Failed to read file: "@ + cause
}

/// The message reported when a file cannot be written, with the underlying
/// cause's description embedded verbatim.
pub open spec fn write_error_message(cause: Seq<char>) -> Seq<char> {
    "Failed to write file: "@ + cause
}

/// Builds the answer of the file-read command. `read_outcome` is what the
/// filesystem gave for `path`: the file's decoded content, or the failure's
/// description. Success yields a `DesignFile` echoing the path verbatim;
/// failure yields the read error message.
pub fn read_design_file(path: String, read_outcome: Result<String, String>) -> (r: Result<
    DesignFile,
    String,
>)
    ensures
        match read_outcome {
            Ok(content) => {
                &&& r matches Ok(f)
                &&& r->Ok_0.path@ == path@
                &&& r->Ok_0.content@ == content@
            },
            Err(cause) => {
                &&& r matches Err(m)
                &&& r->Err_0@ == read_error_message(cause@)
            },
        },
{
    match read_outcome {
        Ok(content) => Ok(DesignFile { path, content }),
        Err(cause) => {
            let mut message = "Failed to read file: ".to_owned();
            message.append(cause.as_str());
            Err(message)
        },
    }
}

/// Builds the answer of the file-write command. `write_outcome` is what
/// the filesystem gave for the write: success, or the failure's
/// description. Success passes through; failure yields the write error
/// message.
pub fn write_design_file(write_outcome: Result<(), String>) -> (r: Result<(), String>)
    ensures
        match write_outcome {
            Ok(_) => r matches Ok(_),
            Err(cause) => {
                &&& r matches Err(m)
                &&& r->Err_0@ == write_error_message(cause@)
            },
        },
{
    match write_outcome {
        Ok(_) => Ok(()),
        Err(cause) => {
            let mut message = "Failed to write file: ".to_owned();
            message.append(cause.as_str());
            Err(message)
        },
    }
}

} // verus!
