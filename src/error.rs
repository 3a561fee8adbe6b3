use vstd::prelude::*;
use vstd::string::StringExecFns;
use crate::message::{CommandResponse, ResponseModel, STATUS_BAD_REQUEST, STATUS_INTERNAL, STATUS_NOT_FOUND};

verus! {

/// What can go wrong while framing or serving a request.
#[derive(Debug, Clone, PartialEq, Eq)]
pub enum KvError {
    /// The table holds no such key: table, then key.
    NotFound(String, String),
    /// The request carries no operation.
    InvalidCommand(String),
    /// A frame body exceeds what the header can describe.
    FrameTooLarge,
    /// Fewer bytes are present than the frame header declares.
    FrameTruncated,
    /// Any other failure, such as a codec error or an unimplemented operation.
    Internal(String),
}

/// The human-readable text of an error.
pub open spec fn error_text(e: KvError) -> Seq<char> {
    match e {
        KvError::NotFound(t, k) => "Not found for table: "@ + t@ + ", key: "@ + k@,
        KvError::InvalidCommand(s) => "Invalid command: "@ + s@,
        KvError::FrameTooLarge => "Frame is too large"@,
        KvError::FrameTruncated => "Frame is truncated"@,
        KvError::Internal(s) => "Internal error: "@ + s@,
    }
}

/// The status code that reports an error.
pub open spec fn error_status(e: KvError) -> u32 {
    match e {
        KvError::NotFound(_, _) => STATUS_NOT_FOUND,
        KvError::InvalidCommand(_) => STATUS_BAD_REQUEST,
        _ => STATUS_INTERNAL,
    }
}

/// The response that reports an error.
pub open spec fn error_response(e: KvError) -> ResponseModel {
    ResponseModel {
        status: error_status(e),
        message: Some(error_text(e)),
        values: Seq::empty(),
        pairs: Seq::empty(),
    }
}

impl KvError {
    pub fn message(&self) -> (r: String)
        ensures
            r@ == error_text(*self),
    {
        match self {
            KvError::NotFound(t, k) => {
                String::from_str("Not found for table: ").concat(t.as_str()).concat(", key: ").concat(
                    k.as_str(),
                )
            },
            KvError::InvalidCommand(s) => String::from_str("Invalid command: ").concat(s.as_str()),
            KvError::FrameTooLarge => String::from_str("Frame is too large"),
            KvError::FrameTruncated => String::from_str("Frame is truncated"),
            KvError::Internal(s) => String::from_str("Internal error: ").concat(s.as_str()),
        }
    }
}

impl CommandResponse {
    /// The error response for `e`: an error status, its text, no values and no pairs.
    pub fn from_error(e: KvError) -> (r: CommandResponse)
        ensures
            r@ == error_response(e),
    {
        let status = match &e {
            KvError::NotFound(_, _) => STATUS_NOT_FOUND,
            KvError::InvalidCommand(_) => STATUS_BAD_REQUEST,
            _ => STATUS_INTERNAL,
        };
        let r = CommandResponse { status, message: Some(e.message()), values: Vec::new(), pairs: Vec::new() };
        assert(r@.values =~= Seq::empty());
        assert(r@.pairs =~= Seq::empty());
        r
    }
}

} // verus!
