//! HTTP response status codes: a closed set, each with a numeric code and
//! a fixed reason phrase.

use vstd::prelude::*;

use crate::text::dec_rep;
use crate::text::usize_to_string;

verus! {

#[derive(Debug, Clone, Copy, PartialEq, Eq, Structural)]
pub enum StatusCode {
    OK,
    BadRequest,
    NotFound,
    URITooLong,
    NotImplemented,
}

/// The numeric code of a status.
pub open spec fn code_of(s: StatusCode) -> int {
    match s {
        StatusCode::OK => 200,
        StatusCode::BadRequest => 400,
        StatusCode::NotFound => 404,
        StatusCode::URITooLong => 414,
        StatusCode::NotImplemented => 0,
    }
}

/// The fixed reason phrase of a status; empty for the unused placeholder.
pub open spec fn reason_of(s: StatusCode) -> Seq<char> {
    match s {
        StatusCode::OK => "OK"@,
        StatusCode::BadRequest => "Bad Request"@,
        StatusCode::NotFound => "Not Found"@,
        StatusCode::URITooLong => "URI Too Long"@,
        StatusCode::NotImplemented => ""@,
    }
}

/// A status as it appears in a status line: `<code> <reason>`.
pub open spec fn status_display(s: StatusCode) -> Seq<char> {
    dec_rep(code_of(s)) + " "@ + reason_of(s)
}

impl StatusCode {
    pub fn code(&self) -> (r: u16)
        ensures
            r as int == code_of(*self),
    {
        match self {
            StatusCode::OK => 200,
            StatusCode::BadRequest => 400,
            StatusCode::NotFound => 404,
            StatusCode::URITooLong => 414,
            StatusCode::NotImplemented => 0,
        }
    }

    pub fn reason(&self) -> (r: &'static str)
        ensures
            r@ == reason_of(*self),
    {
        match self {
            StatusCode::OK => "OK",
            StatusCode::BadRequest => "Bad Request",
            StatusCode::NotFound => "Not Found",
            StatusCode::URITooLong => "URI Too Long",
            StatusCode::NotImplemented => "",
        }
    }

    /// Render `<code> <reason>` for use in a status line.
    pub fn display(&self) -> (r: String)
        ensures
            r@ == status_display(*self),
    {
        let code = self.code();
        let mut r = usize_to_string(code as usize);
        r.append(" ");
        r.append(self.reason());
        proof {
            assert((code as usize) as int == code_of(*self));
            assert(r@ =~= status_display(*self));
        }
        r
    }
}

} // verus!
