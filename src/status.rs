use vstd::prelude::*;
use vstd::string::StringSliceAdditionalSpecFns;

verus! {

/// The outcome of handling one request.
pub enum Status {
    Success,
    MovedPermanently(Vec<u8>),
    BadRequest,
    Forbidden,
    PageNotFound,
    InternalServerError,
    NotImplemented,
}

/// The numeric code of each outcome.
pub open spec fn code_of(s: &Status) -> u16 {
    match s {
        Status::Success => 200,
        Status::MovedPermanently(_) => 301,
        Status::BadRequest => 400,
        Status::Forbidden => 403,
        Status::PageNotFound => 404,
        Status::InternalServerError => 500,
        Status::NotImplemented => 501,
    }
}

/// The reason phrase of each outcome, as bytes.
pub open spec fn reason_of(s: &Status) -> Seq<u8> {
    match s {
        Status::Success => "OK".spec_bytes(),
        Status::MovedPermanently(_) => "Moved Permanently".spec_bytes(),
        Status::BadRequest => "Bad Request".spec_bytes(),
        Status::Forbidden => "Forbidden".spec_bytes(),
        Status::PageNotFound => "Not Found".spec_bytes(),
        Status::InternalServerError => "Internal Server Error".spec_bytes(),
        Status::NotImplemented => "Not Implemented".spec_bytes(),
    }
}

/// Maps an outcome to its status code and reason phrase.
pub fn from_status(s: &Status) -> (r: (u16, &'static str))
    ensures
        r.0 == code_of(s),
        r.1.spec_bytes() == reason_of(s),
{
    match s {
        Status::Success => (200, "OK"),
        Status::MovedPermanently(_) => (301, "Moved Permanently"),
        Status::BadRequest => (400, "Bad Request"),
        Status::Forbidden => (403, "Forbidden"),
        Status::PageNotFound => (404, "Not Found"),
        Status::InternalServerError => (500, "Internal Server Error"),
        Status::NotImplemented => (501, "Not Implemented"),
    }
}

} // verus!
