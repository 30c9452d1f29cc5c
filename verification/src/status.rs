//! The HTTP statuses that a request can be refused with.
use vstd::prelude::*;

verus! {

/// Why a request is refused.
#[derive(Debug, PartialEq, Eq, Clone, Copy, Structural)]
pub enum StatusCode {
    Unauthorized,
    NotFound,
    InternalServerError,
    BadGateway,
}

impl StatusCode {
    /// The number of the status.
    pub open spec fn number(self) -> u16 {
        match self {
            StatusCode::Unauthorized => 401,
            StatusCode::NotFound => 404,
            StatusCode::InternalServerError => 500,
            StatusCode::BadGateway => 502,
        }
    }

    /// The number of the status.
    pub fn as_u16(self) -> (n: u16)
        ensures
            n == self.number(),
    {
        match self {
            StatusCode::Unauthorized => 401,
            StatusCode::NotFound => 404,
            StatusCode::InternalServerError => 500,
            StatusCode::BadGateway => 502,
        }
    }
}

} // verus!
