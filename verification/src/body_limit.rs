//! A limit on the size of request bodies.

use http::header::HeaderMap;
use http::StatusCode;
use vstd::prelude::*;

use crate::header;
use crate::text;

verus! {

/// The field in which a request states the length of its body.
pub const CONTENT_LENGTH: &'static str = "content-length";

/// Puts a [`BodyLimitService`] around a service.
pub struct BodyLimitLayer {
    limit: usize,
}

impl Clone for BodyLimitLayer {
    fn clone(&self) -> (layer: Self)
        ensures
            layer.body_limit() == self.body_limit(),
    {
        BodyLimitLayer { limit: self.limit }
    }
}

impl BodyLimitLayer {
    /// The largest size, stated or announced, of a body that is let through.
    pub closed spec fn body_limit(self) -> usize {
        self.limit
    }

    /// A layer with the given limit: a request is rejected when the length that its headers
    /// state, or the least number of bytes that its body announces, is larger. The body is
    /// not read, so one that holds more than both say is let through.
    pub fn new(body_limit: usize) -> (layer: Self)
        ensures
            layer.body_limit() == body_limit,
    {
        BodyLimitLayer { limit: body_limit }
    }

    /// Puts the limit around `inner`.
    pub fn layer<S>(self, inner: S) -> (service: BodyLimitService<S>)
        ensures
            service.wrapped() == inner,
            service.body_limit() == self.body_limit(),
    {
        BodyLimitService { service: inner, limit: self.limit }
    }
}

/// A service behind a limit on the size that request bodies are stated or announced to
/// have.
pub struct BodyLimitService<S> {
    service: S,
    limit: usize,
}

/// What becomes of a request.
#[derive(Clone, Copy, Debug, PartialEq, Eq, Structural)]
pub enum Admission {
    /// It goes to the wrapped service.
    Forward,
    /// It is answered at once, with an empty response of this status.
    Reject { status: u16 },
}

/// The length that the headers state for the body: the first value of the field, where
/// that is text that writes a number.
pub open spec fn stated_length(headers: HeaderMap) -> Option<usize> {
    match header::first_value(headers, CONTENT_LENGTH@) {
        Some(value) => if header::all_visible(value) {
            text::parsed_usize(value)
        } else {
            None
        },
        None => None,
    }
}

/// The size that a request body is taken to have: the length that the headers state or
/// the least number of bytes that the body itself announces, whichever is larger.
pub open spec fn taken_size(stated: Option<usize>, announced: u64) -> int {
    match stated {
        Some(size) => if size > announced {
            size as int
        } else {
            announced as int
        },
        None => announced as int,
    }
}

/// What becomes of a request with a body that is taken to have `size` bytes.
pub open spec fn admission(limit: usize, size: int) -> Admission {
    if size > limit {
        Admission::Reject { status: 413 }
    } else {
        Admission::Forward
    }
}

/// `StatusCode::PAYLOAD_TOO_LARGE` has the number 413, which `as_u16` gives.
#[verifier::external_body]
fn payload_too_large() -> (status: u16)
    ensures
        status == 413,
{
    StatusCode::PAYLOAD_TOO_LARGE.as_u16()
}

/// Reads the length that the headers state for the body.
pub fn content_length(headers: &HeaderMap) -> (r: Option<usize>)
    ensures
        r == stated_length(*headers),
{
    proof {
        reveal_strlit("content-length");
    }
    match header::get(headers, CONTENT_LENGTH) {
        Some(value) => match value.to_str() {
            Ok(digits) => text::parse_usize(digits.as_bytes()),
            Err(_) => None,
        },
        None => None,
    }
}

impl<S> BodyLimitService<S> {
    /// The largest size, stated or announced, of a body that is let through.
    pub closed spec fn body_limit(self) -> usize {
        self.limit
    }

    /// The service behind the limit.
    pub closed spec fn wrapped(self) -> S {
        self.service
    }

    /// Lends the service behind the limit.
    pub fn service(&self) -> (service: &S)
        ensures
            *service == self.wrapped(),
    {
        &self.service
    }

    /// Decides on a request by the length that its headers state, if they state one,
    /// and the least number of bytes that its body announces.
    pub fn decide(&self, stated: Option<usize>, announced: u64) -> (r: Admission)
        ensures
            r == admission(self.body_limit(), taken_size(stated, announced)),
    {
        let stated_too_large = match stated {
            Some(size) => size > self.limit,
            None => false,
        };
        if stated_too_large || announced > self.limit as u64 {
            Admission::Reject { status: payload_too_large() }
        } else {
            Admission::Forward
        }
    }

    /// Decides on a request by its headers and the least number of bytes that its body
    /// announces, before the body is read.
    pub fn call(&self, headers: &HeaderMap, announced: u64) -> (r: Admission)
        ensures
            r == admission(
                self.body_limit(),
                taken_size(stated_length(*headers), announced),
            ),
    {
        self.decide(content_length(headers), announced)
    }
}

} // verus!
