//! Header maps and header values of the `http` crate, as the library reads and
//! writes them.

use http::header::{HeaderMap, HeaderValue, InvalidHeaderValue, ToStrError};
use vstd::prelude::*;
use vstd::string::*;

verus! {

/// `http::HeaderMap`, a map from field names to the values given under each.
#[verifier::external_type_specification]
#[verifier::external_body]
#[verifier::reject_recursive_types(T)]
pub struct ExHeaderMap<T>(HeaderMap<T>);

/// `http::HeaderValue`, a run of octets that is fit to stand as a header value.
#[verifier::external_type_specification]
#[verifier::external_body]
pub struct ExHeaderValue(HeaderValue);

/// The error of `HeaderValue::from_str`.
#[verifier::external_type_specification]
#[verifier::external_body]
pub struct ExInvalidHeaderValue(InvalidHeaderValue);

/// The error of `HeaderValue::to_str`.
#[verifier::external_type_specification]
#[verifier::external_body]
pub struct ExToStrError(ToStrError);

/// The octets that a `HeaderValue` holds.
pub uninterp spec fn octets(value: HeaderValue) -> Seq<u8>;

/// What a `HeaderMap` holds: under each field name, in lower case, the octets of
/// the values given for it, in the order in which they were given.
pub uninterp spec fn fields(headers: HeaderMap) -> Map<Seq<char>, Seq<Seq<u8>>>;

/// The first value that `headers` holds under `name`.
pub open spec fn first_value(headers: HeaderMap, name: Seq<char>) -> Option<Seq<u8>> {
    if fields(headers).dom().contains(name) {
        Some(fields(headers)[name][0])
    } else {
        None
    }
}

/// The octets of visible ASCII text: the printable characters, the space and the tab.
pub open spec fn is_visible(octet: u8) -> bool {
    32 <= octet < 127 || octet == 9
}

pub open spec fn all_visible(s: Seq<u8>) -> bool {
    forall|i: int| 0 <= i < s.len() ==> is_visible(#[trigger] s[i])
}

/// The octets that a header value may hold: the visible ones and those above ASCII.
pub open spec fn is_value_octet(octet: u8) -> bool {
    is_visible(octet) || 128 <= octet
}

/// A field name made of lower case letters and hyphens.
pub open spec fn is_plain_name(name: Seq<char>) -> bool {
    &&& 0 < name.len() <= 64
    &&& forall|i: int|
        0 <= i < name.len() ==> 'a' <= #[trigger] name[i] <= 'z' || name[i] == '-'
}

/// `HeaderValue::to_str` lends the octets as text when all of them are visible
/// ASCII, and fails when one is not.
pub assume_specification[ HeaderValue::to_str ](value: &HeaderValue) -> (r: Result<
    &str,
    ToStrError,
>)
    ensures
        r is Ok <==> all_visible(octets(*value)),
        r matches Ok(text) ==> text.spec_bytes() == octets(*value),
;

/// `HeaderValue::from_static` makes a value of the text's octets; it panics when
/// one of them is not visible ASCII.
pub assume_specification[ HeaderValue::from_static ](src: &'static str) -> (value: HeaderValue)
    requires
        all_visible(src.spec_bytes()),
    ensures
        octets(value) == src.spec_bytes(),
;

/// `HeaderValue::from_str` makes a value of the text's octets and fails when one of
/// them is a control character other than the tab.
pub assume_specification[ HeaderValue::from_str ](src: &str) -> (r: Result<
    HeaderValue,
    InvalidHeaderValue,
>)
    ensures
        r is Ok <==> forall|i: int|
            0 <= i < src.spec_bytes().len() ==> is_value_octet(#[trigger] src.spec_bytes()[i]),
        r matches Ok(value) ==> octets(value) == src.spec_bytes(),
;

/// `HeaderMap::get` lends the first value held under a name, if there is one.
#[verifier::external_body]
pub(crate) fn get<'a>(headers: &'a HeaderMap, name: &str) -> (r: Option<&'a HeaderValue>)
    requires
        is_plain_name(name@),
    ensures
        match r {
            Some(value) => {
                &&& fields(*headers).dom().contains(name@)
                &&& fields(*headers)[name@].len() > 0
                &&& fields(*headers)[name@][0] == octets(*value)
            },
            None => !fields(*headers).dom().contains(name@),
        },
{
    headers.get(name)
}

} // verus!
