//! Where a health primitive is dialled.

use crate::text::{begins_with, join, law_ends_of_texts, occurs_at};
use tonic::codegen::http::uri::InvalidUri;
use tonic::transport::{Channel, Endpoint};
use vstd::prelude::*;

verus! {

/// A place that a channel can be opened to.
#[verifier::external_type_specification]
#[verifier::external_body]
pub struct ExEndpoint(tonic::transport::Endpoint);

/// Why a text is no URI.
#[verifier::external_type_specification]
#[verifier::external_body]
pub struct ExInvalidUri(tonic::codegen::http::uri::InvalidUri);

/// The endpoint that a URL stands for, or why the text is no URL.
pub uninterp spec fn endpoint_of(url: Seq<char>) -> Result<Endpoint, InvalidUri>;

/// Calls [`tonic::transport::Channel::from_shared`], which parses the URL and
/// makes an endpoint of it with default settings; nothing is dialled. The
/// result, the reason of a failure included, depends on the URL alone and has a
/// name. Which texts are URLs is not said.
#[verifier::external_body]
fn endpoint_from(url: String) -> (r: Result<Endpoint, InvalidUri>)
    ensures
        r == endpoint_of(url@),
{
    Channel::from_shared(url)
}

/// Why a primitive cannot be dialled.
#[derive(Debug)]
pub enum DialError {
    InvalidEndpoint(InvalidUri),
}

/// The URL of an endpoint that may have been given without its scheme.
pub open spec fn normalized_endpoint(endpoint: Seq<char>) -> Seq<char> {
    if occurs_at(endpoint, "http"@, 0) {
        endpoint
    } else {
        "http://"@ + endpoint
    }
}

/// The URL of an endpoint that may have been given without its scheme.
pub fn normalize_endpoint(endpoint: &str) -> (r: String)
    ensures
        r@ == normalized_endpoint(endpoint@),
{
    if begins_with(endpoint, "http") {
        endpoint.to_owned()
    } else {
        join("http://", endpoint)
    }
}

/// The place to dial for an endpoint that may have been given without its
/// scheme.
pub fn dial_target(endpoint: &str) -> (r: Result<Endpoint, DialError>)
    ensures
        r == (match endpoint_of(normalized_endpoint(endpoint@)) {
            Ok(target) => Ok::<Endpoint, DialError>(target),
            Err(e) => Err(DialError::InvalidEndpoint(e)),
        }),
{
    match endpoint_from(normalize_endpoint(endpoint)) {
        Ok(target) => Ok(target),
        Err(e) => Err(DialError::InvalidEndpoint(e)),
    }
}

/// An endpoint that begins with `http` is dialled as it is, and any other one
/// with `http://` in front. Either way the URL begins with `http`, and doing it
/// again changes nothing.
pub proof fn law_urls_begin_with_a_scheme(endpoint: Seq<char>, rest: Seq<char>)
    ensures
        normalized_endpoint("http"@ + rest) == "http"@ + rest,
        (forall|r: Seq<char>| endpoint != #[trigger] ("http"@ + r)) ==> normalized_endpoint(
            endpoint,
        ) == "http://"@ + endpoint,
        exists|r: Seq<char>| normalized_endpoint(endpoint) == #[trigger] ("http"@ + r),
        normalized_endpoint(normalized_endpoint(endpoint)) == normalized_endpoint(endpoint),
{
    reveal_strlit("http");
    reveal_strlit("http://");
    reveal_strlit("://");
    law_ends_of_texts("http"@ + rest, "http"@);
    assert("http"@ + rest == "http"@ + rest);
    law_ends_of_texts(endpoint, "http"@);
    let url = normalized_endpoint(endpoint);
    law_ends_of_texts(url, "http"@);
    if !occurs_at(endpoint, "http"@, 0) {
        assert("http://"@ + endpoint =~= "http"@ + ("://"@ + endpoint));
    }
}

} // verus!
