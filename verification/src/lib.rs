//! Client library for a push-notification HTTP API.
//!
//! The verified core builds request payloads and query parameters, parses
//! response bodies and rate-limit headers, and models timestamps as integer
//! seconds and nanoseconds. The network transport itself lives outside this
//! library; callers hand response text and header values in as plain strings.

use vstd::prelude::*;

pub mod device;
pub mod headers;
pub mod json;
pub mod num;
pub mod push;
pub mod text;
pub mod time;

verus! {

/// Origin and versioned path prefix of the service.
pub const BASE_URL: &'static str = "https://api.pushbullet.com/v2/";

/// Failure kinds of a library operation.
///
/// `Network` carries a transport-level message supplied by the caller's
/// transport; `Status` carries the non-success HTTP status code; `Decode`
/// marks a response body that does not match the expected schema.
#[derive(Debug)]
pub enum Error {
    Network(String),
    Status(u16),
    Decode,
}

/// API client: holds the caller's access-token credential.
pub struct PushbulletClient {
    access_token: String,
}

impl PushbulletClient {
    /// The credential this client was built with.
    pub closed spec fn spec_token(&self) -> Seq<char> {
        self.access_token@
    }

    /// Initialize with an access token.
    pub fn new(access_token: String) -> (r: PushbulletClient)
        ensures
            r.spec_token() == access_token@,
    {
        PushbulletClient { access_token }
    }

    /// The access token, verbatim as it was supplied.
    pub fn access_token(&self) -> (r: &String)
        ensures
            r@ == self.spec_token(),
    {
        &self.access_token
    }
}

/// True exactly on success (2xx) HTTP status codes.
pub open spec fn is_success_status(status: u16) -> bool {
    200 <= status < 300
}

/// Classify an HTTP status code: `Ok` on 2xx, otherwise the status error.
pub fn check_status(status: u16) -> (r: Result<(), Error>)
    ensures
        r is Ok <==> is_success_status(status),
        !is_success_status(status) ==> r == Result::<(), Error>::Err(Error::Status(status)),
{
    if 200 <= status && status < 300 {
        Ok(())
    } else {
        Err(Error::Status(status))
    }
}

/// URL of the push endpoint.
pub fn pushes_url() -> (r: String)
    ensures
        r@ == BASE_URL@ + "pushes"@,
{
    let mut s = String::from_str(BASE_URL);
    s.append("pushes");
    s
}

/// URL of the device endpoint.
pub fn devices_url() -> (r: String)
    ensures
        r@ == BASE_URL@ + "devices"@,
{
    let mut s = String::from_str(BASE_URL);
    s.append("devices");
    s
}

} // verus!
