//! What goes out to the success-rate service: the requests and the headers
//! attached to them.
//!
//! A request is held here as plain values. The transport turns it into its
//! own request type and sends it.

pub mod health_check_client;
pub mod success_rate_client;

use vstd::prelude::*;
use vstd::string::StringExecFns;
use vstd::utf8::encode_utf8;

verus! {

/// The name of the header that carries the tenant.
pub const TENANT_HEADER: &'static str = "x-tenant-id";

/// The name of the header that carries the request id.
pub const X_REQUEST_ID: &'static str = "x-request-id";

/// The headers of one call.
#[derive(Debug)]
pub struct GrpcHeaders {
    /// Tenant id
    pub tenant_id: String,
    /// Request id
    pub request_id: Option<String>,
}

/// A message together with the headers that go out with it, each as a name
/// and a value.
#[derive(Debug)]
pub struct GrpcRequest<T> {
    pub message: T,
    pub metadata: Vec<(String, String)>,
}

/// A byte that a header value may hold: a tab, or anything from the space
/// on but the delete character.
pub open spec fn header_byte(b: u8) -> bool {
    b == 9 || (b >= 32 && b != 127)
}

/// Every byte of the text, in UTF-8, may stand in a header value.
pub open spec fn header_value(text: Seq<char>) -> bool {
    forall|i: int|
        0 <= i < encode_utf8(text).len() ==> header_byte(#[trigger] encode_utf8(text)[i])
}

/// Parses `value` as an ASCII metadata value of the `tonic` crate and tells
/// whether the parse succeeded.
///
/// Assumed: the parse succeeds exactly when every byte of the text is a tab
/// or lies from the space on and is not the delete character.
#[verifier::external_body]
pub(crate) fn accepted_as_metadata(value: &str) -> (r: bool)
    ensures
        r == header_value(value@),
{
    value.parse::<tonic::metadata::AsciiMetadataValue>().is_ok()
}

/// The name and the value of a header, as characters.
pub open spec fn header_texts(entries: Seq<(String, String)>) -> Seq<(Seq<char>, Seq<char>)> {
    entries.map_values(|entry: (String, String)| (entry.0@, entry.1@))
}

/// The header `name` with the value `value`, or nothing where the value may
/// not stand in a header.
pub open spec fn header_if_valid(name: Seq<char>, value: Seq<char>) -> Seq<(Seq<char>, Seq<char>)> {
    if header_value(value) {
        seq![(name, value)]
    } else {
        Seq::empty()
    }
}

/// The headers that go out for `headers`: the tenant, then the request id
/// where there is one. A value that may not stand in a header is left out.
pub open spec fn outgoing_headers(headers: GrpcHeaders) -> Seq<(Seq<char>, Seq<char>)> {
    header_if_valid(TENANT_HEADER@, headers.tenant_id@) + match headers.request_id {
        Some(id) => header_if_valid(X_REQUEST_ID@, id@),
        None => Seq::empty(),
    }
}

/// Something that headers can be attached to.
pub trait AddHeaders {
    /// Attaches the headers.
    fn add_headers_to_grpc_request(&mut self, headers: GrpcHeaders);
}

impl<T> AddHeaders for GrpcRequest<T> {
    /// Appends the tenant header and, where there is one, the request-id
    /// header. A header whose value is not accepted is dropped without an
    /// error.
    fn add_headers_to_grpc_request(&mut self, headers: GrpcHeaders)
        ensures
            final(self).message == old(self).message,
            header_texts(final(self).metadata@) == header_texts(old(self).metadata@)
                + outgoing_headers(headers),
    {
        let ghost before = self.metadata@;
        let ghost given = headers;
        let GrpcHeaders { tenant_id, request_id } = headers;
        if accepted_as_metadata(tenant_id.as_str()) {
            self.metadata.push((String::from_str(TENANT_HEADER), tenant_id));
        }
        let ghost middle = self.metadata@;
        assert(header_texts(middle) =~= header_texts(before) + header_if_valid(
            TENANT_HEADER@,
            given.tenant_id@,
        ));
        match request_id {
            Some(id) => {
                if accepted_as_metadata(id.as_str()) {
                    self.metadata.push((String::from_str(X_REQUEST_ID), id));
                }
            },
            None => {},
        }
        assert(header_texts(self.metadata@) =~= header_texts(middle) + match given.request_id {
            Some(id) => header_if_valid(X_REQUEST_ID@, id@),
            None => Seq::empty(),
        });
        assert(header_texts(self.metadata@) =~= header_texts(before) + outgoing_headers(given));
    }
}

/// Makes a request of `message` with the headers attached.
pub fn create_grpc_request<T>(message: T, headers: GrpcHeaders) -> (r: GrpcRequest<T>)
    ensures
        r.message == message,
        header_texts(r.metadata@) == outgoing_headers(headers),
{
    let mut request = GrpcRequest { message, metadata: Vec::new() };
    assert(header_texts(request.metadata@) =~= Seq::<(Seq<char>, Seq<char>)>::empty());
    request.add_headers_to_grpc_request(headers);
    request
}

} // verus!
