//! The protocol side of one HTTP/1.1 GET exchange: the request text that goes
//! on the wire, and the parse of the bytes that come back.
use vstd::prelude::*;
use vstd::utf8::{valid_utf8, decode_utf8};
use crate::error::Error;
use crate::http::{HttpResponse, parse_response, invalid_response_message};

verus! {

/// `<method> /<path> HTTP/1.1\r\n`
pub open spec fn request_start_line(method: Seq<char>, path: Seq<char>) -> Seq<char> {
    method + " /"@ + path + " HTTP/1.1\r\n"@
}

/// The header lines, each ended by a bare `\n`, and the blank line after them.
pub open spec fn request_headers(host: Seq<char>) -> Seq<char> {
    "Host: "@ + host + "\n"@ + "Accept: text/html\n"@ + "Connection: close\n"@ + "\n"@
}

pub open spec fn request_text(method: Seq<char>, host: Seq<char>, path: Seq<char>) -> Seq<char> {
    request_start_line(method, path) + request_headers(host)
}

/// Relies on `String::from_utf8`: it succeeds exactly on valid UTF-8 and then
/// holds the characters the bytes encode.
#[verifier::external_body]
fn utf8_to_string(bytes: Vec<u8>) -> (r: Option<String>)
    ensures
        r is Some <==> valid_utf8(bytes@),
        r is Some ==> r->0@ == decode_utf8(bytes@),
{
    match String::from_utf8(bytes) {
        Ok(s) => Some(s),
        Err(_) => None,
    }
}

pub struct HttpClient {}

impl HttpClient {
    pub fn new() -> Self {
        HttpClient {  }
    }

    /// The full request text for `method` on `path` at `host`.
    pub fn create_request(&self, method: String, host: String, path: String) -> (r: String)
        ensures
            r@ == request_text(method@, host@, path@),
    {
        let mut request = self.create_request_startline(method, path);
        let headers = self.create_request_headers(host);
        request.append(headers.as_str());
        request
    }

    fn create_request_startline(&self, method: String, path: String) -> (r: String)
        ensures
            r@ == request_start_line(method@, path@),
    {
        let mut line = method;
        line.append(" /");
        line.append(path.as_str());
        line.append(" HTTP/1.1\r\n");
        line
    }

    fn create_request_headers(&self, host: String) -> (r: String)
        ensures
            r@ == request_headers(host@),
    {
        let mut headers = String::new();
        headers.append("Host: ");
        headers.append(host.as_str());
        headers.append("\n");
        headers.append("Accept: text/html\n");
        headers.append("Connection: close\n");
        headers.append("\n");
        proof {
            assert(headers@ =~= request_headers(host@));
        }
        headers
    }

    /// The response held by the bytes read until the peer closed: an error
    /// when they are not UTF-8, else what `HttpResponse::new` makes of the
    /// text, its error included.
    pub fn response_from_bytes(&self, received: Vec<u8>) -> (r: Result<HttpResponse, Error>)
        ensures
            !valid_utf8(received@) ==> r is Err,
            valid_utf8(received@) ==> (r is Err <==> parse_response(decode_utf8(received@)) is None),
            valid_utf8(received@) && r is Ok ==> r->Ok_0@ == parse_response(
                decode_utf8(received@),
            )->0,
            !valid_utf8(received@) ==> (r matches Err(e) && e matches Error::Network(m) && m@
                == "Failed to parse HTTP response"@),
            valid_utf8(received@) ==> (r matches Err(e) ==> e matches Error::Network(m) && m@
                == invalid_response_message(decode_utf8(received@))),
    {
        match utf8_to_string(received) {
            Some(text) => HttpResponse::new(text),
            None => {
                let mut msg = String::new();
                msg.append("Failed to parse HTTP response");
                Err(Error::Network(msg))
            },
        }
    }
}

} // verus!
