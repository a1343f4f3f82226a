//! The HTTP client's verified core. The request text for a single GET is
//! assembled here, character for character; the socket work (name lookup,
//! connect, write, read until close) is I/O and stands outside the
//! library, which then parses the accumulated text with
//! [`crate::http::HttpResponse::new`].

use vstd::prelude::*;
use vstd::string::StringExecFns;

verus! {

/// A synchronous single-request HTTP client. It keeps no state of its own.
#[derive(Debug)]
pub struct HttpClient {}

impl HttpClient {
    /// A new client.
    pub fn new() -> Self {
        Self {  }
    }

    /// The one request this client sends: a GET for `path` against `host`,
    /// exactly the bytes stated.
    pub fn request_message(host: &str, path: &str) -> (r: String)
        ensures
            r@ == "GET "@ + path@ + " HTTP/1.1\r\n"@ + "Host: "@ + host@ + "\n"@
                + "Accept: text/html\n"@ + "\n"@,
    {
        let mut request = String::from_str("GET ");
        request.append(path);
        request.append(" HTTP/1.1\r\n");
        request.append("Host: ");
        request.append(host);
        request.append("\n");
        request.append("Accept: text/html\n");
        request.append("\n");
        request
    }
}

} // verus!
