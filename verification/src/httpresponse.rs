//! Response construction and serialization to wire text.
//!
//! A response carries a version, a status code, the status text derived from
//! the code by a fixed table, an optional header collection (a single
//! `Content-Type: text/html` entry when omitted), and an optional body. The
//! wire form is the status line, the header lines, a `Content-Length` line
//! computed over the body's byte length, a blank line, and the body.
use vstd::prelude::*;

use crate::headers::{spec_header_lines, Headers};
use crate::strutil::{dec_rep, str_eq, u64_to_string};
use vstd::utf8::encode_utf8;

verus! {

/// The error type of the byte sink that a response is written to.
/// Relies on `std::io::Error` being an ordinary type; nothing is assumed of
/// its values.
#[verifier::external_type_specification]
#[verifier::external_body]
pub struct ExIoError(std::io::Error);

/// The abstract value of a response: every field by view, headers as the
/// entry list in order.
pub ghost struct ResponseModel {
    pub version: Seq<char>,
    pub status_code: Seq<char>,
    pub status_text: Seq<char>,
    pub headers: Option<Seq<(Seq<char>, Seq<char>)>>,
    pub body: Option<Seq<char>>,
}

/// The status text for a code: the fixed four-entry table, any other code
/// sharing the text of the missing-resource entry.
pub open spec fn spec_status_text(code: Seq<char>) -> Seq<char> {
    if code == "200"@ {
        "OK"@
    } else if code == "400"@ {
        "Bad Request"@
    } else if code == "404"@ {
        "Not Found"@
    } else if code == "500"@ {
        "Internal Server Error"@
    } else {
        "Not Found"@
    }
}

/// Every code outside the fixed table has the text `Not Found`.
pub proof fn lemma_unlisted_status_text(code: Seq<char>)
    requires
        code != "200"@,
        code != "400"@,
        code != "500"@,
    ensures
        spec_status_text(code) == "Not Found"@,
{
}

/// The header entries a response gets when none are given.
pub open spec fn default_header_entries() -> Seq<(Seq<char>, Seq<char>)> {
    seq![("Content-Type"@, "text/html"@)]
}

/// The body characters; an absent body reads as empty.
pub open spec fn spec_body(m: ResponseModel) -> Seq<char> {
    match m.body {
        Some(b) => b,
        None => Seq::empty(),
    }
}

/// What `HttpResponse::new` yields for the given parts.
pub open spec fn spec_new(
    code: Seq<char>,
    headers: Option<Seq<(Seq<char>, Seq<char>)>>,
    body: Option<Seq<char>>,
) -> ResponseModel {
    ResponseModel {
        version: "HTTP/1.1"@,
        status_code: code,
        status_text: spec_status_text(code),
        headers: match headers {
            Some(h) => Some(h),
            None => Some(default_header_entries()),
        },
        body: body,
    }
}

/// The wire text of a response. `Content-Length` is the byte length of the
/// body, not its character count.
pub open spec fn spec_serialize(m: ResponseModel) -> Seq<char> {
    m.version + " "@ + m.status_code + " "@ + m.status_text + "\r\n"@ + spec_header_lines(
        m.headers.unwrap(),
    ) + "Content-Length: "@ + dec_rep((encode_utf8(spec_body(m)).len() as usize) as nat)
        + "\r\n\r\n"@ + spec_body(m)
}

/// The view of an optional owned string.
pub open spec fn opt_view(o: Option<String>) -> Option<Seq<char>> {
    match o {
        Some(s) => Some(s@),
        None => None,
    }
}

/// A response under construction: status parts, optional headers, optional
/// body.
#[derive(Debug)]
pub struct HttpResponse {
    version: String,
    status_code: String,
    status_text: String,
    headers: Option<Headers>,
    body: Option<String>,
}

impl View for HttpResponse {
    type V = ResponseModel;

    closed spec fn view(&self) -> ResponseModel {
        ResponseModel {
            version: self.version@,
            status_code: self.status_code@,
            status_text: self.status_text@,
            headers: match self.headers {
                Some(h) => Some(h.entries_view()),
                None => None,
            },
            body: match self.body {
                Some(b) => Some(b@),
                None => None,
            },
        }
    }
}

impl Default for HttpResponse {
    /// A `200 OK` response with no headers and no body.
    fn default() -> (r: HttpResponse)
        ensures
            r@ == (ResponseModel {
                version: "HTTP/1.1"@,
                status_code: "200"@,
                status_text: "OK"@,
                headers: None,
                body: None,
            }),
    {
        HttpResponse {
            version: "HTTP/1.1".to_owned(),
            status_code: "200".to_owned(),
            status_text: "OK".to_owned(),
            headers: None,
            body: None,
        }
    }
}

impl HttpResponse {
    /// Builds a response from a status code, optional headers and an optional
    /// body; the status text comes from the fixed table, and omitted headers
    /// become a single `Content-Type: text/html` entry.
    pub fn new(status_code: &str, headers: Option<Headers>, body: Option<String>) -> (r:
        HttpResponse)
        ensures
            r@ == spec_new(
                status_code@,
                match headers {
                    Some(h) => Some(h.entries_view()),
                    None => None,
                },
                opt_view(body),
            ),
    {
        let hs = match headers {
            Some(h) => h,
            None => {
                let mut d = Headers::new();
                d.insert("Content-Type".to_owned(), "text/html".to_owned());
                proof {
                    assert(d.entries_view() =~= default_header_entries());
                }
                d
            },
        };
        let status_text = if str_eq(status_code, "200") {
            "OK".to_owned()
        } else if str_eq(status_code, "400") {
            "Bad Request".to_owned()
        } else if str_eq(status_code, "404") {
            "Not Found".to_owned()
        } else if str_eq(status_code, "500") {
            "Internal Server Error".to_owned()
        } else {
            "Not Found".to_owned()
        };
        HttpResponse {
            version: "HTTP/1.1".to_owned(),
            status_code: status_code.to_owned(),
            status_text,
            headers: Some(hs),
            body,
        }
    }

    pub fn version(&self) -> (r: &str)
        ensures
            r@ == self@.version,
    {
        self.version.as_str()
    }

    pub fn status_code(&self) -> (r: &str)
        ensures
            r@ == self@.status_code,
    {
        self.status_code.as_str()
    }

    pub fn status_text(&self) -> (r: &str)
        ensures
            r@ == self@.status_text,
    {
        self.status_text.as_str()
    }

    /// The concatenated wire header lines of the response.
    pub fn headers(&self) -> (r: String)
        requires
            self@.headers is Some,
        ensures
            r@ == spec_header_lines(self@.headers.unwrap()),
    {
        match &self.headers {
            Some(h) => h.render_lines(),
            None => String::new(),
        }
    }

    /// The body, an absent one reading as empty.
    pub fn body(&self) -> (r: &str)
        ensures
            r@ == spec_body(self@),
    {
        match &self.body {
            Some(v) => v.as_str(),
            None => {
                proof {
                    reveal_strlit("");
                    assert(""@ =~= Seq::<char>::empty());
                }
                ""
            },
        }
    }

    /// Whether the response carries a header collection; serialization
    /// demands one, and every response built by [`Self::new`] has one.
    pub fn has_headers(&self) -> (b: bool)
        ensures
            b == (self@.headers is Some),
    {
        match &self.headers {
            Some(_) => true,
            None => false,
        }
    }

    /// Renders the response in wire form.
    pub fn serialize(&self) -> (r: String)
        requires
            self@.headers is Some,
        ensures
            r@ == spec_serialize(self@),
    {
        let mut out = String::new();
        out.append(self.version.as_str());
        out.append(" ");
        out.append(self.status_code.as_str());
        out.append(" ");
        out.append(self.status_text.as_str());
        out.append("\r\n");
        let hl = self.headers();
        out.append(hl.as_str());
        out.append("Content-Length: ");
        let blen = self.body().len();
        let num = u64_to_string(blen as u64);
        out.append(num.as_str());
        out.append("\r\n\r\n");
        out.append(self.body());
        proof {
            assert(out@ =~= spec_serialize(self@));
        }
        out
    }

    /// Serializes the response and writes the wire text to the given sink.
    /// The write's own outcome is discarded and success reported regardless
    /// of how much the sink accepted.
    pub fn send_response(&self, write_stream: &mut impl std::io::Write) -> (r: std::io::Result<
        (),
    >)
        requires
            self@.headers is Some,
        ensures
            r is Ok,
    {
        let resp_string = self.serialize();
        let _ = write_str(write_stream, resp_string.as_str());
        Ok(())
    }
}

/// Relies on `std::io::Write::write_fmt` (through the `write!` macro) to hand
/// the characters to the sink; nothing is assumed of the outcome.
#[verifier::external_body]
fn write_str<W: std::io::Write>(w: &mut W, s: &str) -> std::io::Result<()> {
    write!(w, "{}", s)
}

} // verus!
