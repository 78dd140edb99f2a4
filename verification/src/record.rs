//! The recorded form of a request and of a response.

use vstd::prelude::*;
use vstd::std_specs::cmp::PartialEqSpecImpl;
use crate::body::{Body, BodyView};
use crate::headers::{collected, headers_text, HeaderEntry, Headers};
use crate::keyed::{map_of, names_of};
use crate::http::Version;
use crate::text::str_eq;

verus! {

/// A request as a cassette holds it.
///
/// `method` is the name of the method ("GET"), `url` the text of the
/// absolute URL. Two requests match when all four parts are the same.
#[derive(Debug)]
pub struct VcrRequest {
    pub method: String,
    pub url: String,
    pub headers: Headers,
    pub body: Body,
}

/// What a [`VcrRequest`] stands for in contracts.
pub struct RequestView {
    pub method: Seq<char>,
    pub url: Seq<char>,
    pub headers: Map<Seq<char>, Seq<Seq<char>>>,
    pub body: BodyView,
}

impl View for VcrRequest {
    type V = RequestView;

    open spec fn view(&self) -> RequestView {
        RequestView {
            method: self.method@,
            url: self.url@,
            headers: self.headers@,
            body: self.body@,
        }
    }
}

/// The parts of a request as they are written down: as in [`RequestView`],
/// but with the headers in the order in which they are kept.
pub struct RequestParts {
    pub method: Seq<char>,
    pub url: Seq<char>,
    pub headers: Seq<HeaderEntry>,
    pub body: BodyView,
}

impl RequestParts {
    /// The request that the parts make up.
    pub open spec fn view(self) -> RequestView {
        RequestView {
            method: self.method,
            url: self.url,
            headers: map_of(self.headers),
            body: self.body,
        }
    }

    /// The headers repeat no name.
    pub open spec fn wf(self) -> bool {
        names_of(self.headers).no_duplicates()
    }

    /// The request as a line of text: its four parts by their names.
    pub open spec fn text(self) -> Seq<char> {
        "VcrRequest { method: "@ + self.method + ", url: "@ + self.url + ", headers: "@ + headers_text(
            self.headers,
        ) + ", body: "@ + self.body.text() + " }"@
    }
}

impl VcrRequest {
    /// The request as a line of text, for messages.
    pub fn describe(&self) -> (r: String)
        ensures
            r@ == self.parts().text(),
    {
        let mut out = "VcrRequest { method: ".to_owned();
        out.append(self.method.as_str());
        out.append(", url: ");
        out.append(self.url.as_str());
        out.append(", headers: ");
        out.append(self.headers.describe().as_str());
        out.append(", body: ");
        out.append(self.body.describe().as_str());
        out.append(" }");
        out
    }

    /// The headers repeat no name.
    pub open spec fn wf(&self) -> bool {
        self.headers.wf()
    }

    /// The parts of the request as they are written down.
    pub open spec fn parts(&self) -> RequestParts {
        RequestParts {
            method: self.method@,
            url: self.url@,
            headers: self.headers.entries(),
            body: self.body@,
        }
    }

    /// The record of an outgoing request, from its parts: the method's name,
    /// the URL's text, every header name with all of its values, and the
    /// whole body.
    pub fn from_request(
        method: &str,
        url: &str,
        headers: &Vec<(String, Vec<String>)>,
        body: &[u8],
    ) -> (r: VcrRequest)
        ensures
            r.wf(),
            r.method@ == method@,
            r.url@ == url@,
            r.headers.entries() == collected(headers.deep_view()),
            r.body@ == BodyView::of_bytes(body@),
    {
        VcrRequest {
            method: method.to_owned(),
            url: url.to_owned(),
            headers: Headers::from_entries(headers),
            body: Body::from_bytes(body),
        }
    }
}

/// Two requests are the same when they are the same in method, URL, headers
/// and body. This is what a request is matched by.
impl PartialEq for VcrRequest {
    fn eq(&self, other: &VcrRequest) -> (r: bool) {
        str_eq(self.method.as_str(), other.method.as_str()) && str_eq(
            self.url.as_str(),
            other.url.as_str(),
        ) && self.headers == other.headers && self.body == other.body
    }
}

impl PartialEqSpecImpl for VcrRequest {
    open spec fn obeys_eq_spec() -> bool {
        true
    }

    open spec fn eq_spec(&self, other: &VcrRequest) -> bool {
        self@ == other@
    }
}

impl Clone for VcrRequest {
    fn clone(&self) -> (r: VcrRequest)
        ensures
            r.wf(),
            r@ == self@,
            r.headers.entries() == self.headers.entries(),
    {
        VcrRequest {
            method: self.method.clone(),
            url: self.url.clone(),
            headers: self.headers.clone(),
            body: self.body.clone(),
        }
    }
}

/// A response as a cassette holds it.
///
/// `status` is the status code's number; `version` is `None` where the
/// protocol version was not given.
#[derive(Debug)]
pub struct VcrResponse {
    pub status: u16,
    pub version: Option<Version>,
    pub headers: Headers,
    pub body: Body,
}

/// What a [`VcrResponse`] stands for in contracts.
pub struct ResponseView {
    pub status: u16,
    pub version: Option<Version>,
    pub headers: Map<Seq<char>, Seq<Seq<char>>>,
    pub body: BodyView,
}

impl View for VcrResponse {
    type V = ResponseView;

    open spec fn view(&self) -> ResponseView {
        ResponseView {
            status: self.status,
            version: self.version,
            headers: self.headers@,
            body: self.body@,
        }
    }
}

/// The parts of a response as they are written down: as in
/// [`ResponseView`], but with the headers in the order in which they are
/// kept.
pub struct ResponseParts {
    pub status: u16,
    pub version: Option<Version>,
    pub headers: Seq<HeaderEntry>,
    pub body: BodyView,
}

impl ResponseParts {
    /// The response that the parts make up.
    pub open spec fn view(self) -> ResponseView {
        ResponseView {
            status: self.status,
            version: self.version,
            headers: map_of(self.headers),
            body: self.body,
        }
    }

    /// The headers repeat no name.
    pub open spec fn wf(self) -> bool {
        names_of(self.headers).no_duplicates()
    }
}

impl VcrResponse {
    /// The headers repeat no name.
    pub open spec fn wf(&self) -> bool {
        self.headers.wf()
    }

    /// The parts of the response as they are written down.
    pub open spec fn parts(&self) -> ResponseParts {
        ResponseParts {
            status: self.status,
            version: self.version,
            headers: self.headers.entries(),
            body: self.body@,
        }
    }

    /// The record of a response that has come in, from its parts: the status
    /// code, the protocol version if it was given, every header name with
    /// all of its values, and the whole body.
    pub fn try_from_response(
        status: u16,
        version: Option<Version>,
        headers: &Vec<(String, Vec<String>)>,
        body: &[u8],
    ) -> (r: VcrResponse)
        ensures
            r.wf(),
            r.status == status,
            r.version == version,
            r.headers.entries() == collected(headers.deep_view()),
            r.body@ == BodyView::of_bytes(body@),
    {
        VcrResponse {
            status,
            version,
            headers: Headers::from_entries(headers),
            body: Body::from_bytes(body),
        }
    }
}

/// Two responses are the same when they are the same in status, version,
/// headers and body.
impl PartialEq for VcrResponse {
    fn eq(&self, other: &VcrResponse) -> (r: bool) {
        let same_version = match (self.version, other.version) {
            (Some(a), Some(b)) => a == b,
            (None, None) => true,
            _ => false,
        };
        self.status == other.status && same_version && self.headers == other.headers && self.body
            == other.body
    }
}

impl PartialEqSpecImpl for VcrResponse {
    open spec fn obeys_eq_spec() -> bool {
        true
    }

    open spec fn eq_spec(&self, other: &VcrResponse) -> bool {
        self@ == other@
    }
}

impl Clone for VcrResponse {
    fn clone(&self) -> (r: VcrResponse)
        ensures
            r.wf(),
            r@ == self@,
            r.headers.entries() == self.headers.entries(),
    {
        VcrResponse {
            status: self.status,
            version: self.version,
            headers: self.headers.clone(),
            body: self.body.clone(),
        }
    }
}

} // verus!
