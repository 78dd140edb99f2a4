//! What the HTTP types say of a method, a URL and a status code, and the
//! protocol versions.

use std::str::FromStr;
use vstd::prelude::*;
use crate::text::str_eq;

verus! {

/// The name that `surf::http::Method` gives the method that is written
/// `written`, `None` where it knows no such method.
pub uninterp spec fn method_name(written: Seq<char>) -> Option<Seq<char>>;

/// The text that `surf::Url` gives the URL that is written `written`, `None`
/// where that is no absolute URL.
pub uninterp spec fn url_text(written: Seq<char>) -> Option<Seq<char>>;

/// Whether `surf::StatusCode` has a status of this number.
pub uninterp spec fn status_known(code: u16) -> bool;

/// `surf::http::Method::from_str`, and the method's own name from its
/// `to_string`. The result depends on the argument alone: the method that
/// the text names, by the name under which the type writes it.
#[verifier::external_body]
pub(crate) fn canonical_method(written: &str) -> (r: Option<String>)
    ensures
        match r {
            Some(name) => method_name(written@) == Some(name@),
            None => method_name(written@) is None,
        },
{
    match surf::http::Method::from_str(written) {
        Ok(method) => Some(method.to_string()),
        Err(_) => None,
    }
}

/// `surf::Url::parse`, and the URL's text from `String::from`. The result
/// depends on the argument alone: the URL as the type writes it.
#[verifier::external_body]
pub(crate) fn canonical_url(written: &str) -> (r: Option<String>)
    ensures
        match r {
            Some(text) => url_text(written@) == Some(text@),
            None => url_text(written@) is None,
        },
{
    match surf::Url::parse(written) {
        Ok(url) => Some(String::from(url)),
        Err(_) => None,
    }
}

/// `surf::StatusCode::try_from` a number: whether the type has that status.
#[verifier::external_body]
pub(crate) fn known_status(code: u16) -> (r: bool)
    ensures
        r == status_known(code),
{
    match surf::StatusCode::try_from(code) {
        Ok(_) => true,
        Err(_) => false,
    }
}

/// A version of the HTTP protocol.
#[derive(Clone, Copy, Debug, PartialEq, Eq, Structural)]
pub enum Version {
    Http0_9,
    Http1_0,
    Http1_1,
    Http2_0,
    Http3_0,
}

impl Version {
    /// The text that stands for a version in a cassette.
    pub open spec fn name(self) -> Seq<char> {
        match self {
            Version::Http0_9 => "HTTP/0.9"@,
            Version::Http1_0 => "HTTP/1.0"@,
            Version::Http1_1 => "HTTP/1.1"@,
            Version::Http2_0 => "HTTP/2"@,
            Version::Http3_0 => "HTTP/3"@,
        }
    }

    /// The version that a text stands for, if any.
    pub open spec fn named(text: Seq<char>) -> Option<Version> {
        if text == "HTTP/0.9"@ {
            Some(Version::Http0_9)
        } else if text == "HTTP/1.0"@ {
            Some(Version::Http1_0)
        } else if text == "HTTP/1.1"@ {
            Some(Version::Http1_1)
        } else if text == "HTTP/2"@ {
            Some(Version::Http2_0)
        } else if text == "HTTP/3"@ {
            Some(Version::Http3_0)
        } else {
            None
        }
    }

    /// Every version is found again under its name.
    pub proof fn lemma_named_name(self)
        ensures
            Version::named(self.name()) == Some(self),
    {
        reveal_strlit("HTTP/0.9");
        reveal_strlit("HTTP/1.0");
        reveal_strlit("HTTP/1.1");
        reveal_strlit("HTTP/2");
        reveal_strlit("HTTP/3");
        assert("HTTP/0.9"@[5] == '0');
        assert("HTTP/1.0"@[5] == '1');
        assert("HTTP/1.0"@[7] == '0');
        assert("HTTP/1.1"@[5] == '1');
        assert("HTTP/1.1"@[7] == '1');
        assert("HTTP/2"@[5] == '2');
        assert("HTTP/3"@[5] == '3');
    }

    /// The text that stands for this version in a cassette.
    pub fn as_str(&self) -> (r: &'static str)
        ensures
            r@ == self.name(),
    {
        match self {
            Version::Http0_9 => "HTTP/0.9",
            Version::Http1_0 => "HTTP/1.0",
            Version::Http1_1 => "HTTP/1.1",
            Version::Http2_0 => "HTTP/2",
            Version::Http3_0 => "HTTP/3",
        }
    }

    /// Reads a version from its text.
    pub fn parse(text: &str) -> (r: Option<Version>)
        ensures
            r == Version::named(text@),
    {
        if str_eq(text, "HTTP/0.9") {
            Some(Version::Http0_9)
        } else if str_eq(text, "HTTP/1.0") {
            Some(Version::Http1_0)
        } else if str_eq(text, "HTTP/1.1") {
            Some(Version::Http1_1)
        } else if str_eq(text, "HTTP/2") {
            Some(Version::Http2_0)
        } else if str_eq(text, "HTTP/3") {
            Some(Version::Http3_0)
        } else {
            None
        }
    }
}

} // verus!
