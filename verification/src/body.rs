//! Message bodies: text where the bytes are UTF-8, raw bytes otherwise.

use vstd::prelude::*;
use vstd::utf8::*;
use vstd::std_specs::cmp::PartialEqSpecImpl;
use vstd::string::StringSliceAdditionalSpecFns;
use crate::text::{bytes_eq, decimal, decimal_text, join_texts, joined};

verus! {

/// The body of a request or response.
///
/// A body that is valid UTF-8 is kept as text, which reads better in a
/// cassette; any other body is kept byte for byte.
#[derive(Debug)]
pub enum Body {
    Bytes(Vec<u8>),
    Str(String),
}

/// What a [`Body`] stands for in contracts.
pub enum BodyView {
    Bytes(Seq<u8>),
    Str(Seq<char>),
}

impl View for Body {
    type V = BodyView;

    open spec fn view(&self) -> BodyView {
        match self {
            Body::Bytes(b) => BodyView::Bytes(b@),
            Body::Str(s) => BodyView::Str(s@),
        }
    }
}

impl BodyView {
    /// The bytes that go over the wire for this body.
    pub open spec fn content(self) -> Seq<u8> {
        match self {
            BodyView::Bytes(b) => b,
            BodyView::Str(s) => encode_utf8(s),
        }
    }

    /// The body as a line of text: `Str(..)` around the text of a text
    /// body, `Bytes([..])` around the bytes of any other, each in decimal
    /// digits, with a comma and a space between each two.
    pub open spec fn text(self) -> Seq<char> {
        match self {
            BodyView::Str(s) => "Str("@ + s + ")"@,
            BodyView::Bytes(b) => "Bytes(["@ + joined(
                b.map_values(|byte: u8| decimal_text(byte as nat)),
                ", "@,
            ) + "])"@,
        }
    }

    /// The body that stands for `bytes`: text if they are UTF-8.
    pub open spec fn of_bytes(bytes: Seq<u8>) -> BodyView {
        if valid_utf8(bytes) {
            BodyView::Str(decode_utf8(bytes))
        } else {
            BodyView::Bytes(bytes)
        }
    }
}

/// `std::str::from_utf8`: the bytes as a string slice when they are valid
/// UTF-8, and `None` when they are not. The slice is the argument itself,
/// seen as text, so its encoding is the argument byte for byte.
#[verifier::external_body]
fn str_from_utf8(bytes: &[u8]) -> (r: Option<&str>)
    ensures
        r is Some <==> valid_utf8(bytes@),
        r matches Some(s) ==> s.spec_bytes() == bytes@,
{
    match std::str::from_utf8(bytes) {
        Ok(s) => Some(s),
        Err(_) => None,
    }
}

impl Body {
    /// Chooses the representation of a body from its raw bytes.
    pub fn from_bytes(bytes: &[u8]) -> (body: Body)
        ensures
            body@ == BodyView::of_bytes(bytes@),
            body@.content() == bytes@,
    {
        match str_from_utf8(bytes) {
            Some(s) => {
                proof {
                    encode_utf8_decode_utf8(s@);
                    lemma_body_round_trip(bytes@);
                }
                Body::Str(s.to_owned())
            },
            None => Body::Bytes(vstd::slice::slice_to_vec(bytes)),
        }
    }

    /// The body as a line of text, for messages.
    pub fn describe(&self) -> (r: String)
        ensures
            r@ == self@.text(),
    {
        match self {
            Body::Str(s) => {
                let mut out = "Str(".to_owned();
                out.append(s.as_str());
                out.append(")");
                out
            },
            Body::Bytes(b) => {
                let mut numbers: Vec<String> = Vec::new();
                let mut i: usize = 0;
                while i < b.len()
                    invariant
                        i <= b.len(),
                        numbers.len() == i,
                        forall|j: int| 0 <= j < i ==> (#[trigger] numbers@[j])@ == decimal_text(b@[j] as nat),
                    decreases b.len() - i,
                {
                    numbers.push(decimal(b[i]));
                    i += 1;
                }
                assert(numbers.deep_view() =~= b@.map_values(|byte: u8| decimal_text(byte as nat)));
                let mut out = "Bytes([".to_owned();
                out.append(join_texts(&numbers, ", ").as_str());
                out.append("])");
                out
            },
        }
    }

    /// The raw bytes of the body.
    pub fn to_bytes(&self) -> (bytes: Vec<u8>)
        ensures
            bytes@ == self@.content(),
    {
        match self {
            Body::Bytes(b) => b.clone(),
            Body::Str(s) => s.as_str().as_bytes_vec(),
        }
    }
}

/// Two bodies are the same when they are of the same kind and hold the same
/// content.
impl PartialEq for Body {
    fn eq(&self, other: &Body) -> (r: bool) {
        match (self, other) {
            (Body::Bytes(a), Body::Bytes(b)) => bytes_eq(a.as_slice(), b.as_slice()),
            (Body::Str(a), Body::Str(b)) => *a == *b,
            _ => false,
        }
    }
}

impl PartialEqSpecImpl for Body {
    open spec fn obeys_eq_spec() -> bool {
        true
    }

    open spec fn eq_spec(&self, other: &Body) -> bool {
        self@ == other@
    }
}

impl Clone for Body {
    fn clone(&self) -> (r: Body)
        ensures
            r@ == self@,
    {
        match self {
            Body::Bytes(b) => Body::Bytes(b.clone()),
            Body::Str(s) => Body::Str(s.clone()),
        }
    }
}

/// Taking a body from bytes and writing it out again gives the same bytes,
/// whether they are text or not.
pub proof fn lemma_body_round_trip(bytes: Seq<u8>)
    ensures
        BodyView::of_bytes(bytes).content() == bytes,
{
    if valid_utf8(bytes) {
        decode_utf8_encode_utf8(bytes);
    }
}

} // verus!
