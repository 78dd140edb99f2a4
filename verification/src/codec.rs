//! The document that holds one recorded pair: how a request and its
//! response are laid out as a YAML tree, and how they are read back from
//! one.
//!
//! A document is a sequence of two tagged records, the request first:
//!
//! ```text
//! - Request:
//!     method: GET
//!     url: "https://example.com/"
//!     headers:
//!       Accept:
//!         - text/plain
//!     body: ""
//! - Response:
//!     status: 200
//!     version: ~
//!     headers: {}
//!     body: hello
//! ```
//!
//! A body that is text is a string, any other body the sequence of its
//! bytes.

use vstd::prelude::*;
use crate::body::{Body, BodyView};
use crate::headers::{collected, lemma_collected_unique, HeaderEntry, Headers};
use crate::keyed::names_of;
use crate::http::Version;
use crate::record::{RequestParts, ResponseParts, VcrRequest, VcrResponse};
use crate::text::str_eq;
use crate::yaml::{entries_view, items_view, lemma_mapping_view, lemma_sequence_view, writable, Yaml, YamlView};

verus! {

/// The tree of a list of strings.
pub open spec fn strings_tree(values: Seq<Seq<char>>) -> YamlView {
    YamlView::Sequence(values.map_values(|value: Seq<char>| YamlView::Str(value)))
}

/// The tree of a list of headers: a mapping from each name to its values.
pub open spec fn headers_tree(entries: Seq<HeaderEntry>) -> YamlView {
    YamlView::Mapping(
        entries.map_values(|entry: HeaderEntry| (YamlView::Str(entry.0), strings_tree(entry.1))),
    )
}

/// The tree of a body: a string for text, the sequence of the bytes
/// otherwise.
pub open spec fn body_tree(body: BodyView) -> YamlView {
    match body {
        BodyView::Str(text) => YamlView::Str(text),
        BodyView::Bytes(bytes) => YamlView::Sequence(
            bytes.map_values(|byte: u8| YamlView::Int(byte as int)),
        ),
    }
}

/// The tree of a protocol version: its name, or null where none was given.
pub open spec fn version_tree(version: Option<Version>) -> YamlView {
    match version {
        Some(v) => YamlView::Str(v.name()),
        None => YamlView::Null,
    }
}

/// The tree of a request: a mapping of its four parts.
pub open spec fn request_tree(request: RequestParts) -> YamlView {
    YamlView::Mapping(
        seq![
            (YamlView::Str("method"@), YamlView::Str(request.method)),
            (YamlView::Str("url"@), YamlView::Str(request.url)),
            (YamlView::Str("headers"@), headers_tree(request.headers)),
            (YamlView::Str("body"@), body_tree(request.body)),
        ],
    )
}

/// The tree of a response: a mapping of its four parts.
pub open spec fn response_tree(response: ResponseParts) -> YamlView {
    YamlView::Mapping(
        seq![
            (YamlView::Str("status"@), YamlView::Int(response.status as int)),
            (YamlView::Str("version"@), version_tree(response.version)),
            (YamlView::Str("headers"@), headers_tree(response.headers)),
            (YamlView::Str("body"@), body_tree(response.body)),
        ],
    )
}

/// A record under its tag: a mapping with the tag as its one key.
pub open spec fn tagged(tag: Seq<char>, record: YamlView) -> YamlView {
    YamlView::Mapping(seq![(YamlView::Str(tag), record)])
}

/// The document of a pair: the tagged request, then the tagged response.
pub open spec fn document_tree(request: RequestParts, response: ResponseParts) -> YamlView {
    YamlView::Sequence(
        seq![
            tagged("Request"@, request_tree(request)),
            tagged("Response"@, response_tree(response)),
        ],
    )
}

/// The value of the first entry of a mapping whose key is the string `key`.
pub open spec fn field(entries: Seq<(YamlView, YamlView)>, key: Seq<char>) -> Option<YamlView>
    decreases entries.len(),
{
    if entries.len() == 0 {
        None
    } else if entries[0].0 == YamlView::Str(key) {
        Some(entries[0].1)
    } else {
        field(entries.drop_first(), key)
    }
}

/// The string that a tree is, if it is one.
pub open spec fn as_text(tree: YamlView) -> Option<Seq<char>> {
    match tree {
        YamlView::Str(text) => Some(text),
        _ => None,
    }
}

/// The strings of a tree that is a sequence of strings.
pub open spec fn as_strings(tree: YamlView) -> Option<Seq<Seq<char>>> {
    match tree {
        YamlView::Sequence(items) => if forall|i: int| 0 <= i < items.len() ==> (#[trigger] items[i]) is Str {
            Some(items.map_values(|item: YamlView| item->Str_0))
        } else {
            None
        },
        _ => None,
    }
}

/// Whether a tree is an integer that fits a byte.
pub open spec fn is_byte(tree: YamlView) -> bool {
    tree matches YamlView::Int(i) && 0 <= i <= 255
}

/// The bytes of a tree that is a sequence of integers from 0 to 255.
pub open spec fn as_bytes(tree: YamlView) -> Option<Seq<u8>> {
    match tree {
        YamlView::Sequence(items) => if forall|i: int| 0 <= i < items.len() ==> is_byte(#[trigger] items[i]) {
            Some(items.map_values(|item: YamlView| item->Int_0 as u8))
        } else {
            None
        },
        _ => None,
    }
}

/// Whether an entry of a mapping is a header: a string with a sequence of
/// strings.
pub open spec fn is_header(entry: (YamlView, YamlView)) -> bool {
    entry.0 is Str && as_strings(entry.1) is Some
}

/// The headers of a tree that is a mapping from strings to sequences of
/// strings, in the order of the mapping.
pub open spec fn as_header_lines(tree: YamlView) -> Option<Seq<HeaderEntry>> {
    match tree {
        YamlView::Mapping(entries) => if forall|i: int|
            0 <= i < entries.len() ==> is_header(#[trigger] entries[i]) {
            Some(
                entries.map_values(
                    |entry: (YamlView, YamlView)| (entry.0->Str_0, as_strings(entry.1)->Some_0),
                ),
            )
        } else {
            None
        },
        _ => None,
    }
}

/// The headers that a tree holds: its header lines, collected.
pub open spec fn decoded_headers(tree: YamlView) -> Option<Seq<HeaderEntry>> {
    match as_header_lines(tree) {
        Some(lines) => Some(collected(lines)),
        None => None,
    }
}

/// The body that a tree holds: bytes for a sequence of bytes, text for a
/// string.
pub open spec fn decoded_body(tree: YamlView) -> Option<BodyView> {
    match tree {
        YamlView::Str(text) => Some(BodyView::Str(text)),
        _ => match as_bytes(tree) {
            Some(bytes) => Some(BodyView::Bytes(bytes)),
            None => None,
        },
    }
}

/// The status code that a tree holds.
pub open spec fn decoded_status(tree: YamlView) -> Option<u16> {
    match tree {
        YamlView::Int(i) => if 0 <= i <= u16::MAX {
            Some(i as u16)
        } else {
            None
        },
        _ => None,
    }
}

/// The protocol version that the field `version` holds: none where the
/// field is absent or null, else the version that its string names.
pub open spec fn decoded_version(found: Option<YamlView>) -> Option<Option<Version>> {
    match found {
        None => Some(None),
        Some(YamlView::Null) => Some(None),
        Some(YamlView::Str(text)) => match Version::named(text) {
            Some(v) => Some(Some(v)),
            None => None,
        },
        Some(_) => None,
    }
}

/// The request that a tree holds: a mapping with the fields `method`, `url`,
/// `headers` and `body`, each of its kind. Other fields are passed over.
pub open spec fn decoded_request(tree: YamlView) -> Option<RequestParts> {
    match tree {
        YamlView::Mapping(fields) => match (
            field(fields, "method"@),
            field(fields, "url"@),
            field(fields, "headers"@),
            field(fields, "body"@),
        ) {
            (Some(method), Some(url), Some(headers), Some(body)) => match (
                as_text(method),
                as_text(url),
                decoded_headers(headers),
                decoded_body(body),
            ) {
                (Some(method), Some(url), Some(headers), Some(body)) => Some(
                    RequestParts { method, url, headers, body },
                ),
                _ => None,
            },
            _ => None,
        },
        _ => None,
    }
}

/// The response that a tree holds: a mapping with the fields `status`,
/// `headers` and `body`, each of its kind, and `version` if it is there.
/// Other fields are passed over.
pub open spec fn decoded_response(tree: YamlView) -> Option<ResponseParts> {
    match tree {
        YamlView::Mapping(fields) => match (
            field(fields, "status"@),
            field(fields, "headers"@),
            field(fields, "body"@),
        ) {
            (Some(status), Some(headers), Some(body)) => match (
                decoded_status(status),
                decoded_version(field(fields, "version"@)),
                decoded_headers(headers),
                decoded_body(body),
            ) {
                (Some(status), Some(version), Some(headers), Some(body)) => Some(
                    ResponseParts { status, version, headers, body },
                ),
                _ => None,
            },
            _ => None,
        },
        _ => None,
    }
}

/// The record under a tag: the value of a mapping whose one key is the tag.
pub open spec fn untagged(tree: YamlView, tag: Seq<char>) -> Option<YamlView> {
    match tree {
        YamlView::Mapping(entries) => if entries.len() == 1 && entries[0].0 == YamlView::Str(tag) {
            Some(entries[0].1)
        } else {
            None
        },
        _ => None,
    }
}

/// The pair that a document holds: a sequence of a request under the tag
/// `Request` and a response under the tag `Response`, in this order.
pub open spec fn decoded_pair(tree: YamlView) -> Option<(RequestParts, ResponseParts)> {
    match tree {
        YamlView::Sequence(items) => if items.len() == 2 {
            match (untagged(items[0], "Request"@), untagged(items[1], "Response"@)) {
                (Some(first), Some(second)) => match (decoded_request(first), decoded_response(second)) {
                    (Some(request), Some(response)) => Some((request, response)),
                    _ => None,
                },
                _ => None,
            }
        } else {
            None
        },
        _ => None,
    }
}

/// A field is found at the first entry that has its key.
pub proof fn lemma_field_at(entries: Seq<(YamlView, YamlView)>, key: Seq<char>, k: int)
    requires
        0 <= k < entries.len(),
        entries[k].0 == YamlView::Str(key),
        forall|j: int| 0 <= j < k ==> entries[j].0 != YamlView::Str(key),
    ensures
        field(entries, key) == Some(entries[k].1),
    decreases k,
{
    if k > 0 {
        let rest = entries.drop_first();
        assert(rest[k - 1] == entries[k]);
        assert forall|j: int| 0 <= j < k - 1 implies rest[j].0 != YamlView::Str(key) by {
            assert(rest[j] == entries[j + 1]);
        }
        lemma_field_at(rest, key, k - 1);
    }
}

/// A field that no entry has as its key is not found.
pub proof fn lemma_field_absent(entries: Seq<(YamlView, YamlView)>, key: Seq<char>)
    requires
        forall|j: int| 0 <= j < entries.len() ==> entries[j].0 != YamlView::Str(key),
    ensures
        field(entries, key) is None,
    decreases entries.len(),
{
    if entries.len() > 0 {
        let rest = entries.drop_first();
        assert forall|j: int| 0 <= j < rest.len() implies rest[j].0 != YamlView::Str(key) by {
            assert(rest[j] == entries[j + 1]);
        }
        lemma_field_absent(rest, key);
    }
}

/// The names of the fields and tags are different from each other.
pub proof fn lemma_field_names()
    ensures
        "method"@ != "url"@,
        "method"@ != "headers"@,
        "method"@ != "body"@,
        "url"@ != "headers"@,
        "url"@ != "body"@,
        "headers"@ != "body"@,
        "status"@ != "version"@,
        "status"@ != "headers"@,
        "status"@ != "body"@,
        "version"@ != "headers"@,
        "version"@ != "body"@,
        "Request"@ != "Response"@,
{
    reveal_strlit("method");
    reveal_strlit("url");
    reveal_strlit("headers");
    reveal_strlit("body");
    reveal_strlit("status");
    reveal_strlit("version");
    reveal_strlit("Request");
    reveal_strlit("Response");
    assert("method"@.len() == 6 && "method"@[0] == 'm');
    assert("url"@.len() == 3);
    assert("headers"@.len() == 7 && "headers"@[0] == 'h');
    assert("body"@.len() == 4);
    assert("status"@.len() == 6 && "status"@[0] == 's');
    assert("version"@.len() == 7 && "version"@[0] == 'v');
    assert("Request"@.len() == 7);
    assert("Response"@.len() == 8);
}

/// A list of strings is read back from its tree.
pub proof fn lemma_strings_round_trip(values: Seq<Seq<char>>)
    ensures
        as_strings(strings_tree(values)) == Some(values),
{
    let items = strings_tree(values)->Sequence_0;
    assert(items.map_values(|item: YamlView| item->Str_0) =~= values);
}

/// A list of headers that repeats no name is read back from its tree.
pub proof fn lemma_headers_round_trip(entries: Seq<HeaderEntry>)
    requires
        names_of(entries).no_duplicates(),
    ensures
        as_header_lines(headers_tree(entries)) == Some(entries),
        decoded_headers(headers_tree(entries)) == Some(entries),
{
    let held = headers_tree(entries)->Mapping_0;
    assert forall|i: int| 0 <= i < held.len() implies is_header(#[trigger] held[i]) && (
        held[i].0->Str_0,
        as_strings(held[i].1)->Some_0,
    ) == entries[i] by {
        lemma_strings_round_trip(entries[i].1);
    }
    assert(held.map_values(
        |entry: (YamlView, YamlView)| (entry.0->Str_0, as_strings(entry.1)->Some_0),
    ) =~= entries);
    lemma_collected_unique(entries);
}

/// A body is read back from its tree, text as text and bytes as bytes.
pub proof fn lemma_body_tree_round_trip(body: BodyView)
    ensures
        decoded_body(body_tree(body)) == Some(body),
{
    match body {
        BodyView::Str(_) => {},
        BodyView::Bytes(bytes) => {
            let items = body_tree(body)->Sequence_0;
            assert forall|i: int| 0 <= i < items.len() implies is_byte(#[trigger] items[i]) by {}
            assert(items.map_values(|item: YamlView| item->Int_0 as u8) =~= bytes);
        },
    }
}

/// A request whose headers repeat no name is read back from its tree.
pub proof fn lemma_request_round_trip(request: RequestParts)
    requires
        request.wf(),
    ensures
        decoded_request(request_tree(request)) == Some(request),
{
    let fields = request_tree(request)->Mapping_0;
    lemma_field_names();
    lemma_field_at(fields, "method"@, 0);
    lemma_field_at(fields, "url"@, 1);
    lemma_field_at(fields, "headers"@, 2);
    lemma_field_at(fields, "body"@, 3);
    lemma_headers_round_trip(request.headers);
    lemma_body_tree_round_trip(request.body);
}

/// A response whose headers repeat no name is read back from its tree.
pub proof fn lemma_response_round_trip(response: ResponseParts)
    requires
        response.wf(),
    ensures
        decoded_response(response_tree(response)) == Some(response),
{
    let fields = response_tree(response)->Mapping_0;
    lemma_field_names();
    lemma_field_at(fields, "status"@, 0);
    lemma_field_at(fields, "version"@, 1);
    lemma_field_at(fields, "headers"@, 2);
    lemma_field_at(fields, "body"@, 3);
    lemma_headers_round_trip(response.headers);
    lemma_body_tree_round_trip(response.body);
    match response.version {
        Some(v) => {
            v.lemma_named_name();
        },
        None => {},
    }
}

/// Writing a pair down as a document and reading the document back gives
/// the pair again: method, URL, status, version, every header with its
/// values in order, and the body as it was, text or bytes.
pub proof fn lemma_document_round_trip(request: RequestParts, response: ResponseParts)
    requires
        request.wf(),
        response.wf(),
    ensures
        decoded_pair(document_tree(request, response)) == Some((request, response)),
{
    lemma_request_round_trip(request);
    lemma_response_round_trip(response);
}

/// The tree of a list of strings is writable.
pub proof fn lemma_strings_writable(values: Seq<Seq<char>>)
    ensures
        writable(strings_tree(values)),
{
    let items = strings_tree(values)->Sequence_0;
    assert forall|i: int| 0 <= i < items.len() implies writable(#[trigger] items[i]) by {}
}

/// The tree of a list of headers that repeats no name is writable.
pub proof fn lemma_headers_writable(entries: Seq<HeaderEntry>)
    requires
        names_of(entries).no_duplicates(),
    ensures
        writable(headers_tree(entries)),
{
    let held = headers_tree(entries)->Mapping_0;
    assert forall|i: int| 0 <= i < held.len() implies writable((#[trigger] held[i]).0) && writable(
        held[i].1,
    ) by {
        lemma_strings_writable(entries[i].1);
    }
    assert forall|i: int, j: int| 0 <= i < j < held.len() implies (#[trigger] held[i]).0 != (
    #[trigger] held[j]).0 by {
        assert(names_of(entries)[i] != names_of(entries)[j]);
    }
}

/// The tree of a body is writable.
pub proof fn lemma_body_writable(body: BodyView)
    ensures
        writable(body_tree(body)),
{
    match body {
        BodyView::Str(_) => {},
        BodyView::Bytes(bytes) => {
            let items = body_tree(body)->Sequence_0;
            assert forall|i: int| 0 <= i < items.len() implies writable(#[trigger] items[i]) by {}
        },
    }
}

/// The document of a pair whose headers repeat no name is writable.
pub proof fn lemma_document_writable(request: RequestParts, response: ResponseParts)
    requires
        request.wf(),
        response.wf(),
    ensures
        writable(document_tree(request, response)),
{
    lemma_field_names();
    lemma_headers_writable(request.headers);
    lemma_headers_writable(response.headers);
    lemma_body_writable(request.body);
    lemma_body_writable(response.body);
    let request_fields = request_tree(request)->Mapping_0;
    assert forall|i: int| 0 <= i < request_fields.len() implies writable(
        (#[trigger] request_fields[i]).0,
    ) && writable(request_fields[i].1) by {}
    assert(writable(request_tree(request)));
    let response_fields = response_tree(response)->Mapping_0;
    assert forall|i: int| 0 <= i < response_fields.len() implies writable(
        (#[trigger] response_fields[i]).0,
    ) && writable(response_fields[i].1) by {}
    assert(writable(response_tree(response)));
    let first = tagged("Request"@, request_tree(request));
    let second = tagged("Response"@, response_tree(response));
    assert forall|i: int| 0 <= i < first->Mapping_0.len() implies writable(
        (#[trigger] first->Mapping_0[i]).0,
    ) && writable(first->Mapping_0[i].1) by {}
    assert forall|i: int| 0 <= i < second->Mapping_0.len() implies writable(
        (#[trigger] second->Mapping_0[i]).0,
    ) && writable(second->Mapping_0[i].1) by {}
    assert(writable(first));
    assert(writable(second));
    let items = document_tree(request, response)->Sequence_0;
    assert forall|i: int| 0 <= i < items.len() implies writable(#[trigger] items[i]) by {}
}

/// A string as a tree.
fn text_to_tree(text: &str) -> (tree: Yaml)
    ensures
        tree@ == YamlView::Str(text@),
{
    Yaml::Str(text.to_owned())
}

/// A list of strings as a tree.
fn strings_to_tree(values: &Vec<String>) -> (tree: Yaml)
    ensures
        tree@ == strings_tree(values.deep_view()),
{
    let mut items: Vec<Yaml> = Vec::new();
    let mut i: usize = 0;
    while i < values.len()
        invariant
            i <= values.len(),
            items.len() == i,
            forall|j: int| 0 <= j < i ==> (#[trigger] items@[j])@ == YamlView::Str(values@[j]@),
        decreases values.len() - i,
    {
        items.push(Yaml::Str(values[i].clone()));
        i += 1;
    }
    proof {
        lemma_sequence_view(items);
        assert(items_view(items@) =~= values.deep_view().map_values(
            |value: Seq<char>| YamlView::Str(value),
        ));
    }
    Yaml::Sequence(items)
}

/// A header map as a tree, the headers in the order in which they are kept.
fn headers_to_tree(headers: &Headers) -> (tree: Yaml)
    ensures
        tree@ == headers_tree(headers.entries()),
{
    let mut held: Vec<(Yaml, Yaml)> = Vec::new();
    let n = headers.len();
    let mut i: usize = 0;
    while i < n
        invariant
            n == headers.entries().len(),
            i <= n,
            held.len() == i,
            forall|j: int|
                0 <= j < i ==> (#[trigger] held@[j]).0@ == YamlView::Str(headers.entries()[j].0)
                    && held@[j].1@ == strings_tree(headers.entries()[j].1),
        decreases n - i,
    {
        let key = text_to_tree(headers.name_at(i).as_str());
        let values = strings_to_tree(headers.values_at(i));
        held.push((key, values));
        i += 1;
    }
    proof {
        lemma_mapping_view(held);
        assert(entries_view(held@) =~= headers.entries().map_values(
            |entry: HeaderEntry| (YamlView::Str(entry.0), strings_tree(entry.1)),
        ));
    }
    Yaml::Mapping(held)
}

/// A body as a tree.
fn body_to_tree(body: &Body) -> (tree: Yaml)
    ensures
        tree@ == body_tree(body@),
{
    match body {
        Body::Str(text) => Yaml::Str(text.clone()),
        Body::Bytes(bytes) => {
            let mut items: Vec<Yaml> = Vec::new();
            let mut i: usize = 0;
            while i < bytes.len()
                invariant
                    i <= bytes.len(),
                    items.len() == i,
                    forall|j: int| 0 <= j < i ==> (#[trigger] items@[j])@ == YamlView::Int(bytes@[j] as int),
                decreases bytes.len() - i,
            {
                items.push(Yaml::Int(bytes[i] as i64));
                i += 1;
            }
            proof {
                lemma_sequence_view(items);
                assert(items_view(items@) =~= bytes@.map_values(|byte: u8| YamlView::Int(byte as int)));
            }
            Yaml::Sequence(items)
        },
    }
}

/// A mapping of four fields.
fn four_fields(a: (Yaml, Yaml), b: (Yaml, Yaml), c: (Yaml, Yaml), d: (Yaml, Yaml)) -> (tree: Yaml)
    ensures
        tree@ == YamlView::Mapping(seq![(a.0@, a.1@), (b.0@, b.1@), (c.0@, c.1@), (d.0@, d.1@)]),
{
    let mut fields: Vec<(Yaml, Yaml)> = Vec::new();
    fields.push(a);
    fields.push(b);
    fields.push(c);
    fields.push(d);
    proof {
        lemma_mapping_view(fields);
        assert(entries_view(fields@) =~= seq![(a.0@, a.1@), (b.0@, b.1@), (c.0@, c.1@), (d.0@, d.1@)]);
    }
    Yaml::Mapping(fields)
}

/// A request as a tree.
fn request_to_tree(request: &VcrRequest) -> (tree: Yaml)
    ensures
        tree@ == request_tree(request.parts()),
{
    four_fields(
        (text_to_tree("method"), text_to_tree(request.method.as_str())),
        (text_to_tree("url"), text_to_tree(request.url.as_str())),
        (text_to_tree("headers"), headers_to_tree(&request.headers)),
        (text_to_tree("body"), body_to_tree(&request.body)),
    )
}

/// A response as a tree.
fn response_to_tree(response: &VcrResponse) -> (tree: Yaml)
    ensures
        tree@ == response_tree(response.parts()),
{
    let version = match response.version {
        Some(v) => text_to_tree(v.as_str()),
        None => Yaml::Null,
    };
    four_fields(
        (text_to_tree("status"), Yaml::Int(response.status as i64)),
        (text_to_tree("version"), version),
        (text_to_tree("headers"), headers_to_tree(&response.headers)),
        (text_to_tree("body"), body_to_tree(&response.body)),
    )
}

/// A record under its tag.
fn tag_record(tag: &str, record: Yaml) -> (tree: Yaml)
    ensures
        tree@ == tagged(tag@, record@),
{
    let mut entries: Vec<(Yaml, Yaml)> = Vec::new();
    entries.push((text_to_tree(tag), record));
    proof {
        lemma_mapping_view(entries);
        assert(entries_view(entries@) =~= seq![(YamlView::Str(tag@), record@)]);
    }
    Yaml::Mapping(entries)
}

/// The document of a pair, as a tree that can be written out.
pub fn encode_pair(request: &VcrRequest, response: &VcrResponse) -> (tree: Yaml)
    ensures
        tree@ == document_tree(request.parts(), response.parts()),
        writable(tree@),
{
    let mut items: Vec<Yaml> = Vec::new();
    items.push(tag_record("Request", request_to_tree(request)));
    items.push(tag_record("Response", response_to_tree(response)));
    proof {
        lemma_sequence_view(items);
        assert(items_view(items@) =~= seq![
            tagged("Request"@, request_tree(request.parts())),
            tagged("Response"@, response_tree(response.parts())),
        ]);
        use_type_invariant(&request.headers);
        use_type_invariant(&response.headers);
        request.headers.lemma_wf();
        response.headers.lemma_wf();
        lemma_document_writable(request.parts(), response.parts());
    }
    Yaml::Sequence(items)
}

/// The value of the first entry whose key is the string `key`.
fn find_field<'a>(entries: &'a Vec<(Yaml, Yaml)>, key: &str) -> (r: Option<&'a Yaml>)
    ensures
        match r {
            Some(value) => field(entries_view(entries@), key@) == Some(value@),
            None => field(entries_view(entries@), key@) is None,
        },
{
    let ghost all = entries_view(entries@);
    let mut i: usize = 0;
    while i < entries.len()
        invariant
            i <= entries.len(),
            all == entries_view(entries@),
            forall|j: int| 0 <= j < i ==> all[j].0 != YamlView::Str(key@),
        decreases entries.len() - i,
    {
        let found = match &entries[i].0 {
            Yaml::Str(name) => str_eq(name.as_str(), key),
            _ => false,
        };
        assert(found == (all[i as int].0 == YamlView::Str(key@)));
        if found {
            proof {
                lemma_field_at(all, key@, i as int);
            }
            return Some(&entries[i].1);
        }
        i += 1;
    }
    proof {
        lemma_field_absent(all, key@);
    }
    None
}

/// The string that a tree is.
fn tree_text(tree: &Yaml) -> (r: Option<&String>)
    ensures
        match r {
            Some(text) => as_text(tree@) == Some(text@),
            None => as_text(tree@) is None,
        },
{
    match tree {
        Yaml::Str(text) => Some(text),
        _ => None,
    }
}

/// The strings of a sequence of strings.
fn tree_strings(tree: &Yaml) -> (r: Option<Vec<String>>)
    ensures
        match r {
            Some(values) => as_strings(tree@) == Some(values.deep_view()),
            None => as_strings(tree@) is None,
        },
{
    match tree {
        Yaml::Sequence(items) => {
            proof {
                lemma_sequence_view(*items);
            }
            let ghost all = items_view(items@);
            let mut values: Vec<String> = Vec::new();
            let mut i: usize = 0;
            while i < items.len()
                invariant
                    i <= items.len(),
                    all == items_view(items@),
                    tree@ == YamlView::Sequence(all),
                    values.len() == i,
                    forall|j: int| 0 <= j < i ==> (#[trigger] all[j]) is Str && all[j]->Str_0 == values@[j]@,
                decreases items.len() - i,
            {
                match &items[i] {
                    Yaml::Str(text) => {
                        values.push(text.clone());
                    },
                    _ => {
                        assert(!(all[i as int] is Str));
                        return None;
                    },
                }
                i += 1;
            }
            assert(all.map_values(|item: YamlView| item->Str_0) =~= values.deep_view());
            Some(values)
        },
        _ => None,
    }
}

/// The bytes of a sequence of integers from 0 to 255.
fn tree_bytes(tree: &Yaml) -> (r: Option<Vec<u8>>)
    ensures
        match r {
            Some(bytes) => as_bytes(tree@) == Some(bytes@),
            None => as_bytes(tree@) is None,
        },
{
    match tree {
        Yaml::Sequence(items) => {
            proof {
                lemma_sequence_view(*items);
            }
            let ghost all = items_view(items@);
            let mut bytes: Vec<u8> = Vec::new();
            let mut i: usize = 0;
            while i < items.len()
                invariant
                    i <= items.len(),
                    all == items_view(items@),
                    tree@ == YamlView::Sequence(all),
                    bytes.len() == i,
                    forall|j: int| 0 <= j < i ==> is_byte(#[trigger] all[j]) && all[j]->Int_0 == bytes@[j],
                decreases items.len() - i,
            {
                match &items[i] {
                    Yaml::Int(n) => {
                        if 0 <= *n && *n <= 255 {
                            bytes.push(*n as u8);
                        } else {
                            assert(!is_byte(all[i as int]));
                            return None;
                        }
                    },
                    _ => {
                        assert(!is_byte(all[i as int]));
                        return None;
                    },
                }
                i += 1;
            }
            assert(all.map_values(|item: YamlView| item->Int_0 as u8) =~= bytes@);
            Some(bytes)
        },
        _ => None,
    }
}

/// The headers of a mapping from strings to sequences of strings.
fn tree_headers(tree: &Yaml) -> (r: Option<Headers>)
    ensures
        match r {
            Some(headers) => headers.wf() && decoded_headers(tree@) == Some(headers.entries()),
            None => decoded_headers(tree@) is None,
        },
{
    match tree {
        Yaml::Mapping(entries) => {
            proof {
                lemma_mapping_view(*entries);
            }
            let ghost all = entries_view(entries@);
            let ghost lines = all.map_values(
                |entry: (YamlView, YamlView)| (entry.0->Str_0, as_strings(entry.1)->Some_0),
            );
            let mut headers = Headers::new();
            let mut i: usize = 0;
            assert(lines.subrange(0, 0) =~= Seq::<HeaderEntry>::empty());
            while i < entries.len()
                invariant
                    i <= entries.len(),
                    all == entries_view(entries@),
                    tree@ == YamlView::Mapping(all),
                    lines == all.map_values(
                        |entry: (YamlView, YamlView)| (entry.0->Str_0, as_strings(entry.1)->Some_0),
                    ),
                    headers.wf(),
                    headers.entries() == collected(lines.subrange(0, i as int)),
                    forall|j: int| 0 <= j < i ==> is_header(#[trigger] all[j]),
                decreases entries.len() - i,
            {
                let name = match tree_text(&entries[i].0) {
                    Some(name) => name,
                    None => {
                        assert(!is_header(all[i as int]));
                        return None;
                    },
                };
                let values = match tree_strings(&entries[i].1) {
                    Some(values) => values,
                    None => {
                        assert(!is_header(all[i as int]));
                        return None;
                    },
                };
                assert(is_header(all[i as int]));
                headers.insert(name.clone(), values);
                proof {
                    let done = lines.subrange(0, i + 1);
                    assert(done.drop_last() =~= lines.subrange(0, i as int));
                    assert(done.last() == lines[i as int]);
                }
                i += 1;
            }
            assert(lines.subrange(0, i as int) =~= lines);
            Some(headers)
        },
        _ => None,
    }
}

/// The body that a tree holds.
fn tree_body(tree: &Yaml) -> (r: Option<Body>)
    ensures
        match r {
            Some(body) => decoded_body(tree@) == Some(body@),
            None => decoded_body(tree@) is None,
        },
{
    match tree {
        Yaml::Str(text) => Some(Body::Str(text.clone())),
        _ => match tree_bytes(tree) {
            Some(bytes) => Some(Body::Bytes(bytes)),
            None => None,
        },
    }
}

/// The status code that a tree holds.
fn tree_status(tree: &Yaml) -> (r: Option<u16>)
    ensures
        r == decoded_status(tree@),
{
    match tree {
        Yaml::Int(n) => if 0 <= *n && *n <= 65535 {
            Some(*n as u16)
        } else {
            None
        },
        _ => None,
    }
}

/// The protocol version that the field `version` holds.
fn tree_version(found: Option<&Yaml>) -> (r: Option<Option<Version>>)
    ensures
        r == decoded_version(
            match found {
                Some(tree) => Some(tree@),
                None => None,
            },
        ),
{
    match found {
        None => Some(None),
        Some(Yaml::Null) => Some(None),
        Some(Yaml::Str(text)) => match Version::parse(text.as_str()) {
            Some(v) => Some(Some(v)),
            None => None,
        },
        Some(_) => None,
    }
}

/// The request that a tree holds.
fn tree_request(tree: &Yaml) -> (r: Option<VcrRequest>)
    ensures
        match r {
            Some(request) => request.wf() && decoded_request(tree@) == Some(request.parts()),
            None => decoded_request(tree@) is None,
        },
{
    let fields = match tree {
        Yaml::Mapping(fields) => fields,
        _ => {
            return None;
        },
    };
    proof {
        lemma_mapping_view(*fields);
    }
    let method = find_field(fields, "method")?;
    let url = find_field(fields, "url")?;
    let headers = find_field(fields, "headers")?;
    let body = find_field(fields, "body")?;
    let method = tree_text(method)?;
    let url = tree_text(url)?;
    let headers = tree_headers(headers)?;
    let body = tree_body(body)?;
    Some(VcrRequest { method: method.clone(), url: url.clone(), headers, body })
}

/// The response that a tree holds.
fn tree_response(tree: &Yaml) -> (r: Option<VcrResponse>)
    ensures
        match r {
            Some(response) => response.wf() && decoded_response(tree@) == Some(response.parts()),
            None => decoded_response(tree@) is None,
        },
{
    let fields = match tree {
        Yaml::Mapping(fields) => fields,
        _ => {
            return None;
        },
    };
    proof {
        lemma_mapping_view(*fields);
    }
    let status = find_field(fields, "status")?;
    let headers = find_field(fields, "headers")?;
    let body = find_field(fields, "body")?;
    let status = tree_status(status)?;
    let version = tree_version(find_field(fields, "version"))?;
    let headers = tree_headers(headers)?;
    let body = tree_body(body)?;
    Some(VcrResponse { status, version, headers, body })
}

/// The record under a tag.
fn untag<'a>(tree: &'a Yaml, tag: &str) -> (r: Option<&'a Yaml>)
    ensures
        match r {
            Some(record) => untagged(tree@, tag@) == Some(record@),
            None => untagged(tree@, tag@) is None,
        },
{
    match tree {
        Yaml::Mapping(entries) => {
            proof {
                lemma_mapping_view(*entries);
            }
            if entries.len() != 1 {
                return None;
            }
            let found = match &entries[0].0 {
                Yaml::Str(name) => str_eq(name.as_str(), tag),
                _ => false,
            };
            assert(found == (entries_view(entries@)[0].0 == YamlView::Str(tag@)));
            if found {
                Some(&entries[0].1)
            } else {
                None
            }
        },
        _ => None,
    }
}

/// Reads the pair that a document holds: `None` where the tree is not a
/// document.
pub fn decode_pair(tree: &Yaml) -> (r: Option<(VcrRequest, VcrResponse)>)
    ensures
        match r {
            Some((request, response)) => {
                &&& request.wf()
                &&& response.wf()
                &&& decoded_pair(tree@) == Some((request.parts(), response.parts()))
            },
            None => decoded_pair(tree@) is None,
        },
{
    let items = match tree {
        Yaml::Sequence(items) => items,
        _ => {
            return None;
        },
    };
    proof {
        lemma_sequence_view(*items);
    }
    if items.len() != 2 {
        return None;
    }
    let first = untag(&items[0], "Request")?;
    let second = untag(&items[1], "Response")?;
    let request = tree_request(first)?;
    let response = tree_response(second)?;
    Some((request, response))
}

} // verus!
