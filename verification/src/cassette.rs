//! Cassettes as text: one document for each recorded pair, and the stream
//! of documents that a cassette's file holds.

use vstd::prelude::*;
use vstd::utf8::*;
use crate::codec::{decode_pair, decoded_pair, document_tree, encode_pair};
use crate::error::{ParseError, VcrError};
use crate::framing::{
    bytes_of, holds_no_marker, join, join_documents, lemma_joined_bytes, lemma_split_join, split, split_documents,
    SEPARATOR,
};
use crate::http::{canonical_method, canonical_url, known_status, method_name, status_known, url_text};
use crate::record::{RequestParts, ResponseParts, VcrRequest, VcrResponse};
use crate::session::{Session, SessionView};
use crate::text::{joined, str_eq};
use crate::yaml::{yaml_read, yaml_written, Yaml};

verus! {

/// The text of a string that may be absent.
pub open spec fn text_of(found: Option<String>) -> Option<Seq<char>> {
    match found {
        Some(text) => Some(text@),
        None => None,
    }
}

/// A pair with the name of its method and the text of its URL replaced by
/// those given, `None` where one of them is absent or the status is not
/// known.
pub open spec fn named_pair(
    request: RequestParts,
    response: ResponseParts,
    method: Option<Seq<char>>,
    url: Option<Seq<char>>,
    known: bool,
) -> Option<(RequestParts, ResponseParts)> {
    match (method, url) {
        (Some(method), Some(url)) => if known {
            Some((RequestParts { method, url, headers: request.headers, body: request.body }, response))
        } else {
            None
        },
        _ => None,
    }
}

/// A pair as the HTTP types write it: the method under its own name, the
/// URL in its own text. `None` where the method is not one of HTTP's
/// methods, the URL no absolute URL, or the status not one of HTTP's status
/// codes.
pub open spec fn canonical_pair(request: RequestParts, response: ResponseParts) -> Option<
    (RequestParts, ResponseParts),
> {
    named_pair(
        request,
        response,
        method_name(request.method),
        url_text(request.url),
        status_known(response.status),
    )
}

/// Whether a pair is written as the HTTP types write it.
pub open spec fn is_canonical(request: RequestParts, response: ResponseParts) -> bool {
    canonical_pair(request, response) == Some((request, response))
}

/// The pair that a document's text holds: the text is read as YAML, the
/// tree as a pair, and the pair is taken as the HTTP types write it.
pub open spec fn decoded_document(text: Seq<char>) -> Option<(RequestParts, ResponseParts)> {
    match yaml_read(text) {
        Some(tree) => match decoded_pair(tree) {
            Some(pair) => canonical_pair(pair.0, pair.1),
            None => None,
        },
        None => None,
    }
}

/// The text of the document of a pair, `None` where it cannot be written.
pub open spec fn encoded_document(request: RequestParts, response: ResponseParts) -> Option<Seq<char>> {
    yaml_written(document_tree(request, response))
}

/// The documents of a cassette's text. An empty text holds no document.
pub open spec fn documents_of(text: Seq<char>) -> Seq<Seq<char>> {
    if text.len() == 0 {
        Seq::empty()
    } else {
        split(encode_utf8(text)).map_values(|document: Seq<u8>| decode_utf8(document))
    }
}

/// Whether a session holds the pairs of a cassette's text: one pair for each
/// document, in the order of the text.
pub open spec fn holds(session: SessionView, text: Seq<char>) -> bool {
    &&& session.requests.len() == documents_of(text).len()
    &&& session.responses.len() == documents_of(text).len()
    &&& forall|i: int|
        0 <= i < documents_of(text).len() ==> decoded_document(#[trigger] documents_of(text)[i]) == Some(
            (session.requests[i], session.responses[i]),
        )
}

/// Whether `i` is the place of the first document of a text that holds no
/// pair.
pub open spec fn is_first_bad_document(text: Seq<char>, i: int) -> bool {
    &&& 0 <= i < documents_of(text).len()
    &&& decoded_document(documents_of(text)[i]) is None
    &&& forall|j: int| 0 <= j < i ==> decoded_document(#[trigger] documents_of(text)[j]) is Some
}

/// A text holds the pairs of one session at most.
pub proof fn lemma_holds_one(a: SessionView, b: SessionView, text: Seq<char>)
    requires
        holds(a, text),
        holds(b, text),
    ensures
        a == b,
{
    assert forall|i: int| 0 <= i < a.requests.len() implies a.requests[i] == b.requests[i]
        && a.responses[i] == b.responses[i] by {
        let document = documents_of(text)[i];
        assert(decoded_document(document) == Some((a.requests[i], a.responses[i])));
        assert(decoded_document(document) == Some((b.requests[i], b.responses[i])));
    }
    assert(a.requests =~= b.requests);
    assert(a.responses =~= b.responses);
}

/// A document that holds a pair which is written as the HTTP types write
/// it gives that pair back, if reading the document's text gives the tree
/// that was written.
pub proof fn lemma_decode_encoded(
    request: RequestParts,
    response: ResponseParts,
    text: Seq<char>,
)
    requires
        request.wf(),
        response.wf(),
        is_canonical(request, response),
        encoded_document(request, response) == Some(text),
        yaml_read(text) == Some(document_tree(request, response)),
    ensures
        decoded_document(text) == Some((request, response)),
{
    crate::codec::lemma_document_round_trip(request, response);
}

/// Puts the names that the HTTP types gave into a pair: `method` and `url`
/// are the method's name and the URL's text, `known` says whether the
/// status is one of HTTP's. The pair is refused where a name is absent or
/// the status is not known.
pub fn confirm_pair(
    request: VcrRequest,
    response: VcrResponse,
    method: Option<String>,
    url: Option<String>,
    known: bool,
) -> (r: Option<(VcrRequest, VcrResponse)>)
    ensures
        match r {
            Some((confirmed, answer)) => {
                &&& confirmed.wf()
                &&& answer.wf()
                &&& named_pair(request.parts(), response.parts(), text_of(method), text_of(url), known)
                    == Some((confirmed.parts(), answer.parts()))
            },
            None => named_pair(request.parts(), response.parts(), text_of(method), text_of(url), known)
                is None,
        },
{
    proof {
        use_type_invariant(&request.headers);
        use_type_invariant(&response.headers);
    }
    match (method, url) {
        (Some(method), Some(url)) => {
            if known {
                Some((VcrRequest { method, url, headers: request.headers, body: request.body }, response))
            } else {
                None
            }
        },
        _ => None,
    }
}

/// Whether the names that the HTTP types gave are those that a pair has
/// already: `method` and `url` are the method's name and the URL's text,
/// `known` says whether the status is one of HTTP's.
pub fn keeps_names(
    request: &VcrRequest,
    response: &VcrResponse,
    method: &Option<String>,
    url: &Option<String>,
    known: bool,
) -> (r: bool)
    ensures
        r == (named_pair(request.parts(), response.parts(), text_of(*method), text_of(*url), known) == Some(
            (request.parts(), response.parts()),
        )),
{
    match (method, url) {
        (Some(method), Some(url)) => known && str_eq(method.as_str(), request.method.as_str()) && str_eq(
            url.as_str(),
            request.url.as_str(),
        ),
        _ => false,
    }
}

/// Whether a pair is written as the HTTP types write it: the method under
/// its own name, the URL in its own text, and a status that HTTP knows.
/// Such a pair is read from its document as it is.
pub fn written_as_http(request: &VcrRequest, response: &VcrResponse) -> (r: bool)
    ensures
        r == is_canonical(request.parts(), response.parts()),
{
    let method = canonical_method(request.method.as_str());
    let url = canonical_url(request.url.as_str());
    let known = known_status(response.status);
    keeps_names(request, response, &method, &url, known)
}

/// The text of the document that holds a pair. The error is the writer's
/// message.
pub fn encode(request: &VcrRequest, response: &VcrResponse) -> (r: Result<String, String>)
    ensures
        match r {
            Ok(text) => encoded_document(request.parts(), response.parts()) == Some(text@),
            Err(_) => encoded_document(request.parts(), response.parts()) is None,
        },
{
    encode_pair(request, response).emit()
}

/// Reads the pair that a document's text holds. The error says what is
/// wrong with the document.
pub fn decode(text: &str) -> (r: Result<(VcrRequest, VcrResponse), String>)
    ensures
        match r {
            Ok((request, response)) => {
                &&& request.wf()
                &&& response.wf()
                &&& decoded_document(text@) == Some((request.parts(), response.parts()))
            },
            Err(_) => decoded_document(text@) is None,
        },
{
    let tree = match Yaml::parse(text) {
        Ok(tree) => tree,
        Err(message) => {
            return Err(message);
        },
    };
    let (request, response) = match decode_pair(&tree) {
        Some(pair) => pair,
        None => {
            return Err("the document is not a request and its response".to_owned());
        },
    };
    let method = canonical_method(request.method.as_str());
    let url = canonical_url(request.url.as_str());
    let known = known_status(response.status);
    match confirm_pair(request, response, method, url, known) {
        Some(pair) => Ok(pair),
        None => Err("the method, the URL or the status code is not one that HTTP knows".to_owned()),
    }
}

/// Reads a cassette's text: every document in turn, into a session that
/// holds the pairs in the order of the text. The first document that holds
/// no pair ends the reading with a parse error that names it.
pub fn decode_stream(text: &str) -> (r: Result<Session, VcrError>)
    ensures
        match r {
            Ok(session) => session.wf() && holds(session@, text@),
            Err(VcrError::Parse(error)) => is_first_bad_document(text@, error.document as int),
            Err(_) => false,
        },
{
    let mut session = Session::new();
    if text.is_empty() {
        return Ok(session);
    }
    let documents = split_documents(text);
    proof {
        assert forall|i: int| 0 <= i < documents.len() implies documents_of(text@)[i]
            == #[trigger] documents@[i]@ by {
            assert(bytes_of(documents.deep_view())[i] == encode_utf8(documents@[i]@));
            encode_utf8_decode_utf8(documents@[i]@);
        }
    }
    let mut i: usize = 0;
    while i < documents.len()
        invariant
            i <= documents.len(),
            documents.len() == documents_of(text@).len(),
            forall|j: int| 0 <= j < documents.len() ==> documents_of(text@)[j] == #[trigger] documents@[j]@,
            session.wf(),
            session.request_parts().len() == i,
            session.response_parts().len() == i,
            forall|j: int|
                0 <= j < i ==> decoded_document(#[trigger] documents_of(text@)[j]) == Some(
                    (session.request_parts()[j], session.response_parts()[j]),
                ),
        decreases documents.len() - i,
    {
        match decode(documents[i].as_str()) {
            Ok((request, response)) => {
                session.push(request, response);
            },
            Err(message) => {
                return Err(VcrError::Parse(ParseError { document: i, message }));
            },
        }
        i += 1;
    }
    Ok(session)
}

/// The documents of a list of pairs, `None` where one of them cannot be
/// written.
pub open spec fn encoded_documents(requests: Seq<RequestParts>, responses: Seq<ResponseParts>) -> Option<
    Seq<Seq<char>>,
> {
    if forall|i: int|
        0 <= i < requests.len() ==> (#[trigger] encoded_document(requests[i], responses[i])) is Some {
        Some(Seq::new(requests.len(), |i: int| encoded_document(requests[i], responses[i])->Some_0))
    } else {
        None
    }
}

/// The text of the cassette that holds the pairs of a session: their
/// documents in order, with a separator between each two.
pub fn encode_stream(session: &Session) -> (r: Result<String, VcrError>)
    ensures
        match r {
            Ok(text) => encoded_documents(session.request_parts(), session.response_parts()) matches Some(
                documents,
            ) && encode_utf8(text@) == join(bytes_of(documents)),
            Err(VcrError::Parse(error)) => {
                &&& error.document < session.request_parts().len()
                &&& encoded_document(
                    session.request_parts()[error.document as int],
                    session.response_parts()[error.document as int],
                ) is None
                &&& forall|j: int|
                    0 <= j < error.document ==> (#[trigger] encoded_document(
                        session.request_parts()[j],
                        session.response_parts()[j],
                    )) is Some
            },
            Err(_) => false,
        },
{
    let mut documents: Vec<String> = Vec::new();
    let n = session.len();
    let mut i: usize = 0;
    while i < n
        invariant
            n == session.request_parts().len(),
            n == session.response_parts().len(),
            i <= n,
            documents.len() == i,
            forall|j: int|
                0 <= j < i ==> encoded_document(session.request_parts()[j], session.response_parts()[j])
                    == Some(#[trigger] documents@[j]@),
            forall|j: int|
                0 <= j < i ==> (#[trigger] encoded_document(
                    session.request_parts()[j],
                    session.response_parts()[j],
                )) is Some,
        decreases n - i,
    {
        match encode(session.request(i), session.response(i)) {
            Ok(document) => {
                documents.push(document);
            },
            Err(message) => {
                return Err(VcrError::Parse(ParseError { document: i, message }));
            },
        }
        i += 1;
    }
    proof {
        let written = encoded_documents(session.request_parts(), session.response_parts());
        assert(written is Some);
        assert(written->Some_0 =~= documents.deep_view());
    }
    Ok(join_documents(&documents))
}

/// A text whose documents are read as the trees of a list of pairs holds
/// these pairs, in their order. The pairs are written as the HTTP types
/// write them; no line of a document but the first begins with three
/// hyphens; and the text is empty only where there is no pair.
pub proof fn lemma_holds_documents(
    requests: Seq<RequestParts>,
    responses: Seq<ResponseParts>,
    documents: Seq<Seq<char>>,
    text: Seq<char>,
)
    requires
        requests.len() == responses.len(),
        requests.len() == documents.len(),
        forall|i: int|
            0 <= i < requests.len() ==> (#[trigger] requests[i]).wf() && responses[i].wf() && is_canonical(
                requests[i],
                responses[i],
            ),
        encode_utf8(text) == join(bytes_of(documents)),
        forall|i: int|
            0 <= i < documents.len() ==> yaml_read(#[trigger] documents[i]) == Some(
                document_tree(requests[i], responses[i]),
            ),
        forall|i: int| 0 <= i < documents.len() ==> holds_no_marker(encode_utf8(#[trigger] documents[i])),
        text.len() > 0 || requests.len() == 0,
    ensures
        holds(SessionView { requests, responses }, text),
{
    if requests.len() == 0 {
        assert(bytes_of(documents) =~= Seq::<Seq<u8>>::empty());
        encode_utf8_decode_utf8(text);
        assert(text.len() == 0);
    } else {
        let pieces = bytes_of(documents);
        assert forall|i: int| 0 <= i < pieces.len() implies holds_no_marker(#[trigger] pieces[i]) by {
            assert(pieces[i] == encode_utf8(documents[i]));
        }
        lemma_split_join(pieces);
        assert forall|i: int| 0 <= i < documents.len() implies documents_of(text)[i] == documents[i] by {
            encode_utf8_decode_utf8(documents[i]);
        }
        assert(documents_of(text) =~= documents);
        assert forall|i: int| 0 <= i < documents.len() implies decoded_document(
            #[trigger] documents_of(text)[i],
        ) == Some((requests[i], responses[i])) by {
            assert(requests[i].wf() && responses[i].wf());
            crate::codec::lemma_document_round_trip(requests[i], responses[i]);
            assert(yaml_read(documents[i]) == Some(document_tree(requests[i], responses[i])));
        }
    }
}

/// The cassette that is written for a list of pairs holds these pairs, in
/// their order, when it is read again. This is shown for pairs that are
/// written as the HTTP types write them, and on three conditions on what
/// the YAML writer gives: that reading a document's text gives the tree
/// that was written, that no line of a document but the first begins with
/// three hyphens, and that the text of a cassette with a pair in it is not
/// empty.
pub proof fn lemma_stream_round_trip(
    requests: Seq<RequestParts>,
    responses: Seq<ResponseParts>,
    documents: Seq<Seq<char>>,
    text: Seq<char>,
)
    requires
        requests.len() == responses.len(),
        forall|i: int|
            0 <= i < requests.len() ==> (#[trigger] requests[i]).wf() && responses[i].wf() && is_canonical(
                requests[i],
                responses[i],
            ),
        encoded_documents(requests, responses) == Some(documents),
        encode_utf8(text) == join(bytes_of(documents)),
        forall|i: int|
            0 <= i < documents.len() ==> yaml_read(#[trigger] documents[i]) == Some(
                document_tree(requests[i], responses[i]),
            ),
        forall|i: int| 0 <= i < documents.len() ==> holds_no_marker(encode_utf8(#[trigger] documents[i])),
        text.len() > 0 || requests.len() == 0,
    ensures
        holds(SessionView { requests, responses }, text),
{
    lemma_holds_documents(requests, responses, documents, text);
}

/// The text of a file to which documents were added one after the other,
/// with nothing between them: this is how record mode writes a cassette.
pub open spec fn appended(documents: Seq<Seq<char>>) -> Seq<char>
    decreases documents.len(),
{
    if documents.len() == 0 {
        Seq::empty()
    } else {
        appended(documents.drop_last()) + documents.last()
    }
}

/// A document as the YAML writer frames it: the line `---`, what the
/// document says, and a line feed.
pub open spec fn framed(body: Seq<char>) -> Seq<char> {
    "---\n"@ + body + "\n"@
}

/// What reading finds at place `i` of a file to which framed documents were
/// added: what the document says; before it the line `---` where it is the
/// first, which no separator takes away; after it the line feed where it is
/// the last.
pub open spec fn chunk(bodies: Seq<Seq<char>>, i: int) -> Seq<char> {
    let opened = if i == 0 {
        "---\n"@ + bodies[i]
    } else {
        bodies[i]
    };
    if i == bodies.len() - 1 {
        opened + "\n"@
    } else {
        opened
    }
}

/// The chunks of a file to which framed documents were added.
pub open spec fn chunks(bodies: Seq<Seq<char>>) -> Seq<Seq<char>> {
    Seq::new(bodies.len(), |i: int| chunk(bodies, i))
}

/// The chunks of such a file but for the line feed at its end.
spec fn open_chunks(bodies: Seq<Seq<char>>) -> Seq<Seq<char>> {
    Seq::new(
        bodies.len(),
        |i: int|
            if i == 0 {
                "---\n"@ + bodies[i]
            } else {
                bodies[i]
            },
    )
}

/// Framed documents in a row are their chunks with a separator between each
/// two, but for the line feed at the end.
proof fn lemma_appended_open(bodies: Seq<Seq<char>>)
    requires
        bodies.len() >= 1,
    ensures
        appended(bodies.map_values(|body: Seq<char>| framed(body))) == joined(open_chunks(bodies), SEPARATOR@)
            + "\n"@,
    decreases bodies.len(),
{
    reveal_strlit("---\n");
    reveal_strlit("\n");
    reveal_strlit("\n---\n");
    let documents = bodies.map_values(|body: Seq<char>| framed(body));
    let start = "---\n"@;
    let end = "\n"@;
    assert(SEPARATOR@ =~= end + start);
    if bodies.len() == 1 {
        assert(documents.drop_last() =~= Seq::<Seq<char>>::empty());
        assert(appended(documents.drop_last()) =~= Seq::<char>::empty());
        assert(appended(documents) =~= start + bodies[0] + end);
    } else {
        let front = bodies.drop_last();
        lemma_appended_open(front);
        assert(documents.drop_last() =~= front.map_values(|body: Seq<char>| framed(body)));
        assert(open_chunks(bodies).drop_last() =~= open_chunks(front));
        assert(open_chunks(bodies).last() == bodies.last());
        assert(documents.last() == framed(bodies.last()));
        let inner = joined(open_chunks(front), SEPARATOR@);
        assert((inner + end) + (start + bodies.last() + end) =~= (inner + SEPARATOR@ + bodies.last()) + end);
    }
}

/// Framed documents in a row are their chunks with a separator between each
/// two.
pub proof fn lemma_appended_chunks(bodies: Seq<Seq<char>>)
    requires
        bodies.len() >= 1,
    ensures
        appended(bodies.map_values(|body: Seq<char>| framed(body))) == joined(chunks(bodies), SEPARATOR@),
{
    lemma_appended_open(bodies);
    let open = open_chunks(bodies);
    let all = chunks(bodies);
    let end = "\n"@;
    assert(all.last() == open.last() + end);
    if bodies.len() == 1 {
    } else {
        assert(all.drop_last() =~= open.drop_last());
        assert(joined(open.drop_last(), SEPARATOR@) + SEPARATOR@ + open.last() + end =~= joined(
            open.drop_last(),
            SEPARATOR@,
        ) + SEPARATOR@ + (open.last() + end));
    }
}

/// The file to which record mode added the documents of a list of pairs,
/// one after the other and in whatever order the calls came to write, holds
/// these pairs, in that order, when it is read again: every pair at a place
/// of its own, the request with its own response. This is shown for pairs
/// as `record` writes them down, those that are written as the HTTP types
/// write them, and on three conditions on the YAML writer and reader: that
/// a document is framed by the line `---` and a line feed, that reading
/// what stands between two separators gives the tree that was written, and
/// that no line of a document but the first begins with three hyphens.
pub proof fn lemma_appended_round_trip(
    requests: Seq<RequestParts>,
    responses: Seq<ResponseParts>,
    documents: Seq<Seq<char>>,
    bodies: Seq<Seq<char>>,
)
    requires
        requests.len() == responses.len(),
        forall|i: int|
            0 <= i < requests.len() ==> (#[trigger] requests[i]).wf() && responses[i].wf() && is_canonical(
                requests[i],
                responses[i],
            ),
        encoded_documents(requests, responses) == Some(documents),
        bodies.len() == documents.len(),
        forall|i: int| 0 <= i < documents.len() ==> #[trigger] documents[i] == framed(bodies[i]),
        forall|i: int|
            0 <= i < bodies.len() ==> yaml_read(#[trigger] chunk(bodies, i)) == Some(
                document_tree(requests[i], responses[i]),
            ),
        forall|i: int| 0 <= i < bodies.len() ==> holds_no_marker(encode_utf8(#[trigger] chunk(bodies, i))),
    ensures
        holds(SessionView { requests, responses }, appended(documents)),
{
    let text = appended(documents);
    assert(documents.len() == requests.len());
    if requests.len() == 0 {
        lemma_holds_documents(requests, responses, documents, text);
    } else {
        assert(documents =~= bodies.map_values(|body: Seq<char>| framed(body)));
        lemma_appended_chunks(bodies);
        lemma_joined_bytes(chunks(bodies));
        reveal_strlit("---\n");
        assert(text.len() > 0) by {
            assert(documents.last() == framed(bodies.last()));
            assert(framed(bodies.last()).len() >= 4);
        }
        assert forall|i: int| 0 <= i < chunks(bodies).len() implies yaml_read(#[trigger] chunks(bodies)[i])
            == Some(document_tree(requests[i], responses[i])) by {
            assert(chunks(bodies)[i] == chunk(bodies, i));
        }
        assert forall|i: int| 0 <= i < chunks(bodies).len() implies holds_no_marker(
            encode_utf8(#[trigger] chunks(bodies)[i]),
        ) by {
            assert(chunks(bodies)[i] == chunk(bodies, i));
        }
        lemma_holds_documents(requests, responses, chunks(bodies), text);
    }
}

} // verus!
