//! The recorder itself: what is done with each request that goes out, in
//! record mode and in replay mode.

use vstd::prelude::*;
use crate::cassette::{encode, encoded_document, is_canonical, written_as_http};
use crate::error::{ParseError, VcrError};
use crate::record::{RequestView, VcrRequest, VcrResponse};
use crate::session::{is_first_match, SessionView};
use crate::store::{is_loaded, opening, Cassettes, Opening};

verus! {

/// Whether the recorder records the exchanges that take place, or answers
/// requests from a recording.
#[derive(Clone, Copy, Debug, PartialEq, Eq, Hash, Structural)]
pub enum VcrMode {
    Record,
    Replay,
}

/// What is to be done with a request that goes out.
#[derive(Debug)]
pub enum Handling {
    /// Record mode: the request is to be sent on. The request is handed
    /// back as it will be written down, to be given to `record` with the
    /// response that comes in.
    Forward(VcrRequest),
    /// Replay mode: this is the recorded response. Nothing is to be sent.
    Respond(VcrResponse),
    /// Replay mode: no recorded request is the same as this one. Nothing is
    /// to be sent.
    Fail(VcrError),
}

/// What record mode writes down for one exchange.
#[derive(Debug)]
pub struct Recorded {
    /// The response as it was written down.
    pub response: VcrResponse,
    /// The document to be added at the end of the cassette's file.
    pub document: String,
}

impl SessionView {
    /// The recorded requests as they are matched: with their headers as
    /// maps.
    pub open spec fn requests_view(self) -> Seq<RequestView> {
        self.requests.map_values(|r: crate::record::RequestParts| r.view())
    }
}

/// A recorder, bound to a mode and to the file of a cassette.
///
/// It has to come after everything else that changes a request on its way
/// out: what is changed after it is neither recorded nor matched.
///
/// `Q` changes each request, and `R` each response, before it is matched
/// or written down.
pub struct VcrMiddleware<Q, R> {
    mode: VcrMode,
    file: String,
    modify_request: Q,
    modify_response: R,
}

// `new` stands in an impl of its own, for one choice of `Q` and `R`, so that
// `VcrMiddleware::new` names one function; what it gives has modifiers of
// other types.
impl VcrMiddleware<(), ()> {
    /// A recorder for a mode and the file of a cassette, which changes
    /// neither requests nor responses. The file is opened in the registry:
    /// registered for recording in record mode, looked up in replay mode.
    /// The answer says whether the file has to be read and loaded before
    /// the recorder can replay.
    pub fn new(mode: VcrMode, recording: &str, cassettes: &mut Cassettes) -> (r: (
        VcrMiddleware<impl Fn(VcrRequest) -> VcrRequest, impl Fn(VcrResponse) -> VcrResponse>,
        Opening,
    ))
        ensures
            r.0.wf(),
            r.0.mode() == mode,
            r.0.file() == recording@,
            forall|before: VcrRequest, after: VcrRequest|
                call_ensures(r.0.request_modifier(), (before,), after) ==> after == before,
            forall|before: VcrResponse, after: VcrResponse|
                call_ensures(r.0.response_modifier(), (before,), after) ==> after == before,
            mode == VcrMode::Record ==> r.1 == Opening::Ready && final(cassettes)@ == old(cassettes)@.insert(
                recording@,
                None,
            ),
            mode == VcrMode::Replay ==> r.1 == opening(old(cassettes)@, recording@) && final(cassettes)@
                == old(cassettes)@,
    {
        let action = match mode {
            VcrMode::Record => {
                cassettes.open_for_record(recording);
                Opening::Ready
            },
            VcrMode::Replay => cassettes.open_for_replay(recording),
        };
        let keep_request = |request: VcrRequest| -> (kept: VcrRequest)
            ensures
                kept == request,
            { request };
        let keep_response = |response: VcrResponse| -> (kept: VcrResponse)
            ensures
                kept == response,
            { response };
        let recorder = VcrMiddleware {
            mode,
            file: recording.to_owned(),
            modify_request: keep_request,
            modify_response: keep_response,
        };
        (recorder, action)
    }
}

impl<Q: Fn(VcrRequest) -> VcrRequest, R: Fn(VcrResponse) -> VcrResponse> VcrMiddleware<Q, R> {
    /// The mode of the recorder.
    pub closed spec fn mode(&self) -> VcrMode {
        self.mode
    }

    /// The path of the cassette's file.
    pub closed spec fn file(&self) -> Seq<char> {
        self.file@
    }

    /// What changes each request.
    pub closed spec fn request_modifier(&self) -> Q {
        self.modify_request
    }

    /// What changes each response.
    pub closed spec fn response_modifier(&self) -> R {
        self.modify_response
    }

    /// The two modifiers take every request and every response.
    pub closed spec fn wf(&self) -> bool {
        &&& forall|request: VcrRequest| call_requires(self.modify_request, (request,))
        &&& forall|response: VcrResponse| call_requires(self.modify_response, (response,))
    }

    /// The mode of the recorder.
    pub fn get_mode(&self) -> (r: VcrMode)
        ensures
            r == self.mode(),
    {
        self.mode
    }

    /// The path of the cassette's file.
    pub fn get_file(&self) -> (r: &String)
        ensures
            r@ == self.file(),
    {
        &self.file
    }

    /// The recorder with `modifier` to change each request before it is
    /// matched or written down, in place of what changed requests before.
    pub fn with_modify_request<F: Fn(VcrRequest) -> VcrRequest>(self, modifier: F) -> (r: VcrMiddleware<
        F,
        R,
    >)
        requires
            self.wf(),
            forall|request: VcrRequest| call_requires(modifier, (request,)),
        ensures
            r.wf(),
            r.mode() == self.mode(),
            r.file() == self.file(),
            r.request_modifier() == modifier,
            r.response_modifier() == self.response_modifier(),
    {
        VcrMiddleware {
            mode: self.mode,
            file: self.file,
            modify_request: modifier,
            modify_response: self.modify_response,
        }
    }

    /// The recorder with `modifier` to change each response before it is
    /// written down, in place of what changed responses before.
    pub fn with_modify_response<F: Fn(VcrResponse) -> VcrResponse>(self, modifier: F) -> (r:
        VcrMiddleware<Q, F>)
        requires
            self.wf(),
            forall|response: VcrResponse| call_requires(modifier, (response,)),
        ensures
            r.wf(),
            r.mode() == self.mode(),
            r.file() == self.file(),
            r.request_modifier() == self.request_modifier(),
            r.response_modifier() == modifier,
    {
        VcrMiddleware {
            mode: self.mode,
            file: self.file,
            modify_request: self.modify_request,
            modify_response: modifier,
        }
    }

    /// Decides what is done with a request that goes out. The request is
    /// changed by the request modifier first. In record mode it is then to
    /// be sent on. In replay mode it is answered from the session of the
    /// cassette: with the response of the first recorded request that is
    /// the same, or with a lookup error that carries the request where no
    /// recorded request is the same. The session is left as it is, so the
    /// same request gets the same answer every time.
    pub fn handle(&self, cassettes: &Cassettes, captured: VcrRequest) -> (r: Handling)
        requires
            self.wf(),
            self.mode() == VcrMode::Replay ==> is_loaded(cassettes@, self.file()),
        ensures
            match r {
                Handling::Forward(request) => {
                    &&& self.mode() == VcrMode::Record
                    &&& call_ensures(self.request_modifier(), (captured,), request)
                },
                Handling::Respond(response) => {
                    &&& self.mode() == VcrMode::Replay
                    &&& exists|request: VcrRequest, i: int|
                        {
                            &&& call_ensures(self.request_modifier(), (captured,), request)
                            &&& #[trigger] is_first_match(
                                cassettes@[self.file()]->Some_0.requests_view(),
                                request@,
                                i,
                            )
                            &&& cassettes@[self.file()]->Some_0.responses[i] == response.parts()
                        }
                },
                Handling::Fail(error) => {
                    &&& self.mode() == VcrMode::Replay
                    &&& error matches VcrError::Lookup(request)
                    &&& call_ensures(self.request_modifier(), (captured,), request)
                    &&& forall|i: int|
                        0 <= i < cassettes@[self.file()]->Some_0.requests.len()
                            ==> cassettes@[self.file()]->Some_0.requests_view()[i] != request@
                },
            },
    {
        assert(call_requires(self.modify_request, (captured,)));
        let request = (self.modify_request)(captured);
        assert(call_ensures(self.request_modifier(), (captured,), request));
        match self.mode {
            VcrMode::Record => Handling::Forward(request),
            VcrMode::Replay => {
                let session = match cassettes.session(self.file.as_str()) {
                    Some(session) => session,
                    None => {
                        // Not reached: in replay mode the session is loaded.
                        proof {
                            assert(false);
                        }
                        return Handling::Fail(VcrError::Lookup(request));
                    },
                };
                proof {
                    use_type_invariant(session);
                    session.lemma_wf();
                    assert(session@.requests_view() =~= session.requests());
                }
                match session.lookup(&request) {
                    Some(i) => {
                        let response = session.response(i).clone();
                        proof {
                            assert(is_first_match(
                                cassettes@[self.file()]->Some_0.requests_view(),
                                request@,
                                i as int,
                            ));
                        }
                        Handling::Respond(response)
                    },
                    None => Handling::Fail(VcrError::Lookup(request)),
                }
            },
        }
    }

    /// Writes down an exchange of record mode: the response is changed by
    /// the response modifier, and its document with the request is made,
    /// to be added at the end of the cassette's file. `request` is the one
    /// that `handle` gave back. Only what is written down is changed: the
    /// recorder gets a record of the response, and the response itself
    /// stays with the caller, who hands it on as it came in.
    ///
    /// A pair is written down only as the HTTP types write it, so that it
    /// is read back as it is and found again. A pair that is written
    /// otherwise (the method `get`, a URL that is not absolute, a status
    /// that HTTP does not know) is refused, and so is one whose document
    /// cannot be written: both are reported as a parse error of document 0.
    pub fn record(&self, request: &VcrRequest, captured: VcrResponse) -> (r: Result<Recorded, VcrError>)
        requires
            self.wf(),
        ensures
            match r {
                Ok(recorded) => {
                    &&& call_ensures(self.response_modifier(), (captured,), recorded.response)
                    &&& is_canonical(request.parts(), recorded.response.parts())
                    &&& encoded_document(request.parts(), recorded.response.parts()) == Some(
                        recorded.document@,
                    )
                },
                Err(VcrError::Parse(error)) => {
                    &&& error.document == 0
                    &&& exists|response: VcrResponse|
                        #![trigger call_ensures(self.response_modifier(), (captured,), response)]
                        {
                            &&& call_ensures(self.response_modifier(), (captured,), response)
                            &&& !is_canonical(request.parts(), response.parts()) || encoded_document(
                                request.parts(),
                                response.parts(),
                            ) is None
                        }
                },
                Err(_) => false,
            },
    {
        assert(call_requires(self.modify_response, (captured,)));
        let response = (self.modify_response)(captured);
        assert(call_ensures(self.response_modifier(), (captured,), response));
        if !written_as_http(request, &response) {
            let message = "the method, the URL or the status code is not written as HTTP writes it".to_owned();
            return Err(VcrError::Parse(ParseError { document: 0, message }));
        }
        match encode(request, &response) {
            Ok(document) => Ok(Recorded { response, document }),
            Err(message) => Err(VcrError::Parse(ParseError { document: 0, message })),
        }
    }
}

} // verus!
