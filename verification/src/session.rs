//! The pairs of one cassette, held for replay.

use vstd::prelude::*;
use crate::record::{RequestParts, RequestView, ResponseParts, ResponseView, VcrRequest, VcrResponse};

verus! {

/// Whether `i` is the place of the first request in `requests` that is the
/// same as `wanted`.
pub open spec fn is_first_match(requests: Seq<RequestView>, wanted: RequestView, i: int) -> bool {
    &&& 0 <= i < requests.len()
    &&& requests[i] == wanted
    &&& forall|j: int| 0 <= j < i ==> requests[j] != wanted
}

/// A request has at most one first match: looking it up again, in the same
/// recordings, gives the same place.
pub proof fn lemma_first_match_unique(
    requests: Seq<RequestView>,
    wanted: RequestView,
    i: int,
    j: int,
)
    requires
        is_first_match(requests, wanted, i),
        is_first_match(requests, wanted, j),
    ensures
        i == j,
{
}

/// The recorded requests of a cassette and, at the same places, the
/// responses that answered them.
#[derive(Debug)]
pub struct Session {
    requests: Vec<VcrRequest>,
    responses: Vec<VcrResponse>,
}

/// What a [`Session`] stands for in contracts: the recorded pairs as they
/// are written down.
pub struct SessionView {
    pub requests: Seq<RequestParts>,
    pub responses: Seq<ResponseParts>,
}

impl View for Session {
    type V = SessionView;

    open spec fn view(&self) -> SessionView {
        SessionView { requests: self.request_parts(), responses: self.response_parts() }
    }
}

impl Session {
    /// The recorded requests as they are written down, in the order of the
    /// cassette.
    pub closed spec fn request_parts(&self) -> Seq<RequestParts> {
        self.requests@.map_values(|r: VcrRequest| r.parts())
    }

    /// The recorded responses as they are written down, in the order of the
    /// cassette.
    pub closed spec fn response_parts(&self) -> Seq<ResponseParts> {
        self.responses@.map_values(|r: VcrResponse| r.parts())
    }

    /// The recorded requests, in the order of the cassette.
    pub open spec fn requests(&self) -> Seq<RequestView> {
        self.request_parts().map_values(|r: RequestParts| r.view())
    }

    /// The recorded responses, in the order of the cassette.
    pub open spec fn responses(&self) -> Seq<ResponseView> {
        self.response_parts().map_values(|r: ResponseParts| r.view())
    }

    /// There is one response for each request, and every record is well
    /// formed.
    #[verifier::type_invariant]
    pub closed spec fn wf(&self) -> bool {
        &&& self.requests.len() == self.responses.len()
        &&& forall|i: int| 0 <= i < self.requests.len() ==> (#[trigger] self.requests[i]).wf()
        &&& forall|i: int| 0 <= i < self.responses.len() ==> (#[trigger] self.responses[i]).wf()
    }

    /// What `wf` says of the recordings: the two lists are of one length,
    /// and no record repeats a header name.
    pub proof fn lemma_wf(&self)
        requires
            self.wf(),
        ensures
            self.request_parts().len() == self.response_parts().len(),
            forall|i: int| 0 <= i < self.request_parts().len() ==> (#[trigger] self.request_parts()[i]).wf(),
            forall|i: int| 0 <= i < self.response_parts().len() ==> (#[trigger] self.response_parts()[i]).wf(),
    {
        assert forall|i: int| 0 <= i < self.request_parts().len() implies (
        #[trigger] self.request_parts()[i]).wf() by {
            assert(self.requests[i].wf());
            self.requests[i].headers.lemma_wf();
        }
        assert forall|i: int| 0 <= i < self.response_parts().len() implies (
        #[trigger] self.response_parts()[i]).wf() by {
            assert(self.responses[i].wf());
            self.responses[i].headers.lemma_wf();
        }
    }

    /// A session without recordings.
    pub fn new() -> (r: Session)
        ensures
            r.wf(),
            r.request_parts() == Seq::<RequestParts>::empty(),
            r.response_parts() == Seq::<ResponseParts>::empty(),
    {
        let r = Session { requests: Vec::new(), responses: Vec::new() };
        assert(r.request_parts() =~= Seq::<RequestParts>::empty());
        assert(r.response_parts() =~= Seq::<ResponseParts>::empty());
        r
    }

    /// The number of recorded pairs.
    pub fn len(&self) -> (n: usize)
        ensures
            n == self.request_parts().len(),
            n == self.response_parts().len(),
    {
        proof {
            use_type_invariant(self);
        }
        self.requests.len()
    }

    /// Adds a pair after those that are there.
    pub fn push(&mut self, request: VcrRequest, response: VcrResponse)
        ensures
            final(self).wf(),
            final(self).request_parts() == old(self).request_parts().push(request.parts()),
            final(self).response_parts() == old(self).response_parts().push(response.parts()),
    {
        proof {
            use_type_invariant(&*self);
            use_type_invariant(&request.headers);
            use_type_invariant(&response.headers);
        }
        let ghost before_requests = self.request_parts();
        let ghost before_responses = self.response_parts();
        let mut taken = Session { requests: Vec::new(), responses: Vec::new() };
        core::mem::swap(self, &mut taken);
        let mut requests = taken.requests;
        let mut responses = taken.responses;
        requests.push(request);
        responses.push(response);
        assert(requests@.map_values(|r: VcrRequest| r.parts()) =~= before_requests.push(request.parts()));
        assert(responses@.map_values(|r: VcrResponse| r.parts()) =~= before_responses.push(
            response.parts(),
        ));
        *self = Session { requests, responses };
    }

    /// The request recorded at a place.
    pub fn request(&self, i: usize) -> (r: &VcrRequest)
        requires
            i < self.request_parts().len(),
        ensures
            r.wf(),
            r.parts() == self.request_parts()[i as int],
            r@ == self.requests()[i as int],
    {
        proof {
            use_type_invariant(self);
        }
        &self.requests[i]
    }

    /// The response recorded at a place.
    pub fn response(&self, i: usize) -> (r: &VcrResponse)
        requires
            i < self.response_parts().len(),
        ensures
            r.wf(),
            r.parts() == self.response_parts()[i as int],
            r@ == self.responses()[i as int],
    {
        proof {
            use_type_invariant(self);
        }
        &self.responses[i]
    }

    /// The place of the first recorded request that is the same as
    /// `request`, or `None` if no recorded request is. Nothing is used up:
    /// the same request is found at the same place every time.
    pub fn lookup(&self, request: &VcrRequest) -> (r: Option<usize>)
        ensures
            match r {
                Some(i) => is_first_match(self.requests(), request@, i as int),
                None => forall|j: int| 0 <= j < self.requests().len() ==> self.requests()[j] != request@,
            },
    {
        let mut i: usize = 0;
        while i < self.requests.len()
            invariant
                i <= self.requests.len(),
                self.requests().len() == self.requests.len(),
                forall|j: int| 0 <= j < self.requests.len() ==> self.requests()[j] == (#[trigger] self.requests[j])@,
                forall|j: int| 0 <= j < i ==> self.requests()[j] != request@,
            decreases self.requests.len() - i,
        {
            if self.requests[i] == *request {
                return Some(i);
            }
            i += 1;
        }
        None
    }
}

} // verus!
