//! The registry of cassettes: for each file in use, the session that was
//! loaded from it for replay, or the mark that it is open for recording.

use vstd::prelude::*;
use crate::cassette::{decode_stream, holds, is_first_bad_document};
use crate::error::VcrError;
use crate::keyed::{lemma_inserted, lemma_map_of_entry, map_of, names_of};
use crate::session::{Session, SessionView};
use crate::text::str_eq;

verus! {

/// What a registry holds for a file in contracts: the loaded session, or
/// `None` for a file that is open for recording.
pub type Slot = Option<SessionView>;

/// What is to be done when a cassette is opened for replay.
#[derive(Clone, Copy, Debug, PartialEq, Eq, Structural)]
pub enum Opening {
    /// The session is loaded: it is used as it is, and the file is not read.
    Ready,
    /// The file has to be read, and its text loaded.
    ReadFile,
}

/// Whether a file's session is loaded.
pub open spec fn is_loaded(state: Map<Seq<char>, Slot>, path: Seq<char>) -> bool {
    state.contains_key(path) && state[path] is Some
}

/// What opening a file for replay asks for: nothing where its session is
/// loaded, else that the file be read.
pub open spec fn opening(state: Map<Seq<char>, Slot>, path: Seq<char>) -> Opening {
    if is_loaded(state, path) {
        Opening::Ready
    } else {
        Opening::ReadFile
    }
}

/// Once a file's session is loaded, opening the file for replay again asks
/// for no reading, and finds the session that was loaded. Loading or
/// registering another file changes neither.
pub proof fn lemma_open_again(
    state: Map<Seq<char>, Slot>,
    path: Seq<char>,
    session: SessionView,
    other: Seq<char>,
    slot: Slot,
)
    requires
        other != path,
    ensures
        opening(state.insert(path, Some(session)), path) == Opening::Ready,
        state.insert(path, Some(session))[path] == Some(session),
        opening(state.insert(path, Some(session)).insert(other, slot), path) == Opening::Ready,
        state.insert(path, Some(session)).insert(other, slot)[path] == Some(session),
{
}

/// The view of a session that may be absent.
pub open spec fn slot_of(session: Option<Session>) -> Slot {
    match session {
        Some(session) => Some(session@),
        None => None,
    }
}

/// The cassettes in use, each under the path of its file.
///
/// A path has one entry at most. An entry is never taken out again.
#[derive(Debug)]
pub struct Cassettes {
    slots: Vec<(String, Option<Session>)>,
}

impl View for Cassettes {
    type V = Map<Seq<char>, Slot>;

    open spec fn view(&self) -> Map<Seq<char>, Slot> {
        map_of(self.slots())
    }
}

impl Cassettes {
    /// The entries in the order in which their paths were first opened.
    pub closed spec fn slots(&self) -> Seq<(Seq<char>, Slot)> {
        Seq::new(self.slots.len() as nat, |i: int| (self.slots[i].0@, slot_of(self.slots[i].1)))
    }

    /// No path occurs twice.
    #[verifier::type_invariant]
    pub closed spec fn wf(&self) -> bool {
        names_of(
            Seq::new(self.slots.len() as nat, |i: int| (self.slots[i].0@, slot_of(self.slots[i].1))),
        ).no_duplicates()
    }

    /// A registry without cassettes.
    pub fn new() -> (r: Cassettes)
        ensures
            r@ == Map::<Seq<char>, Slot>::empty(),
    {
        let r = Cassettes { slots: Vec::new() };
        assert(r@ =~= Map::<Seq<char>, Slot>::empty());
        r
    }

    /// Where `path` stands in the list, if it is registered.
    fn position(&self, path: &str) -> (r: Option<usize>)
        ensures
            match r {
                Some(i) => i < self.slots().len() && self.slots()[i as int].0 == path@
                    && names_of(self.slots()).index_of(path@) == i && self@.contains_key(path@)
                    && self@[path@] == self.slots()[i as int].1,
                None => !self@.contains_key(path@),
            },
    {
        proof {
            use_type_invariant(self);
        }
        let mut i: usize = 0;
        while i < self.slots.len()
            invariant
                self.wf(),
                i <= self.slots.len(),
                self.slots().len() == self.slots.len(),
                forall|j: int| 0 <= j < i ==> self.slots()[j].0 != path@,
            decreases self.slots.len() - i,
        {
            if str_eq(self.slots[i].0.as_str(), path) {
                proof {
                    lemma_map_of_entry(self.slots(), i as int);
                }
                return Some(i);
            }
            i += 1;
        }
        proof {
            let names = names_of(self.slots());
            if names.contains(path@) {
                let k = names.index_of(path@);
                assert(self.slots()[k].0 == path@);
            }
        }
        None
    }

    /// The session that is loaded for a file, if one is.
    pub fn session(&self, path: &str) -> (r: Option<&Session>)
        ensures
            match r {
                Some(session) => is_loaded(self@, path@) && self@[path@] == Some(session@),
                None => !is_loaded(self@, path@),
            },
    {
        match self.position(path) {
            Some(i) => match &self.slots[i].1 {
                Some(session) => Some(session),
                None => None,
            },
            None => None,
        }
    }

    /// Opens a file for replay: says whether its session is there, or the
    /// file has to be read first. The registry is left as it is.
    pub fn open_for_replay(&self, path: &str) -> (r: Opening)
        ensures
            r == opening(self@, path@),
    {
        match self.session(path) {
            Some(_) => Opening::Ready,
            None => Opening::ReadFile,
        }
    }

    /// Puts an entry under a path, in place of the one that is there if the
    /// path is registered.
    fn put(&mut self, path: &str, session: Option<Session>)
        ensures
            final(self)@ == old(self)@.insert(path@, slot_of(session)),
    {
        proof {
            use_type_invariant(&*self);
            lemma_inserted(self.slots(), path@, slot_of(session));
        }
        let ghost before = self.slots();
        let found = self.position(path);
        let mut taken = Cassettes { slots: Vec::new() };
        core::mem::swap(self, &mut taken);
        let mut slots = taken.slots;
        match found {
            Some(i) => {
                assert(names_of(before)[i as int] == path@);
                slots.set(i, (path.to_owned(), session));
                assert(Seq::new(slots.len() as nat, |i: int| (slots[i].0@, slot_of(slots[i].1)))
                    =~= before.update(i as int, (path@, slot_of(session))));
            },
            None => {
                assert(!names_of(before).contains(path@));
                slots.push((path.to_owned(), session));
                assert(Seq::new(slots.len() as nat, |i: int| (slots[i].0@, slot_of(slots[i].1)))
                    =~= before.push((path@, slot_of(session))));
            },
        }
        *self = Cassettes { slots };
    }

    /// Keeps a session under the path of its file, in place of what was
    /// there.
    pub fn install(&mut self, path: &str, session: Session)
        ensures
            final(self)@ == old(self)@.insert(path@, Some(session@)),
    {
        self.put(path, Some(session));
    }

    /// Loads the text of a cassette's file: the session that the text holds
    /// is kept under the path, in place of what was there. A text of which
    /// a document holds no pair leaves the registry as it is.
    pub fn load(&mut self, path: &str, text: &str) -> (r: Result<(), VcrError>)
        ensures
            match r {
                Ok(_) => exists|session: SessionView|
                    #![trigger holds(session, text@)]
                    holds(session, text@) && final(self)@ == old(self)@.insert(path@, Some(session)),
                Err(VcrError::Parse(error)) => is_first_bad_document(text@, error.document as int)
                    && final(self)@ == old(self)@,
                Err(_) => false,
            },
    {
        match decode_stream(text) {
            Ok(session) => {
                assert(holds(session@, text@));
                self.install(path, session);
                Ok(())
            },
            Err(error) => Err(error),
        }
    }

    /// Opens a file for recording: the path is registered, or registered
    /// anew, without a session. The file itself is not touched.
    pub fn open_for_record(&mut self, path: &str)
        ensures
            final(self)@ == old(self)@.insert(path@, None),
    {
        self.put(path, None);
    }
}

} // verus!
