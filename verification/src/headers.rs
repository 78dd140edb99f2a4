//! Header maps: each header name with the list of its values.

use vstd::prelude::*;
use vstd::set_lib::lemma_subset_equality;
use vstd::std_specs::cmp::PartialEqSpecImpl;
use crate::keyed::{inserted, lemma_inserted, lemma_map_of_entry, lemma_map_of_len, map_of, names_of};
use crate::text::{clone_strings, join_texts, joined, str_eq, strings_eq};

verus! {

/// One header as it stands in contracts: its name and its values in order.
pub type HeaderEntry = (Seq<char>, Seq<Seq<char>>);

/// The list that is left when the headers of `lines` are inserted one after
/// the other, from the first to the last, into an empty list.
pub open spec fn collected(lines: Seq<HeaderEntry>) -> Seq<HeaderEntry>
    decreases lines.len(),
{
    if lines.len() == 0 {
        Seq::empty()
    } else {
        inserted(collected(lines.drop_last()), lines.last().0, lines.last().1)
    }
}

/// A list that repeats no name is left as it is by `collected`.
pub proof fn lemma_collected_unique(lines: Seq<HeaderEntry>)
    requires
        names_of(lines).no_duplicates(),
    ensures
        collected(lines) == lines,
    decreases lines.len(),
{
    if lines.len() > 0 {
        let front = lines.drop_last();
        assert(names_of(front) =~= names_of(lines).drop_last());
        lemma_collected_unique(front);
        if names_of(front).contains(lines.last().0) {
            let k = names_of(front).index_of(lines.last().0);
            assert(names_of(lines)[k] == names_of(lines)[lines.len() - 1]);
        }
        assert(front.push(lines.last()) =~= lines);
    }
}

/// The pairs of a name and one of its values, name after name in the order
/// of the list, the values of each name in their own order.
pub open spec fn lines_of(entries: Seq<HeaderEntry>) -> Seq<(Seq<char>, Seq<char>)>
    decreases entries.len(),
{
    if entries.len() == 0 {
        Seq::empty()
    } else {
        lines_of(entries.drop_last()) + entries.last().1.map_values(
            |value: Seq<char>| (entries.last().0, value),
        )
    }
}

/// A header as a line of text: its name, a colon, and its values in square
/// brackets with a comma and a space between each two.
pub open spec fn entry_text(entry: HeaderEntry) -> Seq<char> {
    entry.0 + ": ["@ + joined(entry.1, ", "@) + "]"@
}

/// A list of headers as a line of text: the headers in curly brackets with
/// a comma and a space between each two.
pub open spec fn headers_text(entries: Seq<HeaderEntry>) -> Seq<char> {
    "{"@ + joined(entries.map_values(|entry: HeaderEntry| entry_text(entry)), ", "@) + "}"@
}

/// The headers of a request or response.
///
/// Names are kept as they were captured, letter case included, and each
/// name occurs once. The order of the names carries no meaning: two header
/// maps are the same when they map the same names to the same values.
#[derive(Debug)]
pub struct Headers {
    entries: Vec<(String, Vec<String>)>,
}

impl View for Headers {
    type V = Map<Seq<char>, Seq<Seq<char>>>;

    open spec fn view(&self) -> Map<Seq<char>, Seq<Seq<char>>> {
        map_of(self.entries())
    }
}

impl Headers {
    /// The headers in the order in which they are kept.
    pub closed spec fn entries(&self) -> Seq<HeaderEntry> {
        self.entries.deep_view()
    }

    /// No name occurs twice.
    #[verifier::type_invariant]
    pub closed spec fn wf(&self) -> bool {
        names_of(self.entries.deep_view()).no_duplicates()
    }

    /// What `wf` says, over `entries`.
    pub proof fn lemma_wf(&self)
        ensures
            self.wf() == names_of(self.entries()).no_duplicates(),
    {
    }

    /// A header map without headers.
    pub fn new() -> (r: Headers)
        ensures
            r.wf(),
            r.entries() == Seq::<HeaderEntry>::empty(),
            r@ == Map::<Seq<char>, Seq<Seq<char>>>::empty(),
    {
        let r = Headers { entries: Vec::new() };
        assert(r.entries() =~= Seq::<HeaderEntry>::empty());
        assert(r@ =~= Map::<Seq<char>, Seq<Seq<char>>>::empty());
        r
    }

    /// The number of names.
    pub fn len(&self) -> (n: usize)
        ensures
            n == self.entries().len(),
            n == self@.dom().len(),
    {
        proof {
            use_type_invariant(self);
            lemma_map_of_len(self.entries());
        }
        self.entries.len()
    }

    /// Where `name` stands in the list, if it is present.
    fn position(&self, name: &str) -> (r: Option<usize>)
        ensures
            match r {
                Some(i) => i < self.entries().len() && self.entries()[i as int].0 == name@
                    && names_of(self.entries()).index_of(name@) == i,
                None => !names_of(self.entries()).contains(name@),
            },
    {
        proof {
            use_type_invariant(self);
        }
        let mut i: usize = 0;
        while i < self.entries.len()
            invariant
                self.wf(),
                i <= self.entries.len(),
                self.entries().len() == self.entries.len(),
                forall|j: int| 0 <= j < i ==> self.entries()[j].0 != name@,
            decreases self.entries.len() - i,
        {
            assert(self.entries()[i as int].0 == self.entries[i as int].0@);
            if str_eq(self.entries[i].0.as_str(), name) {
                proof {
                    lemma_map_of_entry(self.entries(), i as int);
                }
                return Some(i);
            }
            i += 1;
        }
        proof {
            let names = names_of(self.entries());
            if names.contains(name@) {
                let k = names.index_of(name@);
                assert(self.entries()[k].0 == name@);
            }
        }
        None
    }

    /// Whether a header of this name is present.
    pub fn contains_key(&self, name: &str) -> (r: bool)
        ensures
            r == self@.contains_key(name@),
    {
        match self.position(name) {
            Some(i) => {
                assert(names_of(self.entries())[i as int] == name@);
                true
            },
            None => false,
        }
    }

    /// The values of the header `name`, if it is present.
    pub fn get(&self, name: &str) -> (r: Option<&Vec<String>>)
        ensures
            match r {
                Some(values) => self@.contains_key(name@) && values.deep_view() == self@[name@],
                None => !self@.contains_key(name@),
            },
    {
        match self.position(name) {
            Some(i) => {
                proof {
                    use_type_invariant(self);
                    assert(names_of(self.entries())[i as int] == name@);
                    lemma_map_of_entry(self.entries(), i as int);
                    assert(self.entries()[i as int].1 == self.entries[i as int].1.deep_view());
                }
                Some(&self.entries[i].1)
            },
            None => None,
        }
    }

    /// Sets the values of the header `name`, adding the header if it is new.
    pub fn insert(&mut self, name: String, values: Vec<String>)
        ensures
            final(self).wf(),
            final(self)@ == old(self)@.insert(name@, values.deep_view()),
            final(self).entries() == inserted(old(self).entries(), name@, values.deep_view()),
    {
        proof {
            use_type_invariant(&*self);
            lemma_inserted(self.entries(), name@, values.deep_view());
        }
        let ghost before = self.entries();
        let found = self.position(name.as_str());
        let mut taken = Headers { entries: Vec::new() };
        core::mem::swap(self, &mut taken);
        let mut entries = taken.entries;
        match found {
            Some(i) => {
                assert(names_of(before)[i as int] == name@);
                entries.set(i, (name, values));
                assert(entries.deep_view() =~= before.update(i as int, (name@, values.deep_view())));
            },
            None => {
                entries.push((name, values));
                assert(entries.deep_view() =~= before.push((name@, values.deep_view())));
            },
        }
        *self = Headers { entries };
    }

    /// Collects a list of headers: each one is inserted in turn, so that of
    /// two headers of one name the later one stays.
    pub fn from_entries(lines: &Vec<(String, Vec<String>)>) -> (r: Headers)
        ensures
            r.wf(),
            r.entries() == collected(lines.deep_view()),
    {
        let mut headers = Headers::new();
        let mut i: usize = 0;
        assert(lines.deep_view().subrange(0, 0) =~= Seq::<HeaderEntry>::empty());
        while i < lines.len()
            invariant
                i <= lines.len(),
                headers.wf(),
                headers.entries() == collected(lines.deep_view().subrange(0, i as int)),
            decreases lines.len() - i,
        {
            let name = lines[i].0.clone();
            let values = clone_strings(&lines[i].1);
            headers.insert(name, values);
            proof {
                let done = lines.deep_view().subrange(0, i + 1);
                assert(done.drop_last() =~= lines.deep_view().subrange(0, i as int));
                assert(done.last() == lines.deep_view()[i as int]);
                assert(lines.deep_view()[i as int] == (lines@[i as int].0@, lines@[i as int].1.deep_view()));
            }
            i += 1;
        }
        assert(lines.deep_view().subrange(0, i as int) =~= lines.deep_view());
        headers
    }

    /// Every value with the name of its header, as they are set on a message.
    pub fn lines(&self) -> (r: Vec<(String, String)>)
        ensures
            r.deep_view() == lines_of(self.entries()),
    {
        let mut out: Vec<(String, String)> = Vec::new();
        let mut i: usize = 0;
        assert(self.entries().subrange(0, 0) =~= Seq::<HeaderEntry>::empty());
        while i < self.entries.len()
            invariant
                i <= self.entries.len(),
                self.entries().len() == self.entries.len(),
                out.deep_view() == lines_of(self.entries().subrange(0, i as int)),
            decreases self.entries.len() - i,
        {
            let ghost before = out.deep_view();
            let values = &self.entries[i].1;
            let mut j: usize = 0;
            while j < values.len()
                invariant
                    i < self.entries.len(),
                    values == &self.entries[i as int].1,
                    j <= values.len(),
                    out.deep_view() == before + values.deep_view().subrange(0, j as int).map_values(
                        |value: Seq<char>| (self.entries[i as int].0@, value),
                    ),
                decreases values.len() - j,
            {
                let ghost so_far = out.deep_view();
                out.push((self.entries[i].0.clone(), values[j].clone()));
                proof {
                    let name = self.entries[i as int].0@;
                    let f = |value: Seq<char>| (name, value);
                    assert(out.deep_view() =~= so_far.push((name, values@[j as int]@)));
                    assert(values.deep_view().subrange(0, j + 1).map_values(f) =~= values.deep_view().subrange(
                        0,
                        j as int,
                    ).map_values(f).push((name, values@[j as int]@)));
                }
                j += 1;
            }
            proof {
                let done = self.entries().subrange(0, i + 1);
                assert(done.drop_last() =~= self.entries().subrange(0, i as int));
                assert(done.last() == self.entries()[i as int]);
                assert(self.entries()[i as int] == (self.entries[i as int].0@, self.entries[i as int].1.deep_view()));
                assert(values.deep_view().subrange(0, j as int) =~= values.deep_view());
            }
            i += 1;
        }
        assert(self.entries().subrange(0, i as int) =~= self.entries());
        out
    }

    /// The headers as a line of text, for messages.
    pub fn describe(&self) -> (r: String)
        ensures
            r@ == headers_text(self.entries()),
    {
        let mut texts: Vec<String> = Vec::new();
        let mut i: usize = 0;
        while i < self.entries.len()
            invariant
                i <= self.entries.len(),
                self.entries().len() == self.entries.len(),
                texts.len() == i,
                forall|j: int| 0 <= j < i ==> (#[trigger] texts@[j])@ == entry_text(self.entries()[j]),
            decreases self.entries.len() - i,
        {
            assert(self.entries()[i as int] == (self.entries[i as int].0@, self.entries[i as int].1.deep_view()));
            let mut text = self.entries[i].0.clone();
            text.append(": [");
            text.append(join_texts(&self.entries[i].1, ", ").as_str());
            text.append("]");
            texts.push(text);
            i += 1;
        }
        assert(texts.deep_view() =~= self.entries().map_values(|entry: HeaderEntry| entry_text(entry)));
        let mut out = "{".to_owned();
        out.append(join_texts(&texts, ", ").as_str());
        out.append("}");
        out
    }

    /// The name of the header at a position of the list.
    pub fn name_at(&self, i: usize) -> (name: &String)
        requires
            i < self.entries().len(),
        ensures
            name@ == self.entries()[i as int].0,
    {
        assert(self.entries()[i as int].0 == self.entries[i as int].0@);
        &self.entries[i].0
    }

    /// The values of the header at a position of the list.
    pub fn values_at(&self, i: usize) -> (values: &Vec<String>)
        requires
            i < self.entries().len(),
        ensures
            values.deep_view() == self.entries()[i as int].1,
    {
        assert(self.entries()[i as int].1 == self.entries[i as int].1.deep_view());
        &self.entries[i].1
    }
}

/// Two header maps are the same when they hold the same names with the same
/// values, in whatever order the names stand.
impl PartialEq for Headers {
    fn eq(&self, other: &Headers) -> (r: bool) {
        proof {
            use_type_invariant(self);
            use_type_invariant(other);
            lemma_map_of_len(self.entries());
            lemma_map_of_len(other.entries());
        }
        if self.entries.len() != other.entries.len() {
            return false;
        }
        let mut i: usize = 0;
        while i < self.entries.len()
            invariant
                i <= self.entries.len(),
                self.entries().len() == self.entries.len(),
                self.wf(),
                other.wf(),
                forall|j: int|
                    0 <= j < i ==> other@.contains_key(#[trigger] self.entries()[j].0) && other@[self.entries()[j].0]
                        == self.entries()[j].1,
            decreases self.entries.len() - i,
        {
            proof {
                lemma_map_of_entry(self.entries(), i as int);
            }
            let name = self.name_at(i);
            match other.get(name.as_str()) {
                Some(values) => {
                    if !strings_eq(self.values_at(i), values) {
                        return false;
                    }
                },
                None => {
                    return false;
                },
            }
            i += 1;
        }
        proof {
            let a = self.entries();
            assert forall|n: Seq<char>| self@.contains_key(n) implies other@.contains_key(n)
                && other@[n] == self@[n] by {
                let j = names_of(a).index_of(n);
                assert(names_of(a)[j] == n);
                lemma_map_of_entry(a, j);
            }
            assert(self@.dom().subset_of(other@.dom()));
            lemma_subset_equality(self@.dom(), other@.dom());
            assert(self@ =~= other@);
        }
        true
    }
}

impl PartialEqSpecImpl for Headers {
    open spec fn obeys_eq_spec() -> bool {
        true
    }

    open spec fn eq_spec(&self, other: &Headers) -> bool {
        self@ == other@
    }
}

impl Clone for Headers {
    fn clone(&self) -> (r: Headers)
        ensures
            r.wf(),
            r.entries() == self.entries(),
            r@ == self@,
    {
        proof {
            use_type_invariant(self);
        }
        let mut entries: Vec<(String, Vec<String>)> = Vec::new();
        let mut i: usize = 0;
        while i < self.entries.len()
            invariant
                i <= self.entries.len(),
                entries.len() == i,
                forall|j: int| 0 <= j < i ==> entries@[j].deep_view() == self.entries@[j].deep_view(),
            decreases self.entries.len() - i,
        {
            let name = self.entries[i].0.clone();
            let values = clone_strings(&self.entries[i].1);
            entries.push((name, values));
            i += 1;
        }
        assert(entries.deep_view() =~= self.entries.deep_view());
        Headers { entries }
    }
}

} // verus!
