//! YAML documents as trees of plain values, and the calls that read and
//! write them as text.

use vstd::prelude::*;

verus! {

/// A YAML value.
#[derive(Debug)]
pub enum Yaml {
    Null,
    Bool(bool),
    /// An integer that fits in 64 bits.
    Int(i64),
    /// Any other number, by its text.
    Real(String),
    Str(String),
    Sequence(Vec<Yaml>),
    /// The entries of a mapping, each a key and its value, in their order.
    Mapping(Vec<(Yaml, Yaml)>),
}

/// What a [`Yaml`] value stands for in contracts.
pub enum YamlView {
    Null,
    Bool(bool),
    Int(int),
    Real(Seq<char>),
    Str(Seq<char>),
    Sequence(Seq<YamlView>),
    Mapping(Seq<(YamlView, YamlView)>),
}

/// The tree that a value stands for.
pub open spec fn tree_of(value: Yaml) -> YamlView
    decreases value,
{
    match value {
        Yaml::Null => YamlView::Null,
        Yaml::Bool(b) => YamlView::Bool(b),
        Yaml::Int(i) => YamlView::Int(i as int),
        Yaml::Real(s) => YamlView::Real(s@),
        Yaml::Str(s) => YamlView::Str(s@),
        Yaml::Sequence(items) => YamlView::Sequence(
            Seq::new(
                items.len() as nat,
                |i: int|
                    if 0 <= i < items.len() {
                        tree_of(items[i])
                    } else {
                        YamlView::Null
                    },
            ),
        ),
        Yaml::Mapping(entries) => YamlView::Mapping(
            Seq::new(
                entries.len() as nat,
                |i: int|
                    if 0 <= i < entries.len() {
                        (tree_of(entries[i].0), tree_of(entries[i].1))
                    } else {
                        (YamlView::Null, YamlView::Null)
                    },
            ),
        ),
    }
}

impl View for Yaml {
    type V = YamlView;

    open spec fn view(&self) -> YamlView {
        tree_of(*self)
    }
}

/// The views of a list of values.
pub open spec fn items_view(items: Seq<Yaml>) -> Seq<YamlView> {
    Seq::new(items.len(), |i: int| items[i]@)
}

/// The views of the entries of a mapping.
pub open spec fn entries_view(entries: Seq<(Yaml, Yaml)>) -> Seq<(YamlView, YamlView)> {
    Seq::new(entries.len(), |i: int| (entries[i].0@, entries[i].1@))
}

/// The view of a sequence is the sequence of its items' views.
pub proof fn lemma_sequence_view(items: Vec<Yaml>)
    ensures
        Yaml::Sequence(items)@ == YamlView::Sequence(items_view(items@)),
{
    let tree = Yaml::Sequence(items);
    assert(tree@->Sequence_0 =~= items_view(items@));
}

/// The view of a mapping is the sequence of its entries' views.
pub proof fn lemma_mapping_view(entries: Vec<(Yaml, Yaml)>)
    ensures
        Yaml::Mapping(entries)@ == YamlView::Mapping(entries_view(entries@)),
{
    let tree = Yaml::Mapping(entries);
    assert(tree@->Mapping_0.len() == entries.len());
    assert(tree@->Mapping_0 =~= entries_view(entries@));
}

/// Whether a tree is a single value and no number but a 64-bit integer:
/// null, a boolean, an integer or a string.
pub open spec fn is_scalar(tree: YamlView) -> bool {
    tree is Null || tree is Bool || tree is Int || tree is Str
}

/// A tree that can be written out and read back as it is: it holds no number
/// but 64-bit integers, and the keys of every mapping in it are scalars of
/// which no two are equal.
pub open spec fn writable(tree: YamlView) -> bool
    decreases tree,
{
    match tree {
        YamlView::Real(_) => false,
        YamlView::Sequence(items) => forall|i: int| 0 <= i < items.len() ==> writable(#[trigger] items[i]),
        YamlView::Mapping(entries) => {
            &&& forall|i: int|
                0 <= i < entries.len() ==> is_scalar((#[trigger] entries[i]).0) && writable(entries[i].0)
                    && writable(entries[i].1)
            &&& forall|i: int, j: int|
                0 <= i < j < entries.len() ==> (#[trigger] entries[i]).0 != (#[trigger] entries[j]).0
        },
        YamlView::Int(i) => i64::MIN <= i <= i64::MAX,
        _ => true,
    }
}

/// The items of a writable sequence are writable.
pub proof fn lemma_writable_item(items: Seq<YamlView>, i: int)
    requires
        writable(YamlView::Sequence(items)),
        0 <= i < items.len(),
    ensures
        writable(items[i]),
{
    let tree = YamlView::Sequence(items);
    assert(tree->Sequence_0 == items);
}

/// The keys and values of a writable mapping are writable.
pub proof fn lemma_writable_entry(entries: Seq<(YamlView, YamlView)>, i: int)
    requires
        writable(YamlView::Mapping(entries)),
        0 <= i < entries.len(),
    ensures
        writable(entries[i].0),
        writable(entries[i].1),
{
    let tree = YamlView::Mapping(entries);
    assert(tree->Mapping_0 == entries);
}

#[verifier::external_type_specification]
#[verifier::external_body]
pub struct ExValue(serde_yaml::Value);

#[verifier::external_type_specification]
#[verifier::external_body]
pub struct ExError(serde_yaml::Error);

/// The tree that a `serde_yaml::Value` holds.
pub uninterp spec fn value_tree(value: serde_yaml::Value) -> YamlView;

/// The tree of the value that `serde_yaml::from_str` reads from a text,
/// `None` where it reports an error.
pub uninterp spec fn yaml_read(text: Seq<char>) -> Option<YamlView>;

/// The text that `serde_yaml::to_string` writes for the value that holds a
/// tree, `None` where it reports an error.
pub uninterp spec fn yaml_written(tree: YamlView) -> Option<Seq<char>>;

/// `serde_yaml::from_str`, asked for a `serde_yaml::Value`. What it gives
/// depends on the text alone.
#[verifier::external_body]
fn value_from_str(text: &str) -> (r: Result<serde_yaml::Value, serde_yaml::Error>)
    ensures
        match r {
            Ok(value) => yaml_read(text@) == Some(value_tree(value)),
            Err(_) => yaml_read(text@) is None,
        },
{
    serde_yaml::from_str::<serde_yaml::Value>(text)
}

/// `serde_yaml::to_string` on a `serde_yaml::Value` that holds a writable
/// tree. What it gives depends on the value alone, and a writable tree is
/// held by one value only.
#[verifier::external_body]
fn value_to_string(value: &serde_yaml::Value) -> (r: Result<String, serde_yaml::Error>)
    requires
        writable(value_tree(*value)),
    ensures
        match r {
            Ok(text) => yaml_written(value_tree(*value)) == Some(text@),
            Err(_) => yaml_written(value_tree(*value)) is None,
        },
{
    serde_yaml::to_string(value)
}

/// The topmost level of a `serde_yaml::Value` that is no number but a
/// 64-bit integer: what kind of value it is, with the values that it holds
/// still as they are.
enum Level {
    Null,
    Bool(bool),
    Int(i64),
    Str(String),
    Sequence(Vec<serde_yaml::Value>),
    Mapping(Vec<(serde_yaml::Value, serde_yaml::Value)>),
}

/// What a `serde_yaml::Value` is found to be: a level, or a number that is
/// no 64-bit integer, by its text.
enum Opened {
    Level(Level),
    Real(String),
}

/// The tree that a level stands for.
spec fn level_tree(level: Level) -> YamlView {
    match level {
        Level::Null => YamlView::Null,
        Level::Bool(b) => YamlView::Bool(b),
        Level::Int(i) => YamlView::Int(i as int),
        Level::Str(s) => YamlView::Str(s@),
        Level::Sequence(items) => YamlView::Sequence(Seq::new(items.len() as nat, |i: int| value_tree(items[i]))),
        Level::Mapping(entries) => YamlView::Mapping(
            Seq::new(entries.len() as nat, |i: int| (value_tree(entries[i].0), value_tree(entries[i].1))),
        ),
    }
}

/// The tree that an opened value stands for.
spec fn opened_tree(opened: Opened) -> YamlView {
    match opened {
        Opened::Level(level) => level_tree(level),
        Opened::Real(s) => YamlView::Real(s@),
    }
}

/// Takes a `serde_yaml::Value` apart, variant by variant; the values below
/// it are moved, not looked into. Of a `serde_yaml::Number`, `as_i64` gives
/// the integer, and `to_string` the text of one that is no 64-bit integer.
/// A `serde_yaml::Mapping` hands out its entries in their order.
#[verifier::external_body]
fn open_value(value: serde_yaml::Value) -> (opened: Opened)
    ensures
        opened_tree(opened) == value_tree(value),
{
    match value {
        serde_yaml::Value::Null => Opened::Level(Level::Null),
        serde_yaml::Value::Bool(b) => Opened::Level(Level::Bool(b)),
        serde_yaml::Value::Number(n) => match n.as_i64() {
            Some(i) => Opened::Level(Level::Int(i)),
            None => Opened::Real(n.to_string()),
        },
        serde_yaml::Value::String(s) => Opened::Level(Level::Str(s)),
        serde_yaml::Value::Sequence(items) => Opened::Level(Level::Sequence(items)),
        serde_yaml::Value::Mapping(entries) => Opened::Level(Level::Mapping(entries.into_iter().collect())),
    }
}

/// Puts a `serde_yaml::Value` together from its topmost level, variant by
/// variant; the values below it are moved, not looked into. The level
/// stands for a writable tree, so the keys of a mapping are scalars that
/// are all different. A `serde_yaml::Mapping` tells its keys apart by their
/// values, and scalars that are different trees are different values: it
/// then keeps every entry, in the order in which they are put in.
#[verifier::external_body]
fn close_value(level: Level) -> (value: serde_yaml::Value)
    requires
        writable(level_tree(level)),
    ensures
        value_tree(value) == level_tree(level),
{
    match level {
        Level::Null => serde_yaml::Value::Null,
        Level::Bool(b) => serde_yaml::Value::Bool(b),
        Level::Int(i) => serde_yaml::Value::Number(serde_yaml::Number::from(i)),
        Level::Str(s) => serde_yaml::Value::String(s),
        Level::Sequence(items) => serde_yaml::Value::Sequence(items),
        Level::Mapping(entries) => serde_yaml::Value::Mapping(entries.into_iter().collect()),
    }
}

/// A list in the opposite order.
fn turned<T>(list: Vec<T>) -> (r: Vec<T>)
    ensures
        r@ == list@.reverse(),
{
    let mut list = list;
    let ghost all = list@;
    let mut out: Vec<T> = Vec::new();
    while list.len() > 0
        invariant
            list.len() <= all.len(),
            list@ == all.subrange(0, list.len() as int),
            out.len() == all.len() - list.len(),
            forall|j: int| 0 <= j < out.len() ==> out@[j] == all[all.len() - 1 - j],
        decreases list.len(),
    {
        let ghost before = list@;
        let item = list.pop().unwrap();
        assert(item == all[before.len() - 1]);
        out.push(item);
        assert(list@ =~= all.subrange(0, list.len() as int));
    }
    assert(out@ =~= all.reverse());
    out
}

/// The tree of a `serde_yaml::Value`, as a [`Yaml`].
fn yaml_of_value(value: serde_yaml::Value) -> (tree: Yaml)
    ensures
        tree@ == value_tree(value),
    decreases value_tree(value),
{
    let ghost whole = value_tree(value);
    let level = match open_value(value) {
        Opened::Level(level) => level,
        Opened::Real(s) => {
            return Yaml::Real(s);
        },
    };
    match level {
        Level::Null => Yaml::Null,
        Level::Bool(b) => Yaml::Bool(b),
        Level::Int(i) => Yaml::Int(i),
        Level::Str(s) => Yaml::Str(s),
        Level::Sequence(items) => {
            let ghost below = Seq::new(items.len() as nat, |i: int| value_tree(items[i]));
            let mut rest = turned(items);
            let mut out: Vec<Yaml> = Vec::new();
            while rest.len() > 0
                invariant
                    whole == value_tree(value),
                    whole == YamlView::Sequence(below),
                    rest.len() <= below.len(),
                    out.len() == below.len() - rest.len(),
                    forall|j: int|
                        0 <= j < rest.len() ==> value_tree(#[trigger] rest@[j]) == below[below.len() - 1
                            - j],
                    forall|j: int| 0 <= j < out.len() ==> (#[trigger] out@[j])@ == below[j],
                decreases rest.len(),
            {
                let item = rest.pop().unwrap();
                assert(value_tree(item) == whole->Sequence_0[out.len() as int]);
                out.push(yaml_of_value(item));
            }
            proof {
                lemma_sequence_view(out);
                assert(items_view(out@) =~= below);
            }
            Yaml::Sequence(out)
        },
        Level::Mapping(entries) => {
            let ghost below = Seq::new(
                entries.len() as nat,
                |i: int| (value_tree(entries[i].0), value_tree(entries[i].1)),
            );
            let mut rest = turned(entries);
            let mut out: Vec<(Yaml, Yaml)> = Vec::new();
            while rest.len() > 0
                invariant
                    whole == value_tree(value),
                    whole == YamlView::Mapping(below),
                    rest.len() <= below.len(),
                    out.len() == below.len() - rest.len(),
                    forall|j: int|
                        0 <= j < rest.len() ==> (value_tree((#[trigger] rest@[j]).0), value_tree(rest@[j].1))
                            == below[below.len() - 1 - j],
                    forall|j: int| 0 <= j < out.len() ==> ((#[trigger] out@[j]).0@, out@[j].1@) == below[j],
                decreases rest.len(),
            {
                let (key, item) = rest.pop().unwrap();
                assert(value_tree(key) == whole->Mapping_0[out.len() as int].0);
                assert(value_tree(item) == whole->Mapping_0[out.len() as int].1);
                let key = yaml_of_value(key);
                let item = yaml_of_value(item);
                out.push((key, item));
            }
            proof {
                lemma_mapping_view(out);
                assert(entries_view(out@) =~= below);
            }
            Yaml::Mapping(out)
        },
    }
}

/// The `serde_yaml::Value` that holds a writable tree.
fn value_of_yaml(tree: &Yaml) -> (value: serde_yaml::Value)
    requires
        writable(tree@),
    ensures
        value_tree(value) == tree@,
    decreases tree,
{
    let level = match tree {
        Yaml::Null => Level::Null,
        Yaml::Bool(b) => Level::Bool(*b),
        Yaml::Int(i) => Level::Int(*i),
        Yaml::Real(_) => {
            // Not reached: a writable tree holds no such number.
            proof {
                assert(false);
            }
            Level::Null
        },
        Yaml::Str(s) => Level::Str(s.clone()),
        Yaml::Sequence(items) => {
            proof {
                lemma_sequence_view(*items);
            }
            let mut out: Vec<serde_yaml::Value> = Vec::new();
            let mut i: usize = 0;
            while i < items.len()
                invariant
                    tree == Yaml::Sequence(*items),
                    tree@ == YamlView::Sequence(items_view(items@)),
                    writable(tree@),
                    i <= items.len(),
                    out.len() == i,
                    forall|j: int| 0 <= j < i ==> value_tree(#[trigger] out@[j]) == items@[j]@,
                decreases items.len() - i,
            {
                proof {
                    lemma_writable_item(items_view(items@), i as int);
                }
                out.push(value_of_yaml(&items[i]));
                i += 1;
            }
            assert(Seq::new(out.len() as nat, |i: int| value_tree(out[i])) =~= items_view(items@));
            Level::Sequence(out)
        },
        Yaml::Mapping(entries) => {
            proof {
                lemma_mapping_view(*entries);
            }
            let mut out: Vec<(serde_yaml::Value, serde_yaml::Value)> = Vec::new();
            let mut i: usize = 0;
            while i < entries.len()
                invariant
                    tree == Yaml::Mapping(*entries),
                    tree@ == YamlView::Mapping(entries_view(entries@)),
                    writable(tree@),
                    i <= entries.len(),
                    out.len() == i,
                    forall|j: int|
                        0 <= j < i ==> value_tree((#[trigger] out@[j]).0) == entries@[j].0@ && value_tree(
                            out@[j].1,
                        ) == entries@[j].1@,
                decreases entries.len() - i,
            {
                proof {
                    lemma_writable_entry(entries_view(entries@), i as int);
                }
                let key = value_of_yaml(&entries[i].0);
                let item = value_of_yaml(&entries[i].1);
                out.push((key, item));
                i += 1;
            }
            assert(Seq::new(out.len() as nat, |i: int| (value_tree(out[i].0), value_tree(out[i].1)))
                =~= entries_view(entries@));
            Level::Mapping(out)
        },
    };
    close_value(level)
}

/// The message of a `serde_yaml::Error`, from its `to_string`.
#[verifier::external_body]
fn error_message(error: &serde_yaml::Error) -> String {
    error.to_string()
}

impl Yaml {
    /// Reads a YAML text. The error is the reader's message.
    pub fn parse(text: &str) -> (r: Result<Yaml, String>)
        ensures
            match r {
                Ok(tree) => yaml_read(text@) == Some(tree@),
                Err(_) => yaml_read(text@) is None,
            },
    {
        match value_from_str(text) {
            Ok(value) => Ok(yaml_of_value(value)),
            Err(e) => Err(error_message(&e)),
        }
    }

    /// Writes a tree as YAML text. The error is the writer's message.
    pub fn emit(&self) -> (r: Result<String, String>)
        requires
            writable(self@),
        ensures
            match r {
                Ok(text) => yaml_written(self@) == Some(text@),
                Err(_) => yaml_written(self@) is None,
            },
    {
        let value = value_of_yaml(self);
        match value_to_string(&value) {
            Ok(text) => Ok(text),
            Err(e) => Err(error_message(&e)),
        }
    }
}

} // verus!
