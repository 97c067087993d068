//! A JSON tree with insertion-ordered objects, and its mathematical model.
//!
//! Contracts in this crate speak of [`JsonValue`], the view of a [`Json`]:
//! strings are sequences of characters, arrays and objects are sequences.
use vstd::prelude::*;

verus! {

/// The mathematical value of a JSON tree.
pub enum JsonValue {
    Null,
    Bool(bool),
    /// A number, held as its decimal text.
    Number(Seq<char>),
    Text(Seq<char>),
    Array(Seq<JsonValue>),
    /// Entries in insertion order.
    Object(Seq<(Seq<char>, JsonValue)>),
}

/// The position of the first entry named `key`, or `entries.len()` where
/// there is none.
pub open spec fn key_index(entries: Seq<(Seq<char>, JsonValue)>, key: Seq<char>) -> int
    decreases entries.len(),
{
    if entries.len() == 0 {
        0
    } else if entries[0].0 == key {
        0
    } else {
        1 + key_index(entries.drop_first(), key)
    }
}

/// No two entries share a key.
pub open spec fn keys_distinct(entries: Seq<(Seq<char>, JsonValue)>) -> bool {
    forall|i: int, j: int|
        0 <= i < j < entries.len() ==> (#[trigger] entries[i]).0 != (#[trigger] entries[j]).0
}

/// The entries without the one at `i`: the last entry takes its place.
pub open spec fn swap_removed(entries: Seq<(Seq<char>, JsonValue)>, i: int) -> Seq<
    (Seq<char>, JsonValue),
> {
    entries.update(i, entries.last()).drop_last()
}

impl JsonValue {
    /// The value stored under `key`, where `self` is an object that has it.
    pub open spec fn field(self, key: Seq<char>) -> Option<JsonValue> {
        match self {
            JsonValue::Object(entries) => {
                let i = key_index(entries, key);
                if i < entries.len() {
                    Some(entries[i].1)
                } else {
                    None
                }
            },
            _ => None,
        }
    }

    pub open spec fn has_field(self, key: Seq<char>) -> bool {
        self.field(key) is Some
    }

    /// `self` without the entry named `key`, and the value taken out. The
    /// last entry moves into the freed position.
    pub open spec fn remove_field(self, key: Seq<char>) -> (JsonValue, Option<JsonValue>) {
        match self {
            JsonValue::Object(entries) => {
                let i = key_index(entries, key);
                if i < entries.len() {
                    (JsonValue::Object(swap_removed(entries, i)), Some(entries[i].1))
                } else {
                    (self, None)
                }
            },
            _ => (self, None),
        }
    }

    /// `self` with `value` stored under `key`: in place where the key
    /// exists, at the end otherwise. Anything but an object is left as it is.
    pub open spec fn with_field(self, key: Seq<char>, value: JsonValue) -> JsonValue {
        match self {
            JsonValue::Object(entries) => {
                let i = key_index(entries, key);
                if i < entries.len() {
                    JsonValue::Object(entries.update(i, (entries[i].0, value)))
                } else {
                    JsonValue::Object(entries.push((key, value)))
                }
            },
            _ => self,
        }
    }

    /// Every object in the tree has distinct keys.
    pub open spec fn wf(self) -> bool
        decreases self,
    {
        match self {
            JsonValue::Array(items) => forall|i: int|
                0 <= i < items.len() ==> (#[trigger] items[i]).wf(),
            JsonValue::Object(entries) => keys_distinct(entries) && forall|i: int|
                0 <= i < entries.len() ==> (#[trigger] entries[i]).1.wf(),
            _ => true,
        }
    }
}

/// `key_index` is the least position that holds `key`.
pub proof fn lemma_key_index(entries: Seq<(Seq<char>, JsonValue)>, key: Seq<char>)
    ensures
        0 <= key_index(entries, key) <= entries.len(),
        forall|j: int| 0 <= j < key_index(entries, key) ==> (#[trigger] entries[j]).0 != key,
        key_index(entries, key) < entries.len() ==> entries[key_index(entries, key)].0 == key,
    decreases entries.len(),
{
    if entries.len() > 0 && entries[0].0 != key {
        let rest = entries.drop_first();
        lemma_key_index(rest, key);
        assert forall|j: int| 0 <= j < key_index(entries, key) implies (#[trigger] entries[j]).0
            != key by {
            if j > 0 {
                assert(entries[j] == rest[j - 1]);
            }
        }
    }
}

/// A position that holds `key` with none before it is `key_index`.
pub proof fn lemma_key_index_is(entries: Seq<(Seq<char>, JsonValue)>, key: Seq<char>, i: int)
    requires
        0 <= i <= entries.len(),
        forall|j: int| 0 <= j < i ==> (#[trigger] entries[j]).0 != key,
        i < entries.len() ==> entries[i].0 == key,
    ensures
        key_index(entries, key) == i,
{
    lemma_key_index(entries, key);
    let k = key_index(entries, key);
    if k < i {
        assert(entries[k].0 != key);
    }
}

/// A JSON tree as the program holds it.
#[derive(Debug, PartialEq)]
pub enum Json {
    Null,
    Bool(bool),
    /// A number, held as its decimal text.
    Number(String),
    Text(String),
    Array(Vec<Json>),
    /// Entries in insertion order.
    Object(Vec<(String, Json)>),
}

pub open spec fn items_view(s: Seq<Json>) -> Seq<JsonValue>
    decreases s,
{
    if s.len() == 0 {
        Seq::empty()
    } else {
        items_view(s.drop_last()).push(json_view(s.last()))
    }
}

pub open spec fn entries_view(s: Seq<(String, Json)>) -> Seq<(Seq<char>, JsonValue)>
    decreases s,
{
    if s.len() == 0 {
        Seq::empty()
    } else {
        entries_view(s.drop_last()).push((s.last().0@, json_view(s.last().1)))
    }
}

pub open spec fn json_view(j: Json) -> JsonValue
    decreases j,
{
    match j {
        Json::Null => JsonValue::Null,
        Json::Bool(b) => JsonValue::Bool(b),
        Json::Number(n) => JsonValue::Number(n@),
        Json::Text(t) => JsonValue::Text(t@),
        Json::Array(items) => JsonValue::Array(items_view(items@)),
        Json::Object(entries) => JsonValue::Object(entries_view(entries@)),
    }
}

impl View for Json {
    type V = JsonValue;

    open spec fn view(&self) -> JsonValue {
        json_view(*self)
    }
}

/// The view of a sequence of trees is the sequence of their views.
pub proof fn lemma_items_view(s: Seq<Json>)
    ensures
        items_view(s).len() == s.len(),
        forall|i: int| 0 <= i < s.len() ==> (#[trigger] items_view(s)[i]) == s[i]@,
    decreases s.len(),
{
    if s.len() > 0 {
        lemma_items_view(s.drop_last());
    }
}

/// The view of a sequence of entries is the sequence of their views.
pub proof fn lemma_entries_view(s: Seq<(String, Json)>)
    ensures
        entries_view(s).len() == s.len(),
        forall|i: int|
            0 <= i < s.len() ==> (#[trigger] entries_view(s)[i]) == (s[i].0@, s[i].1@),
    decreases s.len(),
{
    if s.len() > 0 {
        lemma_entries_view(s.drop_last());
    }
}

/// `str`'s `==`: whether two texts hold the same characters.
#[verifier::external_body]
pub(crate) fn text_eq(a: &str, b: &str) -> (same: bool)
    ensures
        same == (a@ == b@),
{
    a == b
}

/// The position of the first entry named `key`, or the number of entries.
pub fn find_key(entries: &Vec<(String, Json)>, key: &str) -> (i: usize)
    ensures
        i == key_index(entries_view(entries@), key@),
        i <= entries.len(),
{
    proof {
        lemma_entries_view(entries@);
    }
    let mut i: usize = 0;
    while i < entries.len()
        invariant
            i <= entries.len(),
            entries_view(entries@).len() == entries.len(),
            forall|j: int|
                0 <= j < entries.len() ==> (#[trigger] entries_view(entries@)[j]) == (
                    entries[j].0@,
                    entries[j].1@,
                ),
            forall|j: int| 0 <= j < i ==> (#[trigger] entries_view(entries@)[j]).0 != key@,
        decreases entries.len() - i,
    {
        if text_eq(entries[i].0.as_str(), key) {
            proof {
                lemma_key_index_is(entries_view(entries@), key@, i as int);
            }
            return i;
        }
        i += 1;
    }
    proof {
        lemma_key_index_is(entries_view(entries@), key@, i as int);
    }
    i
}

impl Json {
    /// The value stored under `key`, where `self` is an object that has it.
    pub fn get(&self, key: &str) -> (found: Option<&Json>)
        ensures
            match found {
                Some(inner) => self@.field(key@) == Some(inner@),
                None => self@.field(key@) is None,
            },
    {
        match self {
            Json::Object(entries) => {
                let i = find_key(entries, key);
                proof {
                    lemma_entries_view(entries@);
                }
                if i < entries.len() {
                    Some(&entries[i].1)
                } else {
                    None
                }
            },
            _ => None,
        }
    }

    /// The boolean that `self` holds, if it is one.
    pub fn as_bool(&self) -> (b: Option<bool>)
        ensures
            b == (match self@ {
                JsonValue::Bool(x) => Some(x),
                _ => None,
            }),
    {
        match self {
            Json::Bool(b) => Some(*b),
            _ => None,
        }
    }

    /// Stores `value` under `key`: in place where the key exists, at the
    /// end otherwise. Anything but an object is left as it is.
    pub fn insert(&mut self, key: &str, value: Json)
        ensures
            final(self)@ == old(self)@.with_field(key@, value@),
    {
        match self {
            Json::Object(entries) => {
                let ghost before = entries_view(entries@);
                proof {
                    lemma_entries_view(entries@);
                }
                let i = find_key(entries, key);
                if i < entries.len() {
                    entries[i].1 = value;
                    proof {
                        lemma_entries_view(entries@);
                        assert(entries_view(entries@) =~= before.update(
                            i as int,
                            (before[i as int].0, value@),
                        ));
                    }
                } else {
                    entries.push((key.to_owned(), value));
                    proof {
                        lemma_entries_view(entries@);
                        assert(entries_view(entries@) =~= before.push((key@, value@)));
                    }
                }
            },
            _ => {},
        }
    }

    /// A copy of the tree.
    pub fn duplicate(&self) -> (copy: Json)
        ensures
            copy@ == self@,
        decreases self,
    {
        match self {
            Json::Null => Json::Null,
            Json::Bool(b) => Json::Bool(*b),
            Json::Number(n) => Json::Number(n.clone()),
            Json::Text(t) => Json::Text(t.clone()),
            Json::Array(items) => {
                let mut copies: Vec<Json> = Vec::new();
                let mut i: usize = 0;
                while i < items.len()
                    invariant
                        i <= items.len(),
                        copies.len() == i,
                        *self == Json::Array(*items),
                        forall|j: int| 0 <= j < i ==> (#[trigger] copies[j])@ == items[j]@,
                    decreases items.len() - i,
                {
                    proof {
                        vstd::std_specs::vec::axiom_vec_index_decreases(*items, i as int);
                        assert(decreases_to!(*self => self->Array_0));
                    }
                    copies.push(items[i].duplicate());
                    i += 1;
                }
                proof {
                    lemma_items_view(items@);
                    lemma_items_view(copies@);
                    assert(items_view(copies@) =~= items_view(items@));
                }
                Json::Array(copies)
            },
            Json::Object(entries) => {
                let mut copies: Vec<(String, Json)> = Vec::new();
                let mut i: usize = 0;
                while i < entries.len()
                    invariant
                        i <= entries.len(),
                        copies.len() == i,
                        *self == Json::Object(*entries),
                        forall|j: int|
                            0 <= j < i ==> (#[trigger] copies[j]).0@ == entries[j].0@
                                && copies[j].1@ == entries[j].1@,
                    decreases entries.len() - i,
                {
                    proof {
                        vstd::std_specs::vec::axiom_vec_index_decreases(*entries, i as int);
                        assert(decreases_to!(*self => self->Object_0));
                        assert(decreases_to!(entries[i as int] => entries[i as int].1));
                    }
                    copies.push((entries[i].0.clone(), entries[i].1.duplicate()));
                    i += 1;
                }
                proof {
                    lemma_entries_view(entries@);
                    lemma_entries_view(copies@);
                    assert(entries_view(copies@) =~= entries_view(entries@));
                }
                Json::Object(copies)
            },
        }
    }

    /// Whether `self` is a number.
    pub fn is_number(&self) -> (b: bool)
        ensures
            b == (self@ is Number),
    {
        match self {
            Json::Number(_) => true,
            _ => false,
        }
    }
}

} // verus!
