use vstd::prelude::*;
use indexmap::IndexMap;
use vstd::string::*;
use crate::text::{decimal, decimal_string, lemma_parse_decimal, parse_index, parse_usize};

verus! {

/// The mathematical model of a JSON value whose objects keep their keys in
/// insertion order.
pub enum JsonValue {
    Null,
    Bool(bool),
    /// A number, held as its JSON text.
    Number(Seq<char>),
    Str(Seq<char>),
    Array(Seq<JsonValue>),
    /// The entries of an object, in order.
    Object(Seq<(Seq<char>, JsonValue)>),
}

/// A JSON object: keys in the order in which they were first inserted.
#[derive(Debug)]
#[verifier::external_body]
pub struct ObjectMap {
    inner: IndexMap<String, OrderedValue>,
}

/// The entries of an object map, in their order, each value by its view.
pub uninterp spec fn object_entries(map: ObjectMap) -> Seq<(Seq<char>, JsonValue)>;

/// The position of the first entry whose key is `key`.
pub open spec fn key_index(entries: Seq<(Seq<char>, JsonValue)>, key: Seq<char>) -> Option<int>
    decreases entries.len(),
{
    if entries.len() == 0 {
        None
    } else if entries[0].0 == key {
        Some(0)
    } else {
        match key_index(entries.drop_first(), key) {
            Some(i) => Some(i + 1),
            None => None,
        }
    }
}

/// The entries after `key` is set to `value`: an entry with that key keeps its
/// place and takes the new value; otherwise the pair goes last.
pub open spec fn insert_entry(
    entries: Seq<(Seq<char>, JsonValue)>,
    key: Seq<char>,
    value: JsonValue,
) -> Seq<(Seq<char>, JsonValue)> {
    match key_index(entries, key) {
        Some(i) => entries.update(i, (key, value)),
        None => entries.push((key, value)),
    }
}

/// `key_index` finds the first entry with the key, and none means no entry has it.
pub proof fn lemma_key_index(entries: Seq<(Seq<char>, JsonValue)>, key: Seq<char>)
    ensures
        match key_index(entries, key) {
            Some(i) => 0 <= i < entries.len() && entries[i].0 == key
                && forall|j: int| 0 <= j < i ==> entries[j].0 != key,
            None => forall|j: int| 0 <= j < entries.len() ==> entries[j].0 != key,
        },
    decreases entries.len(),
{
    if entries.len() > 0 && entries[0].0 != key {
        lemma_key_index(entries.drop_first(), key);
        match key_index(entries.drop_first(), key) {
            Some(i) => {
                assert forall|j: int| 0 <= j < i + 1 implies entries[j].0 != key by {
                    if j > 0 {
                        assert(entries[j] == entries.drop_first()[j - 1]);
                    }
                }
            },
            None => {
                assert forall|j: int| 0 <= j < entries.len() implies entries[j].0 != key by {
                    if j > 0 {
                        assert(entries[j] == entries.drop_first()[j - 1]);
                    }
                }
            },
        }
    }
}

impl ObjectMap {
    /// An empty map (`IndexMap::new`).
    #[verifier::external_body]
    pub(crate) fn new() -> (map: ObjectMap)
        ensures
            object_entries(map) == Seq::<(Seq<char>, JsonValue)>::empty(),
    {
        ObjectMap { inner: IndexMap::new() }
    }

    /// Sets `key` to `value` (`IndexMap::insert`): a key already present keeps
    /// its place in the order and takes the new value, a new key goes last.
    #[verifier::external_body]
    pub(crate) fn insert(&mut self, key: String, value: OrderedValue)
        ensures
            object_entries(*final(self)) == insert_entry(object_entries(*old(self)), key@, value@),
            keys_distinct(object_entries(*final(self))),
    {
        self.inner.insert(key, value);
    }

    /// The value stored under `key` (`IndexMap::get`).
    #[verifier::external_body]
    pub(crate) fn get(&self, key: &str) -> (found: Option<&OrderedValue>)
        ensures
            match key_index(object_entries(*self), key@) {
                Some(i) => found is Some && found.unwrap()@ == object_entries(*self)[i].1,
                None => found is None,
            },
    {
        self.inner.get(key)
    }

    /// The keys in their order (`IndexMap::keys`).
    #[verifier::external_body]
    pub(crate) fn keys(&self) -> (keys: Vec<String>)
        ensures
            keys@.len() == object_entries(*self).len(),
            forall|i: int| 0 <= i < keys@.len() ==> #[trigger] keys@[i]@ == object_entries(*self)[i].0,
            forall|i: int, j: int| 0 <= i < j < keys@.len() ==> keys@[i]@ != keys@[j]@,
    {
        self.inner.keys().cloned().collect()
    }

    /// The first key, if there is one (`IndexMap::get_index` at 0).
    #[verifier::external_body]
    pub(crate) fn first_key(&self) -> (key: Option<&String>)
        ensures
            object_entries(*self).len() == 0 ==> key is None,
            object_entries(*self).len() > 0 ==> key is Some && key.unwrap()@ == object_entries(*self)[0].0,
    {
        self.inner.get_index(0).map(|(k, _)| k)
    }
}

impl Clone for ObjectMap {
    /// A copy of the map (`IndexMap::clone`), entry by entry.
    #[verifier::external_body]
    fn clone(&self) -> (copy: Self)
        ensures
            object_entries(copy) == object_entries(*self),
            keys_distinct(object_entries(copy)),
    {
        ObjectMap { inner: self.inner.clone() }
    }
}

/// A JSON value whose objects remember the order of their keys.
#[derive(Debug)]
pub enum OrderedValue {
    Null,
    Bool(bool),
    /// A number, held as the text that JSON writes for it.
    Number(String),
    String(String),
    Array(Vec<OrderedValue>),
    Object(ObjectMap),
}

impl View for OrderedValue {
    type V = JsonValue;

    open spec fn view(&self) -> JsonValue
        decreases self,
    {
        match self {
            OrderedValue::Null => JsonValue::Null,
            OrderedValue::Bool(b) => JsonValue::Bool(*b),
            OrderedValue::Number(n) => JsonValue::Number(n@),
            OrderedValue::String(s) => JsonValue::Str(s@),
            OrderedValue::Array(items) => JsonValue::Array(
                Seq::new(items@.len(), |i: int| if 0 <= i < items@.len() { items@[i].view() } else { JsonValue::Null }),
            ),
            OrderedValue::Object(map) => JsonValue::Object(object_entries(*map)),
        }
    }
}

} // verus!

verus! {

impl Clone for OrderedValue {
    /// A copy with the same contents.
    fn clone(&self) -> (copy: Self)
        ensures
            copy@ == self@,
    {
        self.deep_clone()
    }
}

impl OrderedValue {
    /// A copy of the value with the same contents.
    pub fn deep_clone(&self) -> (copy: OrderedValue)
        ensures
            copy@ == self@,
        decreases self,
    {
        match self {
            OrderedValue::Null => OrderedValue::Null,
            OrderedValue::Bool(b) => OrderedValue::Bool(*b),
            OrderedValue::Number(n) => OrderedValue::Number(n.clone()),
            OrderedValue::String(s) => OrderedValue::String(s.clone()),
            OrderedValue::Array(items) => {
                let mut copy: Vec<OrderedValue> = Vec::new();
                let mut i: usize = 0;
                while i < items.len()
                    invariant
                        i <= items@.len(),
                        copy@.len() == i,
                        forall|j: int| 0 <= j < i ==> #[trigger] copy@[j]@ == items@[j]@,
                        *self == OrderedValue::Array(*items),
                    decreases items@.len() - i,
                {
                    proof {
                        assert(decreases_to!(*self => (*self)->Array_0));
                        assert(decreases_to!(*items => items@));
                        assert(decreases_to!(items@ => items@[i as int]));
                        assert(decreases_to!(*self => items@[i as int]));
                    }
                    copy.push(items[i].deep_clone());
                    i = i + 1;
                }
                proof {
                    let a = OrderedValue::Array(copy);
                    assert(a@ == self@) by {
                        assert forall|j: int| 0 <= j < items@.len() implies
                            (#[trigger] a@->Array_0[j]) == self@->Array_0[j] by {
                            assert(copy@[j]@ == items@[j]@);
                        }
                        assert(a@->Array_0 =~= self@->Array_0);
                    }
                }
                OrderedValue::Array(copy)
            },
            OrderedValue::Object(map) => OrderedValue::Object(map.clone()),
        }
    }
}

} // verus!

verus! {

/// The label shown for a value that is not a container.
pub open spec fn value_label() -> Seq<char> {
    "(value)"@
}

/// The views of a sequence of strings.
pub open spec fn string_views(strings: Seq<String>) -> Seq<Seq<char>> {
    strings.map_values(|s: String| s@)
}

/// The view of an optional reference to a value.
pub open spec fn opt_view(found: Option<&OrderedValue>) -> Option<JsonValue> {
    match found {
        Some(v) => Some(v@),
        None => None,
    }
}

/// Whether a value is an array or an object.
pub open spec fn is_container(v: JsonValue) -> bool {
    v is Array || v is Object
}

/// The labels of the entries of a container: an object's keys in order, an
/// array's positions in decimal; a single placeholder label for anything else.
pub open spec fn entries_of(v: JsonValue) -> Seq<Seq<char>> {
    match v {
        JsonValue::Object(entries) => entries.map_values(|e: (Seq<char>, JsonValue)| e.0),
        JsonValue::Array(items) => Seq::new(items.len(), |i: int| decimal(i as nat)),
        _ => seq![value_label()],
    }
}

/// One step into a container: an object's value under `key`, or an array's
/// item at the position that `key` spells. Nothing for other values.
pub open spec fn child(v: JsonValue, key: Seq<char>) -> Option<JsonValue> {
    match v {
        JsonValue::Object(entries) => match key_index(entries, key) {
            Some(i) => Some(entries[i].1),
            None => None,
        },
        JsonValue::Array(items) => match parse_index(key) {
            Some(i) => if i < items.len() { Some(items[i as int]) } else { None },
            None => None,
        },
        _ => None,
    }
}

/// The value that an entry label names inside a container; a value that is
/// not a container stands for itself under any label.
pub open spec fn entry_value(v: JsonValue, label: Seq<char>) -> Option<JsonValue> {
    if is_container(v) {
        child(v, label)
    } else {
        Some(v)
    }
}

/// The value reached by following `path` step by step from `v`.
pub open spec fn lookup_path(v: JsonValue, path: Seq<Seq<char>>) -> Option<JsonValue>
    decreases path.len(),
{
    if path.len() == 0 {
        Some(v)
    } else {
        match child(v, path[0]) {
            Some(c) => lookup_path(c, path.drop_first()),
            None => None,
        }
    }
}

/// Whether no two entries share a key.
pub open spec fn keys_distinct(entries: Seq<(Seq<char>, JsonValue)>) -> bool {
    forall|i: int, j: int| 0 <= i < j < entries.len() ==> entries[i].0 != entries[j].0
}

/// The text of a value that is not a container, as a row shows it.
pub open spec fn scalar_text(v: JsonValue) -> Seq<char> {
    match v {
        JsonValue::Null => "null"@,
        JsonValue::Bool(b) => if b { "true"@ } else { "false"@ },
        JsonValue::Number(text) => text,
        JsonValue::Str(s) => debug_quoted(s),
        _ => Seq::empty(),
    }
}

/// The lines of a row: an array shows its length, an object its label and
/// then each key indented by two spaces, anything else its label and text.
pub open spec fn entry_lines(label: Seq<char>, v: JsonValue) -> Seq<Seq<char>> {
    match v {
        JsonValue::Array(items) => seq![label + ": ["@ + decimal(items.len()) + "]"@],
        JsonValue::Object(entries) => seq![label + ":"@] + entries.map_values(
            |e: (Seq<char>, JsonValue)| "  "@ + e.0,
        ),
        _ => seq![label + " "@ + scalar_text(v)],
    }
}

/// The text that `{:?}` writes for a string: quoted and escaped.
pub uninterp spec fn debug_quoted(s: Seq<char>) -> Seq<char>;

/// Writes `s` with `{:?}`, quoted and escaped as `Debug` for `str` does.
#[verifier::external_body]
fn debug_text(s: &str) -> (text: String)
    ensures
        text@ == debug_quoted(s@),
{
    format!("{:?}", s)
}

impl Default for OrderedValue {
    /// An empty object.
    fn default() -> (v: Self)
        ensures
            v@ == JsonValue::Object(Seq::empty()),
    {
        OrderedValue::Object(ObjectMap::new())
    }
}

impl OrderedValue {
    /// The first key of an object; `None` for anything else.
    pub fn first_key(&self) -> (key: Option<&String>)
        ensures
            match self@ {
                JsonValue::Object(entries) => if entries.len() > 0 {
                    key is Some && key.unwrap()@ == entries[0].0
                } else {
                    key is None
                },
                _ => key is None,
            },
    {
        match self {
            OrderedValue::Object(map) => map.first_key(),
            _ => None,
        }
    }

    /// One step into the value: see `child`.
    fn step(&self, key: &str) -> (found: Option<&OrderedValue>)
        ensures
            opt_view(found) == child(self@, key@),
    {
        match self {
            OrderedValue::Array(items) => match parse_usize(key) {
                Some(i) => if i < items.len() {
                    Some(&items[i])
                } else {
                    None
                },
                None => None,
            },
            OrderedValue::Object(map) => {
                proof {
                    lemma_key_index(object_entries(*map), key@);
                }
                map.get(key)
            },
            _ => None,
        }
    }

    /// Follows `path` from this value: each step goes to an array's item at
    /// the position the step spells, or to an object's value under the step's
    /// key. `None` where a step finds nothing or meets a value that is not a
    /// container.
    pub fn get(&self, path: &[String]) -> (found: Option<&OrderedValue>)
        ensures
            opt_view(found) == lookup_path(self@, string_views(path@)),
    {
        let ghost keys = string_views(path@);
        let mut current = self;
        let mut i: usize = 0;
        assert(keys.skip(0) =~= keys);
        while i < path.len()
            invariant
                i <= path@.len(),
                keys == string_views(path@),
                lookup_path(self@, keys) == lookup_path(current@, keys.skip(i as int)),
            decreases path@.len() - i,
        {
            let ghost rest = keys.skip(i as int);
            assert(rest[0] == path@[i as int]@);
            assert(rest.drop_first() =~= keys.skip(i + 1));
            match current.step(path[i].as_str()) {
                Some(next) => {
                    current = next;
                },
                None => {
                    return None;
                },
            }
            i = i + 1;
        }
        assert(keys.skip(i as int) =~= Seq::<Seq<char>>::empty());
        Some(current)
    }
}

/// The `i`-th entry of a container: an array's `i`-th item, an object's
/// `i`-th value; any other value is its own single entry.
pub open spec fn entry_child(v: JsonValue, i: int) -> JsonValue {
    match v {
        JsonValue::Array(items) => items[i],
        JsonValue::Object(entries) => entries[i].1,
        _ => v,
    }
}

/// The labels of a container's entries: see `entries_of`. Each label names,
/// with `value_for_entry`, the entry at its own position.
pub fn container_entries_for(container: &OrderedValue) -> (labels: Vec<String>)
    ensures
        string_views(labels@) == entries_of(container@),
        forall|i: int| 0 <= i < labels@.len() ==> entry_value(container@, #[trigger] labels@[i]@) == Some(
            entry_child(container@, i),
        ),
{
    match container {
        OrderedValue::Object(map) => {
            let keys = map.keys();
            assert(string_views(keys@) =~= entries_of(container@));
            proof {
                let entries = object_entries(*map);
                assert(keys_distinct(entries)) by {
                    assert forall|a: int, b: int| 0 <= a < b < entries.len() implies entries[a].0 != entries[b].0 by {
                        assert(keys@[a]@ != keys@[b]@);
                    }
                }
                assert forall|i: int| 0 <= i < keys@.len() implies entry_value(container@, #[trigger] keys@[i]@)
                    == Some(entry_child(container@, i)) by {
                    assert(string_views(keys@)[i] == keys@[i]@);
                    law_listed_entries_resolve(container@, i);
                }
            }
            keys
        },
        OrderedValue::Array(items) => {
            let mut labels: Vec<String> = Vec::new();
            let mut i: usize = 0;
            while i < items.len()
                invariant
                    i <= items@.len(),
                    labels@.len() == i,
                    forall|j: int| 0 <= j < i ==> #[trigger] labels@[j]@ == decimal(j as nat),
                decreases items@.len() - i,
            {
                labels.push(decimal_string(i));
                i = i + 1;
            }
            assert(string_views(labels@) =~= entries_of(container@));
            proof {
                assert(container@->Array_0.len() == items@.len());
                assert forall|j: int| 0 <= j < labels@.len() implies entry_value(container@, #[trigger] labels@[j]@)
                    == Some(entry_child(container@, j)) by {
                    assert(string_views(labels@)[j] == labels@[j]@);
                    law_listed_entries_resolve(container@, j);
                }
            }
            labels
        },
        _ => {
            let labels = vec![String::from_str("(value)")];
            assert(string_views(labels@) =~= entries_of(container@));
            labels
        },
    }
}

/// The value that `entry_label` names inside `container`: see `entry_value`.
pub fn value_for_entry<'a>(container: &'a OrderedValue, entry_label: &str) -> (found: Option<&'a OrderedValue>)
    ensures
        opt_view(found) == entry_value(container@, entry_label@),
{
    match container {
        OrderedValue::Object(_) => container.step(entry_label),
        OrderedValue::Array(_) => container.step(entry_label),
        _ => Some(container),
    }
}

/// The text of a value that is not a container.
fn format_scalar_inline(value: &OrderedValue) -> (text: String)
    requires
        !is_container(value@),
    ensures
        text@ == scalar_text(value@),
{
    match value {
        OrderedValue::Null => String::from_str("null"),
        OrderedValue::Bool(b) => if *b {
            String::from_str("true")
        } else {
            String::from_str("false")
        },
        OrderedValue::Number(n) => n.clone(),
        OrderedValue::String(s) => debug_text(s.as_str()),
        _ => String::new(),
    }
}

/// The lines that a row shows for `value` under `entry_label`: see `entry_lines`.
pub fn format_container_entry_lines(entry_label: &str, value: &OrderedValue) -> (lines: Vec<String>)
    ensures
        string_views(lines@) == entry_lines(entry_label@, value@),
{
    match value {
        OrderedValue::Array(items) => {
            let mut line = String::from_str(entry_label);
            line.append(": [");
            let count = decimal_string(items.len());
            line.append(count.as_str());
            line.append("]");
            let lines = vec![line];
            assert(string_views(lines@) =~= entry_lines(entry_label@, value@));
            lines
        },
        OrderedValue::Object(map) => {
            let mut lines: Vec<String> = Vec::new();
            let mut head = String::from_str(entry_label);
            head.append(":");
            lines.push(head);
            let keys = map.keys();
            let ghost fields = object_entries(*map).map_values(|e: (Seq<char>, JsonValue)| "  "@ + e.0);
            let mut i: usize = 0;
            while i < keys.len()
                invariant
                    i <= keys@.len(),
                    keys@.len() == object_entries(*map).len(),
                    forall|j: int| 0 <= j < keys@.len() ==> #[trigger] keys@[j]@ == object_entries(*map)[j].0,
                    fields == object_entries(*map).map_values(|e: (Seq<char>, JsonValue)| "  "@ + e.0),
                    lines@.len() == i + 1,
                    lines@[0]@ == entry_label@ + ":"@,
                    forall|j: int| 0 <= j < i ==> #[trigger] lines@[j + 1]@ == fields[j],
                decreases keys@.len() - i,
            {
                let mut field = String::from_str("  ");
                field.append(keys[i].as_str());
                lines.push(field);
                i = i + 1;
            }
            proof {
                let expected = entry_lines(entry_label@, value@);
                assert forall|j: int| 0 <= j < lines@.len() implies #[trigger] string_views(lines@)[j] == expected[j] by {
                    if j > 0 {
                        assert(lines@[(j - 1) + 1]@ == fields[j - 1]);
                    }
                }
                assert(string_views(lines@) =~= expected);
            }
            lines
        },
        _ => {
            let mut line = String::from_str(entry_label);
            line.append(" ");
            let text = format_scalar_inline(value);
            line.append(text.as_str());
            let lines = vec![line];
            assert(string_views(lines@) =~= entry_lines(entry_label@, value@));
            lines
        },
    }
}

} // verus!

verus! {

/// Every entry label that `container_entries_for` lists names a value with
/// `value_for_entry`: an array's `i`-th label names its `i`-th item, an
/// object's `i`-th key its `i`-th value (keys being distinct, as in any
/// object map), and the placeholder of any other value names the value.
pub proof fn law_listed_entries_resolve(v: JsonValue, i: int)
    requires
        0 <= i < entries_of(v).len(),
        v is Array ==> v->Array_0.len() <= usize::MAX,
        v is Object ==> keys_distinct(v->Object_0),
    ensures
        entry_value(v, entries_of(v)[i]) == match v {
            JsonValue::Array(items) => Some(items[i]),
            JsonValue::Object(entries) => Some(entries[i].1),
            _ => Some(v),
        },
{
    match v {
        JsonValue::Array(items) => {
            lemma_parse_decimal(i as usize);
        },
        JsonValue::Object(entries) => {
            let key = entries[i].0;
            lemma_key_index(entries, key);
            match key_index(entries, key) {
                Some(j) => {
                    if j != i {
                        assert(entries[j].0 == entries[i].0);
                    }
                },
                None => {
                    assert(entries[i].0 == key);
                },
            }
        },
        _ => {},
    }
}

/// Following a path in two parts is following the first part, then the
/// second from where the first ends.
pub proof fn law_lookup_path_append(v: JsonValue, first: Seq<Seq<char>>, second: Seq<Seq<char>>)
    ensures
        lookup_path(v, first + second) == match lookup_path(v, first) {
            Some(w) => lookup_path(w, second),
            None => None,
        },
    decreases first.len(),
{
    if first.len() == 0 {
        assert(first + second =~= second);
    } else {
        assert((first + second)[0] == first[0]);
        assert((first + second).drop_first() =~= first.drop_first() + second);
        match child(v, first[0]) {
            Some(c) => {
                law_lookup_path_append(c, first.drop_first(), second);
            },
            None => {},
        }
    }
}

/// On a container, a path of one label reaches what `value_for_entry` finds
/// under that label; on any other value such a path reaches nothing, while
/// `value_for_entry` gives the value itself.
pub proof fn law_single_step(v: JsonValue, label: Seq<char>)
    ensures
        is_container(v) ==> lookup_path(v, seq![label]) == entry_value(v, label),
        !is_container(v) ==> lookup_path(v, seq![label]) is None && entry_value(v, label) == Some(v),
{
    let path = seq![label];
    assert(path.drop_first() =~= Seq::<Seq<char>>::empty());
    match child(v, label) {
        Some(c) => {
            assert(lookup_path(c, path.drop_first()) == Some(c));
        },
        None => {},
    }
}

/// After `key` is set to `value`, looking `key` up gives `value`, looking up
/// any other key gives what it gave before, and the keys stay distinct.
pub proof fn law_insert_then_lookup(
    entries: Seq<(Seq<char>, JsonValue)>,
    key: Seq<char>,
    value: JsonValue,
    other: Seq<char>,
)
    ensures
        child(JsonValue::Object(insert_entry(entries, key, value)), key) == Some(value),
        other != key ==> child(JsonValue::Object(insert_entry(entries, key, value)), other) == child(
            JsonValue::Object(entries),
            other,
        ),
        keys_distinct(entries) ==> keys_distinct(insert_entry(entries, key, value)),
{
    let after = insert_entry(entries, key, value);
    lemma_key_index(entries, key);
    lemma_key_index(after, key);
    lemma_key_index(entries, other);
    lemma_key_index(after, other);
    match key_index(entries, key) {
        Some(i) => {
            assert(after.len() == entries.len());
            assert(forall|j: int| 0 <= j < after.len() ==> #[trigger] after[j].0 == entries[j].0);
            match key_index(after, key) {
                Some(k) => {
                    if k != i {
                        assert(after[i].0 == key);
                    }
                },
                None => {
                    assert(after[i].0 == key);
                },
            }
            if other != key {
                match key_index(entries, other) {
                    Some(m) => {
                        match key_index(after, other) {
                            Some(k) => {
                                if k < m {
                                    assert(entries[k].0 == other);
                                } else if m < k {
                                    assert(after[m].0 == other);
                                }
                            },
                            None => {
                                assert(after[m].0 == other);
                            },
                        }
                    },
                    None => {
                        match key_index(after, other) {
                            Some(k) => {
                                assert(entries[k].0 == other);
                            },
                            None => {},
                        }
                    },
                }
            }
        },
        None => {
            let n = entries.len() as int;
            assert(after[n].0 == key);
            match key_index(after, key) {
                Some(k) => {
                    if k < n {
                        assert(entries[k].0 == key);
                    }
                },
                None => {},
            }
            if other != key {
                match key_index(entries, other) {
                    Some(m) => {
                        assert(after[m] == entries[m]);
                        match key_index(after, other) {
                            Some(k) => {
                                if k < m {
                                    assert(after[k] == entries[k]);
                                } else if m < k {
                                    assert(after[m].0 == other);
                                }
                            },
                            None => {
                                assert(after[m].0 == other);
                            },
                        }
                    },
                    None => {
                        match key_index(after, other) {
                            Some(k) => {
                                if k < n {
                                    assert(after[k] == entries[k]);
                                }
                            },
                            None => {},
                        }
                    },
                }
            }
            if keys_distinct(entries) {
                assert forall|a: int, b: int| 0 <= a < b < after.len() implies after[a].0 != after[b].0 by {
                    if b == n {
                        assert(after[a] == entries[a]);
                    } else {
                        assert(after[a] == entries[a]);
                        assert(after[b] == entries[b]);
                    }
                }
            }
        },
    }
}

/// The entries after setting each pair in turn.
pub open spec fn insert_all(
    entries: Seq<(Seq<char>, JsonValue)>,
    pairs: Seq<(Seq<char>, JsonValue)>,
) -> Seq<(Seq<char>, JsonValue)>
    decreases pairs.len(),
{
    if pairs.len() == 0 {
        entries
    } else {
        insert_entry(insert_all(entries, pairs.drop_last()), pairs.last().0, pairs.last().1)
    }
}

/// The views of key/value pairs.
pub open spec fn pair_views(pairs: Seq<(String, OrderedValue)>) -> Seq<(Seq<char>, JsonValue)> {
    pairs.map_values(|p: (String, OrderedValue)| (p.0@, p.1@))
}

impl ObjectMap {
    /// A map that holds the pairs, set one after the other in their order: a
    /// key that comes again keeps its first place and takes the later value.
    pub fn from_pairs(pairs: Vec<(String, OrderedValue)>) -> (map: ObjectMap)
        ensures
            object_entries(map) == insert_all(Seq::empty(), pair_views(pairs@)),
            keys_distinct(object_entries(map)),
    {
        let ghost all = pair_views(pairs@);
        let mut pending = pairs;
        let mut reversed: Vec<(String, OrderedValue)> = Vec::new();
        while pending.len() > 0
            invariant
                all.len() == pending@.len() + reversed@.len(),
                forall|j: int| 0 <= j < pending@.len() ==> (#[trigger] pending@[j].0@, pending@[j].1@) == all[j],
                forall|j: int| 0 <= j < reversed@.len() ==> (#[trigger] reversed@[j].0@, reversed@[j].1@) == all[all.len() - 1 - j],
            decreases pending@.len(),
        {
            let pair = pending.pop().unwrap();
            reversed.push(pair);
        }
        let mut map = ObjectMap::new();
        let ghost done: int = 0;
        assert(all.take(0) =~= Seq::<(Seq<char>, JsonValue)>::empty());
        while reversed.len() > 0
            invariant
                0 <= done <= all.len(),
                all.len() == done + reversed@.len(),
                forall|j: int| 0 <= j < reversed@.len() ==> (#[trigger] reversed@[j].0@, reversed@[j].1@) == all[all.len() - 1 - j],
                object_entries(map) == insert_all(Seq::empty(), all.take(done)),
                keys_distinct(object_entries(map)),
            decreases reversed@.len(),
        {
            let (key, value) = reversed.pop().unwrap();
            proof {
                let next = all.take(done + 1);
                assert(next.drop_last() =~= all.take(done));
                assert(next.last() == all[done]);
                law_insert_then_lookup(object_entries(map), key@, value@, key@);
            }
            map.insert(key, value);
            proof {
                done = done + 1;
            }
        }
        assert(all.take(done) =~= all);
        map
    }
}

impl OrderedValue {
    /// The name of the kind of value: `Null`, `Bool`, `Number`, `String`,
    /// `Array` or `Object`.
    pub fn to_string(&self) -> (name: String)
        ensures
            name@ == match self@ {
                JsonValue::Null => "Null"@,
                JsonValue::Bool(_) => "Bool"@,
                JsonValue::Number(_) => "Number"@,
                JsonValue::Str(_) => "String"@,
                JsonValue::Array(_) => "Array"@,
                JsonValue::Object(_) => "Object"@,
            },
    {
        match self {
            OrderedValue::Null => String::from_str("Null"),
            OrderedValue::Bool(_) => String::from_str("Bool"),
            OrderedValue::Number(_) => String::from_str("Number"),
            OrderedValue::String(_) => String::from_str("String"),
            OrderedValue::Array(_) => String::from_str("Array"),
            OrderedValue::Object(_) => String::from_str("Object"),
        }
    }
}

} // verus!

verus! {

/// Whether a number's text is that of a floating-point zero.
pub open spec fn is_float_zero(text: Seq<char>) -> bool {
    text == "0.0"@ || text == "-0.0"@
}

/// Whether two number texts stand for equal JSON numbers: the same text, or
/// the two floating-point zeros, which compare equal.
pub open spec fn same_number(x: Seq<char>, y: Seq<char>) -> bool {
    x == y || (is_float_zero(x) && is_float_zero(y))
}

/// Equality of values as `==` decides it: arrays item by item, objects by
/// their keys and values whatever the order of the keys, numbers by their
/// value (see `same_number`).
pub open spec fn json_equal(a: JsonValue, b: JsonValue) -> bool
    decreases a,
{
    match a {
        JsonValue::Null => b is Null,
        JsonValue::Bool(x) => b matches JsonValue::Bool(y) && x == y,
        JsonValue::Number(x) => b matches JsonValue::Number(y) && same_number(x, y),
        JsonValue::Str(x) => b matches JsonValue::Str(y) && x == y,
        JsonValue::Array(xs) => b matches JsonValue::Array(ys) && xs.len() == ys.len() && forall|i: int|
            0 <= i < xs.len() ==> json_equal(#[trigger] xs[i], ys[i]),
        JsonValue::Object(xs) => b matches JsonValue::Object(ys) && xs.len() == ys.len() && forall|i: int|
            0 <= i < xs.len() ==> match key_index(ys, #[trigger] xs[i].0) {
                Some(j) => json_equal(xs[i].1, ys[j].1),
                None => false,
            },
    }
}

/// Whether two number texts stand for equal numbers: see `same_number`.
fn number_equals(x: &String, y: &String) -> (same: bool)
    ensures
        same == same_number(x@, y@),
{
    if *x == *y {
        return true;
    }
    let zero = String::from_str("0.0");
    let negative_zero = String::from_str("-0.0");
    (*x == zero || *x == negative_zero) && (*y == zero || *y == negative_zero)
}

impl ObjectMap {
    /// Whether the two maps have the same length and each key of this one
    /// maps to an equal value in the other (`IndexMap`'s `==`).
    #[verifier::external_body]
    pub(crate) fn same_entries(&self, other: &ObjectMap) -> (same: bool)
        ensures
            same == json_equal(JsonValue::Object(object_entries(*self)), JsonValue::Object(object_entries(*other))),
    {
        self.inner == other.inner
    }
}

impl OrderedValue {
    /// Whether the two values are equal: see `json_equal`.
    pub fn equals(&self, other: &OrderedValue) -> (same: bool)
        ensures
            same == json_equal(self@, other@),
        decreases self,
    {
        match (self, other) {
            (OrderedValue::Null, OrderedValue::Null) => true,
            (OrderedValue::Bool(x), OrderedValue::Bool(y)) => *x == *y,
            (OrderedValue::Number(x), OrderedValue::Number(y)) => number_equals(x, y),
            (OrderedValue::String(x), OrderedValue::String(y)) => *x == *y,
            (OrderedValue::Array(xs), OrderedValue::Array(ys)) => {
                if xs.len() != ys.len() {
                    return false;
                }
                let mut i: usize = 0;
                while i < xs.len()
                    invariant
                        i <= xs@.len(),
                        xs@.len() == ys@.len(),
                        *self == OrderedValue::Array(*xs),
                        *other == OrderedValue::Array(*ys),
                        forall|j: int| 0 <= j < i ==> json_equal(#[trigger] self@->Array_0[j], other@->Array_0[j]),
                    decreases xs@.len() - i,
                {
                    proof {
                        assert(decreases_to!(*self => (*self)->Array_0));
                        assert(decreases_to!(*xs => xs@));
                        assert(decreases_to!(xs@ => xs@[i as int]));
                    }
                    if !xs[i].equals(&ys[i]) {
                        proof {
                            assert(self@->Array_0[i as int] == xs@[i as int]@);
                        }
                        return false;
                    }
                    proof {
                        assert(self@->Array_0[i as int] == xs@[i as int]@);
                        assert(other@->Array_0[i as int] == ys@[i as int]@);
                    }
                    i = i + 1;
                }
                proof {
                    let a = self@->Array_0;
                    let b = other@->Array_0;
                    assert(a.len() == b.len());
                    assert(forall|j: int| 0 <= j < a.len() ==> json_equal(#[trigger] a[j], b[j]));
                    assert(json_equal(self@, other@));
                }
                true
            },
            (OrderedValue::Object(x), OrderedValue::Object(y)) => x.same_entries(y),
            _ => false,
        }
    }
}

impl PartialEq for OrderedValue {
    fn eq(&self, other: &Self) -> (same: bool) {
        self.equals(other)
    }
}

impl vstd::std_specs::cmp::PartialEqSpecImpl for OrderedValue {
    open spec fn obeys_eq_spec() -> bool {
        true
    }

    open spec fn eq_spec(&self, other: &OrderedValue) -> bool {
        json_equal(self@, other@)
    }
}

/// Whether every object inside `v`, at any depth, has distinct keys, as
/// every object map has.
pub open spec fn keys_distinct_throughout(v: JsonValue) -> bool
    decreases v,
{
    match v {
        JsonValue::Array(xs) => forall|i: int| 0 <= i < xs.len() ==> keys_distinct_throughout(#[trigger] xs[i]),
        JsonValue::Object(es) => keys_distinct(es) && forall|i: int|
            0 <= i < es.len() ==> keys_distinct_throughout(#[trigger] es[i].1),
        _ => true,
    }
}

/// Every value equals itself under `==`.
pub proof fn law_equal_reflexive(v: JsonValue)
    requires
        keys_distinct_throughout(v),
    ensures
        json_equal(v, v),
    decreases v,
{
    match v {
        JsonValue::Array(xs) => {
            assert forall|i: int| 0 <= i < xs.len() implies json_equal(#[trigger] xs[i], xs[i]) by {
                assert(decreases_to!(v => v->Array_0));
                law_equal_reflexive(xs[i]);
            }
        },
        JsonValue::Object(es) => {
            assert forall|i: int| 0 <= i < es.len() implies match key_index(es, #[trigger] es[i].0) {
                Some(j) => json_equal(es[i].1, es[j].1),
                None => false,
            } by {
                lemma_key_index(es, es[i].0);
                assert(decreases_to!(v => v->Object_0));
                assert(decreases_to!(es[i] => es[i].1));
                law_equal_reflexive(es[i].1);
            }
        },
        _ => {},
    }
}

} // verus!
