//! JSON values: the executable tree, its mathematical view, and the readings
//! of it that the configuration and the messages are made of.

use vstd::prelude::*;

use crate::text;
use crate::text::text_eq;

verus! {

/// The number of a JSON value, as `serde_json` holds it.
#[verifier::external_type_specification]
#[verifier::external_body]
pub struct ExNumber(serde_json::Number);

/// A JSON value. The entries of an object are kept in a list, in which a later
/// entry replaces an earlier one of the same name.
#[derive(Debug, PartialEq)]
pub enum Json {
    Null,
    Bool(bool),
    Number(serde_json::Number),
    String(String),
    Array(Vec<Json>),
    Object(Vec<(String, Json)>),
}

/// What a JSON number is.
pub enum JsonNumber {
    /// A whole number that a `u64` holds.
    Unsigned(u64),
    /// A whole number below zero that an `i64` holds.
    Negative(i64),
    /// Any other number.
    Float(serde_json::Number),
}

/// A JSON value as mathematics: an object is a map from names to values.
#[verifier::ext_equal]
pub enum JsonTree {
    Null,
    Bool(bool),
    Number(JsonNumber),
    String(Seq<char>),
    Array(Seq<JsonTree>),
    Object(Map<Seq<char>, JsonTree>),
}

/// What kind of number a `serde_json::Number` holds, and which.
pub uninterp spec fn number_value(number: serde_json::Number) -> JsonNumber;

/// The whole number that a JSON number is, where a `u64` holds it.
pub open spec fn number_u64(number: JsonNumber) -> Option<u64> {
    match number {
        JsonNumber::Unsigned(n) => Some(n),
        _ => None,
    }
}

/// The map that a list of entries stands for: of two entries with one name the
/// later one counts.
pub open spec fn object_of(entries: Seq<(Seq<char>, JsonTree)>) -> Map<Seq<char>, JsonTree>
    decreases entries.len(),
{
    if entries.len() == 0 {
        Map::empty()
    } else {
        object_of(entries.drop_last()).insert(entries.last().0, entries.last().1)
    }
}

/// The JSON object with these entries.
pub open spec fn object_tree(entries: Seq<(Seq<char>, JsonTree)>) -> JsonTree {
    JsonTree::Object(object_of(entries))
}

/// The JSON number `n`.
pub open spec fn unsigned(n: u64) -> JsonTree {
    JsonTree::Number(JsonNumber::Unsigned(n))
}

impl View for Json {
    type V = JsonTree;

    open spec fn view(&self) -> JsonTree {
        tree_of(*self)
    }
}

/// The mathematical view of a JSON value.
pub open spec fn tree_of(json: Json) -> JsonTree
    decreases json,
{
    match json {
        Json::Null => JsonTree::Null,
        Json::Bool(b) => JsonTree::Bool(b),
        Json::Number(n) => JsonTree::Number(number_value(n)),
        Json::String(s) => JsonTree::String(s@),
        Json::Array(items) => JsonTree::Array(
            Seq::new(
                items@.len(),
                |i: int|
                    if 0 <= i < items@.len() {
                        tree_of(items@[i])
                    } else {
                        JsonTree::Null
                    },
            ),
        ),
        Json::Object(entries) => JsonTree::Object(map_of(entries@)),
    }
}

/// The map that a list of executable entries stands for.
pub open spec fn map_of(entries: Seq<(String, Json)>) -> Map<Seq<char>, JsonTree>
    decreases entries,
{
    if entries.len() == 0 {
        Map::empty()
    } else {
        map_of(entries.drop_last()).insert(entries.last().0@, tree_of(entries.last().1))
    }
}

/// The views of a list of values.
pub open spec fn items_tree(items: Seq<Json>) -> Seq<JsonTree> {
    items.map_values(|item: Json| item@)
}

/// The views of a list of entries.
pub open spec fn entries_tree(entries: Seq<(String, Json)>) -> Seq<(Seq<char>, JsonTree)> {
    entries.map_values(|entry: (String, Json)| (entry.0@, entry.1@))
}

/// The value under `name`, where `tree` is an object that has one.
pub open spec fn field(tree: JsonTree, name: Seq<char>) -> Option<JsonTree> {
    match tree {
        JsonTree::Object(map) => if map.dom().contains(name) {
            Some(map[name])
        } else {
            None
        },
        _ => None,
    }
}

/// The text that a value is.
pub open spec fn text_value(tree: JsonTree) -> Option<Seq<char>> {
    match tree {
        JsonTree::String(s) => Some(s),
        _ => None,
    }
}

/// The truth value that a value is.
pub open spec fn bool_value(tree: JsonTree) -> Option<bool> {
    match tree {
        JsonTree::Bool(b) => Some(b),
        _ => None,
    }
}

/// The elements of a value that is an array.
pub open spec fn array_value(tree: JsonTree) -> Option<Seq<JsonTree>> {
    match tree {
        JsonTree::Array(items) => Some(items),
        _ => None,
    }
}

/// The unsigned number that a value is.
pub open spec fn u64_value(tree: JsonTree) -> Option<u64> {
    match tree {
        JsonTree::Number(n) => number_u64(n),
        _ => None,
    }
}

/// The text under `name`.
pub open spec fn text_field(tree: JsonTree, name: Seq<char>) -> Option<Seq<char>> {
    match field(tree, name) {
        Some(value) => text_value(value),
        None => None,
    }
}

/// The truth value under `name`; false where there is none.
pub open spec fn bool_field_value(tree: JsonTree, name: Seq<char>) -> bool {
    match field(tree, name) {
        Some(JsonTree::Bool(b)) => b,
        _ => false,
    }
}

/// The array under `name`.
pub open spec fn array_field(tree: JsonTree, name: Seq<char>) -> Option<Seq<JsonTree>> {
    match field(tree, name) {
        Some(value) => array_value(value),
        None => None,
    }
}

/// The view of an array is made of the views of its elements.
pub proof fn lemma_array_view(items: Vec<Json>)
    ensures
        Json::Array(items)@ == JsonTree::Array(items_tree(items@)),
{
    assert(Json::Array(items)@->Array_0 =~= items_tree(items@));
}

/// The view of an object is the map that the views of its entries stand for.
pub proof fn lemma_object_view(entries: Vec<(String, Json)>)
    ensures
        Json::Object(entries)@ == object_tree(entries_tree(entries@)),
{
    lemma_map_of(entries@);
}

proof fn lemma_map_of(entries: Seq<(String, Json)>)
    ensures
        map_of(entries) == object_of(entries_tree(entries)),
    decreases entries.len(),
{
    if entries.len() > 0 {
        lemma_map_of(entries.drop_last());
        assert(entries_tree(entries).drop_last() =~= entries_tree(entries.drop_last()));
    }
}

/// The entry at `i` is the one that counts where no later one has its name.
pub proof fn lemma_last_entry_counts(entries: Seq<(Seq<char>, JsonTree)>, i: int)
    requires
        0 <= i < entries.len(),
        forall|j: int| i < j < entries.len() ==> entries[j].0 != entries[i].0,
    ensures
        object_of(entries).dom().contains(entries[i].0),
        object_of(entries)[entries[i].0] == entries[i].1,
    decreases entries.len(),
{
    if i < entries.len() - 1 {
        lemma_last_entry_counts(entries.drop_last(), i);
    }
}

/// A name that no entry has is not in the map.
pub proof fn lemma_no_entry(entries: Seq<(Seq<char>, JsonTree)>, name: Seq<char>)
    requires
        forall|j: int| 0 <= j < entries.len() ==> entries[j].0 != name,
    ensures
        !object_of(entries).dom().contains(name),
    decreases entries.len(),
{
    if entries.len() > 0 {
        lemma_no_entry(entries.drop_last(), name);
    }
}

/// What is read from an object is what its map holds under the name, where that is
/// a value of the kind that is asked for.
pub proof fn law_fields(tree: JsonTree, name: Seq<char>, value: JsonTree)
    ensures
        ({
            let held = tree is Object && tree->Object_0.dom().contains(name)
                && tree->Object_0[name] == value;
            &&& field(tree, name) == Some(value) <==> held
            &&& value matches JsonTree::String(s) ==> (text_field(tree, name) == Some(s) <==> held)
            &&& value matches JsonTree::Array(items) ==> (array_field(tree, name) == Some(items)
                <==> held)
            &&& value == JsonTree::Bool(true) ==> (bool_field_value(tree, name) <==> held)
            &&& held && !(value is String) ==> text_field(tree, name) is None
            &&& held && !(value is Array) ==> array_field(tree, name) is None
        }),
        !(tree is Object) || !tree->Object_0.dom().contains(name) ==> field(tree, name) is None
            && text_field(tree, name) is None && array_field(tree, name) is None
            && !bool_field_value(tree, name),
{
}

/// What a value is read as is what it is.
pub proof fn law_values(tree: JsonTree)
    ensures
        tree matches JsonTree::String(s) ==> text_value(tree) == Some(s),
        !(tree is String) ==> text_value(tree) is None,
        tree matches JsonTree::Bool(b) ==> bool_value(tree) == Some(b),
        !(tree is Bool) ==> bool_value(tree) is None,
        tree matches JsonTree::Array(items) ==> array_value(tree) == Some(items),
        !(tree is Array) ==> array_value(tree) is None,
        tree matches JsonTree::Number(JsonNumber::Unsigned(n)) ==> u64_value(tree) == Some(n),
        !(tree is Number && tree->Number_0 is Unsigned) ==> u64_value(tree) is None,
{
}

/// No entries make an object without fields.
pub proof fn lemma_no_entries()
    ensures
        object_of(Seq::empty()) == Map::<Seq<char>, JsonTree>::empty(),
{
}

/// One entry more sets one field.
pub proof fn lemma_entry_put(
    entries: Seq<(Seq<char>, JsonTree)>,
    name: Seq<char>,
    value: JsonTree,
)
    ensures
        object_of(entries.push((name, value))) == object_of(entries).insert(name, value),
        object_of(entries).dom().finite() ==> object_of(
            entries.push((name, value)),
        ).dom().finite(),
        object_of(entries).dom().finite() && !object_of(entries).dom().contains(name) ==> object_of(
            entries.push((name, value)),
        ).dom().len() == object_of(entries).dom().len() + 1,
{
    assert(entries.push((name, value)).drop_last() =~= entries);
}

/// The object of some entries holds under each name the value of the last entry
/// with that name, and under no other name anything.
pub proof fn law_object(entries: Seq<(Seq<char>, JsonTree)>, name: Seq<char>)
    ensures
        object_tree(entries) is Object,
        forall|i: int|
            0 <= i < entries.len() && (#[trigger] entries[i]).0 == name && (forall|j: int|
                i < j < entries.len() ==> (#[trigger] entries[j]).0 != name) ==> field(
                object_tree(entries),
                name,
            ) == Some(entries[i].1),
        (forall|j: int| 0 <= j < entries.len() ==> (#[trigger] entries[j]).0 != name) ==> field(
            object_tree(entries),
            name,
        ) is None,
{
    assert forall|i: int|
        0 <= i < entries.len() && (#[trigger] entries[i]).0 == name && (forall|j: int|
            i < j < entries.len() ==> (#[trigger] entries[j]).0 != name) implies field(
        object_tree(entries),
        name,
    ) == Some(entries[i].1) by {
        lemma_last_entry_counts(entries, i);
    }
    if forall|j: int| 0 <= j < entries.len() ==> (#[trigger] entries[j]).0 != name {
        lemma_no_entry(entries, name);
    }
}

/// The specification of `Number::as_u64`: it gives the number where it is a
/// whole one that a `u64` holds, and nothing otherwise.
pub assume_specification[ serde_json::Number::as_u64 ](number: &serde_json::Number) -> (r: Option<u64>)
    ensures
        r == number_u64(number_value(*number)),
;

/// Calls `serde_json::Number::from` on a `u64`: the result is that number.
#[verifier::external_body]
fn number_from_u64(n: u64) -> (r: serde_json::Number)
    ensures
        number_value(r) == JsonNumber::Unsigned(n),
{
    serde_json::Number::from(n)
}

impl Json {
    /// The value under `name`, where this is an object that has one.
    pub fn get(&self, name: &str) -> (r: Option<&Json>)
        ensures
            match r {
                Some(value) => field(self@, name@) == Some(value@),
                None => field(self@, name@) is None,
            },
    {
        match self {
            Json::Object(entries) => {
                proof {
                    lemma_object_view(*entries);
                }
                let mut i: usize = entries.len();
                while i > 0
                    invariant
                        i <= entries.len(),
                        self@ == object_tree(entries_tree(entries@)),
                        forall|j: int| i <= j < entries.len() ==> entries@[j].0@ != name@,
                    decreases i,
                {
                    i = i - 1;
                    if text_eq(entries[i].0.as_str(), name) {
                        proof {
                            lemma_last_entry_counts(entries_tree(entries@), i as int);
                        }
                        return Some(&entries[i].1);
                    }
                }
                proof {
                    lemma_no_entry(entries_tree(entries@), name@);
                }
                None
            },
            _ => None,
        }
    }

    /// The text that this value is.
    pub fn as_str(&self) -> (r: Option<&str>)
        ensures
            text::opt_text(r) == text_value(self@),
    {
        match self {
            Json::String(s) => Some(s.as_str()),
            _ => None,
        }
    }

    /// The truth value that this value is.
    pub fn as_bool(&self) -> (r: Option<bool>)
        ensures
            r == bool_value(self@),
    {
        match self {
            Json::Bool(b) => Some(*b),
            _ => None,
        }
    }

    /// The unsigned number that this value is.
    pub fn as_u64(&self) -> (r: Option<u64>)
        ensures
            r == u64_value(self@),
    {
        match self {
            Json::Number(n) => n.as_u64(),
            _ => None,
        }
    }

    /// The elements of this value, where it is an array.
    pub fn as_array(&self) -> (r: Option<&Vec<Json>>)
        ensures
            match r {
                Some(items) => array_value(self@) == Some(items_tree(items@)),
                None => array_value(self@) is None,
            },
    {
        match self {
            Json::Array(items) => {
                proof {
                    lemma_array_view(*items);
                }
                Some(items)
            },
            _ => None,
        }
    }

    /// Whether this value is an object.
    pub fn is_object(&self) -> (r: bool)
        ensures
            r == (self@ is Object),
    {
        match self {
            Json::Object(_) => true,
            _ => false,
        }
    }

    /// The text under `name`.
    pub fn get_str(&self, name: &str) -> (r: Option<&str>)
        ensures
            text::opt_text(r) == text_field(self@, name@),
    {
        match self.get(name) {
            Some(value) => value.as_str(),
            None => None,
        }
    }

    /// The array under `name`.
    pub fn get_array(&self, name: &str) -> (r: Option<&Vec<Json>>)
        ensures
            match r {
                Some(items) => array_field(self@, name@) == Some(items_tree(items@)),
                None => array_field(self@, name@) is None,
            },
    {
        match self.get(name) {
            Some(value) => value.as_array(),
            None => None,
        }
    }
}

/// The truth value under `name`; false where there is none.
pub fn bool_field(value: &Json, name: &str) -> (r: bool)
    ensures
        r == bool_field_value(value@, name@),
{
    match value.get(name) {
        Some(found) => match found.as_bool() {
            Some(b) => b,
            None => false,
        },
        None => false,
    }
}

/// The JSON text value `s`.
pub fn json_text(s: &str) -> (r: Json)
    ensures
        r@ == JsonTree::String(s@),
{
    Json::String(s.to_owned())
}

/// The JSON number `n`.
pub fn json_number(n: u64) -> (r: Json)
    ensures
        r@ == unsigned(n),
{
    Json::Number(number_from_u64(n))
}

/// The JSON array with these elements.
pub fn json_array(items: Vec<Json>) -> (r: Json)
    ensures
        r@ == JsonTree::Array(items_tree(items@)),
{
    proof {
        lemma_array_view(items);
    }
    Json::Array(items)
}

/// The JSON object with these entries.
pub fn json_object(entries: Vec<(String, Json)>) -> (r: Json)
    ensures
        r@ == object_tree(entries_tree(entries@)),
{
    proof {
        lemma_object_view(entries);
    }
    Json::Object(entries)
}

/// The empty list of elements.
pub fn new_items() -> (r: Vec<Json>)
    ensures
        items_tree(r@) == Seq::<JsonTree>::empty(),
{
    let r: Vec<Json> = Vec::new();
    proof {
        assert(items_tree(r@) =~= Seq::<JsonTree>::empty());
    }
    r
}

/// The empty list of entries.
pub fn new_entries() -> (r: Vec<(String, Json)>)
    ensures
        entries_tree(r@) == Seq::<(Seq<char>, JsonTree)>::empty(),
{
    let r: Vec<(String, Json)> = Vec::new();
    proof {
        assert(entries_tree(r@) =~= Seq::<(Seq<char>, JsonTree)>::empty());
    }
    r
}

/// Appends an element.
pub fn push_item(items: &mut Vec<Json>, value: Json)
    ensures
        items_tree(final(items)@) == items_tree(old(items)@).push(value@),
{
    items.push(value);
    proof {
        assert(items_tree(items@) =~= items_tree(old(items)@).push(value@));
    }
}

/// Appends an entry.
pub fn put(entries: &mut Vec<(String, Json)>, name: &str, value: Json)
    ensures
        entries_tree(final(entries)@) == entries_tree(old(entries)@).push((name@, value@)),
{
    entries.push((name.to_owned(), value));
    proof {
        assert(entries_tree(entries@) =~= entries_tree(old(entries)@).push((name@, value@)));
    }
}

/// A value and its view are alike: the same kind, the same truth, number and characters,
/// as many elements in the same order, and under each name of an object the value of its
/// last entry.
pub proof fn law_tree(json: Json, i: int)
    ensures
        json is Null <==> json@ is Null,
        json matches Json::Bool(b) ==> json@ == JsonTree::Bool(b),
        json matches Json::Number(n) ==> json@ == JsonTree::Number(number_value(n)),
        json matches Json::String(s) ==> json@ == JsonTree::String(s@),
        json matches Json::Array(items) ==> (json@ matches JsonTree::Array(trees) && trees.len()
            == items@.len() && (0 <= i < items@.len() ==> trees[i] == items@[i]@)),
        json matches Json::Object(entries) ==> json@ is Object && (0 <= i < entries@.len() && (
        forall|j: int| i < j < entries@.len() ==> (#[trigger] entries@[j]).0@ != entries@[i].0@)
            ==> field(json@, entries@[i].0@) == Some(entries@[i].1@)),
{
    match json {
        Json::Array(items) => {
            lemma_array_view(items);
        },
        Json::Object(entries) => {
            lemma_object_view(entries);
            let trees = entries_tree(entries@);
            if 0 <= i < entries@.len() && forall|j: int|
                i < j < entries@.len() ==> (#[trigger] entries@[j]).0@ != entries@[i].0@ {
                assert forall|j: int| i < j < trees.len() implies trees[j].0 != trees[i].0 by {
                    assert(entries@[j].0@ != entries@[i].0@);
                }
                lemma_last_entry_counts(trees, i);
                assert(trees[i] == (entries@[i].0@, entries@[i].1@));
            }
        },
        _ => {},
    }
}

} // verus!
