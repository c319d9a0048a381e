//! JSON text: reading it and writing it with `serde_json`, and the conversion
//! between its values and those of this library.

use vstd::prelude::*;

use crate::json;
use crate::json::{Json, JsonTree, json_array, json_object, push_item, put};

verus! {

/// A JSON value of `serde_json`.
#[verifier::external_type_specification]
#[verifier::external_body]
pub struct ExValue(serde_json::Value);

/// The tree that a value of `serde_json` holds.
pub uninterp spec fn value_tree(value: serde_json::Value) -> JsonTree;

/// What `serde_json::from_str` makes of a text: a value, or the text of its error.
pub uninterp spec fn json_parsed(text: Seq<char>) -> Result<JsonTree, Seq<char>>;

/// The text that `serde_json::to_string_pretty` writes for a value.
pub uninterp spec fn json_pretty(tree: JsonTree) -> Seq<char>;

/// `text` is JSON for `tree`.
pub open spec fn denotes(text: Seq<char>, tree: JsonTree) -> bool {
    json_parsed(text) == Ok::<JsonTree, Seq<char>>(tree)
}

/// `text` is no JSON, and `message` says why.
pub open spec fn is_refused(text: Seq<char>, message: Seq<char>) -> bool {
    json_parsed(text) == Err::<JsonTree, Seq<char>>(message)
}

/// `text` and the line feed that ends it.
pub open spec fn line(text: Seq<char>) -> Seq<char> {
    text.push('\n')
}

/// One layer of a value of `serde_json`.
pub enum OpenValue {
    Null,
    Bool(bool),
    Number(serde_json::Number),
    Text(String),
    Array(Vec<serde_json::Value>),
    Object(Vec<(String, serde_json::Value)>),
}

/// The trees of a list of values.
pub open spec fn value_trees(values: Seq<serde_json::Value>) -> Seq<JsonTree> {
    values.map_values(|value: serde_json::Value| value_tree(value))
}

/// The names and trees of a list of entries.
pub open spec fn entry_trees(entries: Seq<(String, serde_json::Value)>) -> Seq<
    (Seq<char>, JsonTree),
> {
    entries.map_values(|entry: (String, serde_json::Value)| (entry.0@, value_tree(entry.1)))
}

/// The tree of a value whose outermost layer is `layer`.
pub open spec fn layer_tree(layer: OpenValue) -> JsonTree {
    match layer {
        OpenValue::Null => JsonTree::Null,
        OpenValue::Bool(b) => JsonTree::Bool(b),
        OpenValue::Number(n) => JsonTree::Number(json::number_value(n)),
        OpenValue::Text(s) => JsonTree::String(s@),
        OpenValue::Array(values) => JsonTree::Array(value_trees(values@)),
        OpenValue::Object(entries) => json::object_tree(entry_trees(entries@)),
    }
}

/// No two entries have one name.
pub open spec fn names_differ(entries: Seq<(String, serde_json::Value)>) -> bool {
    forall|i: int, j: int| 0 <= i < j < entries.len() ==> entries[i].0@ != entries[j].0@
}

/// A tree whose text reads back as the same tree: its numbers are whole, and its
/// arrays and objects are nested in at most `levels` levels.
pub open spec fn reads_back(tree: JsonTree, levels: nat) -> bool
    decreases levels,
{
    match tree {
        JsonTree::Null => true,
        JsonTree::Bool(_) => true,
        JsonTree::String(_) => true,
        JsonTree::Number(n) => !(n is Float),
        JsonTree::Array(items) => levels > 0 && forall|i: int|
            0 <= i < items.len() ==> reads_back(#[trigger] items[i], (levels - 1) as nat),
        JsonTree::Object(map) => levels > 0 && forall|name: Seq<char>| #[trigger]
            map.dom().contains(name) ==> reads_back(map[name], (levels - 1) as nat),
    }
}

/// An array reads back exactly where its elements do, in one level less.
pub proof fn lemma_array_reads_back(items: Seq<JsonTree>, levels: nat)
    ensures
        reads_back(JsonTree::Array(items), levels) <==> levels > 0 && forall|i: int|
            0 <= i < items.len() ==> reads_back(#[trigger] items[i], (levels - 1) as nat),
{
    let tree = JsonTree::Array(items);
    assert(tree->Array_0 == items);
    if reads_back(tree, levels) {
        assert forall|i: int| 0 <= i < items.len() implies reads_back(
            #[trigger] items[i],
            (levels - 1) as nat,
        ) by {
            assert(tree->Array_0[i] == items[i]);
        }
    }
    if levels > 0 && forall|i: int|
        0 <= i < items.len() ==> reads_back(#[trigger] items[i], (levels - 1) as nat) {
        assert forall|i: int| 0 <= i < tree->Array_0.len() implies reads_back(
            #[trigger] tree->Array_0[i],
            (levels - 1) as nat,
        ) by {
            assert(tree->Array_0[i] == items[i]);
        }
    }
}

/// An object reads back where its entries do.
pub proof fn lemma_object_reads_back(entries: Seq<(Seq<char>, JsonTree)>, levels: nat)
    requires
        levels > 0,
        forall|i: int|
            0 <= i < entries.len() ==> #[trigger] reads_back(entries[i].1, (levels - 1) as nat),
    ensures
        reads_back(json::object_tree(entries), levels),
    decreases entries.len(),
{
    let tree = json::object_tree(entries);
    if entries.len() > 0 {
        let before = entries.drop_last();
        assert forall|i: int| 0 <= i < before.len() implies #[trigger] reads_back(
            before[i].1,
            (levels - 1) as nat,
        ) by {
            assert(before[i] == entries[i]);
        }
        lemma_object_reads_back(before, levels);
        let held = json::object_tree(before);
        assert(tree->Object_0 == held->Object_0.insert(entries.last().0, entries.last().1));
        assert forall|name: Seq<char>| #[trigger]
            tree->Object_0.dom().contains(name) implies reads_back(
            tree->Object_0[name],
            (levels - 1) as nat,
        ) by {
            if name == entries.last().0 {
                assert(reads_back(entries.last().1, (levels - 1) as nat));
            } else {
                assert(held->Object_0.dom().contains(name));
            }
        }
    }
}

/// Takes the variants of a `serde_json::Value` apart: the layer holds what the
/// variant holds, and the entries of an object have different names.
#[verifier::external_body]
fn open_value(value: serde_json::Value) -> (r: OpenValue)
    ensures
        layer_tree(r) == value_tree(value),
        r matches OpenValue::Object(entries) ==> names_differ(entries@),
{
    match value {
        serde_json::Value::Null => OpenValue::Null,
        serde_json::Value::Bool(b) => OpenValue::Bool(b),
        serde_json::Value::Number(n) => OpenValue::Number(n),
        serde_json::Value::String(s) => OpenValue::Text(s),
        serde_json::Value::Array(values) => OpenValue::Array(values),
        serde_json::Value::Object(map) => OpenValue::Object(map.into_iter().collect()),
    }
}

/// Makes the `serde_json::Value` whose outermost layer is `layer`. An object is
/// collected into a `serde_json::Map`, in which a later entry replaces an
/// earlier one of the same name.
#[verifier::external_body]
fn close_value(layer: OpenValue) -> (r: serde_json::Value)
    ensures
        value_tree(r) == layer_tree(layer),
{
    match layer {
        OpenValue::Null => serde_json::Value::Null,
        OpenValue::Bool(b) => serde_json::Value::Bool(b),
        OpenValue::Number(n) => serde_json::Value::Number(n),
        OpenValue::Text(s) => serde_json::Value::String(s),
        OpenValue::Array(values) => serde_json::Value::Array(values),
        OpenValue::Object(entries) => serde_json::Value::Object(entries.into_iter().collect()),
    }
}

/// Calls `serde_json::from_str`: the value that the text denotes, or the text of
/// the error.
#[verifier::external_body]
fn parse_value(text: &str) -> (r: Result<serde_json::Value, String>)
    ensures
        match r {
            Ok(value) => json_parsed(text@) == Ok::<JsonTree, Seq<char>>(value_tree(value)),
            Err(message) => json_parsed(text@) == Err::<JsonTree, Seq<char>>(message@),
        },
{
    serde_json::from_str::<serde_json::Value>(text).map_err(|error| error.to_string())
}

/// Calls `serde_json::to_string_pretty`, which cannot fail on a
/// `serde_json::Value`: it writes to memory, and the names of an object are
/// text. What it writes for whole numbers in at most 127 levels of nesting,
/// followed by a line feed, is read back by `serde_json::from_str` as the same
/// value.
#[verifier::external_body]
fn print_value(value: &serde_json::Value) -> (r: Result<String, String>)
    ensures
        r is Ok,
        r->Ok_0@ == json_pretty(value_tree(*value)),
        reads_back(value_tree(*value), 127) ==> denotes(line(r->Ok_0@), value_tree(*value)),
{
    serde_json::to_string_pretty(value).map_err(|error| error.to_string())
}

/// The value of this library for a value of `serde_json`.
pub fn json_from_value(value: serde_json::Value) -> (r: Json)
    ensures
        r@ == value_tree(value),
    decreases value_tree(value),
{
    match open_value(value) {
        OpenValue::Null => Json::Null,
        OpenValue::Bool(b) => Json::Bool(b),
        OpenValue::Number(n) => Json::Number(n),
        OpenValue::Text(s) => Json::String(s),
        OpenValue::Array(values) => {
            let ghost all = values@;
            let mut items: Vec<Json> = Vec::new();
            proof {
                assert(json::items_tree(items@) =~= value_trees(all.take(0)));
            }
            for v in it: values
                invariant
                    it.seq() == all,
                    value_tree(value) == JsonTree::Array(value_trees(all)),
                    json::items_tree(items@) == value_trees(all.take(it.index() as int)),
            {
                let ghost i = it.index() as int;
                proof {
                    let trees = value_tree(value)->Array_0;
                    assert(trees[i] == value_tree(v));
                    assert(decreases_to!(value_tree(value) => trees));
                    assert(decreases_to!(trees => trees[i]));
                    assert(all.take(i + 1) =~= all.take(i).push(v));
                    assert(value_trees(all.take(i + 1)) =~= value_trees(all.take(i)).push(
                        value_tree(v),
                    ));
                }
                push_item(&mut items, json_from_value(v));
            }
            proof {
                assert(all.take(all.len() as int) =~= all);
            }
            json_array(items)
        },
        OpenValue::Object(values) => {
            let ghost all = values@;
            let mut entries: Vec<(String, Json)> = Vec::new();
            proof {
                assert(json::entries_tree(entries@) =~= entry_trees(all.take(0)));
            }
            for v in it: values
                invariant
                    it.seq() == all,
                    names_differ(all),
                    value_tree(value) == json::object_tree(entry_trees(all)),
                    json::entries_tree(entries@) == entry_trees(all.take(it.index() as int)),
            {
                let ghost i = it.index() as int;
                let (name, inner) = v;
                proof {
                    assert(all[i] == (name, inner));
                    json::lemma_last_entry_counts(entry_trees(all), i);
                    lemma_object_finite(entry_trees(all));
                    assert(all.take(i + 1) =~= all.take(i).push(v));
                    assert(entry_trees(all.take(i + 1)) =~= entry_trees(all.take(i)).push(
                        (name@, value_tree(inner)),
                    ));
                    let map = value_tree(value)->Object_0;
                    assert(map[name@] == value_tree(inner));
                    assert(decreases_to!(value_tree(value) => map));
                    assert(decreases_to!(map => map[name@]));
                }
                put(&mut entries, name.as_str(), json_from_value(inner));
            }
            proof {
                assert(all.take(all.len() as int) =~= all);
            }
            json_object(entries)
        },
    }
}

proof fn lemma_object_finite(entries: Seq<(Seq<char>, JsonTree)>)
    ensures
        json::object_of(entries).dom().finite(),
    decreases entries.len(),
{
    if entries.len() > 0 {
        lemma_object_finite(entries.drop_last());
    }
}

/// The value of `serde_json` for a value of this library.
pub fn value_from_json(json: Json) -> (r: serde_json::Value)
    ensures
        value_tree(r) == json@,
    decreases json,
{
    match json {
        Json::Null => close_value(OpenValue::Null),
        Json::Bool(b) => close_value(OpenValue::Bool(b)),
        Json::Number(n) => close_value(OpenValue::Number(n)),
        Json::String(s) => close_value(OpenValue::Text(s)),
        Json::Array(items) => {
            let ghost all = items@;
            let mut values: Vec<serde_json::Value> = Vec::new();
            proof {
                json::lemma_array_view(items);
                assert(value_trees(values@) =~= json::items_tree(all.take(0)));
            }
            for item in it: items
                invariant
                    it.seq() == all,
                    json matches Json::Array(held) && held@ == all,
                    value_trees(values@) == json::items_tree(all.take(it.index() as int)),
            {
                let ghost i = it.index() as int;
                proof {
                    assert(all[i] == item);
                    assert(decreases_to!(json => json->Array_0@[i]));
                    assert(all.take(i + 1) =~= all.take(i).push(item));
                    assert(json::items_tree(all.take(i + 1)) =~= json::items_tree(all.take(i)).push(item@));
                }
                let ghost before = values@;
                let inner = value_from_json(item);
                values.push(inner);
                proof {
                    assert(value_trees(values@) =~= value_trees(before).push(value_tree(inner)));
                }
            }
            proof {
                assert(all.take(all.len() as int) =~= all);
            }
            close_value(OpenValue::Array(values))
        },
        Json::Object(entries) => {
            let ghost all = entries@;
            let mut values: Vec<(String, serde_json::Value)> = Vec::new();
            proof {
                json::lemma_object_view(entries);
                assert(entry_trees(values@) =~= json::entries_tree(all.take(0)));
            }
            for entry in it: entries
                invariant
                    it.seq() == all,
                    json matches Json::Object(held) && held@ == all,
                    entry_trees(values@) == json::entries_tree(all.take(it.index() as int)),
            {
                let ghost i = it.index() as int;
                let (name, item) = entry;
                proof {
                    assert(all[i] == (name, item));
                    assert(decreases_to!(json => json->Object_0@[i].1));
                    assert(all.take(i + 1) =~= all.take(i).push(entry));
                    assert(json::entries_tree(all.take(i + 1)) =~= json::entries_tree(all.take(i)).push(
                        (name@, item@),
                    ));
                }
                let ghost before = values@;
                let inner = value_from_json(item);
                values.push((name, inner));
                proof {
                    assert(entry_trees(values@) =~= entry_trees(before).push(
                        (name@, value_tree(inner)),
                    ));
                }
            }
            proof {
                assert(all.take(all.len() as int) =~= all);
            }
            close_value(OpenValue::Object(values))
        },
    }
}

/// Reads a JSON text.
pub fn parse_json(text: &str) -> (r: Result<Json, String>)
    ensures
        match r {
            Ok(json) => denotes(text@, json@),
            Err(message) => is_refused(text@, message@),
        },
{
    match parse_value(text) {
        Ok(value) => Ok(json_from_value(value)),
        Err(message) => Err(message),
    }
}

/// A value and its text.
pub struct PrintedJson {
    /// The indented text of the value, and the line feed that ends it.
    pub text: String,
    /// The value.
    pub value: Json,
}

/// Writes a value as indented text with a line feed at the end.
pub fn print_json(json: Json) -> (r: Result<PrintedJson, String>)
    ensures
        r is Ok,
        r->Ok_0.text@ == line(json_pretty(json@)),
        r->Ok_0.value@ == json@,
        reads_back(json@, 127) ==> denotes(r->Ok_0.text@, json@),
{
    let value = value_from_json(json);
    match print_value(&value) {
        Ok(text) => {
            let mut text = text;
            text.push('\n');
            Ok(PrintedJson { text, value: json_from_value(value) })
        },
        Err(message) => Err(message),
    }
}

/// A file's text is the value's text and one line feed.
pub proof fn law_line(text: Seq<char>)
    ensures
        line(text).len() == text.len() + 1,
        line(text).drop_last() == text,
        line(text).last() == '\n',
{
    assert(line(text).drop_last() =~= text);
}

} // verus!
