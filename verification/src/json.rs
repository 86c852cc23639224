//! JSON values.

use vstd::prelude::*;

use crate::map::{
    distinct_keys, key_position, lemma_key_position, pair_views, pairs_map, reversed, StringMap,
};
use crate::text::same_text;

verus! {

/// What a JSON number holds: its value as an unsigned and as a signed integer of 64 bits, where it
/// has one, and its notation.
pub struct NumberTree {
    pub unsigned: Option<u64>,
    pub signed: Option<i64>,
    pub text: Seq<char>,
}

/// A JSON value. The entries of an object stand in the order in which they are walked.
pub enum JsonTree {
    Null,
    Bool(bool),
    Number(NumberTree),
    Text(Seq<char>),
    Array(Seq<JsonTree>),
    Object(Seq<(Seq<char>, JsonTree)>),
}

/// A JSON number.
#[derive(Debug)]
pub struct JsonNumber {
    /// The value as an unsigned integer, where it is one.
    pub unsigned: Option<u64>,
    /// The value as a signed integer, where it is one.
    pub signed: Option<i64>,
    /// The notation of the number.
    pub text: String,
}

impl View for JsonNumber {
    type V = NumberTree;

    open spec fn view(&self) -> NumberTree {
        NumberTree { unsigned: self.unsigned, signed: self.signed, text: self.text@ }
    }
}

/// A JSON value.
#[derive(Debug)]
pub enum Json {
    Null,
    Bool(bool),
    Number(JsonNumber),
    Text(String),
    Array(Vec<Json>),
    Object(Vec<(String, Json)>),
}

impl Json {
    /// The value that `self` stands for.
    pub open spec fn tree(self) -> JsonTree
        decreases self,
    {
        match self {
            Json::Null => JsonTree::Null,
            Json::Bool(b) => JsonTree::Bool(b),
            Json::Number(n) => JsonTree::Number(n@),
            Json::Text(s) => JsonTree::Text(s@),
            Json::Array(items) => JsonTree::Array(
                Seq::new(
                    items@.len(),
                    |i: int|
                        if 0 <= i < items@.len() {
                            items@[i].tree()
                        } else {
                            JsonTree::Null
                        },
                ),
            ),
            Json::Object(entries) => JsonTree::Object(
                Seq::new(
                    entries@.len(),
                    |i: int|
                        if 0 <= i < entries@.len() {
                            (entries@[i].0@, entries@[i].1.tree())
                        } else {
                            (Seq::<char>::empty(), JsonTree::Null)
                        },
                ),
            ),
        }
    }
}

impl View for Json {
    type V = JsonTree;

    open spec fn view(&self) -> JsonTree {
        self.tree()
    }
}

/// The value under `key` where `tree` is an object that has one.
pub open spec fn entry(tree: JsonTree, key: Seq<char>) -> Option<JsonTree> {
    match tree {
        JsonTree::Object(entries) => {
            let i = key_position(entries, key);
            if i < entries.len() {
                Some(entries[i].1)
            } else {
                None
            }
        },
        _ => None,
    }
}

/// The text where `value` is one.
pub open spec fn text_in(value: Option<JsonTree>) -> Option<Seq<char>> {
    match value {
        Some(JsonTree::Text(s)) => Some(s),
        _ => None,
    }
}

/// The unsigned integer where `value` is one.
pub open spec fn unsigned_in(value: Option<JsonTree>) -> Option<u64> {
    match value {
        Some(JsonTree::Number(n)) => n.unsigned,
        _ => None,
    }
}

/// The signed integer where `value` is one.
pub open spec fn signed_in(value: Option<JsonTree>) -> Option<i64> {
    match value {
        Some(JsonTree::Number(n)) => n.signed,
        _ => None,
    }
}

/// A value is larger than the values of its entries.
pub proof fn lemma_entry_smaller(tree: JsonTree, key: Seq<char>)
    ensures
        entry(tree, key) is Some ==> decreases_to!(tree => entry(tree, key)->0),
{
    if tree is Object {
        let entries = tree->Object_0;
        lemma_key_position(entries, key);
        let i = key_position(entries, key);
        if i < entries.len() {
            assert(decreases_to!(tree => tree->Object_0));
            assert(decreases_to!(entries => entries[i]));
            assert(decreases_to!(entries[i] => entries[i].1));
        }
    }
}

/// A list is larger than its items.
pub proof fn lemma_item_smaller(tree: JsonTree, i: int)
    requires
        tree is Array,
        0 <= i < tree->Array_0.len(),
    ensures
        decreases_to!(tree => tree->Array_0[i]),
{
    let items = tree->Array_0;
    assert(decreases_to!(tree => tree->Array_0));
    assert(decreases_to!(items => items[i]));
}

impl Json {
    /// The value under `key` where `self` is an object that has one.
    pub fn entry(&self, key: &str) -> (r: Option<&Json>)
        ensures
            match r {
                Some(value) => entry(self@, key@) == Some(value@),
                None => entry(self@, key@) is None,
            },
    {
        match self {
            Json::Object(entries) => {
                let ghost all = self@->Object_0;
                let mut i: usize = 0;
                while i < entries.len()
                    invariant
                        i <= entries.len(),
                        *self == Json::Object(*entries),
                        all == self@->Object_0,
                        forall|j: int| 0 <= j < i ==> (#[trigger] all[j]).0 != key@,
                    decreases entries.len() - i,
                {
                    assert(all[i as int].0 == entries@[i as int].0@);
                    if same_text(entries[i].0.as_str(), key) {
                        proof {
                            lemma_key_position(all, key@);
                        }
                        return Some(&entries[i].1);
                    }
                    i = i + 1;
                }
                proof {
                    lemma_key_position(all, key@);
                }
                None
            },
            _ => None,
        }
    }

    /// The text under `key`.
    pub fn text_entry(&self, key: &str) -> (r: Option<&String>)
        ensures
            match r {
                Some(s) => text_in(entry(self@, key@)) == Some(s@),
                None => text_in(entry(self@, key@)) is None,
            },
    {
        match self.entry(key) {
            Some(Json::Text(s)) => Some(s),
            _ => None,
        }
    }

    /// The unsigned integer under `key`.
    pub fn unsigned_entry(&self, key: &str) -> (r: Option<u64>)
        ensures
            r == unsigned_in(entry(self@, key@)),
    {
        match self.entry(key) {
            Some(Json::Number(n)) => n.unsigned,
            _ => None,
        }
    }

    /// The signed integer under `key`.
    pub fn signed_entry(&self, key: &str) -> (r: Option<i64>)
        ensures
            r == signed_in(entry(self@, key@)),
    {
        match self.entry(key) {
            Some(Json::Number(n)) => n.signed,
            _ => None,
        }
    }
}

/// The value of `serde_json` that a parse gives.
#[verifier::external_type_specification]
#[verifier::external_body]
pub struct ExSerdeValue(serde_json::Value);

/// The error of `serde_json` that a failed parse gives.
#[verifier::external_type_specification]
#[verifier::external_body]
pub struct ExSerdeError(serde_json::Error);

/// What a value of `serde_json` holds.
pub uninterp spec fn tree_of(value: serde_json::Value) -> JsonTree;

/// The text with which an error of `serde_json` describes itself.
pub uninterp spec fn error_text_of(error: serde_json::Error) -> Seq<char>;

/// What `serde_json::from_str` makes of a text when any JSON value is asked for: the value, or
/// the description of the error.
pub uninterp spec fn json_of_text(text: Seq<char>) -> Result<JsonTree, Seq<char>>;

/// What `serde_json::from_str` makes of a text when a map from strings to lists of 32-bit integers
/// is asked for: the map, or the description of the error.
pub uninterp spec fn assignment_of_text(text: Seq<char>) -> Result<
    Map<Seq<char>, Seq<i32>>,
    Seq<char>,
>;

/// What `serde_json::from_str` makes of a text when a map from strings to maps from strings to
/// 64-bit integers is asked for: the map, or the description of the error.
pub uninterp spec fn offsets_of_text(text: Seq<char>) -> Result<
    Map<Seq<char>, Map<Seq<char>, i64>>,
    Seq<char>,
>;

/// One level of a JSON value.
enum JsonNode {
    Null,
    Bool(bool),
    Number(JsonNumber),
    Text(String),
    Array(Vec<serde_json::Value>),
    Object(Vec<(String, serde_json::Value)>),
}

/// Whether `node` is the outermost level of `tree`.
spec fn node_of(node: JsonNode, tree: JsonTree) -> bool {
    match node {
        JsonNode::Null => tree == JsonTree::Null,
        JsonNode::Bool(b) => tree == JsonTree::Bool(b),
        JsonNode::Number(n) => tree == JsonTree::Number(n@),
        JsonNode::Text(s) => tree == JsonTree::Text(s@),
        JsonNode::Array(items) => tree == JsonTree::Array(
            items@.map_values(|v: serde_json::Value| tree_of(v)),
        ),
        JsonNode::Object(entries) => tree == JsonTree::Object(
            entries@.map_values(|e: (String, serde_json::Value)| (e.0@, tree_of(e.1))),
        ) && distinct_keys(
            entries@.map_values(|e: (String, serde_json::Value)| (e.0@, tree_of(e.1))),
        ),
    }
}

/// Tells the variants of `serde_json::Value` apart. Claimed: the parts that come out are the parts
/// of the value, an object's entries in the order of its iterator and no key among them twice; of
/// a number the two integer readings and the notation that `Number` gives.
#[verifier::external_body]
fn open_value(value: serde_json::Value) -> (r: JsonNode)
    ensures
        node_of(r, tree_of(value)),
{
    match value {
        serde_json::Value::Null => JsonNode::Null,
        serde_json::Value::Bool(b) => JsonNode::Bool(b),
        serde_json::Value::Number(n) => JsonNode::Number(
            JsonNumber { unsigned: n.as_u64(), signed: n.as_i64(), text: n.to_string() },
        ),
        serde_json::Value::String(s) => JsonNode::Text(s),
        serde_json::Value::Array(items) => JsonNode::Array(items),
        serde_json::Value::Object(entries) => JsonNode::Object(entries.into_iter().collect()),
    }
}

/// Calls `serde_json::from_str` for any JSON value. Claimed: what comes back, the value or the
/// error by its description, depends on the text alone.
#[verifier::external_body]
fn read_value(text: &str) -> (r: Result<serde_json::Value, serde_json::Error>)
    ensures
        match r {
            Ok(value) => json_of_text(text@) == Ok::<JsonTree, Seq<char>>(tree_of(value)),
            Err(error) => json_of_text(text@) == Err::<JsonTree, Seq<char>>(error_text_of(error)),
        },
{
    serde_json::from_str::<serde_json::Value>(text)
}

/// Calls `to_string` of `serde_json::Error`. Claimed: the description depends on the error alone.
#[verifier::external_body]
fn error_text(error: &serde_json::Error) -> (r: String)
    ensures
        r@ == error_text_of(*error),
{
    error.to_string()
}

/// The value in the library's own form.
fn convert(value: serde_json::Value) -> (r: Json)
    ensures
        r@ == tree_of(value),
    decreases tree_of(value),
{
    let ghost tree = tree_of(value);
    match open_value(value) {
        JsonNode::Null => Json::Null,
        JsonNode::Bool(b) => Json::Bool(b),
        JsonNode::Number(n) => Json::Number(n),
        JsonNode::Text(s) => Json::Text(s),
        JsonNode::Array(items) => {
            let mut rest: Vec<serde_json::Value> = items;
            let ghost all = rest@;
            let ghost trees = tree->Array_0;
            let mut back: Vec<Json> = Vec::new();
            while rest.len() > 0
                invariant
                    tree == tree_of(value),
                    tree == JsonTree::Array(trees),
                    trees == all.map_values(|v: serde_json::Value| tree_of(v)),
                    rest@ == all.take(rest@.len() as int),
                    rest@.len() + back@.len() == all.len(),
                    forall|i: int|
                        0 <= i < back@.len() ==> (#[trigger] back@[i])@ == trees[all.len() - 1 - i],
                decreases rest.len(),
            {
                let ghost n = rest@.len() - 1;
                let item: serde_json::Value = rest.pop().unwrap();
                assert(item == all[n]);
                assert(trees[n] == tree_of(item));
                assert(decreases_to!(tree => tree->Array_0));
                assert(decreases_to!(trees => trees[n]));
                back.push(convert(item));
                assert(rest@ == all.take(n));
            }
            let list: Vec<Json> = reversed(back);
            let r = Json::Array(list);
            assert(r@->Array_0 =~= trees);
            r
        },
        JsonNode::Object(entries) => {
            let mut rest: Vec<(String, serde_json::Value)> = entries;
            let ghost all = rest@;
            let ghost trees = tree->Object_0;
            let mut back: Vec<(String, Json)> = Vec::new();
            while rest.len() > 0
                invariant
                    tree == tree_of(value),
                    tree == JsonTree::Object(trees),
                    trees == all.map_values(
                        |e: (String, serde_json::Value)| (e.0@, tree_of(e.1)),
                    ),
                    rest@ == all.take(rest@.len() as int),
                    rest@.len() + back@.len() == all.len(),
                    forall|i: int|
                        0 <= i < back@.len() ==> (#[trigger] back@[i]).0@ == trees[all.len() - 1
                            - i].0 && back@[i].1@ == trees[all.len() - 1 - i].1,
                decreases rest.len(),
            {
                let ghost n = rest@.len() - 1;
                let entry: (String, serde_json::Value) = rest.pop().unwrap();
                assert(entry == all[n]);
                assert(trees[n] == (entry.0@, tree_of(entry.1)));
                assert(decreases_to!(tree => tree->Object_0));
                assert(decreases_to!(trees => trees[n]));
                assert(decreases_to!(trees[n] => trees[n].1));
                back.push((entry.0, convert(entry.1)));
                assert(rest@ == all.take(n));
            }
            let list: Vec<(String, Json)> = reversed(back);
            let r = Json::Object(list);
            assert(r@->Object_0 =~= trees);
            r
        },
    }
}

/// Reads a JSON text; the description of the error where it is none.
pub fn parse_json(text: &str) -> (r: Result<Json, String>)
    ensures
        match r {
            Ok(json) => json_of_text(text@) == Ok::<JsonTree, Seq<char>>(json@),
            Err(error) => json_of_text(text@) == Err::<JsonTree, Seq<char>>(error@),
        },
{
    match read_value(text) {
        Ok(value) => Ok(convert(value)),
        Err(error) => Err(error_text(&error)),
    }
}

/// Calls `serde_json::from_str` for a map from strings to lists of 32-bit integers, and lists the
/// entries in the order in which the hash map is walked. Claimed: the map that the entries make,
/// or the error by its description, depends on the text alone. The order is left open.
#[verifier::external_body]
fn read_assignment(text: &str) -> (r: Result<Vec<(String, Vec<i32>)>, serde_json::Error>)
    ensures
        match r {
            Ok(entries) => assignment_of_text(text@) == Ok::<Map<Seq<char>, Seq<i32>>, Seq<char>>(
                pairs_map(pair_views(entries@)),
            ),
            Err(error) => assignment_of_text(text@) == Err::<Map<Seq<char>, Seq<i32>>, Seq<char>>(
                error_text_of(error),
            ),
        },
{
    let map: std::collections::HashMap<String, Vec<i32>> = serde_json::from_str(text)?;
    Ok(map.into_iter().collect())
}

/// Reads a map from topics to partitions; the description of the error where the text is none.
pub fn parse_assignment(text: &str) -> (r: Result<StringMap<Vec<i32>>, String>)
    ensures
        match r {
            Ok(map) => assignment_of_text(text@) == Ok::<Map<Seq<char>, Seq<i32>>, Seq<char>>(map@),
            Err(error) => assignment_of_text(text@) == Err::<Map<Seq<char>, Seq<i32>>, Seq<char>>(
                error@,
            ),
        },
{
    match read_assignment(text) {
        Ok(entries) => Ok(StringMap::from_entries(entries)),
        Err(error) => Err(error_text(&error)),
    }
}

/// The map that a list of topics with their entries makes.
pub open spec fn nested_map(entries: Seq<(String, Vec<(String, i64)>)>) -> Map<
    Seq<char>,
    Map<Seq<char>, i64>,
> {
    pairs_map(
        entries.map_values(
            |e: (String, Vec<(String, i64)>)| (e.0@, pairs_map(pair_views(e.1@))),
        ),
    )
}

/// Calls `serde_json::from_str` for a map from strings to maps from strings to 64-bit integers, and
/// lists the entries in the order in which the hash maps are walked. Claimed: the map that the
/// entries make, or the error by its description, depends on the text alone. The order is left
/// open.
#[verifier::external_body]
fn read_offsets(text: &str) -> (r: Result<Vec<(String, Vec<(String, i64)>)>, serde_json::Error>)
    ensures
        match r {
            Ok(entries) => offsets_of_text(text@) == Ok::<
                Map<Seq<char>, Map<Seq<char>, i64>>,
                Seq<char>,
            >(nested_map(entries@)),
            Err(error) => offsets_of_text(text@) == Err::<
                Map<Seq<char>, Map<Seq<char>, i64>>,
                Seq<char>,
            >(error_text_of(error)),
        },
{
    let map: std::collections::HashMap<String, std::collections::HashMap<String, i64>> =
        serde_json::from_str(text)?;
    Ok(map.into_iter().map(|(key, inner)| (key, inner.into_iter().collect())).collect())
}

/// Reads a map from topics to maps from partitions to numbers; the description of the error where
/// the text is none.
pub fn parse_offset_map(text: &str) -> (r: Result<StringMap<StringMap<i64>>, String>)
    ensures
        match r {
            Ok(map) => offsets_of_text(text@) == Ok::<
                Map<Seq<char>, Map<Seq<char>, i64>>,
                Seq<char>,
            >(map@),
            Err(error) => offsets_of_text(text@) == Err::<
                Map<Seq<char>, Map<Seq<char>, i64>>,
                Seq<char>,
            >(error@),
        },
{
    match read_offsets(text) {
        Ok(entries) => {
            let ghost wanted = entries@.map_values(
                |e: (String, Vec<(String, i64)>)| (e.0@, pairs_map(pair_views(e.1@))),
            );
            let mut rest: Vec<(String, Vec<(String, i64)>)> = reversed(entries);
            let ghost all = rest@;
            let mut outer: Vec<(String, StringMap<i64>)> = Vec::new();
            while rest.len() > 0
                invariant
                    all == entries@.reverse(),
                    rest@ == all.take(rest@.len() as int),
                    rest@.len() + outer@.len() == all.len(),
                    wanted == entries@.map_values(
                        |e: (String, Vec<(String, i64)>)| (e.0@, pairs_map(pair_views(e.1@))),
                    ),
                    pair_views(outer@) == wanted.take(outer@.len() as int),
                decreases rest.len(),
            {
                let ghost k = outer@.len() as int;
                let ghost before = pair_views(outer@);
                let entry: (String, Vec<(String, i64)>) = rest.pop().unwrap();
                assert(entry == entries@[k]);
                let topic: String = entry.0;
                let inner: StringMap<i64> = StringMap::from_entries(entry.1);
                let ghost pair = (topic@, inner@);
                outer.push((topic, inner));
                assert(pair_views(outer@) =~= before.push(pair));
                assert(wanted.take(k + 1) =~= wanted.take(k).push(wanted[k]));
            }
            assert(wanted.take(wanted.len() as int) =~= wanted);
            Ok(StringMap::from_entries(outer))
        },
        Err(error) => Err(error_text(&error)),
    }
}

/// An object has under a key the value of the first entry with that key, and nothing where no entry
/// has it; what is no object has nothing under any key.
pub proof fn law_entries_are_found_by_their_keys(tree: JsonTree, key: Seq<char>, i: int)
    ensures
        tree is Object && 0 <= i < tree->Object_0.len() && tree->Object_0[i].0 == key && (forall|
            j: int,
        |
            0 <= j < i ==> (#[trigger] tree->Object_0[j]).0 != key) ==> entry(tree, key) == Some(
            tree->Object_0[i].1,
        ),
        tree is Object && (forall|j: int|
            0 <= j < tree->Object_0.len() ==> (#[trigger] tree->Object_0[j]).0 != key) ==> entry(
            tree,
            key,
        ) is None,
        !(tree is Object) ==> entry(tree, key) is None,
{
    if tree is Object {
        lemma_key_position(tree->Object_0, key);
    }
}

/// Texts and numbers are read as they are, and nothing else is read as one.
pub proof fn law_scalars_are_read_as_they_are(value: JsonTree)
    ensures
        value is Text ==> text_in(Some(value)) == Some(value->Text_0),
        !(value is Text) ==> text_in(Some(value)) is None,
        text_in(None) is None,
        value is Number ==> unsigned_in(Some(value)) == value->Number_0.unsigned && signed_in(
            Some(value),
        ) == value->Number_0.signed,
        !(value is Number) ==> unsigned_in(Some(value)) is None && signed_in(Some(value)) is None,
        unsigned_in(None) is None,
        signed_in(None) is None,
{
}

/// A value stands for itself, a list for its items in order and an object for its entries in order.
pub proof fn law_json_stands_for_its_parts(value: Json)
    ensures
        match value {
            Json::Null => value@ is Null,
            Json::Bool(b) => value@ == JsonTree::Bool(b),
            Json::Text(s) => value@ == JsonTree::Text(s@),
            Json::Number(n) => value@ is Number && value@->Number_0.unsigned == n.unsigned
                && value@->Number_0.signed == n.signed && value@->Number_0.text == n.text@,
            Json::Array(items) => value@ is Array && value@->Array_0.len() == items@.len()
                && forall|i: int|
                0 <= i < items@.len() ==> #[trigger] value@->Array_0[i] == items@[i]@,
            Json::Object(entries) => value@ is Object && value@->Object_0.len() == entries@.len()
                && forall|i: int|
                0 <= i < entries@.len() ==> #[trigger] value@->Object_0[i] == (
                    entries@[i].0@,
                    entries@[i].1@,
                ),
        },
{
}

} // verus!
