use crate::keyed::{distinct, first_index, lemma_first_index, lemma_first_index_is, lemma_first_index_none, Key};
use serde_json::Value;
use vstd::prelude::*;

verus! {

/// `serde_json::Value`: a JSON document in memory.
#[verifier::external_type_specification]
#[verifier::external_body]
pub struct ExValue(serde_json::Value);

/// `serde_json::Error`: why serde_json gave up.
#[verifier::external_type_specification]
#[verifier::external_body]
pub struct ExJsonError(serde_json::Error);

/// What a JSON number says, in the three forms in which serde_json holds
/// one: a whole number from 0 on, a whole number below 0, or any other
/// number, which stands here as the text that serde_json prints for it.
pub enum NumberModel {
    Unsigned(u64),
    Negative(i64),
    Float(Seq<char>),
}

/// What a JSON document says. The fields of an object have no order.
pub enum JsonModel {
    Null,
    Bool(bool),
    Number(NumberModel),
    String(Seq<char>),
    Array(Seq<JsonModel>),
    Object(Map<Key, JsonModel>),
}

/// The six kinds of JSON document.
#[derive(Debug, Clone, Copy)]
pub enum JsonKind {
    Null,
    Bool,
    Number,
    String,
    Array,
    Object,
}

impl JsonModel {
    pub open spec fn kind(self) -> JsonKind {
        match self {
            JsonModel::Null => JsonKind::Null,
            JsonModel::Bool(_) => JsonKind::Bool,
            JsonModel::Number(_) => JsonKind::Number,
            JsonModel::String(_) => JsonKind::String,
            JsonModel::Array(_) => JsonKind::Array,
            JsonModel::Object(_) => JsonKind::Object,
        }
    }
}

/// What the document `value` says.
pub uninterp spec fn json_model(value: Value) -> JsonModel;

/// What `serde_json::Value::pointer` finds in a document under a JSON
/// pointer; `None` where it finds nothing.
pub uninterp spec fn pointer_target(document: JsonModel, pointer: Seq<char>) -> Option<JsonModel>;

/// What `serde_json::to_string_pretty` writes for a list of documents; `None`
/// where it gives up. serde_json is built here without `preserve_order`, so
/// that the fields of an object come out in the order of their names and
/// the text depends on what the documents say alone.
pub uninterp spec fn pretty_text(documents: Seq<JsonModel>) -> Option<Seq<char>>;

/// What `serde_json::from_str` reads out of a text as a document; `None`
/// where it reads none.
pub uninterp spec fn json_read(text: Seq<char>) -> Option<JsonModel>;

/// What each of `values` says, in order.
pub open spec fn models(values: Seq<Value>) -> Seq<JsonModel> {
    values.map_values(|value: Value| json_model(value))
}

/// What each of the borrowed `values` says, in order.
pub open spec fn borrowed_models(values: Seq<&Value>) -> Seq<JsonModel> {
    values.map_values(|value: &Value| json_model(*value))
}

/// The names of `entries`, in order.
pub open spec fn entry_names(entries: Seq<(String, Value)>) -> Seq<Key> {
    entries.map_values(|entry: (String, Value)| entry.0@)
}

/// The names of the borrowed `entries`, in order.
pub open spec fn borrowed_entry_names(entries: Seq<(&String, &Value)>) -> Seq<Key> {
    entries.map_values(|entry: (&String, &Value)| entry.0@)
}

/// `names` are the names of `fields`, each once, and `contents` holds at each
/// position what `fields` holds under the name at that position.
pub open spec fn lists_fields(names: Seq<Key>, contents: Seq<JsonModel>, fields: Map<Key, JsonModel>) -> bool {
    &&& names.len() == contents.len()
    &&& distinct(names)
    &&& forall|i: int| 0 <= i < names.len() ==> fields.contains_pair(#[trigger] names[i], contents[i])
    &&& forall|name: Key| fields.contains_key(name) ==> first_index(names, name) is Some
}

/// Tells the variants of `serde_json::Value` apart.
#[verifier::external_body]
pub(crate) fn value_kind(value: &Value) -> (kind: JsonKind)
    ensures
        kind == json_model(*value).kind(),
{
    match value {
        Value::Null => JsonKind::Null,
        Value::Bool(_) => JsonKind::Bool,
        Value::Number(_) => JsonKind::Number,
        Value::String(_) => JsonKind::String,
        Value::Array(_) => JsonKind::Array,
        Value::Object(_) => JsonKind::Object,
    }
}

/// The items of a `Value::Array`, in order; nothing for any other variant.
#[verifier::external_body]
pub(crate) fn array_items(value: &Value) -> (items: Vec<&Value>)
    ensures
        json_model(*value) matches JsonModel::Array(content) ==> borrowed_models(items@) == content,
        !(json_model(*value) is Array) ==> items@.len() == 0,
{
    match value {
        Value::Array(list) => list.iter().collect(),
        _ => Vec::new(),
    }
}

/// The entries of a `Value::Object`, as `serde_json::Map::iter` hands them
/// out: each name once, with what stands under it; nothing for any other
/// variant.
#[verifier::external_body]
pub(crate) fn object_entries(value: &Value) -> (entries: Vec<(&String, &Value)>)
    ensures
        json_model(*value) matches JsonModel::Object(fields) ==> lists_fields(
            borrowed_entry_names(entries@),
            entries@.map_values(|entry: (&String, &Value)| json_model(*entry.1)),
            fields,
        ),
        !(json_model(*value) is Object) ==> entries@.len() == 0,
{
    match value {
        Value::Object(fields) => fields.iter().collect(),
        _ => Vec::new(),
    }
}

/// `Value::Null`.
#[verifier::external_body]
pub(crate) fn null_value() -> (value: Value)
    ensures
        json_model(value) == JsonModel::Null,
{
    Value::Null
}

/// `Value::String` of a copy of `text`.
#[verifier::external_body]
pub(crate) fn text_value(text: &str) -> (value: Value)
    ensures
        json_model(value) == JsonModel::String(text@),
{
    Value::String(text.to_owned())
}

/// `Value::from` of an unsigned number: the `Value::Number` that holds it
/// as a whole number from 0 on.
#[verifier::external_body]
pub(crate) fn number_value(n: u32) -> (value: Value)
    ensures
        json_model(value) == JsonModel::Number(NumberModel::Unsigned(n as u64)),
{
    Value::from(n)
}

/// `Value::as_u64`: the number of a `Value::Number` that holds a whole
/// number from 0 on; `None` for any other document.
#[verifier::external_body]
pub(crate) fn unsigned_of(value: &Value) -> (number: Option<u64>)
    ensures
        number == match json_model(*value) {
            JsonModel::Number(NumberModel::Unsigned(n)) => Some(n),
            _ => None,
        },
{
    value.as_u64()
}

/// `Value::Array` of `items`.
#[verifier::external_body]
pub(crate) fn array_of(items: Vec<Value>) -> (value: Value)
    ensures
        json_model(value) == JsonModel::Array(models(items@)),
{
    Value::Array(items)
}

/// `Value::Object` of a `serde_json::Map` collected from `entries`, whose
/// names differ from each other.
#[verifier::external_body]
pub(crate) fn object_of(entries: Vec<(String, Value)>) -> (value: Value)
    requires
        distinct(entry_names(entries@)),
    ensures
        json_model(value) is Object,
        json_model(value) matches JsonModel::Object(fields) ==> lists_fields(
            entry_names(entries@),
            entries@.map_values(|entry: (String, Value)| json_model(entry.1)),
            fields,
        ),
{
    Value::Object(entries.into_iter().collect())
}

/// `Value::clone`: a document that says the same.
#[verifier::external_body]
pub(crate) fn clone_value(value: &Value) -> (copy: Value)
    ensures
        json_model(copy) == json_model(*value),
{
    value.clone()
}

/// `Value::as_str`: the text of a `Value::String`, `None` for any other
/// variant.
#[verifier::external_body]
pub(crate) fn text_of(value: &Value) -> (text: Option<&str>)
    ensures
        match json_model(*value) {
            JsonModel::String(content) => text matches Some(t) && t@ == content,
            _ => text is None,
        },
{
    value.as_str()
}

/// `Value::pointer`, with a copy of what it finds.
#[verifier::external_body]
pub(crate) fn pointer_of(value: &Value, pointer: &str) -> (found: Option<Value>)
    ensures
        match found {
            Some(target) => pointer_target(json_model(*value), pointer@) == Some(json_model(target)),
            None => pointer_target(json_model(*value), pointer@) is None,
        },
{
    value.pointer(pointer).cloned()
}

/// `serde_json::to_string_pretty` of a list of documents.
#[verifier::external_body]
pub(crate) fn pretty_string(values: &Vec<Value>) -> (text: Result<String, serde_json::Error>)
    ensures
        match text {
            Ok(written) => pretty_text(models(values@)) == Some(written@),
            Err(_) => pretty_text(models(values@)) is None,
        },
{
    serde_json::to_string_pretty(values)
}

/// `serde_json::from_str` for a `Value`: the document that `text` writes.
#[verifier::external_body]
pub(crate) fn read_document(text: &str) -> (document: Result<Value, serde_json::Error>)
    ensures
        match document {
            Ok(value) => json_read(text@) == Some(json_model(value)),
            Err(_) => json_read(text@) is None,
        },
{
    serde_json::from_str(text)
}

/// The fields that a list of names and a list of contents make: under each
/// name what stands at the first position of that name.
pub open spec fn listed_fields(names: Seq<Key>, contents: Seq<JsonModel>) -> Map<Key, JsonModel> {
    Map::new(
        |name: Key| first_index(names, name) is Some,
        |name: Key| contents[first_index(names, name).unwrap()],
    )
}

/// Names that differ from each other list, with their contents, the fields
/// that they make, and no other fields.
pub proof fn lemma_listed_fields(names: Seq<Key>, contents: Seq<JsonModel>, fields: Map<Key, JsonModel>)
    requires
        names.len() == contents.len(),
        distinct(names),
    ensures
        lists_fields(names, contents, listed_fields(names, contents)),
        lists_fields(names, contents, fields) ==> fields == listed_fields(names, contents),
{
    let made = listed_fields(names, contents);
    assert forall|i: int| 0 <= i < names.len() implies made.contains_pair(#[trigger] names[i], contents[i]) by {
        lemma_first_index(names, names[i]);
    }
    if lists_fields(names, contents, fields) {
        assert forall|name: Key| fields.contains_key(name) <==> made.contains_key(name) by {
            lemma_first_index(names, name);
            if first_index(names, name) is Some {
                let i = first_index(names, name).unwrap();
                assert(fields.contains_pair(names[i], contents[i]));
            }
        }
        assert forall|name: Key| fields.contains_key(name) implies fields[name] == made[name] by {
            lemma_first_index(names, name);
            let i = first_index(names, name).unwrap();
            assert(fields.contains_pair(names[i], contents[i]));
        }
        assert(fields =~= made);
    }
}

/// Putting a content under a name, in the place of what stood under it or,
/// where the name is new, behind the others, keeps the names different from
/// each other and changes the fields as `Map::insert` does.
pub proof fn lemma_upsert(names: Seq<Key>, contents: Seq<JsonModel>, name: Key, content: JsonModel)
    requires
        names.len() == contents.len(),
        distinct(names),
    ensures
        match first_index(names, name) {
            Some(i) => listed_fields(names, contents.update(i, content)) == listed_fields(
                names,
                contents,
            ).insert(name, content),
            None => distinct(names.push(name)) && listed_fields(names.push(name), contents.push(content))
                == listed_fields(names, contents).insert(name, content),
        },
{
    let before = listed_fields(names, contents);
    lemma_first_index(names, name);
    match first_index(names, name) {
        Some(i) => {
            let after = listed_fields(names, contents.update(i, content));
            assert forall|other: Key| after.contains_key(other) implies #[trigger] after[other]
                == before.insert(name, content)[other] by {
                lemma_first_index(names, other);
            }
            assert(after =~= before.insert(name, content));
        },
        None => {
            let grown = names.push(name);
            let after = listed_fields(grown, contents.push(content));
            assert forall|i: int, j: int| 0 <= i < j < grown.len() implies grown[i] != grown[j] by {
                assert(grown[i] == names[i]);
            }
            lemma_first_index_is(grown, name, names.len() as int);
            assert forall|other: Key| other != name implies first_index(grown, other) == first_index(
                names,
                other,
            ) by {
                lemma_first_index(names, other);
                match first_index(names, other) {
                    Some(p) => {
                        assert forall|j: int| 0 <= j < p implies grown[j] != other by {
                            assert(grown[j] == names[j]);
                        }
                        assert(grown[p] == names[p]);
                        lemma_first_index_is(grown, other, p);
                    },
                    None => {
                        assert forall|j: int| 0 <= j < grown.len() implies grown[j] != other by {
                            if j < names.len() {
                                assert(grown[j] == names[j]);
                            }
                        }
                        lemma_first_index_none(grown, other);
                    },
                }
            }
            assert forall|other: Key| after.contains_key(other) == before.insert(name, content).contains_key(
                other,
            ) by {
                if other != name {
                    assert(first_index(grown, other) == first_index(names, other));
                }
            }
            assert forall|other: Key| after.contains_key(other) implies #[trigger] after[other]
                == before.insert(name, content)[other] by {
                if other != name {
                    assert(first_index(grown, other) == first_index(names, other));
                    lemma_first_index(names, other);
                }
            }
            assert(after =~= before.insert(name, content));
        },
    }
}

/// A map from names to JSON documents, with each name at most once.
#[derive(Debug)]
pub struct JsonMap {
    entries: Vec<(String, Value)>,
}

impl View for JsonMap {
    type V = Map<Key, JsonModel>;

    closed spec fn view(&self) -> Map<Key, JsonModel> {
        listed_fields(entry_names(self.entries@), entry_contents(self.entries@))
    }
}

/// What each of `entries` holds, in order.
pub open spec fn entry_contents(entries: Seq<(String, Value)>) -> Seq<JsonModel> {
    entries.map_values(|entry: (String, Value)| json_model(entry.1))
}

fn position_of(entries: &Vec<(String, Value)>, name: &str) -> (found: Option<usize>)
    ensures
        match found {
            Some(i) => first_index(entry_names(entries@), name@) == Some(i as int) && i < entries@.len(),
            None => first_index(entry_names(entries@), name@) is None,
        },
{
    let wanted = name.to_owned();
    let mut i: usize = 0;
    while i < entries.len()
        invariant
            i <= entries.len(),
            wanted@ == name@,
            forall|j: int| 0 <= j < i ==> entry_names(entries@)[j] != name@,
        decreases entries.len() - i,
    {
        if entries[i].0 == wanted {
            proof {
                assert(entry_names(entries@)[i as int] == name@);
                lemma_first_index(entry_names(entries@), name@);
            }
            return Some(i);
        }
        i += 1;
    }
    proof {
        lemma_first_index(entry_names(entries@), name@);
    }
    None
}

impl JsonMap {
    #[verifier::type_invariant]
    closed spec fn names_differ(self) -> bool {
        distinct(entry_names(self.entries@))
    }

    pub fn new() -> (map: Self)
        ensures
            map@ == Map::<Key, JsonModel>::empty(),
    {
        let map = JsonMap { entries: Vec::new() };
        assert(map@ =~= Map::<Key, JsonModel>::empty());
        map
    }

    /// Puts `content` under `name`, in the place of what was there.
    pub fn insert(&mut self, name: String, content: Value)
        ensures
            final(self)@ == old(self)@.insert(name@, json_model(content)),
    {
        proof {
            use_type_invariant(&*self);
        }
        let ghost before = self.entries@;
        let mut entries: Vec<(String, Value)> = Vec::new();
        std::mem::swap(&mut self.entries, &mut entries);
        assert(entries@ == before);
        let found = position_of(&entries, name.as_str());
        proof {
            lemma_upsert(entry_names(before), entry_contents(before), name@, json_model(content));
        }
        match found {
            Some(i) => {
                entries.set(i, (name, content));
                proof {
                    lemma_first_index(entry_names(before), name@);
                    assert(entry_names(entries@) =~= entry_names(before));
                    assert(entry_contents(entries@) =~= entry_contents(before).update(
                        i as int,
                        json_model(content),
                    ));
                }
            },
            None => {
                entries.push((name, content));
                proof {
                    assert(entry_names(entries@) =~= entry_names(before).push(name@));
                    assert(entry_contents(entries@) =~= entry_contents(before).push(json_model(content)));
                }
            },
        }
        std::mem::swap(&mut self.entries, &mut entries);
    }

    /// Takes out what stands under `name`, if anything does.
    pub fn remove(&mut self, name: &str)
        ensures
            final(self)@ == old(self)@.remove(name@),
    {
        proof {
            use_type_invariant(&*self);
        }
        let ghost before = self.entries@;
        let mut entries: Vec<(String, Value)> = Vec::new();
        std::mem::swap(&mut self.entries, &mut entries);
        assert(entries@ == before);
        let ghost names = entry_names(before);
        let ghost contents = entry_contents(before);
        proof {
            lemma_first_index(names, name@);
        }
        match position_of(&entries, name) {
            Some(i) => {
                let _ = entries.remove(i);
                proof {
                    let left_names = entry_names(entries@);
                    let left_contents = entry_contents(entries@);
                    assert(left_names =~= names.remove(i as int));
                    assert(left_contents =~= contents.remove(i as int));
                    assert forall|a: int, b: int| 0 <= a < b < left_names.len() implies left_names[a]
                        != left_names[b] by {
                        let a_before = if a < i { a } else { a + 1 };
                        let b_before = if b < i { b } else { b + 1 };
                        assert(left_names[a] == names[a_before]);
                        assert(left_names[b] == names[b_before]);
                    }
                    let after = listed_fields(left_names, left_contents);
                    let wanted = listed_fields(names, contents).remove(name@);
                    assert forall|other: Key| after.contains_key(other) == wanted.contains_key(other) by {
                        lemma_first_index(names, other);
                        lemma_first_index(left_names, other);
                        if first_index(left_names, other) is Some {
                            let p = first_index(left_names, other).unwrap();
                            let p_before = if p < i { p } else { p + 1 };
                            assert(left_names[p] == names[p_before]);
                        }
                        if other != name@ && first_index(names, other) is Some {
                            let q = first_index(names, other).unwrap();
                            let q_after = if q < i { q } else { q - 1 };
                            assert(left_names[q_after] == names[q]);
                        }
                    }
                    assert forall|other: Key| after.contains_key(other) implies after[other] == wanted[other] by {
                        lemma_first_index(names, other);
                        lemma_first_index(left_names, other);
                        let p = first_index(left_names, other).unwrap();
                        let p_before = if p < i { p } else { p + 1 };
                        assert(left_names[p] == names[p_before]);
                        assert(left_contents[p] == contents[p_before]);
                        let q = first_index(names, other).unwrap();
                        assert(q == p_before);
                    }
                    assert(after =~= wanted);
                }
            },
            None => {
                assert(listed_fields(names, contents).remove(name@) =~= listed_fields(names, contents));
            },
        }
        std::mem::swap(&mut self.entries, &mut entries);
    }

    /// The fields of the object `value`; `None` for a document that is no
    /// object.
    pub fn from_object(value: &Value) -> (map: Option<JsonMap>)
        ensures
            match json_model(*value) {
                JsonModel::Object(fields) => map matches Some(made) && made@ == fields,
                _ => map is None,
            },
    {
        match value_kind(value) {
            JsonKind::Object => {},
            _ => {
                return None;
            },
        }
        let borrowed = object_entries(value);
        let ghost fields = json_model(*value)->Object_0;
        let ghost names = borrowed_entry_names(borrowed@);
        let ghost contents = borrowed@.map_values(|entry: (&String, &Value)| json_model(*entry.1));
        let mut entries: Vec<(String, Value)> = Vec::new();
        let mut i: usize = 0;
        while i < borrowed.len()
            invariant
                i <= borrowed.len(),
                names == borrowed_entry_names(borrowed@),
                contents == borrowed@.map_values(|entry: (&String, &Value)| json_model(*entry.1)),
                entries@.len() == i,
                forall|j: int| 0 <= j < i ==> (#[trigger] entries@[j]).0@ == names[j],
                forall|j: int| 0 <= j < i ==> json_model((#[trigger] entries@[j]).1) == contents[j],
            decreases borrowed.len() - i,
        {
            assert(borrowed@[i as int].0@ == names[i as int]);
            assert(json_model(*borrowed@[i as int].1) == contents[i as int]);
            entries.push((borrowed[i].0.clone(), clone_value(borrowed[i].1)));
            i += 1;
        }
        proof {
            assert(entry_names(entries@) =~= names);
            assert(entry_contents(entries@) =~= contents);
            lemma_listed_fields(names, contents, fields);
        }
        Some(JsonMap { entries })
    }

    /// What stands under `name`.
    pub fn get(&self, name: &str) -> (content: Option<&Value>)
        ensures
            match content {
                Some(value) => self@.contains_key(name@) && self@[name@] == json_model(*value),
                None => !self@.contains_key(name@),
            },
    {
        match position_of(&self.entries, name) {
            Some(i) => Some(&self.entries[i].1),
            None => None,
        }
    }

    pub fn is_empty(&self) -> (empty: bool)
        ensures
            empty == (self@ == Map::<Key, JsonModel>::empty()),
    {
        proof {
            if self.entries@.len() > 0 {
                let name = entry_names(self.entries@)[0];
                lemma_first_index_is(entry_names(self.entries@), name, 0);
                assert(self@.contains_key(name));
            } else {
                assert(self@ =~= Map::<Key, JsonModel>::empty());
            }
        }
        self.entries.is_empty()
    }

    /// Puts every field of `other` into this map, in the place of what
    /// stood under its name.
    pub fn extend(&mut self, other: &JsonMap)
        ensures
            final(self)@ == old(self)@.union_prefer_right(other@),
    {
        proof {
            use_type_invariant(other);
        }
        let ghost start = self@;
        let ghost names = entry_names(other.entries@);
        let ghost contents = entry_contents(other.entries@);
        let mut i: usize = 0;
        assert(start.union_prefer_right(listed_fields(names.take(0), contents.take(0))) =~= start);
        while i < other.entries.len()
            invariant
                i <= other.entries.len(),
                names == entry_names(other.entries@),
                contents == entry_contents(other.entries@),
                distinct(names),
                self@ == start.union_prefer_right(listed_fields(names.take(i as int), contents.take(i as int))),
            decreases other.entries.len() - i,
        {
            let ghost so_far = listed_fields(names.take(i as int), contents.take(i as int));
            proof {
                let seen = names.take(i as int);
                assert forall|j: int| 0 <= j < seen.len() implies seen[j] != names[i as int] by {
                    assert(seen[j] == names[j]);
                }
                lemma_first_index_none(seen, names[i as int]);
                lemma_upsert(seen, contents.take(i as int), names[i as int], contents[i as int]);
                assert(names.take(i + 1) =~= seen.push(names[i as int]));
                assert(contents.take(i + 1) =~= contents.take(i as int).push(contents[i as int]));
                assert(start.union_prefer_right(so_far.insert(names[i as int], contents[i as int]))
                    =~= start.union_prefer_right(so_far).insert(names[i as int], contents[i as int]));
            }
            self.insert(other.entries[i].0.clone(), clone_value(&other.entries[i].1));
            i += 1;
        }
        assert(names.take(names.len() as int) =~= names);
        assert(contents.take(contents.len() as int) =~= contents);
    }

    /// The JSON object with these fields.
    pub fn to_value(&self) -> (value: Value)
        ensures
            json_model(value) == JsonModel::Object(self@),
    {
        proof {
            use_type_invariant(self);
        }
        let mut copy: Vec<(String, Value)> = Vec::new();
        let mut i: usize = 0;
        while i < self.entries.len()
            invariant
                i <= self.entries.len(),
                copy@.len() == i,
                forall|j: int| 0 <= j < i ==> copy@[j].0@ == self.entries@[j].0@ && json_model(copy@[j].1)
                    == json_model(self.entries@[j].1),
            decreases self.entries.len() - i,
        {
            copy.push((self.entries[i].0.clone(), clone_value(&self.entries[i].1)));
            i += 1;
        }
        proof {
            assert(entry_names(copy@) =~= entry_names(self.entries@));
            assert(entry_contents(copy@) =~= entry_contents(self.entries@));
        }
        let value = object_of(copy);
        proof {
            let fields = json_model(value)->Object_0;
            lemma_listed_fields(entry_names(self.entries@), entry_contents(self.entries@), fields);
        }
        value
    }
}

impl Clone for JsonMap {
    fn clone(&self) -> (copy: Self)
        ensures
            copy@ == self@,
    {
        proof {
            use_type_invariant(self);
        }
        let mut entries: Vec<(String, Value)> = Vec::new();
        let mut i: usize = 0;
        while i < self.entries.len()
            invariant
                i <= self.entries.len(),
                entries@.len() == i,
                forall|j: int| 0 <= j < i ==> entries@[j].0@ == self.entries@[j].0@ && json_model(
                    entries@[j].1,
                ) == json_model(self.entries@[j].1),
            decreases self.entries.len() - i,
        {
            entries.push((self.entries[i].0.clone(), clone_value(&self.entries[i].1)));
            i += 1;
        }
        proof {
            assert(entry_names(entries@) =~= entry_names(self.entries@));
            assert(entry_contents(entries@) =~= entry_contents(self.entries@));
        }
        JsonMap { entries }
    }
}

} // verus!
