use crate::cubs_model::{
    element_fields, fixed_fields, Element, ElementView, ModelData, Relationship, RelationshipView,
};
use crate::json::{
    array_items, array_of, borrowed_models, json_model, models, number_value, text_of, text_value, unsigned_of,
    value_kind, JsonKind, JsonMap, JsonModel, NumberModel,
};
use crate::keyed::Key;
use serde_json::Value;
use vstd::prelude::*;

verus! {

/// What `ModelData` stands for.
pub struct ModelView {
    pub schema_version: Key,
    pub model_id: Key,
    pub site_model_id: Key,
    pub version: u32,
    pub elements: Seq<ElementView>,
    pub relationships: Seq<RelationshipView>,
}

impl View for ModelData {
    type V = ModelView;

    open spec fn view(&self) -> ModelView {
        ModelView {
            schema_version: self.schema_version@,
            model_id: self.model_id@,
            site_model_id: self.site_model_id@,
            version: self.version,
            elements: self.elements@.map_values(|element: Element| element@),
            relationships: self.relationships@.map_values(|relationship: Relationship| relationship@),
        }
    }
}

impl RelationshipView {
    /// What a relationship has in common with an element.
    pub open spec fn as_element(self) -> ElementView {
        ElementView {
            id: self.id,
            type_: self.type_,
            nature: self.nature,
            name: self.name,
            version: self.version,
            dynamic_facets: self.dynamic_facets,
            facets: self.facets,
            core_facets: self.core_facets,
        }
    }
}

/// The fields of a relationship as a JSON object: those that an element
/// has, and its two ends.
pub open spec fn relationship_fields(relationship: RelationshipView) -> Map<Key, JsonModel> {
    fixed_fields(relationship.as_element()).insert("sourceId"@, JsonModel::String(relationship.source_id)).insert(
        "targetId"@,
        JsonModel::String(relationship.target_id),
    ).union_prefer_right(relationship.core_facets)
}

/// A model as a JSON object.
pub open spec fn model_json(model: ModelView) -> JsonModel {
    JsonModel::Object(
        Map::<Key, JsonModel>::empty().insert("schemaVersion"@, JsonModel::String(model.schema_version)).insert(
            "modelId"@,
            JsonModel::String(model.model_id),
        ).insert("siteModelId"@, JsonModel::String(model.site_model_id)).insert(
            "version"@,
            JsonModel::Number(NumberModel::Unsigned(model.version as u64)),
        ).insert("elements"@, JsonModel::Array(model.elements.map_values(element_writer()))).insert(
            "relationships"@,
            JsonModel::Array(model.relationships.map_values(relationship_writer())),
        ),
    )
}

/// An element as a JSON object, as a function.
pub open spec fn element_writer() -> spec_fn(ElementView) -> JsonModel {
    |element: ElementView| JsonModel::Object(element_fields(element))
}

/// A relationship as a JSON object, as a function.
pub open spec fn relationship_writer() -> spec_fn(RelationshipView) -> JsonModel {
    |relationship: RelationshipView| JsonModel::Object(relationship_fields(relationship))
}

/// The text under `name`; `None` where nothing stands there, or no text.
pub open spec fn read_text(fields: Map<Key, JsonModel>, name: Key) -> Option<Key> {
    if fields.contains_key(name) {
        match fields[name] {
            JsonModel::String(text) => Some(text),
            _ => None,
        }
    } else {
        None
    }
}

/// The text under `name`, the empty text where nothing stands there; `None`
/// where something stands there that is no text.
pub open spec fn read_text_or_none(fields: Map<Key, JsonModel>, name: Key) -> Option<Key> {
    if fields.contains_key(name) {
        read_text(fields, name)
    } else {
        Some(Seq::empty())
    }
}

/// The number under `name` that fits in 32 bits; `None` where nothing
/// stands there, or no whole number from 0 on, or one that is too large.
pub open spec fn read_version(fields: Map<Key, JsonModel>, name: Key) -> Option<u32> {
    if fields.contains_key(name) {
        match fields[name] {
            JsonModel::Number(NumberModel::Unsigned(n)) => if n <= u32::MAX {
                Some(n as u32)
            } else {
                None
            },
            _ => None,
        }
    } else {
        None
    }
}

/// The fields of the object under `name`; `None` where nothing stands
/// there, or no object.
pub open spec fn read_facets(fields: Map<Key, JsonModel>, name: Key) -> Option<Map<Key, JsonModel>> {
    if fields.contains_key(name) {
        match fields[name] {
            JsonModel::Object(facets) => Some(facets),
            _ => None,
        }
    } else {
        None
    }
}

/// The fields of the object under `name`, no fields where nothing stands
/// there; `None` where something stands there that is no object.
pub open spec fn read_facets_or_none(fields: Map<Key, JsonModel>, name: Key) -> Option<Map<Key, JsonModel>> {
    if fields.contains_key(name) {
        read_facets(fields, name)
    } else {
        Some(Map::empty())
    }
}

/// `fields` without those that have names of their own in an element.
pub open spec fn unnamed_fields(fields: Map<Key, JsonModel>) -> Map<Key, JsonModel> {
    fields.remove("id"@).remove("type"@).remove("nature"@).remove("name"@).remove("version"@).remove(
        "dynamicFacets"@,
    ).remove("facets"@)
}

/// The element that the fields of a JSON object make: id, type, nature and
/// version must be there, the generic facets too; name and dynamic facets
/// may be missing; every field without a name of its own is a core facet.
pub open spec fn element_of_fields(fields: Map<Key, JsonModel>) -> Option<ElementView> {
    match (
        read_text(fields, "id"@),
        read_text(fields, "type"@),
        read_text(fields, "nature"@),
        read_text_or_none(fields, "name"@),
        read_version(fields, "version"@),
        read_facets_or_none(fields, "dynamicFacets"@),
        read_facets(fields, "facets"@),
    ) {
        (Some(id), Some(type_), Some(nature), Some(name), Some(version), Some(dynamic_facets), Some(facets)) => Some(
            ElementView {
                id,
                type_,
                nature,
                name,
                version,
                dynamic_facets,
                facets,
                core_facets: unnamed_fields(fields),
            },
        ),
        _ => None,
    }
}

/// The element that a JSON document writes.
pub open spec fn element_read(document: JsonModel) -> Option<ElementView> {
    match document {
        JsonModel::Object(fields) => element_of_fields(fields),
        _ => None,
    }
}

/// The relationship that a JSON document writes: an element with two ends,
/// which must both be there.
pub open spec fn relationship_read(document: JsonModel) -> Option<RelationshipView> {
    match document {
        JsonModel::Object(fields) => match (
            element_of_fields(fields),
            read_text(fields, "sourceId"@),
            read_text(fields, "targetId"@),
        ) {
            (Some(element), Some(source_id), Some(target_id)) => Some(
                RelationshipView {
                    id: element.id,
                    source_id,
                    target_id,
                    type_: element.type_,
                    nature: element.nature,
                    name: element.name,
                    version: element.version,
                    dynamic_facets: element.dynamic_facets,
                    facets: element.facets,
                    core_facets: element.core_facets.remove("sourceId"@).remove("targetId"@),
                },
            ),
            _ => None,
        },
        _ => None,
    }
}

/// The list that a JSON document writes: no items for null, the items of an
/// array where `read` makes something of each; `None` for any other
/// document.
pub open spec fn list_read<T>(document: JsonModel, read: spec_fn(JsonModel) -> Option<T>) -> Option<Seq<T>> {
    match document {
        JsonModel::Null => Some(Seq::empty()),
        JsonModel::Array(items) => if forall|i: int| 0 <= i < items.len() ==> read(#[trigger] items[i]) is Some {
            Some(items.map_values(|item: JsonModel| read(item).unwrap()))
        } else {
            None
        },
        _ => None,
    }
}

/// `element_read`, as a function.
pub open spec fn element_reader() -> spec_fn(JsonModel) -> Option<ElementView> {
    |item: JsonModel| element_read(item)
}

/// `relationship_read`, as a function.
pub open spec fn relationship_reader() -> spec_fn(JsonModel) -> Option<RelationshipView> {
    |item: JsonModel| relationship_read(item)
}

/// The document that holds the elements of a model: what stands under
/// "elements" or under the older name "cubsObjects", null where nothing
/// stands under either; `None` where something stands under both.
pub open spec fn elements_document(fields: Map<Key, JsonModel>) -> Option<JsonModel> {
    if fields.contains_key("elements"@) && fields.contains_key("cubsObjects"@) {
        None
    } else if fields.contains_key("elements"@) {
        Some(fields["elements"@])
    } else if fields.contains_key("cubsObjects"@) {
        Some(fields["cubsObjects"@])
    } else {
        Some(JsonModel::Null)
    }
}

/// The document that holds the relationships of a model, null where there
/// is none.
pub open spec fn relationships_document(fields: Map<Key, JsonModel>) -> JsonModel {
    if fields.contains_key("relationships"@) {
        fields["relationships"@]
    } else {
        JsonModel::Null
    }
}

/// The model that a JSON document writes.
pub open spec fn model_read(document: JsonModel) -> Option<ModelView> {
    match document {
        JsonModel::Object(fields) => match (
            read_text(fields, "schemaVersion"@),
            read_text(fields, "modelId"@),
            read_text(fields, "siteModelId"@),
            read_version(fields, "version"@),
            elements_document(fields),
        ) {
            (Some(schema_version), Some(model_id), Some(site_model_id), Some(version), Some(listed)) => match (
                list_read(listed, element_reader()),
                list_read(relationships_document(fields), relationship_reader()),
            ) {
                (Some(elements), Some(relationships)) => Some(
                    ModelView { schema_version, model_id, site_model_id, version, elements, relationships },
                ),
                _ => None,
            },
            _ => None,
        },
        _ => None,
    }
}

/// None of `fields` has one of the names that an element has for fields of
/// its own.
pub open spec fn free_of_names(fields: Map<Key, JsonModel>) -> bool {
    &&& !fields.contains_key("id"@)
    &&& !fields.contains_key("type"@)
    &&& !fields.contains_key("nature"@)
    &&& !fields.contains_key("name"@)
    &&& !fields.contains_key("version"@)
    &&& !fields.contains_key("dynamicFacets"@)
    &&& !fields.contains_key("facets"@)
}

/// An element whose core facets are what they are meant to be: fields
/// without a name of their own.
pub open spec fn element_is_plain(element: ElementView) -> bool {
    free_of_names(element.core_facets)
}

/// A relationship whose core facets are fields without a name of their own.
pub open spec fn relationship_is_plain(relationship: RelationshipView) -> bool {
    &&& free_of_names(relationship.core_facets)
    &&& !relationship.core_facets.contains_key("sourceId"@)
    &&& !relationship.core_facets.contains_key("targetId"@)
}

/// A model of plain elements and relationships.
pub open spec fn model_is_plain(model: ModelView) -> bool {
    &&& forall|i: int| 0 <= i < model.elements.len() ==> element_is_plain(#[trigger] model.elements[i])
    &&& forall|i: int|
        0 <= i < model.relationships.len() ==> relationship_is_plain(#[trigger] model.relationships[i])
}

/// The names of the fields of elements and relationships differ from each
/// other.
pub proof fn lemma_field_names_differ()
    ensures
        "id"@ != "type"@,
        "id"@ != "nature"@,
        "id"@ != "name"@,
        "id"@ != "version"@,
        "id"@ != "dynamicFacets"@,
        "id"@ != "facets"@,
        "id"@ != "sourceId"@,
        "id"@ != "targetId"@,
        "type"@ != "nature"@,
        "type"@ != "name"@,
        "type"@ != "version"@,
        "type"@ != "dynamicFacets"@,
        "type"@ != "facets"@,
        "type"@ != "sourceId"@,
        "type"@ != "targetId"@,
        "nature"@ != "name"@,
        "nature"@ != "version"@,
        "nature"@ != "dynamicFacets"@,
        "nature"@ != "facets"@,
        "nature"@ != "sourceId"@,
        "nature"@ != "targetId"@,
        "name"@ != "version"@,
        "name"@ != "dynamicFacets"@,
        "name"@ != "facets"@,
        "name"@ != "sourceId"@,
        "name"@ != "targetId"@,
        "version"@ != "dynamicFacets"@,
        "version"@ != "facets"@,
        "version"@ != "sourceId"@,
        "version"@ != "targetId"@,
        "dynamicFacets"@ != "facets"@,
        "dynamicFacets"@ != "sourceId"@,
        "dynamicFacets"@ != "targetId"@,
        "facets"@ != "sourceId"@,
        "facets"@ != "targetId"@,
        "sourceId"@ != "targetId"@,
{
    reveal_strlit("id");
    reveal_strlit("type");
    reveal_strlit("nature");
    reveal_strlit("name");
    reveal_strlit("version");
    reveal_strlit("dynamicFacets");
    reveal_strlit("facets");
    reveal_strlit("sourceId");
    reveal_strlit("targetId");
    assert("id"@.len() == 2);
    assert("type"@.len() == 4);
    assert("nature"@.len() == 6);
    assert("name"@.len() == 4);
    assert("version"@.len() == 7);
    assert("dynamicFacets"@.len() == 13);
    assert("facets"@.len() == 6);
    assert("sourceId"@.len() == 8);
    assert("targetId"@.len() == 8);
    assert("type"@[0] != "name"@[0]);
    assert("nature"@[0] != "facets"@[0]);
    assert("sourceId"@[0] != "targetId"@[0]);
}

/// Writing a plain element as JSON and reading it gives the element.
pub proof fn lemma_element_round_trip(element: ElementView)
    requires
        element_is_plain(element),
    ensures
        element_read(JsonModel::Object(element_fields(element))) == Some(element),
{
    lemma_field_names_differ();
    let fields = element_fields(element);
    assert(unnamed_fields(fields) =~= element.core_facets);
}

/// Writing a plain relationship as JSON and reading it gives the
/// relationship.
pub proof fn lemma_relationship_round_trip(relationship: RelationshipView)
    requires
        relationship_is_plain(relationship),
    ensures
        relationship_read(JsonModel::Object(relationship_fields(relationship))) == Some(relationship),
{
    lemma_field_names_differ();
    let fields = relationship_fields(relationship);
    assert(unnamed_fields(fields).remove("sourceId"@).remove("targetId"@) =~= relationship.core_facets);
}

/// The names of the fields of a model differ from each other.
pub proof fn lemma_model_names_differ()
    ensures
        "schemaVersion"@ != "modelId"@,
        "schemaVersion"@ != "siteModelId"@,
        "schemaVersion"@ != "version"@,
        "schemaVersion"@ != "elements"@,
        "schemaVersion"@ != "relationships"@,
        "schemaVersion"@ != "cubsObjects"@,
        "modelId"@ != "siteModelId"@,
        "modelId"@ != "version"@,
        "modelId"@ != "elements"@,
        "modelId"@ != "relationships"@,
        "modelId"@ != "cubsObjects"@,
        "siteModelId"@ != "version"@,
        "siteModelId"@ != "elements"@,
        "siteModelId"@ != "relationships"@,
        "siteModelId"@ != "cubsObjects"@,
        "version"@ != "elements"@,
        "version"@ != "relationships"@,
        "version"@ != "cubsObjects"@,
        "elements"@ != "relationships"@,
        "elements"@ != "cubsObjects"@,
        "relationships"@ != "cubsObjects"@,
{
    reveal_strlit("schemaVersion");
    reveal_strlit("modelId");
    reveal_strlit("siteModelId");
    reveal_strlit("version");
    reveal_strlit("elements");
    reveal_strlit("relationships");
    reveal_strlit("cubsObjects");
    assert("schemaVersion"@.len() == 13);
    assert("modelId"@.len() == 7);
    assert("siteModelId"@.len() == 11);
    assert("version"@.len() == 7);
    assert("elements"@.len() == 8);
    assert("relationships"@.len() == 13);
    assert("cubsObjects"@.len() == 11);
    assert("siteModelId"@[0] != "cubsObjects"@[0]);
    assert("schemaVersion"@[0] != "relationships"@[0]);
    assert("modelId"@[0] != "version"@[0]);
}

/// Writing a plain model as JSON and reading it gives the model.
pub proof fn lemma_model_round_trip(model: ModelView)
    requires
        model_is_plain(model),
    ensures
        model_read(model_json(model)) == Some(model),
{
    lemma_model_names_differ();
    let fields = model_json(model)->Object_0;
    let written_elements = model.elements.map_values(element_writer());
    let written_relationships = model.relationships.map_values(relationship_writer());
    assert(elements_document(fields) == Some(JsonModel::Array(written_elements)));
    assert(relationships_document(fields) == JsonModel::Array(written_relationships));
    assert forall|i: int| 0 <= i < written_elements.len() implies element_reader()(
        #[trigger] written_elements[i],
    ) == Some(model.elements[i]) by {
        lemma_element_round_trip(model.elements[i]);
    }
    assert forall|i: int| 0 <= i < written_relationships.len() implies relationship_reader()(
        #[trigger] written_relationships[i],
    ) == Some(model.relationships[i]) by {
        lemma_relationship_round_trip(model.relationships[i]);
    }
    let read_elements = list_read(JsonModel::Array(written_elements), element_reader());
    let read_relationships = list_read(JsonModel::Array(written_relationships), relationship_reader());
    assert(read_elements.unwrap() =~= model.elements);
    assert(read_relationships.unwrap() =~= model.relationships);
}

/// The text of a string, where there is one.
pub open spec fn text_view(text: Option<String>) -> Option<Key> {
    match text {
        Some(text) => Some(text@),
        None => None,
    }
}

/// The fields of a map, where there is one.
pub open spec fn facets_view(facets: Option<JsonMap>) -> Option<Map<Key, JsonModel>> {
    match facets {
        Some(facets) => Some(facets@),
        None => None,
    }
}

fn text_in(fields: &JsonMap, name: &str) -> (text: Option<String>)
    ensures
        text_view(text) == read_text(fields@, name@),
{
    match fields.get(name) {
        Some(value) => match text_of(value) {
            Some(text) => Some(text.to_owned()),
            None => None,
        },
        None => None,
    }
}

fn text_in_or_none(fields: &JsonMap, name: &str) -> (text: Option<String>)
    ensures
        text_view(text) == read_text_or_none(fields@, name@),
{
    match fields.get(name) {
        Some(value) => match text_of(value) {
            Some(text) => Some(text.to_owned()),
            None => None,
        },
        None => Some(String::new()),
    }
}

fn version_in(fields: &JsonMap, name: &str) -> (version: Option<u32>)
    ensures
        version == read_version(fields@, name@),
{
    match fields.get(name) {
        Some(value) => match unsigned_of(value) {
            Some(number) => if number <= u32::MAX as u64 {
                Some(number as u32)
            } else {
                None
            },
            None => None,
        },
        None => None,
    }
}

fn facets_in(fields: &JsonMap, name: &str) -> (facets: Option<JsonMap>)
    ensures
        facets_view(facets) == read_facets(fields@, name@),
{
    match fields.get(name) {
        Some(value) => JsonMap::from_object(value),
        None => None,
    }
}

fn facets_in_or_none(fields: &JsonMap, name: &str) -> (facets: Option<JsonMap>)
    ensures
        facets_view(facets) == read_facets_or_none(fields@, name@),
{
    match fields.get(name) {
        Some(value) => JsonMap::from_object(value),
        None => Some(JsonMap::new()),
    }
}

/// What an element stands for, where there is one.
pub open spec fn element_view(element: Option<Element>) -> Option<ElementView> {
    match element {
        Some(element) => Some(element@),
        None => None,
    }
}

/// What a relationship stands for, where there is one.
pub open spec fn relationship_view(relationship: Option<Relationship>) -> Option<RelationshipView> {
    match relationship {
        Some(relationship) => Some(relationship@),
        None => None,
    }
}

/// What a model stands for, where there is one.
pub open spec fn model_view(model: Option<ModelData>) -> Option<ModelView> {
    match model {
        Some(model) => Some(model@),
        None => None,
    }
}

fn element_from_fields(fields: JsonMap) -> (element: Option<Element>)
    ensures
        element_view(element) == element_of_fields(fields@),
{
    let id = match text_in(&fields, "id") {
        Some(id) => id,
        None => {
            return None;
        },
    };
    let type_ = match text_in(&fields, "type") {
        Some(type_) => type_,
        None => {
            return None;
        },
    };
    let nature = match text_in(&fields, "nature") {
        Some(nature) => nature,
        None => {
            return None;
        },
    };
    let name = match text_in_or_none(&fields, "name") {
        Some(name) => name,
        None => {
            return None;
        },
    };
    let version = match version_in(&fields, "version") {
        Some(version) => version,
        None => {
            return None;
        },
    };
    let dynamic_facets = match facets_in_or_none(&fields, "dynamicFacets") {
        Some(facets) => facets,
        None => {
            return None;
        },
    };
    let facets = match facets_in(&fields, "facets") {
        Some(facets) => facets,
        None => {
            return None;
        },
    };
    let mut core_facets = fields;
    core_facets.remove("id");
    core_facets.remove("type");
    core_facets.remove("nature");
    core_facets.remove("name");
    core_facets.remove("version");
    core_facets.remove("dynamicFacets");
    core_facets.remove("facets");
    Some(Element { id, type_, nature, name, version, dynamic_facets, facets, core_facets })
}

impl Element {
    /// The element that a JSON document writes; `None` where it writes
    /// none.
    pub fn from_value(value: &Value) -> (element: Option<Element>)
        ensures
            element_view(element) == element_read(json_model(*value)),
    {
        match JsonMap::from_object(value) {
            Some(fields) => element_from_fields(fields),
            None => None,
        }
    }
}

impl Relationship {
    /// The relationship as a JSON object.
    pub fn to_value(&self) -> (value: Value)
        ensures
            json_model(value) == JsonModel::Object(relationship_fields(self@)),
    {
        let mut fields = JsonMap::new();
        fields.insert("id".to_owned(), text_value(self.id.as_str()));
        fields.insert("type".to_owned(), text_value(self.type_.as_str()));
        fields.insert("nature".to_owned(), text_value(self.nature.as_str()));
        fields.insert("name".to_owned(), text_value(self.name.as_str()));
        fields.insert("version".to_owned(), number_value(self.version));
        fields.insert("dynamicFacets".to_owned(), self.dynamic_facets.to_value());
        fields.insert("facets".to_owned(), self.facets.to_value());
        fields.insert("sourceId".to_owned(), text_value(self.source_id.as_str()));
        fields.insert("targetId".to_owned(), text_value(self.target_id.as_str()));
        fields.extend(&self.core_facets);
        fields.to_value()
    }

    /// The relationship that a JSON document writes; `None` where it
    /// writes none.
    pub fn from_value(value: &Value) -> (relationship: Option<Relationship>)
        ensures
            relationship_view(relationship) == relationship_read(json_model(*value)),
    {
        let fields = match JsonMap::from_object(value) {
            Some(fields) => fields,
            None => {
                return None;
            },
        };
        let source_id = text_in(&fields, "sourceId");
        let target_id = text_in(&fields, "targetId");
        let element = match element_from_fields(fields) {
            Some(element) => element,
            None => {
                return None;
            },
        };
        let source_id = match source_id {
            Some(source_id) => source_id,
            None => {
                return None;
            },
        };
        let target_id = match target_id {
            Some(target_id) => target_id,
            None => {
                return None;
            },
        };
        let mut core_facets = element.core_facets;
        core_facets.remove("sourceId");
        core_facets.remove("targetId");
        Some(
            Relationship {
                id: element.id,
                source_id,
                target_id,
                type_: element.type_,
                nature: element.nature,
                name: element.name,
                version: element.version,
                dynamic_facets: element.dynamic_facets,
                facets: element.facets,
                core_facets,
            },
        )
    }
}

fn elements_from(value: &Value) -> (elements: Option<Vec<Element>>)
    ensures
        match list_read(json_model(*value), element_reader()) {
            Some(read) => elements matches Some(made) && made@.map_values(|element: Element| element@) == read,
            None => elements is None,
        },
{
    let mut elements: Vec<Element> = Vec::new();
    match value_kind(value) {
        JsonKind::Null => {
            assert(elements@.map_values(|element: Element| element@) =~= Seq::<ElementView>::empty());
            return Some(elements);
        },
        JsonKind::Array => {},
        _ => {
            return None;
        },
    }
    let items = array_items(value);
    let ghost content = json_model(*value)->Array_0;
    let mut i: usize = 0;
    while i < items.len()
        invariant
            i <= items.len(),
            borrowed_models(items@) == content,
            json_model(*value) == JsonModel::Array(content),
            elements@.len() == i,
            forall|j: int| 0 <= j < i ==> element_read(content[j]) == Some(elements@[j]@),
        decreases items.len() - i,
    {
        assert(json_model(*items@[i as int]) == borrowed_models(items@)[i as int]);
        match Element::from_value(items[i]) {
            Some(element) => {
                elements.push(element);
            },
            None => {
                assert(element_reader()(content[i as int]) is None);
                return None;
            },
        }
        i += 1;
    }
    proof {
        assert forall|j: int| 0 <= j < content.len() implies element_reader()(#[trigger] content[j]) is Some by {
            assert(element_read(content[j]) == Some(elements@[j]@));
        }
        let read = list_read(json_model(*value), element_reader()).unwrap();
        assert(elements@.map_values(|element: Element| element@) =~= read);
    }
    Some(elements)
}

fn relationships_from(value: &Value) -> (relationships: Option<Vec<Relationship>>)
    ensures
        match list_read(json_model(*value), relationship_reader()) {
            Some(read) => relationships matches Some(made) && made@.map_values(
                |relationship: Relationship| relationship@,
            ) == read,
            None => relationships is None,
        },
{
    let mut relationships: Vec<Relationship> = Vec::new();
    match value_kind(value) {
        JsonKind::Null => {
            assert(relationships@.map_values(|relationship: Relationship| relationship@) =~= Seq::<
                RelationshipView,
            >::empty());
            return Some(relationships);
        },
        JsonKind::Array => {},
        _ => {
            return None;
        },
    }
    let items = array_items(value);
    let ghost content = json_model(*value)->Array_0;
    let mut i: usize = 0;
    while i < items.len()
        invariant
            i <= items.len(),
            borrowed_models(items@) == content,
            json_model(*value) == JsonModel::Array(content),
            relationships@.len() == i,
            forall|j: int| 0 <= j < i ==> relationship_read(content[j]) == Some(relationships@[j]@),
        decreases items.len() - i,
    {
        assert(json_model(*items@[i as int]) == borrowed_models(items@)[i as int]);
        match Relationship::from_value(items[i]) {
            Some(relationship) => {
                relationships.push(relationship);
            },
            None => {
                assert(relationship_reader()(content[i as int]) is None);
                return None;
            },
        }
        i += 1;
    }
    proof {
        assert forall|j: int| 0 <= j < content.len() implies relationship_reader()(#[trigger] content[j]) is Some by {
            assert(relationship_read(content[j]) == Some(relationships@[j]@));
        }
        let read = list_read(json_model(*value), relationship_reader()).unwrap();
        assert(relationships@.map_values(|relationship: Relationship| relationship@) =~= read);
    }
    Some(relationships)
}

impl ModelData {
    /// The model as a JSON object.
    pub fn to_value(&self) -> (value: Value)
        ensures
            json_model(value) == model_json(self@),
    {
        let mut elements: Vec<Value> = Vec::new();
        let mut i: usize = 0;
        while i < self.elements.len()
            invariant
                i <= self.elements.len(),
                elements@.len() == i,
                forall|j: int| 0 <= j < i ==> json_model(elements@[j]) == JsonModel::Object(
                    element_fields(self.elements@[j]@),
                ),
            decreases self.elements.len() - i,
        {
            elements.push(self.elements[i].to_value());
            i += 1;
        }
        let mut relationships: Vec<Value> = Vec::new();
        let mut j: usize = 0;
        while j < self.relationships.len()
            invariant
                j <= self.relationships.len(),
                relationships@.len() == j,
                forall|k: int| 0 <= k < j ==> json_model(relationships@[k]) == JsonModel::Object(
                    relationship_fields(self.relationships@[k]@),
                ),
            decreases self.relationships.len() - j,
        {
            relationships.push(self.relationships[j].to_value());
            j += 1;
        }
        proof {
            assert(models(elements@) =~= self@.elements.map_values(element_writer()));
            assert(models(relationships@) =~= self@.relationships.map_values(relationship_writer()));
        }
        let mut fields = JsonMap::new();
        fields.insert("schemaVersion".to_owned(), text_value(self.schema_version.as_str()));
        fields.insert("modelId".to_owned(), text_value(self.model_id.as_str()));
        fields.insert("siteModelId".to_owned(), text_value(self.site_model_id.as_str()));
        fields.insert("version".to_owned(), number_value(self.version));
        fields.insert("elements".to_owned(), array_of(elements));
        fields.insert("relationships".to_owned(), array_of(relationships));
        fields.to_value()
    }

    /// The model that a JSON document writes; `None` where it writes none.
    /// A list that is missing or null is a list without items, and the
    /// elements may stand under their older name.
    pub fn from_value(value: &Value) -> (model: Option<ModelData>)
        ensures
            model_view(model) == model_read(json_model(*value)),
    {
        let fields = match JsonMap::from_object(value) {
            Some(fields) => fields,
            None => {
                return None;
            },
        };
        let schema_version = match text_in(&fields, "schemaVersion") {
            Some(text) => text,
            None => {
                return None;
            },
        };
        let model_id = match text_in(&fields, "modelId") {
            Some(text) => text,
            None => {
                return None;
            },
        };
        let site_model_id = match text_in(&fields, "siteModelId") {
            Some(text) => text,
            None => {
                return None;
            },
        };
        let version = match version_in(&fields, "version") {
            Some(version) => version,
            None => {
                return None;
            },
        };
        let elements = match (fields.get("elements"), fields.get("cubsObjects")) {
            (Some(_), Some(_)) => {
                return None;
            },
            (Some(listed), None) => elements_from(listed),
            (None, Some(listed)) => elements_from(listed),
            (None, None) => {
                let none: Vec<Element> = Vec::new();
                assert(none@.map_values(|element: Element| element@) =~= Seq::<ElementView>::empty());
                Some(none)
            },
        };
        let elements = match elements {
            Some(elements) => elements,
            None => {
                return None;
            },
        };
        let relationships = match fields.get("relationships") {
            Some(listed) => relationships_from(listed),
            None => {
                let none: Vec<Relationship> = Vec::new();
                assert(none@.map_values(|relationship: Relationship| relationship@) =~= Seq::<
                    RelationshipView,
                >::empty());
                Some(none)
            },
        };
        let relationships = match relationships {
            Some(relationships) => relationships,
            None => {
                return None;
            },
        };
        Some(ModelData { schema_version, model_id, site_model_id, version, elements, relationships })
    }
}

} // verus!
