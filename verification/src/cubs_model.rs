use crate::json::{
    array_items, array_of, borrowed_entry_names, borrowed_models, clone_value, entry_names,
    json_model, models, null_value, number_value, object_entries, object_of, pointer_of,
    pointer_target, text_value, value_kind, JsonKind, JsonMap, JsonModel, NumberModel,
};
use crate::keyed::{first_index, lemma_first_index, present, Key};
use serde_json::Value;
use vstd::prelude::*;

verus! {

/// A model as it comes wrapped in an answer.
#[derive(Debug)]
pub struct ModelResponse {
    pub data: ModelData,
}

/// One version of a whole object model.
#[derive(Debug, Clone)]
pub struct ModelData {
    pub schema_version: String,
    pub model_id: String,
    pub site_model_id: String,
    pub version: u32,
    pub elements: Vec<Element>,
    pub relationships: Vec<Relationship>,
}

impl Default for ModelData {
    fn default() -> (model: Self)
        ensures
            model.schema_version@.len() == 0,
            model.model_id@.len() == 0,
            model.site_model_id@.len() == 0,
            model.version == 0,
            model.elements@.len() == 0,
            model.relationships@.len() == 0,
    {
        ModelData {
            schema_version: String::new(),
            model_id: String::new(),
            site_model_id: String::new(),
            version: 0,
            elements: Vec::new(),
            relationships: Vec::new(),
        }
    }
}

/// The number of one stored version of a model.
#[derive(Debug, Clone)]
pub struct ModelVersionNumber {
    pub vers_no: i32,
}

/// What elements and relationships have in common.
pub trait CusObject {
    spec fn nature_of(&self) -> Key;

    spec fn type_of(&self) -> Key;

    spec fn id_of(&self) -> Key;

    spec fn name_of(&self) -> Key;

    spec fn dynamic_facet_of(&self) -> Map<Key, JsonModel>;

    spec fn facet_of(&self) -> Map<Key, JsonModel>;

    spec fn core_facet_of(&self) -> Map<Key, JsonModel>;

    fn get_nature(&self) -> (nature: String)
        ensures
            nature@ == self.nature_of(),
    ;

    fn get_type(&self) -> (type_: String)
        ensures
            type_@ == self.type_of(),
    ;

    fn get_id(&self) -> (id: String)
        ensures
            id@ == self.id_of(),
    ;

    fn get_name(&self) -> (name: String)
        ensures
            name@ == self.name_of(),
    ;

    fn get_dynamic_facet(&self) -> (facets: &JsonMap)
        ensures
            facets@ == self.dynamic_facet_of(),
    ;

    fn get_facet(&self) -> (facets: &JsonMap)
        ensures
            facets@ == self.facet_of(),
    ;

    fn get_core_facet(&self) -> (facets: &JsonMap)
        ensures
            facets@ == self.core_facet_of(),
    ;
}

/// A typed node of an object model, with its three namespaces of facets.
#[derive(Debug)]
pub struct Element {
    pub id: String,
    pub type_: String,
    pub nature: String,
    pub name: String,
    pub version: u32,
    pub dynamic_facets: JsonMap,
    pub facets: JsonMap,
    pub core_facets: JsonMap,
}

/// What an `Element` stands for.
pub struct ElementView {
    pub id: Key,
    pub type_: Key,
    pub nature: Key,
    pub name: Key,
    pub version: u32,
    pub dynamic_facets: Map<Key, JsonModel>,
    pub facets: Map<Key, JsonModel>,
    pub core_facets: Map<Key, JsonModel>,
}

impl View for Element {
    type V = ElementView;

    open spec fn view(&self) -> ElementView {
        ElementView {
            id: self.id@,
            type_: self.type_@,
            nature: self.nature@,
            name: self.name@,
            version: self.version,
            dynamic_facets: self.dynamic_facets@,
            facets: self.facets@,
            core_facets: self.core_facets@,
        }
    }
}

impl Clone for Element {
    fn clone(&self) -> (copy: Self)
        ensures
            copy@ == self@,
    {
        Element {
            id: self.id.clone(),
            type_: self.type_.clone(),
            nature: self.nature.clone(),
            name: self.name.clone(),
            version: self.version,
            dynamic_facets: self.dynamic_facets.clone(),
            facets: self.facets.clone(),
            core_facets: self.core_facets.clone(),
        }
    }
}

/// A typed directed edge of an object model, from the element `source_id` to
/// the element `target_id`.
#[derive(Debug)]
pub struct Relationship {
    pub id: String,
    pub source_id: String,
    pub target_id: String,
    pub type_: String,
    pub nature: String,
    pub name: String,
    pub version: u32,
    pub dynamic_facets: JsonMap,
    pub facets: JsonMap,
    pub core_facets: JsonMap,
}

/// What a `Relationship` stands for.
pub struct RelationshipView {
    pub id: Key,
    pub source_id: Key,
    pub target_id: Key,
    pub type_: Key,
    pub nature: Key,
    pub name: Key,
    pub version: u32,
    pub dynamic_facets: Map<Key, JsonModel>,
    pub facets: Map<Key, JsonModel>,
    pub core_facets: Map<Key, JsonModel>,
}

impl View for Relationship {
    type V = RelationshipView;

    open spec fn view(&self) -> RelationshipView {
        RelationshipView {
            id: self.id@,
            source_id: self.source_id@,
            target_id: self.target_id@,
            type_: self.type_@,
            nature: self.nature@,
            name: self.name@,
            version: self.version,
            dynamic_facets: self.dynamic_facets@,
            facets: self.facets@,
            core_facets: self.core_facets@,
        }
    }
}

impl Clone for Relationship {
    fn clone(&self) -> (copy: Self)
        ensures
            copy@ == self@,
    {
        Relationship {
            id: self.id.clone(),
            source_id: self.source_id.clone(),
            target_id: self.target_id.clone(),
            type_: self.type_.clone(),
            nature: self.nature.clone(),
            name: self.name.clone(),
            version: self.version,
            dynamic_facets: self.dynamic_facets.clone(),
            facets: self.facets.clone(),
            core_facets: self.core_facets.clone(),
        }
    }
}

/// The three namespaces of facets.
#[derive(Debug)]
pub enum FacetType {
    CoreFacets,
    DynamicFacets,
    Facets,
}

impl FacetType {
    /// The name of the namespace, as `to_string` gives it.
    pub open spec fn text(self) -> Seq<char> {
        match self {
            FacetType::CoreFacets => "core_facets"@,
            FacetType::DynamicFacets => "dynamic_facets"@,
            FacetType::Facets => "mk3_facets"@,
        }
    }

    pub fn to_string(&self) -> (name: String)
        ensures
            name@ == self.text(),
    {
        match self {
            FacetType::CoreFacets => "core_facets".to_owned(),
            FacetType::DynamicFacets => "dynamic_facets".to_owned(),
            FacetType::Facets => "mk3_facets".to_owned(),
        }
    }
}

impl CusObject for Element {
    open spec fn nature_of(&self) -> Key {
        self.nature@
    }

    open spec fn type_of(&self) -> Key {
        self.type_@
    }

    open spec fn id_of(&self) -> Key {
        self.id@
    }

    open spec fn name_of(&self) -> Key {
        self.name@
    }

    open spec fn dynamic_facet_of(&self) -> Map<Key, JsonModel> {
        self.dynamic_facets@
    }

    open spec fn facet_of(&self) -> Map<Key, JsonModel> {
        self.facets@
    }

    open spec fn core_facet_of(&self) -> Map<Key, JsonModel> {
        self.core_facets@
    }

    fn get_nature(&self) -> (nature: String) {
        self.nature.clone()
    }

    fn get_type(&self) -> (type_: String) {
        self.type_.clone()
    }

    fn get_id(&self) -> (id: String) {
        self.id.clone()
    }

    fn get_name(&self) -> (name: String) {
        self.name.clone()
    }

    fn get_dynamic_facet(&self) -> (facets: &JsonMap) {
        &self.dynamic_facets
    }

    fn get_facet(&self) -> (facets: &JsonMap) {
        &self.facets
    }

    fn get_core_facet(&self) -> (facets: &JsonMap) {
        &self.core_facets
    }
}

impl CusObject for Relationship {
    open spec fn nature_of(&self) -> Key {
        self.nature@
    }

    open spec fn type_of(&self) -> Key {
        self.type_@
    }

    open spec fn id_of(&self) -> Key {
        self.id@
    }

    open spec fn name_of(&self) -> Key {
        self.name@
    }

    open spec fn dynamic_facet_of(&self) -> Map<Key, JsonModel> {
        self.dynamic_facets@
    }

    open spec fn facet_of(&self) -> Map<Key, JsonModel> {
        self.facets@
    }

    open spec fn core_facet_of(&self) -> Map<Key, JsonModel> {
        self.core_facets@
    }

    fn get_nature(&self) -> (nature: String) {
        self.nature.clone()
    }

    fn get_type(&self) -> (type_: String) {
        self.type_.clone()
    }

    fn get_id(&self) -> (id: String) {
        self.id.clone()
    }

    fn get_name(&self) -> (name: String) {
        self.name.clone()
    }

    fn get_dynamic_facet(&self) -> (facets: &JsonMap) {
        &self.dynamic_facets
    }

    fn get_facet(&self) -> (facets: &JsonMap) {
        &self.facets
    }

    fn get_core_facet(&self) -> (facets: &JsonMap) {
        &self.core_facets
    }
}

/// The fields that every element has: its id, type, nature and name.
pub open spec fn common_fields(element: ElementView) -> Map<Key, JsonModel> {
    Map::<Key, JsonModel>::empty().insert("id"@, JsonModel::String(element.id)).insert(
        "type"@,
        JsonModel::String(element.type_),
    ).insert("nature"@, JsonModel::String(element.nature)).insert(
        "name"@,
        JsonModel::String(element.name),
    )
}

/// The fields of an element as a JSON object: the common fields, the
/// version, the dynamic and the generic facets each as an object of its
/// own, and the core facets beside them, a core facet standing in the place
/// of any of the others that has its name.
pub open spec fn element_fields(element: ElementView) -> Map<Key, JsonModel> {
    fixed_fields(element).union_prefer_right(element.core_facets)
}

/// The fields of an element that have names of their own: the common
/// fields, the version, and the dynamic and the generic facets.
pub open spec fn fixed_fields(element: ElementView) -> Map<Key, JsonModel> {
    common_fields(element).insert("version"@, JsonModel::Number(NumberModel::Unsigned(element.version as u64))).insert(
        "dynamicFacets"@,
        JsonModel::Object(element.dynamic_facets),
    ).insert("facets"@, JsonModel::Object(element.facets))
}

/// The fields of a matched value wrapped with the identity of its element.
pub open spec fn filtered_result_fields(element: ElementView, result: JsonModel) -> Map<Key, JsonModel> {
    common_fields(element).insert("version"@, JsonModel::Number(NumberModel::Unsigned(element.version as u64))).insert(
        "filteredResult"@,
        result,
    )
}

impl Element {
    /// The id, type, nature and name of the element, each as a JSON string
    /// under its field name.
    pub fn get_common_fields_values_map(&self) -> (fields: JsonMap)
        ensures
            fields@ == common_fields(self@),
    {
        let mut fields_values_map = JsonMap::new();
        Self::set_value_to_map(&mut fields_values_map, "id", self.id.as_str());
        Self::set_value_to_map(&mut fields_values_map, "type", self.type_.as_str());
        Self::set_value_to_map(&mut fields_values_map, "nature", self.nature.as_str());
        Self::set_value_to_map(&mut fields_values_map, "name", self.name.as_str());
        fields_values_map
    }

    fn set_value_to_map(map: &mut JsonMap, key: &str, fields: &str)
        ensures
            final(map)@ == old(map)@.insert(key@, JsonModel::String(fields@)),
    {
        map.insert(key.to_owned(), text_value(fields));
    }

    /// The element as a JSON object.
    pub fn to_value(&self) -> (value: Value)
        ensures
            json_model(value) == JsonModel::Object(element_fields(self@)),
    {
        let mut fields = self.get_common_fields_values_map();
        fields.insert("version".to_owned(), number_value(self.version));
        fields.insert("dynamicFacets".to_owned(), self.dynamic_facets.to_value());
        fields.insert("facets".to_owned(), self.facets.to_value());
        fields.extend(&self.core_facets);
        fields.to_value()
    }
}

/// `element` with only the facets of one namespace left.
pub open spec fn only_facets(element: ElementView, facet_type: FacetType) -> ElementView {
    match facet_type {
        FacetType::CoreFacets => ElementView { dynamic_facets: Map::empty(), facets: Map::empty(), ..element },
        FacetType::DynamicFacets => ElementView { core_facets: Map::empty(), facets: Map::empty(), ..element },
        FacetType::Facets => ElementView { core_facets: Map::empty(), dynamic_facets: Map::empty(), ..element },
    }
}

/// The fields that a pointer is looked up in: the facets of one namespace
/// and, with the core facets, the common fields in the place of any core
/// facet that has the name of one.
pub open spec fn searched_fields(element: ElementView, facet_type: FacetType) -> Map<Key, JsonModel> {
    match facet_type {
        FacetType::CoreFacets => element.core_facets.union_prefer_right(common_fields(element)),
        FacetType::DynamicFacets => element.dynamic_facets,
        FacetType::Facets => element.facets,
    }
}

/// What a document says, where there is one.
pub open spec fn found_model(found: Option<Value>) -> Option<JsonModel> {
    match found {
        Some(value) => Some(json_model(value)),
        None => None,
    }
}

/// What is handed out for what a pointer found in an element: the value
/// itself or, with the identity asked for, the value wrapped with it.
pub open spec fn found_json(element: ElementView, found: Option<JsonModel>, with_identity: bool) -> Option<
    JsonModel,
> {
    match found {
        Some(target) => Some(
            if with_identity {
                JsonModel::Object(filtered_result_fields(element, target))
            } else {
                target
            },
        ),
        None => None,
    }
}

/// The projection of an element through a pointer into one namespace of
/// its facets: nothing where there are no fields to search, the element
/// with that namespace alone where the pointer is empty, else what the
/// pointer finds.
pub open spec fn projected(
    element: ElementView,
    facet_type: FacetType,
    pointer: Seq<char>,
    with_identity: bool,
) -> Option<JsonModel> {
    let fields = searched_fields(element, facet_type);
    if fields == Map::<Key, JsonModel>::empty() {
        None
    } else if pointer.len() == 0 {
        Some(JsonModel::Object(element_fields(only_facets(element, facet_type))))
    } else {
        found_json(element, pointer_target(JsonModel::Object(fields), pointer), with_identity)
    }
}

impl Element {
    /// A copy of the element with only the facets of one namespace left.
    pub fn with_only_facets(&self, facet_type: &FacetType) -> (kept: Element)
        ensures
            kept@ == only_facets(self@, *facet_type),
    {
        let (core_facets, dynamic_facets, facets) = match facet_type {
            FacetType::CoreFacets => (self.core_facets.clone(), JsonMap::new(), JsonMap::new()),
            FacetType::DynamicFacets => (JsonMap::new(), self.dynamic_facets.clone(), JsonMap::new()),
            FacetType::Facets => (JsonMap::new(), JsonMap::new(), self.facets.clone()),
        };
        Element {
            id: self.id.clone(),
            type_: self.type_.clone(),
            nature: self.nature.clone(),
            name: self.name.clone(),
            version: self.version,
            dynamic_facets,
            facets,
            core_facets,
        }
    }

    /// What is handed out for what a pointer found in this element.
    pub fn found_value(&self, found: Option<Value>, is_show_element_id: bool) -> (value: Option<Value>)
        ensures
            found_model(value) == found_json(self@, found_model(found), is_show_element_id),
    {
        match found {
            Some(target) => {
                if is_show_element_id {
                    let wrapped = FilteredElementResult::from(self, target);
                    Some(wrapped.to_value())
                } else {
                    Some(target)
                }
            },
            None => None,
        }
    }

    /// The projection of the element through `pointer` into one namespace
    /// of its facets.
    pub fn get_json_value(&self, facet_type: &FacetType, pointer: &str, is_show_element_id: bool) -> (value:
        Option<Value>)
        ensures
            found_model(value) == projected(self@, *facet_type, pointer@, is_show_element_id),
    {
        let filtered_element = self.with_only_facets(facet_type);
        let facets_map: JsonMap = match facet_type {
            FacetType::CoreFacets => {
                let mut combine_core_facet = filtered_element.core_facets.clone();
                let common_fields = self.get_common_fields_values_map();
                combine_core_facet.extend(&common_fields);
                combine_core_facet
            },
            FacetType::DynamicFacets => filtered_element.dynamic_facets.clone(),
            FacetType::Facets => filtered_element.facets.clone(),
        };
        if pointer.is_empty() || facets_map.is_empty() {
            return if facets_map.is_empty() {
                None
            } else {
                Some(filtered_element.to_value())
            };
        }
        let facets_map_value = facets_map.to_value();
        let found = pointer_of(&facets_map_value, pointer);
        proof {
            assert(filtered_result_fields(filtered_element@, json_model(found.unwrap()))
                == filtered_result_fields(self@, json_model(found.unwrap())));
        }
        filtered_element.found_value(found, is_show_element_id)
    }
}

/// The elements that a list of borrowed elements points to, in order.
pub open spec fn pointed(elements: Seq<&Element>) -> Seq<Element> {
    elements.map_values(|element: &Element| *element)
}

/// The views of a list of borrowed elements, in order.
pub open spec fn element_views(elements: Seq<&Element>) -> Seq<ElementView> {
    elements.map_values(|element: &Element| element@)
}

/// The projections of `elements` that are there, in the order of the
/// elements.
pub open spec fn projections(
    elements: Seq<ElementView>,
    facet_type: FacetType,
    pointer: Seq<char>,
    with_identity: bool,
) -> Seq<JsonModel> {
    present(elements.map_values(|element: ElementView| projected(element, facet_type, pointer, with_identity)))
}

/// The position of the first element with the id `id`.
pub open spec fn element_position(elements: Seq<Element>, id: Key) -> Option<int> {
    first_index(elements.map_values(|element: Element| element.id@), id)
}

impl ModelData {
    /// The elements, in order.
    pub fn get_elements(&self) -> (elements: Vec<&Element>)
        ensures
            elements@.len() == self.elements@.len(),
            forall|i: int| 0 <= i < elements@.len() ==> *(#[trigger] elements@[i]) == self.elements@[i],
    {
        let mut elements: Vec<&Element> = Vec::new();
        let mut i: usize = 0;
        while i < self.elements.len()
            invariant
                i <= self.elements.len(),
                elements@.len() == i,
                forall|j: int| 0 <= j < i ==> *(#[trigger] elements@[j]) == self.elements@[j],
            decreases self.elements.len() - i,
        {
            elements.push(&self.elements[i]);
            i += 1;
        }
        elements
    }

    /// The first element with the id `id`.
    pub fn get_element_with_id(&self, id: &str) -> (element: Option<&Element>)
        ensures
            match element_position(self.elements@, id@) {
                Some(i) => element == Some(&self.elements@[i]),
                None => element is None,
            },
    {
        let wanted = id.to_owned();
        let ghost ids = self.elements@.map_values(|element: Element| element.id@);
        let mut i: usize = 0;
        while i < self.elements.len()
            invariant
                i <= self.elements.len(),
                wanted@ == id@,
                ids == self.elements@.map_values(|element: Element| element.id@),
                forall|j: int| 0 <= j < i ==> ids[j] != id@,
            decreases self.elements.len() - i,
        {
            if self.elements[i].id == wanted {
                proof {
                    assert(ids[i as int] == id@);
                    lemma_first_index(ids, id@);
                }
                return Some(&self.elements[i]);
            }
            i += 1;
        }
        proof {
            lemma_first_index(ids, id@);
        }
        None
    }

    /// The elements that `filter` accepts, in order.
    pub fn get_element_with_filter<F>(&self, filter: F) -> (elements: Vec<&Element>) where
        F: Fn(&Element) -> bool,

        requires
            forall|i: int| 0 <= i < self.elements@.len() ==> call_requires(filter, (&self.elements@[i],)),
        ensures
            exists|accepted: Seq<bool>|
                {
                    &&& accepted.len() == self.elements@.len()
                    &&& forall|i: int|
                        0 <= i < accepted.len() ==> call_ensures(
                            filter,
                            (&self.elements@[i],),
                            #[trigger] accepted[i],
                        )
                    &&& pointed(elements@) == chosen(self.elements@, accepted)
                },
    {
        let mut elements: Vec<&Element> = Vec::new();
        let ghost mut accepted: Seq<bool> = Seq::empty();
        assert(pointed(elements@) =~= chosen(self.elements@.take(0), accepted));
        let mut i: usize = 0;
        while i < self.elements.len()
            invariant
                i <= self.elements.len(),
                accepted.len() == i,
                forall|j: int| 0 <= j < self.elements@.len() ==> call_requires(filter, (&self.elements@[j],)),
                forall|j: int|
                    0 <= j < i ==> call_ensures(filter, (&self.elements@[j],), #[trigger] accepted[j]),
                pointed(elements@) == chosen(self.elements@.take(i as int), accepted),
            decreases self.elements.len() - i,
        {
            let keep = filter(&self.elements[i]);
            proof {
                let grown = accepted.push(keep);
                assert(self.elements@.take(i + 1).drop_last() =~= self.elements@.take(i as int));
                assert(grown.drop_last() =~= accepted);
                accepted = grown;
            }
            if keep {
                let ghost before = pointed(elements@);
                elements.push(&self.elements[i]);
                assert(pointed(elements@) =~= before.push(self.elements@[i as int]));
            }
            i += 1;
        }
        assert(self.elements@.take(self.elements@.len() as int) =~= self.elements@);
        elements
    }

    /// The projections of `elements` through `pointer` into the namespace
    /// `facet_type`, without those elements that have none; nothing at all
    /// without a namespace.
    pub fn get_json_values(
        elements: Vec<&Element>,
        facet_type: Option<FacetType>,
        pointer: &str,
        is_show_element_id: bool,
    ) -> (values: Vec<Value>)
        ensures
            models(values@) == match facet_type {
                Some(facet) => projections(element_views(elements@), facet, pointer@, is_show_element_id),
                None => Seq::empty(),
            },
    {
        let mut values: Vec<Value> = Vec::new();
        if let Some(facet) = facet_type {
            let ghost views = element_views(elements@);
            let ghost found = views.map_values(
                |element: ElementView| projected(element, facet, pointer@, is_show_element_id),
            );
            let mut i: usize = 0;
            assert(models(values@) =~= present(found.take(0)));
            while i < elements.len()
                invariant
                    i <= elements.len(),
                    views == element_views(elements@),
                    found == views.map_values(
                        |element: ElementView| projected(element, facet, pointer@, is_show_element_id),
                    ),
                    models(values@) == present(found.take(i as int)),
                decreases elements.len() - i,
            {
                let value = elements[i].get_json_value(&facet, pointer, is_show_element_id);
                proof {
                    assert(found.take(i + 1).drop_last() =~= found.take(i as int));
                    assert(found.take(i + 1).last() == found_model(value));
                }
                if let Some(v) = value {
                    let ghost before = models(values@);
                    values.push(v);
                    assert(models(values@) =~= before.push(json_model(v)));
                }
                i += 1;
            }
            assert(found.take(found.len() as int) =~= found);
        } else {
            assert(models(values@) =~= Seq::<JsonModel>::empty());
        }
        values
    }
}

/// The items of `items` at whose position `accepted` says yes, in order.
pub open spec fn chosen<T>(items: Seq<T>, accepted: Seq<bool>) -> Seq<T>
    decreases items.len(),
{
    if items.len() == 0 || accepted.len() != items.len() {
        Seq::empty()
    } else if accepted.last() {
        chosen(items.drop_last(), accepted.drop_last()).push(items.last())
    } else {
        chosen(items.drop_last(), accepted.drop_last())
    }
}

/// A matched value with the identity of the element that it was found in.
#[derive(Debug)]
pub struct FilteredElementResult {
    pub id: String,
    pub type_: String,
    pub nature: String,
    pub name: String,
    pub version: u32,
    pub filtered_result: Value,
}

impl FilteredElementResult {
    pub fn from(element: &Element, result: Value) -> (wrapped: FilteredElementResult)
        ensures
            wrapped.id@ == element.id@,
            wrapped.type_@ == element.type_@,
            wrapped.nature@ == element.nature@,
            wrapped.name@ == element.name@,
            wrapped.version == element.version,
            wrapped.filtered_result == result,
    {
        FilteredElementResult {
            id: element.id.clone(),
            type_: element.type_.clone(),
            nature: element.nature.clone(),
            name: element.name.clone(),
            version: element.version,
            filtered_result: result,
        }
    }

    /// The identity of the element under which the value was found.
    pub open spec fn identity(self) -> ElementView {
        ElementView {
            id: self.id@,
            type_: self.type_@,
            nature: self.nature@,
            name: self.name@,
            version: self.version,
            dynamic_facets: Map::empty(),
            facets: Map::empty(),
            core_facets: Map::empty(),
        }
    }

    /// The wrapped value as a JSON object.
    pub fn to_value(&self) -> (value: Value)
        ensures
            json_model(value) == JsonModel::Object(
                filtered_result_fields(self.identity(), json_model(self.filtered_result)),
            ),
    {
        let mut fields = JsonMap::new();
        fields.insert("id".to_owned(), text_value(self.id.as_str()));
        fields.insert("type".to_owned(), text_value(self.type_.as_str()));
        fields.insert("nature".to_owned(), text_value(self.nature.as_str()));
        fields.insert("name".to_owned(), text_value(self.name.as_str()));
        fields.insert("version".to_owned(), number_value(self.version));
        fields.insert("filteredResult".to_owned(), clone_value(&self.filtered_result));
        fields.to_value()
    }
}

/// `document` with every array and object that lies `max_depth` levels or
/// more below the top replaced by null, `document` itself lying `depth`
/// levels below the top.
pub open spec fn truncated(document: JsonModel, max_depth: nat, depth: nat) -> JsonModel
    decreases max_depth - depth,
{
    match document {
        JsonModel::Array(items) => if depth >= max_depth {
            JsonModel::Null
        } else {
            JsonModel::Array(items.map_values(|item: JsonModel| truncated(item, max_depth, depth + 1)))
        },
        JsonModel::Object(fields) => if depth >= max_depth {
            JsonModel::Null
        } else {
            JsonModel::Object(fields.map_values(|content: JsonModel| truncated(content, max_depth, depth + 1)))
        },
        scalar => scalar,
    }
}

/// Each of `documents` truncated at `max_depth`, as a top-level document.
pub open spec fn all_truncated(documents: Seq<JsonModel>, max_depth: nat) -> Seq<JsonModel> {
    documents.map_values(|document: JsonModel| truncated(document, max_depth, 0))
}

/// Truncation changes nothing in a document that was truncated at the same
/// depth.
pub proof fn lemma_truncated_twice(document: JsonModel, max_depth: nat, depth: nat)
    ensures
        truncated(truncated(document, max_depth, depth), max_depth, depth) == truncated(
            document,
            max_depth,
            depth,
        ),
    decreases max_depth - depth,
{
    let once = truncated(document, max_depth, depth);
    let twice = truncated(once, max_depth, depth);
    if depth < max_depth {
        match document {
            JsonModel::Array(items) => {
                let cut = once->Array_0;
                let again = twice->Array_0;
                assert forall|i: int| 0 <= i < cut.len() implies again[i] == cut[i] by {
                    lemma_truncated_twice(items[i], max_depth, depth + 1);
                }
                assert(again =~= cut);
            },
            JsonModel::Object(fields) => {
                let cut = once->Object_0;
                let again = twice->Object_0;
                assert forall|name: Key| cut.contains_key(name) implies again[name] == cut[name] by {
                    lemma_truncated_twice(fields[name], max_depth, depth + 1);
                }
                assert(again =~= cut);
            },
            _ => {},
        }
    }
}

/// `documents`, truncated at `depth` unless `depth` is 0, which stands for
/// no truncation at all.
pub open spec fn cut_at(documents: Seq<JsonModel>, depth: nat) -> Seq<JsonModel> {
    if depth > 0 {
        all_truncated(documents, depth)
    } else {
        documents
    }
}

/// Cutting at one depth twice is cutting once, and cutting at depth 0
/// changes nothing.
pub proof fn lemma_cut_at(documents: Seq<JsonModel>, depth: nat)
    ensures
        cut_at(cut_at(documents, depth), depth) == cut_at(documents, depth),
        cut_at(documents, 0) == documents,
{
    if depth > 0 {
        let once = all_truncated(documents, depth);
        let twice = all_truncated(once, depth);
        assert forall|i: int| 0 <= i < once.len() implies twice[i] == once[i] by {
            lemma_truncated_twice(documents[i], depth, 0);
        }
        assert(twice =~= once);
    }
}

/// Each of `values` truncated at `truncate_depth`; at depth 0 each of
/// `values` as it is.
pub fn truncate_value(values: &[Value], truncate_depth: usize) -> (result: Vec<Value>)
    ensures
        models(result@) == cut_at(models(values@), truncate_depth as nat),
{
    let mut result: Vec<Value> = Vec::new();
    let mut i: usize = 0;
    while i < values.len()
        invariant
            i <= values.len(),
            result@.len() == i,
            forall|j: int| 0 <= j < i ==> json_model(result@[j]) == cut_at(
                models(values@),
                truncate_depth as nat,
            )[j],
        decreases values.len() - i,
    {
        if truncate_depth == 0 {
            result.push(clone_value(&values[i]));
        } else {
            result.push(truncate(&values[i], truncate_depth, 0));
        }
        i += 1;
    }
    assert(models(result@) =~= cut_at(models(values@), truncate_depth as nat));
    result
}

/// `value` with every array and object that lies `max_depth` levels or more
/// below the top replaced by null, `value` itself lying `current_depth`
/// levels below the top.
pub fn truncate(value: &Value, max_depth: usize, current_depth: usize) -> (result: Value)
    ensures
        json_model(result) == truncated(json_model(*value), max_depth as nat, current_depth as nat),
    decreases max_depth - current_depth,
{
    let kind = value_kind(value);
    if current_depth >= max_depth {
        return match kind {
            JsonKind::Array => null_value(),
            JsonKind::Object => null_value(),
            _ => clone_value(value),
        };
    }
    match kind {
        JsonKind::Array => {
            let items = array_items(value);
            let ghost content = json_model(*value)->Array_0;
            let mut new_array: Vec<Value> = Vec::new();
            let mut i: usize = 0;
            while i < items.len()
                invariant
                    i <= items.len(),
                    current_depth < max_depth,
                    borrowed_models(items@) == content,
                    new_array@.len() == i,
                    forall|j: int| 0 <= j < i ==> json_model(new_array@[j]) == truncated(
                        content[j],
                        max_depth as nat,
                        (current_depth + 1) as nat,
                    ),
                decreases items.len() - i,
            {
                assert(json_model(*items@[i as int]) == borrowed_models(items@)[i as int]);
                new_array.push(truncate(items[i], max_depth, current_depth + 1));
                i += 1;
            }
            proof {
                let wanted = truncated(json_model(*value), max_depth as nat, current_depth as nat)->Array_0;
                assert(models(new_array@) =~= wanted);
            }
            array_of(new_array)
        },
        JsonKind::Object => {
            let entries = object_entries(value);
            let ghost fields = json_model(*value)->Object_0;
            let ghost names = borrowed_entry_names(entries@);
            let ghost contents = entries@.map_values(|entry: (&String, &Value)| json_model(*entry.1));
            let mut new_entries: Vec<(String, Value)> = Vec::new();
            let mut i: usize = 0;
            while i < entries.len()
                invariant
                    i <= entries.len(),
                    current_depth < max_depth,
                    names == borrowed_entry_names(entries@),
                    contents == entries@.map_values(|entry: (&String, &Value)| json_model(*entry.1)),
                    new_entries@.len() == i,
                    forall|j: int| 0 <= j < i ==> (#[trigger] new_entries@[j]).0@ == names[j],
                    forall|j: int| 0 <= j < i ==> json_model((#[trigger] new_entries@[j]).1) == truncated(
                        contents[j],
                        max_depth as nat,
                        (current_depth + 1) as nat,
                    ),
                decreases entries.len() - i,
            {
                let name: &String = entries[i].0;
                let content: &Value = entries[i].1;
                assert(name@ == names[i as int]);
                assert(json_model(*content) == contents[i as int]);
                new_entries.push((name.clone(), truncate(content, max_depth, current_depth + 1)));
                i += 1;
            }
            let ghost cut_contents = new_entries@.map_values(|entry: (String, Value)| json_model(entry.1));
            proof {
                assert(entry_names(new_entries@) =~= names);
            }
            let result = object_of(new_entries);
            proof {
                let cut_fields = json_model(result)->Object_0;
                let wanted = truncated(json_model(*value), max_depth as nat, current_depth as nat)->Object_0;
                assert forall|name: Key| cut_fields.contains_key(name) == wanted.contains_key(name) by {
                    lemma_first_index(names, name);
                    if first_index(names, name) is Some {
                        let k = first_index(names, name).unwrap();
                        assert(fields.contains_pair(names[k], contents[k]));
                        assert(cut_fields.contains_pair(names[k], cut_contents[k]));
                    }
                }
                assert forall|name: Key| cut_fields.contains_key(name) implies cut_fields[name]
                    == wanted[name] by {
                    lemma_first_index(names, name);
                    let k = first_index(names, name).unwrap();
                    assert(fields.contains_pair(names[k], contents[k]));
                    assert(cut_fields.contains_pair(names[k], cut_contents[k]));
                }
                assert(cut_fields =~= wanted);
            }
            result
        },
        _ => clone_value(value),
    }
}

} // verus!
