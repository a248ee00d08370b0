use model_parser_mcp::cubs_model::{Element, ModelData, ModelVersionNumber, Relationship};
use model_parser_mcp::json::JsonMap;
use model_parser_mcp::model_dict::{
    count_keys, generate_array_field_count, generate_element_count_by, ElementCounts, ModelDictionary,
    ModelStats,
};
use serde_json::Value;

fn parse(text: &str) -> Value {
    serde_json::from_str(text).unwrap()
}

fn element(id: &str, type_: &str, nature: &str) -> Element {
    Element {
        id: id.to_string(),
        type_: type_.to_string(),
        nature: nature.to_string(),
        name: String::new(),
        version: 1,
        dynamic_facets: JsonMap::new(),
        facets: JsonMap::new(),
        core_facets: JsonMap::new(),
    }
}

fn relationship(id: &str, type_: &str, nature: &str) -> Relationship {
    Relationship {
        id: id.to_string(),
        source_id: "a".to_string(),
        target_id: "b".to_string(),
        type_: type_.to_string(),
        nature: nature.to_string(),
        name: String::new(),
        version: 1,
        dynamic_facets: JsonMap::new(),
        facets: JsonMap::new(),
        core_facets: JsonMap::new(),
    }
}

fn pairs(counts: &ElementCounts) -> Vec<(String, u32)> {
    counts.value.iter().map(|c| (c.element.clone(), c.count)).collect()
}

fn tally(name: &str, count: u32) -> (String, u32) {
    (name.to_string(), count)
}

#[test]
fn test_valid_array_with_types() {
    let json = parse(
        r#"[
            {"type": "cube", "id": 1},
            {"type": "sphere", "id": 2},
            {"type": "cube", "id": 3},
            {"type": "cube", "id": 4}
        ]"#,
    );

    let result = generate_array_field_count(&json, "type").unwrap();

    assert_eq!(result.value.len(), 2);
    assert_eq!(result.value[0].element, "cube");
    assert_eq!(result.value[0].count, 3);
    assert_eq!(result.value[1].element, "sphere");
    assert_eq!(result.value[1].count, 1);
}

#[test]
fn test_empty_array() {
    let json = parse("[]");
    let result = generate_array_field_count(&json, "type");
    assert!(result.is_none());
}

#[test]
fn test_non_array_input() {
    let json = parse(r#"{"not": "array"}"#);
    let result = generate_array_field_count(&json, "type");
    assert!(result.is_none());
}

#[test]
fn test_array_without_type_fields() {
    let json = parse(r#"[{"id": 1}, {"name": "test"}]"#);
    let result = generate_array_field_count(&json, "type");
    assert!(result.is_none());
}

#[test]
fn array_field_count_passes_over_what_is_no_text() {
    let json = parse(r#"[{"type": 5}, "type", ["type"], {"type": "a"}, null, {"type": null}, {"type": "a"}, {"type": "b"}]"#);
    let result = generate_array_field_count(&json, "type").unwrap();
    assert_eq!(pairs(&result), vec![tally("a", 2), tally("b", 1)]);
}

#[test]
fn counts_are_ranked_and_ties_keep_the_order_of_first_sight() {
    let keys: Vec<String> = ["b", "a", "c", "a", "d", "c", "e", "e", "e"].iter().map(|k| k.to_string()).collect();
    let counts = count_keys(&keys);
    assert_eq!(
        pairs(&counts),
        vec![tally("e", 3), tally("a", 2), tally("c", 2), tally("b", 1), tally("d", 1)]
    );
    assert!(count_keys(&Vec::new()).value.is_empty());
    assert!(ElementCounts::default().value.is_empty());
    assert_eq!(pairs(&counts.clone()), pairs(&counts));
}

#[test]
fn stats_of_elements() {
    let elements = vec![
        element("1", "pump", "device"),
        element("2", "valve", "device"),
        element("3", "pump", "asset"),
        element("4", "pump", "device"),
    ];
    let borrowed: Vec<&Element> = elements.iter().collect();
    let stats = ModelStats::from_elements(&borrowed).unwrap();
    assert!(stats.relationships_stats.is_none());
    assert_eq!(stats.version, 0);
    let report = stats.elements_stats.unwrap();
    assert_eq!(report.all_count, 4);
    assert_eq!(pairs(&report.by_type), vec![tally("pump", 3), tally("valve", 1)]);
    assert_eq!(pairs(&report.by_nature), vec![tally("device", 3), tally("asset", 1)]);
    let none = ModelStats::from_elements(&Vec::new()).unwrap();
    let report = none.elements_stats.unwrap();
    assert_eq!(report.all_count, 0);
    assert!(report.by_type.value.is_empty());
}

#[test]
fn dictionary_of_a_model() {
    let model = ModelData {
        schema_version: "1".to_string(),
        model_id: "model-7".to_string(),
        site_model_id: "site".to_string(),
        version: 12,
        elements: vec![
            element("1", "valve", "device"),
            element("2", "pump", "device"),
            element("3", "pump", "asset"),
        ],
        relationships: vec![relationship("r1", "feeds", "flow"), relationship("r2", "feeds", "flow")],
    };
    let versions = vec![ModelVersionNumber { vers_no: 12 }, ModelVersionNumber { vers_no: 11 }];
    let dictionary = ModelDictionary::from(&model, versions);
    assert_eq!(dictionary.model_id, "model-7");
    assert_eq!(dictionary.version, 12);
    assert_eq!(dictionary.model_stats.version, 12);
    assert_eq!(dictionary.model_versions.len(), 2);
    assert_eq!(dictionary.model_versions[1].vers_no, 11);
    assert_eq!(dictionary.get_element_types(), vec!["pump", "valve"]);
    assert_eq!(dictionary.get_element_nature(), vec!["device", "asset"]);
    let elements = dictionary.model_stats.elements_stats.as_ref().unwrap();
    assert_eq!(elements.all_count, 3);
    let relationships = dictionary.model_stats.relationships_stats.as_ref().unwrap();
    assert_eq!(relationships.all_count, 2);
    assert_eq!(pairs(&relationships.by_type), vec![tally("feeds", 2)]);
    assert_eq!(pairs(&relationships.by_nature), vec![tally("flow", 2)]);
    let empty = ModelDictionary::from(&ModelData::default(), Vec::new());
    assert!(empty.get_element_types().is_empty());
    assert_eq!(empty.model_stats.elements_stats.as_ref().unwrap().all_count, 0);
}

#[test]
fn grouping_by_a_key() {
    let elements = vec![element("1", "pump", "x"), element("2", "valve", "y"), element("3", "valve", "x")];
    let counts = generate_element_count_by(&elements, |e: &Element| e.type_.clone()).unwrap();
    assert_eq!(pairs(&counts), vec![tally("valve", 2), tally("pump", 1)]);
    let counts = generate_element_count_by(&elements, |e: &Element| e.id.clone()).unwrap();
    assert_eq!(pairs(&counts), vec![tally("1", 1), tally("2", 1), tally("3", 1)]);
    let nothing: Vec<Element> = Vec::new();
    assert!(generate_element_count_by(&nothing, |e: &Element| e.type_.clone()).is_none());
}
