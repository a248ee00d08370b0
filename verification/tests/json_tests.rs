use model_parser_mcp::cubs_model::{
    truncate, truncate_value, CusObject, Element, FacetType, FilteredElementResult, ModelData,
};
use model_parser_mcp::json::JsonMap;
use serde_json::Value;

fn parse(text: &str) -> Value {
    serde_json::from_str(text).unwrap()
}

fn map_of(text: &str) -> JsonMap {
    let mut map = JsonMap::new();
    if let Value::Object(fields) = parse(text) {
        for (name, content) in fields {
            map.insert(name, content);
        }
    }
    map
}

fn pump() -> Element {
    Element {
        id: "e1".to_string(),
        type_: "pump".to_string(),
        nature: "device".to_string(),
        name: "Pump".to_string(),
        version: 7,
        dynamic_facets: map_of(r#"{"state":{"running":true,"speeds":[10,20,30]},"a/b":1,"m~n":2}"#),
        facets: map_of(r#"{"vendor":"acme"}"#),
        core_facets: map_of(r#"{"floor":3,"tags":["x","y"]}"#),
    }
}

#[test]
fn test_truncate() {
    // Test with a simple JSON object
    let json = r#"{"a": 1, "b": {"c": 2}}"#;
    let value: Value = serde_json::from_str(json).unwrap();
    let result = truncate(&value, 2, 0);
    let result_string = result.to_string();
    assert_eq!(result_string, r#"{"a":1,"b":{"c":2}}"#);
}

#[test]
fn test_truncate2() {
    // Test with a simple JSON object
    let json = r#"{"a": 1,"b": {"c": {"d": 2}}}"#;
    let value: Value = serde_json::from_str(json).unwrap();
    let result = truncate(&value, 2, 0);
    let result_string = result.to_string();
    assert_eq!(result_string, r#"{"a":1,"b":{"c":null}}"#);
}

#[test]
fn truncate_keeps_scalars_and_cuts_containers() {
    let value = parse(r#"{"n":null,"b":true,"x":1.5,"s":"text","a":[1,[2,[3]]],"o":{"p":{"q":{}}}}"#);
    assert_eq!(truncate(&value, 0, 0), Value::Null);
    assert_eq!(
        truncate(&value, 1, 0),
        parse(r#"{"n":null,"b":true,"x":1.5,"s":"text","a":null,"o":null}"#)
    );
    assert_eq!(
        truncate(&value, 2, 0),
        parse(r#"{"n":null,"b":true,"x":1.5,"s":"text","a":[1,null],"o":{"p":null}}"#)
    );
    assert_eq!(truncate(&value, 9, 0), value);
    assert_eq!(truncate(&value, 2, 1), truncate(&value, 1, 0));
    assert_eq!(truncate(&parse("17"), 0, 0), parse("17"));
    assert_eq!(truncate(&parse(r#""s""#), 0, 5), parse(r#""s""#));
    assert_eq!(truncate(&parse("[]"), 1, 0), parse("[]"));
    assert_eq!(truncate(&parse("{}"), 1, 0), parse("{}"));
}

#[test]
fn truncate_twice_is_truncate_once() {
    let value = parse(r#"[{"a":{"b":{"c":[1,2,{"d":4}]}}},[[[1]]],"s"]"#);
    for depth in 0..6 {
        let once = truncate(&value, depth, 0);
        assert_eq!(truncate(&once, depth, 0), once);
    }
}

#[test]
fn truncate_value_cuts_each_document() {
    let values = vec![parse(r#"{"a":{"b":1}}"#), parse("[[1]]"), parse("3")];
    assert_eq!(
        truncate_value(&values, 1),
        vec![parse(r#"{"a":null}"#), parse("[null]"), parse("3")]
    );
    assert!(truncate_value(&[], 3).is_empty());
    assert_eq!(truncate_value(&values, 0), values);
    assert!(truncate_value(&[], 0).is_empty());
    let deep = vec![parse(r#"[[[[1]]]]"#), parse(r#"{"a":{"b":{"c":{}}}}"#), parse("null")];
    assert_eq!(truncate_value(&deep, 0), deep);
    assert_eq!(truncate_value(&truncate_value(&deep, 2), 2), truncate_value(&deep, 2));
}

#[test]
fn json_map_holds_each_name_once() {
    let mut map = JsonMap::new();
    assert!(map.is_empty());
    map.insert("a".to_string(), parse("1"));
    map.insert("b".to_string(), parse("2"));
    map.insert("a".to_string(), parse("3"));
    assert!(!map.is_empty());
    assert_eq!(map.get("a"), Some(&parse("3")));
    assert_eq!(map.get("b"), Some(&parse("2")));
    assert_eq!(map.get("c"), None);
    assert_eq!(map.to_value(), parse(r#"{"a":3,"b":2}"#));
    let mut other = JsonMap::new();
    other.insert("b".to_string(), parse("20"));
    other.insert("c".to_string(), parse("30"));
    let copy = map.clone();
    map.extend(&other);
    assert_eq!(map.to_value(), parse(r#"{"a":3,"b":20,"c":30}"#));
    assert_eq!(copy.to_value(), parse(r#"{"a":3,"b":2}"#));
    assert_eq!(JsonMap::new().to_value(), parse("{}"));
}

#[test]
fn element_as_json() {
    let element = pump();
    let expected = parse(
        r#"{"id":"e1","type":"pump","nature":"device","name":"Pump","version":7,
            "dynamicFacets":{"state":{"running":true,"speeds":[10,20,30]},"a/b":1,"m~n":2},
            "facets":{"vendor":"acme"},"floor":3,"tags":["x","y"]}"#,
    );
    assert_eq!(element.to_value(), expected);
    assert_eq!(
        element.get_common_fields_values_map().to_value(),
        parse(r#"{"id":"e1","type":"pump","nature":"device","name":"Pump"}"#)
    );
}

#[test]
fn element_clone_and_getters() {
    let element = pump();
    let copy = element.clone();
    assert_eq!(copy.to_value(), element.to_value());
    assert_eq!(element.get_id(), "e1");
    assert_eq!(element.get_type(), "pump");
    assert_eq!(element.get_nature(), "device");
    assert_eq!(element.get_name(), "Pump");
    assert_eq!(element.get_facet().to_value(), parse(r#"{"vendor":"acme"}"#));
    assert_eq!(element.get_core_facet().to_value(), parse(r#"{"floor":3,"tags":["x","y"]}"#));
    assert!(element.get_dynamic_facet().get("state").is_some());
}

#[test]
fn projection_through_a_pointer() {
    let element = pump();
    let dynamic = FacetType::DynamicFacets;
    assert_eq!(element.get_json_value(&dynamic, "/state/speeds/1", false), Some(parse("20")));
    assert_eq!(element.get_json_value(&dynamic, "/state/running", false), Some(parse("true")));
    assert_eq!(element.get_json_value(&dynamic, "/a~1b", false), Some(parse("1")));
    assert_eq!(element.get_json_value(&dynamic, "/m~0n", false), Some(parse("2")));
    assert_eq!(element.get_json_value(&dynamic, "/state/speeds/3", false), None);
    assert_eq!(element.get_json_value(&dynamic, "/state/speeds/01", false), None);
    assert_eq!(element.get_json_value(&dynamic, "/missing", false), None);
    assert_eq!(element.get_json_value(&dynamic, "state", false), None);
    assert_eq!(element.get_json_value(&dynamic, "/vendor", false), None);
    assert_eq!(element.get_json_value(&FacetType::Facets, "/vendor", false), Some(parse(r#""acme""#)));
}

#[test]
fn projection_into_the_core_facets_sees_the_common_fields() {
    let element = pump();
    let core = FacetType::CoreFacets;
    assert_eq!(element.get_json_value(&core, "/id", false), Some(parse(r#""e1""#)));
    assert_eq!(element.get_json_value(&core, "/type", false), Some(parse(r#""pump""#)));
    assert_eq!(element.get_json_value(&core, "/nature", false), Some(parse(r#""device""#)));
    assert_eq!(element.get_json_value(&core, "/name", false), Some(parse(r#""Pump""#)));
    assert_eq!(element.get_json_value(&core, "/tags/0", false), Some(parse(r#""x""#)));
    assert_eq!(element.get_json_value(&core, "/version", false), None);
    let mut bare = pump();
    bare.core_facets = JsonMap::new();
    assert_eq!(bare.get_json_value(&core, "/id", false), Some(parse(r#""e1""#)));
    let mut shadowed = pump();
    shadowed.core_facets.insert("id".to_string(), parse("99"));
    assert_eq!(shadowed.get_json_value(&core, "/id", false), Some(parse(r#""e1""#)));
}

#[test]
fn projection_with_the_identity_of_the_element() {
    let element = pump();
    let expected = parse(
        r#"{"id":"e1","type":"pump","nature":"device","name":"Pump","version":7,"filteredResult":[10,20,30]}"#,
    );
    assert_eq!(element.get_json_value(&FacetType::DynamicFacets, "/state/speeds", true), Some(expected));
    assert_eq!(element.get_json_value(&FacetType::DynamicFacets, "/nothing", true), None);
}

#[test]
fn projection_without_a_pointer_is_the_element_with_one_namespace() {
    let element = pump();
    assert_eq!(
        element.get_json_value(&FacetType::Facets, "", true),
        Some(parse(
            r#"{"id":"e1","type":"pump","nature":"device","name":"Pump","version":7,
                "dynamicFacets":{},"facets":{"vendor":"acme"}}"#
        ))
    );
    assert_eq!(
        element.get_json_value(&FacetType::CoreFacets, "", false),
        Some(parse(
            r#"{"id":"e1","type":"pump","nature":"device","name":"Pump","version":7,
                "dynamicFacets":{},"facets":{},"floor":3,"tags":["x","y"]}"#
        ))
    );
    let mut bare = pump();
    bare.facets = JsonMap::new();
    assert_eq!(bare.get_json_value(&FacetType::Facets, "", false), None);
    assert_eq!(bare.get_json_value(&FacetType::Facets, "/vendor", false), None);
}

#[test]
fn found_value_wraps_on_request() {
    let element = pump();
    assert_eq!(element.found_value(None, true), None);
    assert_eq!(element.found_value(Some(parse("5")), false), Some(parse("5")));
    assert_eq!(
        element.found_value(Some(parse("5")), true),
        Some(parse(r#"{"id":"e1","type":"pump","nature":"device","name":"Pump","version":7,"filteredResult":5}"#))
    );
    let wrapped = FilteredElementResult::from(&element, parse("[1]"));
    assert_eq!(wrapped.id, "e1");
    assert_eq!(wrapped.version, 7);
    assert_eq!(wrapped.filtered_result, parse("[1]"));
}

#[test]
fn with_only_facets_empties_the_other_namespaces() {
    let element = pump();
    let kept = element.with_only_facets(&FacetType::DynamicFacets);
    assert!(kept.core_facets.is_empty());
    assert!(kept.facets.is_empty());
    assert_eq!(kept.dynamic_facets.to_value(), element.dynamic_facets.to_value());
    assert_eq!(kept.id, "e1");
}

#[test]
fn facet_type_names() {
    assert_eq!(FacetType::CoreFacets.to_string(), "core_facets");
    assert_eq!(FacetType::DynamicFacets.to_string(), "dynamic_facets");
    assert_eq!(FacetType::Facets.to_string(), "mk3_facets");
}

#[test]
fn model_data_lookups() {
    let mut second = pump();
    second.id = "e2".to_string();
    second.type_ = "valve".to_string();
    let mut twin = pump();
    twin.name = "Twin".to_string();
    let model = ModelData {
        schema_version: "1".to_string(),
        model_id: "m".to_string(),
        site_model_id: "s".to_string(),
        version: 2,
        elements: vec![pump(), second, twin],
        relationships: Vec::new(),
    };
    assert_eq!(model.get_elements().len(), 3);
    assert_eq!(model.get_element_with_id("e2").unwrap().type_, "valve");
    assert_eq!(model.get_element_with_id("e1").unwrap().name, "Pump");
    assert!(model.get_element_with_id("e3").is_none());
    let pumps = model.get_element_with_filter(|e: &Element| e.type_ == "pump");
    assert_eq!(pumps.len(), 2);
    assert_eq!(pumps[1].name, "Twin");
    let values = ModelData::get_json_values(model.get_elements(), Some(FacetType::Facets), "/vendor", false);
    assert_eq!(values.len(), 3);
    let values = ModelData::get_json_values(model.get_elements(), None, "/vendor", false);
    assert!(values.is_empty());
    let empty = ModelData::default();
    assert!(empty.elements.is_empty());
    assert_eq!(empty.version, 0);
    assert_eq!(empty.model_id, "");
}
