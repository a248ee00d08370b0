use model_parser_mcp::cubs_model::{Element, ModelData, Relationship};
use model_parser_mcp::json::JsonMap;
use model_parser_mcp::model_error::ModelError;
use model_parser_mcp::parser::read_model;
use serde_json::Value;
use std::io::Write;

fn gzip(text: &[u8]) -> Vec<u8> {
    let mut encoder = flate2::write::GzEncoder::new(Vec::new(), flate2::Compression::default());
    encoder.write_all(text).unwrap();
    encoder.finish().unwrap()
}

fn parse(text: &str) -> Value {
    serde_json::from_str(text).unwrap()
}

fn map_of(text: &str) -> JsonMap {
    JsonMap::from_object(&parse(text)).unwrap()
}

fn sample() -> ModelData {
    ModelData {
        schema_version: "2.1".to_string(),
        model_id: "model".to_string(),
        site_model_id: "site".to_string(),
        version: 42,
        elements: vec![
            Element {
                id: "e1".to_string(),
                type_: "pump".to_string(),
                nature: "device".to_string(),
                name: "Pump".to_string(),
                version: 3,
                dynamic_facets: map_of(r#"{"state":{"on":true,"levels":[1,2.5,-3]}}"#),
                facets: map_of(r#"{"vendor":"acme"}"#),
                core_facets: map_of(r#"{"floor":3,"note":null}"#),
            },
            Element {
                id: "e2".to_string(),
                type_: "valve".to_string(),
                nature: "device".to_string(),
                name: String::new(),
                version: 0,
                dynamic_facets: JsonMap::new(),
                facets: JsonMap::new(),
                core_facets: JsonMap::new(),
            },
        ],
        relationships: vec![Relationship {
            id: "r1".to_string(),
            source_id: "e1".to_string(),
            target_id: "e2".to_string(),
            type_: "feeds".to_string(),
            nature: "flow".to_string(),
            name: "feed".to_string(),
            version: 4294967295,
            dynamic_facets: JsonMap::new(),
            facets: map_of(r#"{"bore":12}"#),
            core_facets: map_of(r#"{"length":[7]}"#),
        }],
    }
}

#[test]
fn model_as_json() {
    let expected = parse(
        r#"{
            "schemaVersion": "2.1", "modelId": "model", "siteModelId": "site", "version": 42,
            "elements": [
                {"id":"e1","type":"pump","nature":"device","name":"Pump","version":3,
                 "dynamicFacets":{"state":{"on":true,"levels":[1,2.5,-3]}},"facets":{"vendor":"acme"},
                 "floor":3,"note":null},
                {"id":"e2","type":"valve","nature":"device","name":"","version":0,"dynamicFacets":{},"facets":{}}
            ],
            "relationships": [
                {"id":"r1","sourceId":"e1","targetId":"e2","type":"feeds","nature":"flow","name":"feed",
                 "version":4294967295,"dynamicFacets":{},"facets":{"bore":12},"length":[7]}
            ]
        }"#,
    );
    assert_eq!(sample().to_value(), expected);
}

#[test]
fn model_written_and_read_is_the_model() {
    let model = sample();
    let text = serde_json::to_string(&model.to_value()).unwrap();
    let read = ModelData::from_value(&parse(&text)).unwrap();
    assert_eq!(read.schema_version, model.schema_version);
    assert_eq!(read.model_id, model.model_id);
    assert_eq!(read.site_model_id, model.site_model_id);
    assert_eq!(read.version, model.version);
    assert_eq!(read.elements.len(), 2);
    assert_eq!(read.relationships.len(), 1);
    for (left, right) in read.elements.iter().zip(model.elements.iter()) {
        assert_eq!(left.id, right.id);
        assert_eq!(left.type_, right.type_);
        assert_eq!(left.nature, right.nature);
        assert_eq!(left.name, right.name);
        assert_eq!(left.version, right.version);
        assert_eq!(left.dynamic_facets.to_value(), right.dynamic_facets.to_value());
        assert_eq!(left.facets.to_value(), right.facets.to_value());
        assert_eq!(left.core_facets.to_value(), right.core_facets.to_value());
    }
    let (left, right) = (&read.relationships[0], &model.relationships[0]);
    assert_eq!(left.id, right.id);
    assert_eq!(left.source_id, right.source_id);
    assert_eq!(left.target_id, right.target_id);
    assert_eq!(left.version, right.version);
    assert_eq!(left.core_facets.to_value(), right.core_facets.to_value());
    assert_eq!(read.to_value(), model.to_value());
}

#[test]
fn a_missing_or_null_list_is_an_empty_list() {
    let head = r#""schemaVersion":"1","modelId":"m","siteModelId":"s","version":1"#;
    for lists in [
        "",
        r#","elements":null"#,
        r#","relationships":null"#,
        r#","elements":null,"relationships":null"#,
        r#","elements":[],"relationships":[]"#,
        r#","cubsObjects":null"#,
    ] {
        let model = ModelData::from_value(&parse(&format!("{{{}{}}}", head, lists))).unwrap();
        assert!(model.elements.is_empty());
        assert!(model.relationships.is_empty());
        assert_eq!(model.model_id, "m");
        assert_eq!(model.version, 1);
    }
}

#[test]
fn elements_under_their_older_name() {
    let element = r#"{"id":"e","type":"t","nature":"n","version":1,"facets":{}}"#;
    let text = format!(
        r#"{{"schemaVersion":"1","modelId":"m","siteModelId":"s","version":1,"cubsObjects":[{}],"extra":true}}"#,
        element
    );
    let model = ModelData::from_value(&parse(&text)).unwrap();
    assert_eq!(model.elements.len(), 1);
    assert_eq!(model.elements[0].id, "e");
    assert_eq!(model.elements[0].name, "");
    assert!(model.elements[0].dynamic_facets.is_empty());
    let both = format!(
        r#"{{"schemaVersion":"1","modelId":"m","siteModelId":"s","version":1,"cubsObjects":[{}],"elements":[{}]}}"#,
        element, element
    );
    assert!(ModelData::from_value(&parse(&both)).is_none());
}

#[test]
fn what_is_no_model_is_refused() {
    for text in [
        "[]",
        "null",
        r#"{"modelId":"m","siteModelId":"s","version":1}"#,
        r#"{"schemaVersion":"1","siteModelId":"s","version":1}"#,
        r#"{"schemaVersion":"1","modelId":"m","version":1}"#,
        r#"{"schemaVersion":"1","modelId":"m","siteModelId":"s"}"#,
        r#"{"schemaVersion":1,"modelId":"m","siteModelId":"s","version":1}"#,
        r#"{"schemaVersion":"1","modelId":"m","siteModelId":"s","version":"1"}"#,
        r#"{"schemaVersion":"1","modelId":"m","siteModelId":"s","version":-1}"#,
        r#"{"schemaVersion":"1","modelId":"m","siteModelId":"s","version":1.5}"#,
        r#"{"schemaVersion":"1","modelId":"m","siteModelId":"s","version":4294967296}"#,
        r#"{"schemaVersion":"1","modelId":"m","siteModelId":"s","version":1,"elements":{}}"#,
        r#"{"schemaVersion":"1","modelId":"m","siteModelId":"s","version":1,"elements":[1]}"#,
        r#"{"schemaVersion":"1","modelId":"m","siteModelId":"s","version":1,"relationships":"none"}"#,
        r#"{"schemaVersion":"1","modelId":"m","siteModelId":"s","version":1,"relationships":[{"id":"r"}]}"#,
    ] {
        assert!(ModelData::from_value(&parse(text)).is_none(), "{}", text);
    }
}

#[test]
fn what_is_no_element_is_refused() {
    let whole = r#"{"id":"e","type":"t","nature":"n","name":"x","version":1,"dynamicFacets":{},"facets":{}}"#;
    assert!(Element::from_value(&parse(whole)).is_some());
    for text in [
        r#"{"type":"t","nature":"n","version":1,"facets":{}}"#,
        r#"{"id":"e","nature":"n","version":1,"facets":{}}"#,
        r#"{"id":"e","type":"t","version":1,"facets":{}}"#,
        r#"{"id":"e","type":"t","nature":"n","facets":{}}"#,
        r#"{"id":"e","type":"t","nature":"n","version":1}"#,
        r#"{"id":"e","type":"t","nature":"n","version":1,"facets":[]}"#,
        r#"{"id":"e","type":"t","nature":"n","version":1,"facets":{},"name":null}"#,
        r#"{"id":"e","type":"t","nature":"n","version":1,"facets":{},"dynamicFacets":null}"#,
        r#"{"id":7,"type":"t","nature":"n","version":1,"facets":{}}"#,
        r#""e""#,
    ] {
        assert!(Element::from_value(&parse(text)).is_none(), "{}", text);
    }
    let relationship = r#"{"id":"r","sourceId":"a","targetId":"b","type":"t","nature":"n","version":1,"facets":{},"weight":2}"#;
    let read = Relationship::from_value(&parse(relationship)).unwrap();
    assert_eq!(read.source_id, "a");
    assert_eq!(read.target_id, "b");
    assert_eq!(read.core_facets.to_value(), parse(r#"{"weight":2}"#));
    assert_eq!(read.to_value(), parse(r#"{"id":"r","sourceId":"a","targetId":"b","type":"t","nature":"n","name":"","version":1,"dynamicFacets":{},"facets":{},"weight":2}"#));
    for text in [
        r#"{"id":"r","targetId":"b","type":"t","nature":"n","version":1,"facets":{}}"#,
        r#"{"id":"r","sourceId":"a","type":"t","nature":"n","version":1,"facets":{}}"#,
        r#"{"id":"r","sourceId":"a","targetId":5,"type":"t","nature":"n","version":1,"facets":{}}"#,
    ] {
        assert!(Relationship::from_value(&parse(text)).is_none(), "{}", text);
    }
}

#[test]
fn json_map_from_object_and_remove() {
    assert!(JsonMap::from_object(&parse("[1]")).is_none());
    assert!(JsonMap::from_object(&parse("null")).is_none());
    let mut map = map_of(r#"{"a":1,"b":[2],"c":{"d":3}}"#);
    assert_eq!(map.to_value(), parse(r#"{"a":1,"b":[2],"c":{"d":3}}"#));
    map.remove("b");
    map.remove("zz");
    assert_eq!(map.to_value(), parse(r#"{"a":1,"c":{"d":3}}"#));
    assert!(map.get("b").is_none());
    map.remove("a");
    map.remove("c");
    assert!(map.is_empty());
}

#[test]
fn stored_bytes_are_read_as_a_model() {
    let model = sample();
    let text = serde_json::to_string(&model.to_value()).unwrap();
    let read = read_model(&gzip(text.as_bytes())).unwrap();
    assert_eq!(read.to_value(), model.to_value());
    assert_eq!(read.elements[0].name, "Pump");
    let pretty = serde_json::to_string_pretty(&model.to_value()).unwrap();
    assert_eq!(read_model(&gzip(pretty.as_bytes())).unwrap().to_value(), model.to_value());
}

#[test]
fn stored_bytes_that_hold_no_model_are_refused() {
    let text = serde_json::to_string(&sample().to_value()).unwrap();
    let mut broken = gzip(text.as_bytes());
    let middle = broken.len() / 2;
    broken[middle] ^= 0xff;
    broken.truncate(middle + 3);
    for bytes in [
        Vec::new(),
        text.as_bytes().to_vec(),
        broken,
        gzip(b"{\"schemaVersion\":"),
        gzip(b"[1, 2, 3]"),
        gzip(&[0xff, 0xfe, 0xfd]),
        gzip(b""),
    ] {
        match read_model(&bytes) {
            Err(ModelError::UnableToReadModel) => {}
            _ => panic!("a model that cannot be read was expected"),
        }
    }
}
