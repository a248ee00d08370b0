use model_parser_mcp::app_state::{cache_key, QuickCache};
use model_parser_mcp::config::PageConfig;
use model_parser_mcp::cubs_model::{Element, ModelData, ModelVersionNumber, Relationship};
use model_parser_mcp::element_graph::ElementGraph;
use model_parser_mcp::json::JsonMap;
use model_parser_mcp::model_error::ModelError;
use model_parser_mcp::model_parser::{duration_text, ModelParser, ModelQueryResult, Page};
use model_parser_mcp::parser::{get_model_from_cache, model_or_not_found, version_text};
use serde_json::Value;
use std::time::Instant;

fn parse(text: &str) -> Value {
    serde_json::from_str(text).unwrap()
}

fn element(id: &str, type_: &str, nature: &str) -> Element {
    let mut dynamic_facets = JsonMap::new();
    dynamic_facets.insert("level".to_string(), parse(&format!(r#"{{"of":"{}","deep":{{"down":[1]}}}}"#, id)));
    Element {
        id: id.to_string(),
        type_: type_.to_string(),
        nature: nature.to_string(),
        name: format!("name of {}", id),
        version: 1,
        dynamic_facets,
        facets: JsonMap::new(),
        core_facets: JsonMap::new(),
    }
}

fn relationship(id: &str, source: &str, target: &str) -> Relationship {
    Relationship {
        id: id.to_string(),
        source_id: source.to_string(),
        target_id: target.to_string(),
        type_: "link".to_string(),
        nature: "plain".to_string(),
        name: String::new(),
        version: 1,
        dynamic_facets: JsonMap::new(),
        facets: JsonMap::new(),
        core_facets: JsonMap::new(),
    }
}

fn model() -> ModelData {
    ModelData {
        schema_version: "1".to_string(),
        model_id: "m1".to_string(),
        site_model_id: "s1".to_string(),
        version: 4,
        elements: vec![
            element("a", "pump", "device"),
            element("b", "valve", "device"),
            element("c", "pump", "asset"),
            element("d", "pipe", "asset"),
            element("e", "pump", "device"),
        ],
        relationships: vec![relationship("r1", "a", "b"), relationship("r2", "b", "c"), relationship("r3", "d", "e")],
    }
}

fn parser() -> ModelParser {
    ModelParser::new(QuickCache::new(2), QuickCache::new(2))
}

fn page(elements_per_page: usize, page_to_get: usize) -> PageConfig {
    PageConfig { elements_per_page, page_to_get }
}

fn ids_of(result: &ModelQueryResult) -> Vec<String> {
    let data: Value = serde_json::from_str(&result.data).unwrap();
    data.as_array().unwrap().iter().map(|v| v["id"].as_str().unwrap().to_string()).collect()
}

fn query(id: &str, subgraph: &[&str], is_parse_subgraph: bool, types: &str, natures: &str, paging: PageConfig) -> Result<ModelQueryResult, ModelError> {
    let subgraph: Vec<String> = subgraph.iter().map(|s| s.to_string()).collect();
    ModelParser::query_elements(
        &model(),
        &subgraph,
        id,
        is_parse_subgraph,
        types,
        natures,
        "",
        0,
        &paging,
        "",
        false,
        &Instant::now(),
    )
}

#[test]
fn query_of_everything() {
    let result = query("", &[], false, "All", "All", page(10, 1)).unwrap();
    assert_eq!(ids_of(&result), vec!["a", "b", "c", "d", "e"]);
    assert_eq!(result.total_result_count, 5);
    assert_eq!(result.page_count.elements_per_page, 10);
    assert_eq!(result.page_count.total_page, 1);
    assert_eq!(result.page_count.current_page, 1);
    assert!(result.duration.starts_with("Query model took "));
    assert!(result.duration.ends_with(" ms"));
    let millis = &result.duration["Query model took ".len()..result.duration.len() - " ms".len()];
    assert!(millis.parse::<u128>().is_ok());
    let expected: Vec<Value> = model().elements.iter().map(|e| e.to_value()).collect();
    assert_eq!(result.data, serde_json::to_string_pretty(&expected).unwrap());
    let report = result.stats.unwrap().elements_stats.unwrap();
    assert_eq!(report.all_count, 5);
    assert_eq!(report.by_type.value[0].element, "pump");
    assert_eq!(report.by_type.value[0].count, 3);
}

#[test]
fn filter_by_all_is_no_filter() {
    let everything = query("", &[], false, "All", "All", page(10, 1)).unwrap();
    let by_nature = query("", &[], false, "pump", "All", page(10, 1)).unwrap();
    let by_type = query("", &[], false, "All", "device", page(10, 1)).unwrap();
    assert_eq!(ids_of(&everything), vec!["a", "b", "c", "d", "e"]);
    assert_eq!(ids_of(&by_nature), vec!["a", "c", "e"]);
    assert_eq!(ids_of(&by_type), vec!["a", "b", "e"]);
    let both = query("", &[], false, "pump", "device", page(10, 1)).unwrap();
    assert_eq!(ids_of(&both), vec!["a", "e"]);
    assert_eq!(both.stats.unwrap().elements_stats.unwrap().all_count, 2);
}

#[test]
fn selection_by_id_and_by_subgraph() {
    assert_eq!(ids_of(&query("c", &[], false, "All", "All", page(10, 1)).unwrap()), vec!["c"]);
    assert_eq!(ids_of(&query("c", &["e", "a"], true, "All", "All", page(10, 1)).unwrap()), vec!["a", "e"]);
    assert_eq!(ids_of(&query("c", &["e", "a"], false, "All", "All", page(10, 1)).unwrap()), vec!["c"]);
    assert_eq!(ids_of(&query("c", &[], true, "All", "All", page(10, 1)).unwrap()), vec!["c"]);
    assert_eq!(ids_of(&query("", &["e"], true, "All", "All", page(10, 1)).unwrap()), vec!["a", "b", "c", "d", "e"]);
    let selected = ModelParser::select_elements(&model(), "zz", false, &Vec::new()).len();
    assert_eq!(selected, 0);
}

#[test]
fn pages_in_order_make_the_whole_list() {
    let whole = ids_of(&query("", &[], false, "All", "All", page(10, 1)).unwrap());
    for per_page in 1..7 {
        let first = query("", &[], false, "All", "All", page(per_page, 1)).unwrap();
        let total_page = first.page_count.total_page;
        assert_eq!(total_page, (5 + per_page - 1) / per_page);
        let mut joined: Vec<String> = Vec::new();
        for number in 1..=total_page {
            let result = query("", &[], false, "All", "All", page(per_page, number)).unwrap();
            assert_eq!(result.page_count.current_page, number);
            assert_eq!(result.total_result_count, 5);
            joined.extend(ids_of(&result));
        }
        assert_eq!(joined, whole);
    }
    assert_eq!(ids_of(&query("", &[], false, "All", "All", page(2, 3)).unwrap()), vec!["e"]);
    assert_eq!(ids_of(&query("", &[], false, "All", "All", page(2, 2)).unwrap()), vec!["c", "d"]);
}

#[test]
fn a_page_out_of_range_is_refused() {
    for (paging, expected) in [
        (page(2, 4), "Page 4 is out of range: there are 3 pages"),
        (page(2, 0), "Page 0 is out of range: there are 3 pages"),
        (page(5, 2), "Page 2 is out of range: there are 1 pages"),
        (page(0, 1), "Elements per page must be at least 1"),
    ] {
        match query("", &[], false, "All", "All", paging) {
            Err(ModelError::InvalidInput(why)) => assert_eq!(why, expected),
            _ => panic!("invalid input was expected"),
        }
    }
    match query("", &[], false, "nothing of this type", "All", page(10, 1)) {
        Err(ModelError::InvalidInput(why)) => assert_eq!(why, "Page 1 is out of range: there are 0 pages"),
        _ => panic!("invalid input was expected"),
    }
}

#[test]
fn paginate_gives_the_page_and_the_paging() {
    let values: Vec<Value> = (0..7).map(|n| parse(&n.to_string())).collect();
    let (items, paging) = ModelParser::paginate(&values, &page(3, 3)).unwrap();
    assert_eq!(items, vec![parse("6")]);
    assert_eq!(paging.total_page, 3);
    assert_eq!(paging.current_page, 3);
    assert_eq!(paging.elements_per_page, 3);
    let (items, _) = ModelParser::paginate(&values, &page(3, 2)).unwrap();
    assert_eq!(items, vec![parse("3"), parse("4"), parse("5")]);
    let (items, paging) = ModelParser::paginate(&values, &page(usize::MAX, 1)).unwrap();
    assert_eq!(items.len(), 7);
    assert_eq!(paging.total_page, 1);
    assert!(ModelParser::paginate(&Vec::new(), &page(3, 1)).is_err());
    let default = PageConfig::default();
    assert_eq!(default.elements_per_page, 10);
    assert_eq!(default.page_to_get, 1);
    let blank = Page::default();
    assert_eq!(blank.total_page, 0);
    let empty = ModelQueryResult::default();
    assert_eq!(empty.data, "");
    assert!(empty.stats.is_none());
}

#[test]
fn depth_cuts_the_page() {
    let subgraph: Vec<String> = Vec::new();
    let run = |depth: usize| {
        ModelParser::query_elements(
            &model(),
            &subgraph,
            "a",
            false,
            "All",
            "All",
            "",
            depth,
            &page(10, 1),
            "",
            false,
            &Instant::now(),
        )
        .unwrap()
    };
    let whole: Value = serde_json::from_str(&run(0).data).unwrap();
    assert_eq!(whole[0]["dynamicFacets"]["level"]["deep"]["down"][0], parse("1"));
    let deep: Value = serde_json::from_str(&run(20).data).unwrap();
    assert_eq!(deep, whole);
    let two: Value = serde_json::from_str(&run(2).data).unwrap();
    assert_eq!(two[0]["id"], parse(r#""a""#));
    assert_eq!(two[0]["dynamicFacets"], parse(r#"{"level":null}"#));
    let one: Value = serde_json::from_str(&run(1).data).unwrap();
    assert_eq!(one[0]["dynamicFacets"], Value::Null);
    assert_eq!(one[0]["id"], parse(r#""a""#));
    assert_eq!(run(1).total_result_count, 1);
}

#[test]
fn projection_in_a_query() {
    let subgraph: Vec<String> = Vec::new();
    let run = |facet_type: &str, pointer: &str, detail: bool| {
        ModelParser::query_elements(
            &model(),
            &subgraph,
            "",
            false,
            "pump",
            "All",
            pointer,
            0,
            &page(10, 1),
            facet_type,
            detail,
            &Instant::now(),
        )
    };
    let result = run("dynamicFacets", "/level/of", false).unwrap();
    assert_eq!(result.data, serde_json::to_string_pretty(&parse(r#"["a","c","e"]"#)).unwrap());
    assert_eq!(result.total_result_count, 3);
    let result = run("coreFacets", "/name", false).unwrap();
    assert_eq!(parse(&result.data), parse(r#"["name of a","name of c","name of e"]"#));
    let result = run("dynamicFacets", "/level/of", true).unwrap();
    assert_eq!(
        parse(&result.data)[1],
        parse(r#"{"id":"c","type":"pump","nature":"asset","name":"name of c","version":1,"filteredResult":"c"}"#)
    );
    assert!(run("facets", "/anything", false).is_err());
    let result = run("somethingElse", "/level/of", false).unwrap();
    assert_eq!(ids_of(&result), vec!["a", "c", "e"]);
    assert_eq!(result.stats.unwrap().elements_stats.unwrap().all_count, 3);
    assert!(ModelParser::parse_facet_type("Facets").is_none());
    assert!(ModelParser::parse_facet_type("").is_none());
    assert!(ModelParser::parse_facet_type("facets").is_some());
}

#[test]
fn validation_of_a_query() {
    assert!(ModelParser::validate_query("m", "", false).is_ok());
    assert!(ModelParser::validate_query("m", "x", true).is_ok());
    match ModelParser::validate_query("", "x", true) {
        Err(ModelError::InvalidInput(why)) => assert_eq!(why, "Model id is empty nothing to query."),
        _ => panic!("invalid input was expected"),
    }
    match ModelParser::validate_query("m", "", true) {
        Err(ModelError::InvalidInput(why)) => {
            assert_eq!(why, "Unable to parse subgraph. Please provide element id in Id")
        }
        _ => panic!("invalid input was expected"),
    }
}

#[test]
fn version_of_a_query() {
    let versions = vec![ModelVersionNumber { vers_no: 9 }, ModelVersionNumber { vers_no: 8 }];
    let none: Vec<ModelVersionNumber> = Vec::new();
    assert_eq!(ModelParser::get_version_number("5", &versions), 5);
    assert_eq!(ModelParser::get_version_number("+7", &versions), 7);
    assert_eq!(ModelParser::get_version_number("-3", &versions), -3);
    assert_eq!(ModelParser::get_version_number("007", &versions), 7);
    assert_eq!(ModelParser::get_version_number("2147483647", &versions), 2147483647);
    assert_eq!(ModelParser::get_version_number("-2147483648", &versions), -2147483648);
    for unreadable in ["", "abc", " 5", "5 ", "2147483648", "-2147483649", "+", "-", "1_0", "1.0", "--1"] {
        assert_eq!(ModelParser::get_version_number(unreadable, &versions), 9);
        assert_eq!(ModelParser::get_version_number(unreadable, &none), 0);
    }
}

#[test]
fn query_of_a_subgraph_goes_through_the_graph() {
    let pipeline = parser();
    let run = |id: &str, subgraph: bool| {
        pipeline.query_model(
            &model(),
            "m1".to_string(),
            id.to_string(),
            subgraph,
            "All".to_string(),
            "All".to_string(),
            String::new(),
            0,
            page(10, 1),
            String::new(),
            false,
            &Instant::now(),
        )
    };
    assert_eq!(ids_of(&run("a", true).unwrap()), vec!["a", "b", "c"]);
    assert_eq!(ids_of(&run("a", true).unwrap()), vec!["a", "b", "c"]);
    assert_eq!(ids_of(&run("d", true).unwrap()), vec!["d", "e"]);
    assert_eq!(ids_of(&run("c", true).unwrap()), vec!["c"]);
    assert_eq!(ids_of(&run("a", false).unwrap()), vec!["a"]);
    match run("zz", true) {
        Err(ModelError::ParsingError(what)) => assert_eq!(what, "Elemennt: zz"),
        _ => panic!("a parsing error was expected"),
    }
    assert!(run("zz", false).is_err());
    assert!(pipeline.graph_cache().get_ref("m1", "4").is_some());
    match run("", true) {
        Err(ModelError::InvalidInput(_)) => {}
        _ => panic!("invalid input was expected"),
    }
}

#[test]
fn query_of_a_subgraph_fails_where_no_graph_can_be_built() {
    let pipeline = parser();
    let mut broken = model();
    broken.relationships.push(relationship("r9", "a", "nowhere"));
    let result = pipeline.query_model(
        &broken,
        "m1".to_string(),
        "a".to_string(),
        true,
        "All".to_string(),
        "All".to_string(),
        String::new(),
        0,
        page(10, 1),
        String::new(),
        false,
        &Instant::now(),
    );
    match result {
        Err(ModelError::ModelGraphBuildingError(why)) => assert_eq!(
            why,
            "Error building graph due to invalid relationship number. Provided: 4 vs built:3 "
        ),
        _ => panic!("a build error was expected"),
    }
    assert!(pipeline.graph_cache().get_ref("m1", "4").is_none());
}

#[test]
fn subgraph_ids_and_graph_to_use() {
    let built = ModelParser::graph_to_use(None, &model()).unwrap();
    assert!(built.1);
    assert_eq!(ModelParser::subgraph_ids(&built.0, "a").unwrap(), vec!["b", "c", "a"]);
    match ModelParser::subgraph_ids(&built.0, "zz") {
        Err(ModelError::ParsingError(what)) => assert_eq!(what, "Elemennt: zz"),
        _ => panic!("a parsing error was expected"),
    }
    let mut other = ElementGraph::new();
    other.add_connector("only");
    let cached = ModelParser::graph_to_use(Some(std::sync::Arc::new(other)), &model()).unwrap();
    assert!(!cached.1);
    assert_eq!(cached.0.get_all_elements(), vec!["only"]);
    assert!(ModelParser::graph_to_use(None, &ModelData::default()).is_err());
}

#[test]
fn model_stats_build_the_graph_on_the_way() {
    let pipeline = parser();
    let versions = vec![ModelVersionNumber { vers_no: 4 }];
    let dictionary = pipeline.get_model_stats("m1", &model(), versions);
    assert_eq!(dictionary.model_id, "m1");
    assert_eq!(dictionary.version, 4);
    assert_eq!(dictionary.get_element_types(), vec!["pump", "valve", "pipe"]);
    let graph = pipeline.graph_cache().get_ref("m1", "4").unwrap();
    assert_eq!(graph.get_connection_count(), 5);
    let again = pipeline.build_relationship_graph("m1", 4, &model()).unwrap();
    assert_eq!(again.get_connected_relationship_count(), 3);
    assert!(pipeline.build_relationship_graph("m2", 0, &model()).is_none());
    assert!(pipeline.build_relationship_graph("m3", 1, &ModelData::default()).is_none());
    assert!(pipeline.graph_cache().get_ref("m3", "1").is_none());
}

#[test]
fn cache_holds_values_under_key_and_version() {
    let cache: QuickCache<ModelData> = QuickCache::new(2);
    assert!(cache.get_ref("m1", "4").is_none());
    cache.insert("m1", "4", &model());
    assert_eq!(cache.get_ref("m1", "4").unwrap().elements.len(), 5);
    assert!(cache.get_ref("m1", "5").is_none());
    assert!(cache.get_ref("m", "1-4").is_none());
    let mut changed = model();
    changed.elements.pop();
    cache.insert("m1", "4", &changed);
    assert_eq!(cache.get_ref("m1", "4").unwrap().elements.len(), 4);
    let handle = cache.clone();
    assert_eq!(handle.get_ref("m1", "4").unwrap().elements.len(), 4);
    assert_eq!(get_model_from_cache(&cache, &"m1".to_string(), 4).unwrap().version, 4);
    assert!(get_model_from_cache(&cache, &"m1".to_string(), -4).is_none());
    let expiring: QuickCache<ModelData> = QuickCache::with_expiry(2);
    expiring.insert("m1", "4", &model());
    assert!(expiring.get_ref("m1", "4").is_some());
    assert_eq!(cache_key("m1", "4"), "m1-4");
    assert_eq!(cache_key("", ""), "-");
}

#[test]
fn numbers_in_words() {
    assert_eq!(version_text(0), "0");
    assert_eq!(version_text(7), "7");
    assert_eq!(version_text(-12), "-12");
    assert_eq!(version_text(i32::MAX), "2147483647");
    assert_eq!(version_text(i32::MIN), "-2147483648");
    assert_eq!(duration_text(0), "Query model took 0 ms");
    assert_eq!(duration_text(1234567890123), "Query model took 1234567890123 ms");
    assert_eq!(duration_text(u128::MAX), format!("Query model took {} ms", u128::MAX));
}

#[test]
fn messages_of_errors() {
    assert_eq!(
        ModelError::ModelGraphBuildingError("x".to_string()).to_string(),
        "Error building model graph: x"
    );
    assert_eq!(
        ModelError::ModelNotFound("m1".to_string(), "4".to_string()).to_string(),
        "Model m1 with version 4 not found"
    );
    assert_eq!(ModelError::UnableToReadModel.to_string(), "Unable to read model");
    assert_eq!(ModelError::InvalidInput("no id".to_string()).to_string(), "Invalid input, no id");
    assert_eq!(ModelError::ParsingError("Elemennt: c1".to_string()).to_string(), "Unable to parse Elemennt: c1");
}

#[test]
fn cache_remembers_its_bounds() {
    let plain: QuickCache<ModelData> = QuickCache::new(7);
    assert_eq!(plain.capacity(), 7);
    assert_eq!(plain.time_to_live_seconds(), None);
    assert_eq!(plain.time_to_idle_seconds(), None);
    let expiring: QuickCache<ModelData> = QuickCache::with_expiry(2);
    assert_eq!(expiring.capacity(), 2);
    assert_eq!(expiring.time_to_live_seconds(), Some(3600));
    assert_eq!(expiring.time_to_idle_seconds(), Some(600));
    let handle = expiring.clone();
    assert_eq!(handle.capacity(), 2);
    assert_eq!(handle.time_to_live_seconds(), Some(3600));
    assert_eq!(handle.time_to_idle_seconds(), Some(600));
}

#[test]
fn relationship_graph_for_what_the_cache_holds() {
    let mut other = ElementGraph::new();
    other.add_connector("only");
    let (graph, fresh) = ModelParser::relationship_graph(Some(std::sync::Arc::new(other)), 4, &model());
    assert!(!fresh);
    assert_eq!(graph.unwrap().get_all_elements(), vec!["only"]);
    let mut zero = ElementGraph::new();
    zero.add_connector("kept");
    let (graph, fresh) = ModelParser::relationship_graph(Some(std::sync::Arc::new(zero)), 0, &model());
    assert!(!fresh);
    assert_eq!(graph.unwrap().get_all_elements(), vec!["kept"]);
    let (graph, fresh) = ModelParser::relationship_graph(None, 4, &model());
    assert!(fresh);
    let graph = graph.unwrap();
    assert_eq!(graph.get_connection_count(), 5);
    assert_eq!(graph.get_connected_relationship_count(), 3);
    let (graph, fresh) = ModelParser::relationship_graph(None, 0, &model());
    assert!(!fresh);
    assert!(graph.is_none());
    let (graph, fresh) = ModelParser::relationship_graph(None, 4, &ModelData::default());
    assert!(!fresh);
    assert!(graph.is_none());
}

#[test]
fn a_subgraph_around_a_missing_element_is_a_parsing_error() {
    let pipeline = parser();
    match pipeline.subgraph_elements(&model(), "m1", "zz", true) {
        Err(ModelError::ParsingError(what)) => assert_eq!(what, "Elemennt: zz"),
        _ => panic!("a parsing error was expected"),
    }
    assert_eq!(pipeline.subgraph_elements(&model(), "m1", "a", true).unwrap(), vec!["b", "c", "a"]);
    assert!(pipeline.subgraph_elements(&model(), "m1", "zz", false).unwrap().is_empty());
    assert!(pipeline.subgraph_elements(&model(), "m1", "", true).unwrap().is_empty());
    assert!(pipeline.subgraph_elements(&ModelData::default(), "m2", "a", true).is_err());
}

#[test]
fn a_model_that_was_not_found_is_named() {
    let found = model_or_not_found(Some(std::sync::Arc::new(model())), "m1", 4).unwrap();
    assert_eq!(found.version, 4);
    for (version, text) in [(4, "4"), (0, "0"), (-3, "-3")] {
        match model_or_not_found(None, "m1", version) {
            Err(ModelError::ModelNotFound(id, named)) => {
                assert_eq!(id, "m1");
                assert_eq!(named, text);
            }
            _ => panic!("a model that was not found was expected"),
        }
    }
    assert_eq!(model_or_not_found(None, "m9", 7).unwrap_err().to_string(), "Model m9 with version 7 not found");
}
