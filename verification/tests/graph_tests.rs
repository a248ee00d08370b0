use model_parser_mcp::config::{OutputLine, OutputToken};
use model_parser_mcp::cubs_model::{Element, ModelData, Relationship};
use model_parser_mcp::element_graph::{ElementConnector, ElementGraph};
use model_parser_mcp::element_graph_parser::ElementGraphParser;
use model_parser_mcp::element_parser::ElementConnectorBuilder;
use model_parser_mcp::json::JsonMap;
use model_parser_mcp::model_error::ModelError;

fn nine_connectors() -> ElementGraph {
    let mut graph = ElementGraph::new();
    graph.add_connector("c1");
    graph.add_connector("c2");
    graph.add_connector("c3");
    graph.add_connector("c4");
    graph.add_connector("c5");
    graph.add_connector("c6");
    graph.add_connector("c7");
    graph.add_connector("c8");
    graph.add_connector("c9");
    graph.connect("r1", "c1", "c3");
    graph.connect("r2", "c2", "c4");
    graph.connect("r3", "c3", "c5");
    graph.connect("r4", "c4", "c5");
    graph.connect("r5", "c5", "c6");
    graph.connect("r6", "c5", "c7");
    graph.connect("r7", "c7", "c8");
    graph.connect("r8", "c7", "c9");
    graph
}

fn edges(connector: &ElementConnector) -> (Vec<(String, String)>, Vec<(String, String)>) {
    let inbound = connector.get_in_id().iter().map(|p| (p.0.clone(), p.1.clone())).collect();
    let outbound = connector.get_out_id().iter().map(|p| (p.0.clone(), p.1.clone())).collect();
    (inbound, outbound)
}

fn pair(relationship: &str, element: &str) -> (String, String) {
    (relationship.to_string(), element.to_string())
}

fn sorted(mut ids: Vec<String>) -> Vec<String> {
    ids.sort();
    ids
}

fn element(id: &str, type_: &str, nature: &str, name: &str) -> Element {
    Element {
        id: id.to_string(),
        type_: type_.to_string(),
        nature: nature.to_string(),
        name: name.to_string(),
        version: 1,
        dynamic_facets: JsonMap::new(),
        facets: JsonMap::new(),
        core_facets: JsonMap::new(),
    }
}

fn relationship(id: &str, source: &str, target: &str) -> Relationship {
    Relationship {
        id: id.to_string(),
        source_id: source.to_string(),
        target_id: target.to_string(),
        type_: "link".to_string(),
        nature: "plain".to_string(),
        name: String::new(),
        version: 1,
        dynamic_facets: JsonMap::new(),
        facets: JsonMap::new(),
        core_facets: JsonMap::new(),
    }
}

fn tokens(line: &OutputLine<String>) -> Vec<String> {
    line.line
        .iter()
        .map(|token| match token {
            OutputToken::Tab => "tab".to_string(),
            OutputToken::InArrow => "in".to_string(),
            OutputToken::OutArrow => "out".to_string(),
            OutputToken::Value(id) => id.clone(),
        })
        .collect()
}

#[test]
fn element_graph_test_new() {
    // Build
    let mut graph = ElementGraph::new();
    graph.add_connector("c1");
    graph.add_connector("c2");
    graph.add_connector("c3");
    graph.add_connector("c4");
    graph.add_connector("c5");
    graph.connect("r1", "c1", "c3");
    graph.connect("r2", "c2", "c3");
    graph.connect("r3", "c3", "c4");
    graph.connect("r4", "c3", "c5");

    // Print
    let c1 = graph.get_connection("c1");
    let c2 = graph.get_connection("c2");
    let c3 = graph.get_connection("c3");
    let c4 = graph.get_connection("c4");
    let c5 = graph.get_connection("c5");

    if let Some(c) = c1 {
        println!("--- Print C1 ----");
        println!("{}", c.to_string());
    }
    println!();

    if let Some(c) = c2 {
        println!("--- Print C2 ----");
        println!("{}", c.to_string());
    }

    println!();

    if let Some(c) = c3 {
        println!("--- Print C3 ----");
        println!("{}", c.to_string());
    }

    println!();

    if let Some(c) = c4 {
        println!("--- Print C4 ----");
        println!("{}", c.to_string());
    }

    println!();

    if let Some(c) = c5 {
        println!("--- Print C5 ----");
        println!("{}", c.to_string());
    }

    assert!(true);
}

#[test]
fn test_parse_graph() {
    // Build
    let mut graph = ElementGraph::new();
    graph.add_connector("c1");
    graph.add_connector("c2");
    graph.add_connector("c3");
    graph.add_connector("c4");
    graph.add_connector("c5");
    graph.add_connector("c6");
    graph.connect("r1", "c1", "c2");
    graph.connect("r2", "c2", "c3");
    graph.connect("r3", "c2", "c4");
    graph.connect("r4", "c4", "c5");
    graph.connect("r5", "c4", "c6");

    // Print
    let c1 = graph.get_connection("c1");

    if let Some(c) = c1 {
        println!("--- Print C1 ----");
        println!("{}", c.to_string());
    }

    assert!(true);
}

#[test]
fn element_graph_parser_test_new() {
    // Build
    let mut graph = ElementGraph::new();
    graph.add_connector("c1");
    graph.add_connector("c2");
    graph.add_connector("c3");
    graph.add_connector("c4");
    graph.add_connector("c5");
    graph.add_connector("c6");
    graph.add_connector("c7");
    graph.add_connector("c8");
    graph.add_connector("c9");
    graph.connect("r1", "c1", "c3");
    graph.connect("r2", "c2", "c4");
    graph.connect("r3", "c3", "c5");
    graph.connect("r4", "c4", "c5");
    graph.connect("r5", "c5", "c6");
    graph.connect("r6", "c5", "c7");
    graph.connect("r7", "c7", "c8");
    graph.connect("r8", "c7", "c9");

    // Parse with 1 level
    let target = "c5";
    let parse_graph = ElementGraphParser::parse_graph(&graph, target, 0, 1).unwrap();

    // Print
    let c1 = parse_graph.get_connection("c1");
    let c2 = parse_graph.get_connection("c2");
    let c3 = parse_graph.get_connection("c3");
    let c4 = parse_graph.get_connection("c4");
    let c5 = parse_graph.get_connection("c5");
    let c6 = parse_graph.get_connection("c6");
    let c7 = parse_graph.get_connection("c7");
    let c8 = parse_graph.get_connection("c8");
    let c9 = parse_graph.get_connection("c9");

    if let Some(c) = c1 {
        println!("--- Print C1 ----");
        println!("{}", c.to_string());
    }
    println!();

    if let Some(c) = c2 {
        println!("--- Print C2 ----");
        println!("{}", c.to_string());
    }

    println!();

    if let Some(c) = c3 {
        println!("--- Print C3 ----");
        println!("{}", c.to_string());
    }

    println!();

    if let Some(c) = c4 {
        println!("--- Print C4 ----");
        println!("{}", c.to_string());
    }

    println!();

    if let Some(c) = c5 {
        println!("--- Print C5 ----");
        println!("{}", c.to_string());
    }
    println!();

    if let Some(c) = c6 {
        println!("--- Print C6 ----");
        println!("{}", c.to_string());
    }

    assert!(true);

    if let Some(c) = c7 {
        println!("--- Print C7 ----");
        println!("{}", c.to_string());
    }

    assert!(true);

    if let Some(c) = c8 {
        println!("--- Print C8 ----");
        println!("{}", c.to_string());
    }

    assert!(true);

    if let Some(c) = c9 {
        println!("--- Print C9 ----");
        println!("{}", c.to_string());
    }

    assert!(true);

    println!("Rel {:?}", parse_graph.get_connected_relationship());
}

#[test]
fn test_build_output() {
    // Build
    let mut graph = ElementGraph::new();
    graph.add_connector("c1");
    graph.add_connector("c2");
    graph.add_connector("c3");
    graph.add_connector("c4");
    graph.add_connector("c5");
    graph.add_connector("c6");
    graph.add_connector("c7");
    graph.add_connector("c8");
    graph.add_connector("c9");
    graph.connect("r1", "c1", "c3");
    graph.connect("r2", "c2", "c4");
    graph.connect("r3", "c3", "c5");
    graph.connect("r4", "c4", "c5");
    graph.connect("r5", "c5", "c6");
    graph.connect("r6", "c5", "c7");
    graph.connect("r7", "c7", "c8");
    graph.connect("r8", "c7", "c9");

    // Parse with 1 level
    let target = "c5";
    let parse_graph = ElementGraphParser::parse_graph(&graph, target, 0, 2).unwrap();

    // Print
    let c1 = parse_graph.get_connection("c1");
    let c2 = parse_graph.get_connection("c2");
    let c3 = parse_graph.get_connection("c3");
    let c4 = parse_graph.get_connection("c4");
    let c5 = parse_graph.get_connection("c5");
    let c6 = parse_graph.get_connection("c6");
    let c7 = parse_graph.get_connection("c7");
    let c8 = parse_graph.get_connection("c8");
    let c9 = parse_graph.get_connection("c9");

    if let Some(c) = c1 {
        println!("--- Print C1 ----");
        println!("{}", c.to_string());
    }
    println!();

    if let Some(c) = c2 {
        println!("--- Print C2 ----");
        println!("{}", c.to_string());
    }

    println!();

    if let Some(c) = c3 {
        println!("--- Print C3 ----");
        println!("{}", c.to_string());
    }

    println!();

    if let Some(c) = c4 {
        println!("--- Print C4 ----");
        println!("{}", c.to_string());
    }

    println!();

    if let Some(c) = c5 {
        println!("--- Print C5 ----");
        println!("{}", c.to_string());
    }
    println!();

    if let Some(c) = c6 {
        println!("--- Print C6 ----");
        println!("{}", c.to_string());
    }

    assert!(true);

    if let Some(c) = c7 {
        println!("--- Print C7 ----");
        println!("{}", c.to_string());
    }

    assert!(true);

    if let Some(c) = c8 {
        println!("--- Print C8 ----");
        println!("{}", c.to_string());
    }

    assert!(true);

    if let Some(c) = c9 {
        println!("--- Print C9 ----");
        println!("{}", c.to_string());
    }

    let output = ElementGraphParser::build_output(&parse_graph, target, &ModelData::default()).unwrap();

    println!("OUTPUT {:?}", output);

    assert!(true);
}

#[test]
fn connect_links_both_ends() {
    let graph = nine_connectors();
    assert_eq!(graph.get_connection_count(), 9);
    assert_eq!(graph.get_connected_relationship_count(), 8);
    let c5 = graph.get_connection("c5").unwrap();
    assert_eq!(c5.get_element_id(), "c5");
    let (inbound, outbound) = edges(c5);
    assert_eq!(inbound, vec![pair("r3", "c3"), pair("r4", "c4")]);
    assert_eq!(outbound, vec![pair("r5", "c6"), pair("r6", "c7")]);
    assert!(!c5.is_in_ids_empty());
    assert!(graph.get_connection("c1").unwrap().is_in_ids_empty());
    assert!(graph.get_connection("c9").unwrap().is_out_ids_empty());
    assert!(graph.get_connection("c10").is_none());
    assert_eq!(
        graph.get_connected_relationship(),
        vec!["r1", "r2", "r3", "r4", "r5", "r6", "r7", "r8"]
    );
    assert_eq!(
        graph.get_all_elements(),
        vec!["c1", "c2", "c3", "c4", "c5", "c6", "c7", "c8", "c9"]
    );
}

#[test]
fn add_connector_twice_changes_nothing() {
    let mut graph = ElementGraph::new();
    graph.add_connector("a");
    graph.add_connector("b");
    graph.connect("r", "a", "b");
    graph.add_connector("a");
    assert_eq!(graph.get_connection_count(), 2);
    let (_, outbound) = edges(graph.get_connection("a").unwrap());
    assert_eq!(outbound, vec![pair("r", "b")]);
}

#[test]
fn connect_with_a_missing_end_leaves_a_half_edge() {
    let mut graph = ElementGraph::new();
    graph.add_connector("a");
    graph.connect("r1", "a", "ghost");
    graph.connect("r2", "ghost", "a");
    graph.connect("r3", "ghost", "phantom");
    let (inbound, outbound) = edges(graph.get_connection("a").unwrap());
    assert_eq!(outbound, vec![pair("r1", "ghost")]);
    assert_eq!(inbound, vec![pair("r2", "ghost")]);
    assert_eq!(graph.get_connected_relationship_count(), 0);
    assert_eq!(graph.get_connection_count(), 1);
}

#[test]
fn push_connector_replaces_in_place() {
    let mut graph = nine_connectors();
    let mut copy = graph.get_connection("c5").unwrap().clone();
    copy.clear_in_id();
    copy.retain_out_id("c7");
    graph.push_connector("c2", copy);
    assert_eq!(graph.get_connection_count(), 9);
    assert_eq!(graph.get_all_elements()[1], "c2");
    let stored = graph.get_connection("c2").unwrap();
    assert_eq!(stored.get_element_id(), "c5");
    let (inbound, outbound) = edges(stored);
    assert!(inbound.is_empty());
    assert_eq!(outbound, vec![pair("r6", "c7")]);
    let fresh = graph.get_connection("c1").unwrap().clone();
    graph.push_connector("new", fresh);
    assert_eq!(graph.get_connection_count(), 10);
    assert_eq!(graph.get_all_elements()[9], "new");
    graph.add_connected_relationship("extra");
    assert_eq!(graph.get_connected_relationship_count(), 9);
}

#[test]
fn retain_and_clear_edges() {
    let graph = nine_connectors();
    let mut c5 = graph.get_connection("c5").unwrap().clone();
    c5.retain_in_id("c4");
    c5.retain_out_id("c6");
    let (inbound, outbound) = edges(&c5);
    assert_eq!(inbound, vec![pair("r4", "c4")]);
    assert_eq!(outbound, vec![pair("r5", "c6")]);
    c5.retain_in_id("nobody");
    assert!(c5.is_in_ids_empty());
    c5.clear_out_id();
    assert!(c5.is_out_ids_empty());
    let (inbound, outbound) = edges(graph.get_connection("c5").unwrap());
    assert_eq!(inbound.len(), 2);
    assert_eq!(outbound.len(), 2);
}

#[test]
fn connector_text_shows_edges_around_the_element() {
    let graph = nine_connectors();
    let text = graph.get_connection("c5").unwrap().to_string();
    let expected = "<c3> -- (r3) --> \n<c4> -- (r4) --> \n              [c5] \n                 -- (r5) --> <c6>\n                 -- (r6) --> <c7>\n";
    assert_eq!(text, expected);
    let lonely = ElementGraph::new();
    assert!(lonely.get_connection("c5").is_none());
    let mut single = ElementGraph::new();
    single.add_connector("x");
    assert_eq!(single.get_connection("x").unwrap().to_string(), "              [x] \n");
}

#[test]
fn graph_clone_is_independent() {
    let graph = nine_connectors();
    let mut copy = graph.clone();
    copy.add_connector("c10");
    copy.connect("r9", "c9", "c10");
    assert_eq!(graph.get_connection_count(), 9);
    assert_eq!(copy.get_connection_count(), 10);
    assert!(graph.get_connection("c9").unwrap().is_out_ids_empty());
    assert!(!copy.get_connection("c9").unwrap().is_out_ids_empty());
}

#[test]
fn extraction_of_descendants_one_level() {
    let graph = nine_connectors();
    let subgraph = ElementGraphParser::parse_graph(&graph, "c5", 0, 1).unwrap();
    assert_eq!(sorted(subgraph.get_all_elements()), vec!["c5", "c6", "c7"]);
    assert_eq!(subgraph.get_all_elements(), vec!["c6", "c7", "c5"]);
    let (inbound, outbound) = edges(subgraph.get_connection("c7").unwrap());
    assert!(outbound.is_empty());
    assert_eq!(inbound, vec![pair("r6", "c5")]);
    let (inbound, outbound) = edges(subgraph.get_connection("c5").unwrap());
    assert!(inbound.is_empty());
    assert_eq!(outbound, vec![pair("r5", "c6"), pair("r6", "c7")]);
    assert_eq!(subgraph.get_connected_relationship(), vec!["r5", "r6"]);
}

#[test]
fn extraction_of_ancestors_one_level() {
    let graph = nine_connectors();
    let subgraph = ElementGraphParser::parse_graph(&graph, "c5", 1, 0).unwrap();
    assert_eq!(sorted(subgraph.get_all_elements()), vec!["c3", "c4", "c5"]);
    for (id, relationship) in [("c3", "r3"), ("c4", "r4")] {
        let (inbound, outbound) = edges(subgraph.get_connection(id).unwrap());
        assert!(inbound.is_empty());
        assert_eq!(outbound, vec![pair(relationship, "c5")]);
    }
    let (inbound, outbound) = edges(subgraph.get_connection("c5").unwrap());
    assert_eq!(inbound, vec![pair("r3", "c3"), pair("r4", "c4")]);
    assert!(outbound.is_empty());
}

#[test]
fn extraction_prunes_the_siblings_of_ancestors_only() {
    let mut graph = nine_connectors();
    graph.add_connector("c10");
    graph.connect("r9", "c3", "c10");
    graph.connect("r10", "c10", "c6");
    let up = ElementGraphParser::parse_graph(&graph, "c5", 2, 0).unwrap();
    assert_eq!(sorted(up.get_all_elements()), vec!["c1", "c2", "c3", "c4", "c5"]);
    let (inbound, outbound) = edges(up.get_connection("c3").unwrap());
    assert_eq!(inbound, vec![pair("r1", "c1")]);
    assert_eq!(outbound, vec![pair("r3", "c5")]);
    let (inbound, outbound) = edges(up.get_connection("c1").unwrap());
    assert!(inbound.is_empty());
    assert_eq!(outbound, vec![pair("r1", "c3")]);
    let down = ElementGraphParser::parse_graph(&graph, "c5", 0, 1).unwrap();
    let (inbound, _) = edges(down.get_connection("c6").unwrap());
    assert_eq!(inbound, vec![pair("r5", "c5"), pair("r10", "c10")]);
}

#[test]
fn extraction_without_levels_is_the_target_alone() {
    let graph = nine_connectors();
    let subgraph = ElementGraphParser::parse_graph(&graph, "c5", 0, 0).unwrap();
    assert_eq!(subgraph.get_all_elements(), vec!["c5"]);
    let target = subgraph.get_connection("c5").unwrap();
    assert!(target.is_in_ids_empty());
    assert!(target.is_out_ids_empty());
    assert_eq!(subgraph.get_connected_relationship_count(), 0);
}

#[test]
fn extraction_puts_the_target_under_its_own_id() {
    let mut graph = nine_connectors();
    let copy = graph.get_connection("c5").unwrap().clone();
    graph.push_connector("alias", copy);
    let subgraph = ElementGraphParser::parse_graph(&graph, "alias", 0, 0).unwrap();
    assert_eq!(subgraph.get_all_elements(), vec!["c5"]);
    assert!(subgraph.get_connection("alias").is_none());
    let target = subgraph.get_connection("c5").unwrap();
    assert_eq!(target.get_element_id(), "c5");
    assert!(target.is_in_ids_empty());
    assert!(target.is_out_ids_empty());
    for id in ["c1", "c5", "c9"] {
        let alone = ElementGraphParser::parse_graph(&nine_connectors(), id, 0, 0).unwrap();
        assert_eq!(alone.get_connection_count(), 1);
        assert_eq!(alone.get_all_elements(), vec![id]);
        assert_eq!(alone.get_connected_relationship_count(), 0);
        let only = alone.get_connection(id).unwrap();
        assert_eq!(only.get_element_id(), id);
        assert!(only.is_in_ids_empty());
        assert!(only.is_out_ids_empty());
    }
}

#[test]
fn extraction_grows_with_the_limits() {
    let graph = nine_connectors();
    let mut previous: Vec<String> = Vec::new();
    for (ancestors, descendants) in [(0, 0), (0, 1), (1, 1), (1, 2), (2, 2), (5, 99)] {
        let subgraph = ElementGraphParser::parse_graph(&graph, "c5", ancestors, descendants).unwrap();
        let ids = subgraph.get_all_elements();
        for id in &previous {
            assert!(ids.contains(id));
        }
        previous = ids;
    }
    assert_eq!(previous.len(), 9);
}

#[test]
fn extraction_stops_at_an_edge_that_leads_nowhere() {
    let mut graph = ElementGraph::new();
    graph.add_connector("a");
    graph.add_connector("b");
    graph.add_connector("c");
    graph.connect("r1", "a", "b");
    graph.connect("r2", "a", "gone");
    graph.connect("r3", "a", "c");
    let subgraph = ElementGraphParser::parse_graph(&graph, "a", 0, 3).unwrap();
    assert_eq!(sorted(subgraph.get_all_elements()), vec!["a", "b"]);
    assert_eq!(subgraph.get_connected_relationship(), vec!["r1"]);
}

#[test]
fn extraction_of_a_missing_target_fails() {
    let graph = nine_connectors();
    match ElementGraphParser::parse_graph(&graph, "c42", 1, 1) {
        Err(ModelError::ParsingError(what)) => assert_eq!(what, "Elemennt: c42"),
        _ => panic!("a parsing error was expected"),
    }
}

#[test]
fn build_graph_of_a_valid_model() {
    let elements = vec![element("a", "t", "n", "A"), element("b", "t", "n", "B"), element("c", "t", "n", "C")];
    let relationships = vec![relationship("r1", "a", "b"), relationship("r2", "b", "c")];
    let graph = ElementConnectorBuilder::build_graph(&elements, &relationships).unwrap();
    assert_eq!(graph.get_connection_count(), elements.len());
    assert_eq!(graph.get_connected_relationship_count(), relationships.len());
    let (inbound, outbound) = edges(graph.get_connection("b").unwrap());
    assert_eq!(inbound, vec![pair("r1", "a")]);
    assert_eq!(outbound, vec![pair("r2", "c")]);
}

#[test]
fn build_graph_refuses_a_dangling_relationship() {
    let elements = vec![element("a", "t", "n", "A"), element("b", "t", "n", "B")];
    for dangling in [relationship("r2", "a", "zz"), relationship("r2", "zz", "b")] {
        let relationships = vec![relationship("r1", "a", "b"), dangling];
        match ElementConnectorBuilder::build_graph(&elements, &relationships) {
            Err(ModelError::ModelGraphBuildingError(why)) => assert_eq!(
                why,
                "Error building graph due to invalid relationship number. Provided: 2 vs built:1 "
            ),
            _ => panic!("a build error was expected"),
        }
    }
}

#[test]
fn build_graph_refuses_a_relationship_id_that_comes_twice() {
    let elements = vec![element("a", "t", "n", "A"), element("b", "t", "n", "B"), element("c", "t", "n", "C")];
    let relationships = vec![relationship("r1", "a", "b"), relationship("r2", "b", "c"), relationship("r1", "a", "c")];
    match ElementConnectorBuilder::build_graph(&elements, &relationships) {
        Err(ModelError::ModelGraphBuildingError(why)) => assert_eq!(
            why,
            "Error building graph due to invalid relationship number. Provided: 3 vs built:2 "
        ),
        _ => panic!("a build error was expected"),
    }
    let twice = vec![relationship("r1", "a", "b"), relationship("r1", "a", "b")];
    assert!(ElementConnectorBuilder::build_graph(&elements, &twice).is_err());
    let once = vec![relationship("r1", "a", "b"), relationship("r2", "a", "b")];
    let graph = ElementConnectorBuilder::build_graph(&elements, &once).unwrap();
    assert_eq!(graph.get_connected_relationship(), vec!["r1", "r2"]);
}

#[test]
fn build_graph_refuses_an_id_that_comes_twice() {
    let elements = vec![element("a", "t", "n", "A"), element("b", "t", "n", "B"), element("a", "t", "n", "A2")];
    let relationships = vec![relationship("r1", "a", "b")];
    match ElementConnectorBuilder::build_graph(&elements, &relationships) {
        Err(ModelError::ModelGraphBuildingError(why)) => {
            assert_eq!(why, "Error building graph due to invalid element number. Provided: 3 vs built:2 ")
        }
        _ => panic!("a build error was expected"),
    }
}

#[test]
fn build_graph_refuses_empty_lists() {
    let elements = vec![element("a", "t", "n", "A")];
    let relationships = vec![relationship("r1", "a", "a")];
    for outcome in [
        ElementConnectorBuilder::build_graph(&[], &relationships),
        ElementConnectorBuilder::build_graph(&elements, &[]),
        ElementConnectorBuilder::build_graph(&[], &[]),
    ] {
        match outcome {
            Err(ModelError::ModelGraphBuildingError(why)) => {
                assert_eq!(why, "Unable to build graph due to empty element or empty relationship")
            }
            _ => panic!("a build error was expected"),
        }
    }
    assert!(ElementConnectorBuilder::build_graph(&elements, &relationships).is_ok());
}

#[test]
fn build_output_renders_both_sides() {
    let graph = nine_connectors();
    let model = ModelData {
        schema_version: "1".to_string(),
        model_id: "m".to_string(),
        site_model_id: "s".to_string(),
        version: 3,
        elements: vec![element("c5", "pump", "device", "Pump 5"), element("c7", "valve", "device", "Valve 7")],
        relationships: Vec::new(),
    };
    let output = ElementGraphParser::build_output(&graph, "c5", &model).unwrap();
    let children: Vec<Vec<String>> = output.child_lines.iter().map(tokens).collect();
    assert_eq!(
        children,
        vec![
            vec!["c5"],
            vec!["tab", "out", "c6"],
            vec!["tab", "out", "c7"],
            vec!["tab", "tab", "out", "c8"],
            vec!["tab", "tab", "out", "c9"],
        ]
    );
    let parents: Vec<Vec<String>> = output.parent_lines.iter().map(tokens).collect();
    assert_eq!(
        parents,
        vec![
            vec!["tab", "tab", "in", "c2"],
            vec!["tab", "in", "c4"],
            vec!["tab", "tab", "in", "c1"],
            vec!["tab", "in", "c3"],
            vec!["c5"],
        ]
    );
    let summary = output.elements_data.get("c5").unwrap();
    let expected: serde_json::Value =
        serde_json::from_str(r#"{"id":"c5","type":"pump","nature":"device","name":"Pump 5"}"#).unwrap();
    assert_eq!(summary, &expected);
    assert!(output.elements_data.get("c7").is_some());
    assert!(output.elements_data.get("c6").is_none());
}

#[test]
fn build_output_of_a_missing_target_is_empty() {
    let graph = nine_connectors();
    let output = ElementGraphParser::build_output(&graph, "nobody", &ModelData::default()).unwrap();
    assert!(output.child_lines.is_empty());
    assert!(output.parent_lines.is_empty());
    assert!(output.elements_data.is_empty());
}

#[test]
fn build_output_stops_at_its_depths() {
    let mut graph = ElementGraph::new();
    for i in 0..10 {
        graph.add_connector(&format!("n{}", i));
    }
    for i in 0..9 {
        graph.connect(&format!("r{}", i), &format!("n{}", i), &format!("n{}", i + 1));
    }
    let down = ElementGraphParser::build_output(&graph, "n0", &ModelData::default()).unwrap();
    assert_eq!(down.child_lines.len(), 6);
    assert_eq!(down.parent_lines.len(), 1);
    assert_eq!(tokens(&down.child_lines[5]), vec!["tab", "tab", "tab", "tab", "tab", "out", "n5"]);
    let up = ElementGraphParser::build_output(&graph, "n9", &ModelData::default()).unwrap();
    assert_eq!(up.parent_lines.len(), 3);
    assert_eq!(tokens(&up.parent_lines[0]), vec!["tab", "tab", "in", "n7"]);
    assert_eq!(up.child_lines.len(), 1);
}
