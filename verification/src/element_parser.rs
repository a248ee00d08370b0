use crate::cubs_model::{Element, Relationship};
use crate::element_graph::{
    blank_connector, lemma_linked, lemma_own_ids, lemma_with_blank, ElementGraph, GraphView,
};
use crate::key_index::KeyIndex;
use crate::keyed::{distinct, first_seen, lemma_first_seen_len, Key};
use crate::model_error::ModelError;
use crate::text::{decimal, unsigned_text};
use vstd::prelude::*;
use vstd::string::StringExecFns;

verus! {

/// The ids of `elements`, in order.
pub open spec fn element_ids(elements: Seq<Element>) -> Seq<Key> {
    elements.map_values(|element: Element| element.id@)
}

/// `graph` with a connector for each of `ids` that it had none for.
pub open spec fn with_elements(graph: GraphView, ids: Seq<Key>) -> GraphView
    decreases ids.len(),
{
    if ids.len() == 0 {
        graph
    } else {
        with_elements(graph, ids.drop_last()).with_blank(ids.last())
    }
}

/// `graph` after linking, in order, the ends of each of `relationships`.
pub open spec fn with_relationships(graph: GraphView, relationships: Seq<Relationship>) -> GraphView
    decreases relationships.len(),
{
    if relationships.len() == 0 {
        graph
    } else {
        let link = relationships.last();
        with_relationships(graph, relationships.drop_last()).linked(link.id@, link.source_id@, link.target_id@)
    }
}

/// The graph that the elements and relationships make, whether or not it
/// is a valid one.
pub open spec fn linked_up(elements: Seq<Element>, relationships: Seq<Relationship>) -> GraphView {
    with_relationships(with_elements(GraphView::empty(), element_ids(elements)), relationships)
}

/// Both ends of each of `relationships` are among `ids`.
pub open spec fn ends_present(ids: Seq<Key>, relationships: Seq<Relationship>) -> bool {
    forall|i: int|
        0 <= i < relationships.len() ==> ids.contains((#[trigger] relationships[i]).source_id@)
            && ids.contains(relationships[i].target_id@)
}

/// The ids of `relationships`, in order.
pub open spec fn relationship_ids(relationships: Seq<Relationship>) -> Seq<Key> {
    relationships.map_values(|relationship: Relationship| relationship.id@)
}

/// What a graph can be built from: at least one element and one
/// relationship, no element id twice, no relationship id twice, no
/// relationship with an end that is no element.
pub open spec fn buildable(elements: Seq<Element>, relationships: Seq<Relationship>) -> bool {
    &&& elements.len() > 0
    &&& relationships.len() > 0
    &&& distinct(element_ids(elements))
    &&& distinct(relationship_ids(relationships))
    &&& ends_present(element_ids(elements), relationships)
}

/// How many different relationships a graph has recorded as connected.
pub open spec fn connected_ids(graph: GraphView) -> nat {
    first_seen(graph.connected).len()
}

/// Why no graph was built: nothing to build from, or the number of
/// connectors, or of different relationships recorded as connected, that
/// came out against the number that went in.
pub open spec fn build_failure(elements: Seq<Element>, relationships: Seq<Relationship>) -> Seq<char> {
    let graph = linked_up(elements, relationships);
    if elements.len() == 0 || relationships.len() == 0 {
        "Unable to build graph due to empty element or empty relationship"@
    } else if graph.connectors.len() != elements.len() {
        "Error building graph due to invalid element number. Provided: "@ + decimal(elements.len())
            + " vs built:"@ + decimal(graph.connectors.len()) + " "@
    } else {
        "Error building graph due to invalid relationship number. Provided: "@ + decimal(
            relationships.len(),
        ) + " vs built:"@ + decimal(connected_ids(graph)) + " "@
    }
}

/// A graph that gets its connectors from a list of ids holds those ids and
/// no others, each once, and as many connectors as ids only where no id
/// stands twice in the list.
pub proof fn lemma_with_elements(ids: Seq<Key>)
    ensures
        with_elements(GraphView::empty(), ids).connected.len() == 0,
        forall|key: Key| with_elements(GraphView::empty(), ids).contains_key(key) <==> ids.contains(key),
        with_elements(GraphView::empty(), ids).connectors.len() <= ids.len(),
        with_elements(GraphView::empty(), ids).connectors.len() == ids.len() <==> distinct(ids),
        distinct(with_elements(GraphView::empty(), ids).keys()),
    decreases ids.len(),
{
    let graph = with_elements(GraphView::empty(), ids);
    if ids.len() == 0 {
        assert(graph.keys() =~= Seq::<Key>::empty());
    } else {
        let front = ids.drop_last();
        let before = with_elements(GraphView::empty(), front);
        lemma_with_elements(front);
        assert forall|key: Key| graph.contains_key(key) <==> ids.contains(key) by {
            lemma_with_blank(before, ids.last(), key);
            if ids.contains(key) {
                let i = choose|i: int| 0 <= i < ids.len() && ids[i] == key;
                if i < front.len() {
                    assert(front[i] == key);
                }
            }
            if front.contains(key) {
                let i = choose|i: int| 0 <= i < front.len() && front[i] == key;
                assert(ids[i] == key);
            }
            assert(ids[ids.len() - 1] == ids.last());
        }
        lemma_with_blank(before, ids.last(), ids.last());
        assert(graph.keys().len() == graph.connectors.len());
        assert(before.keys().len() == before.connectors.len());
        if before.contains_key(ids.last()) {
            assert(front.contains(ids.last()));
            let i = choose|i: int| 0 <= i < front.len() && front[i] == ids.last();
            assert(ids[i] == front[i]);
            assert(ids[i] == ids[ids.len() - 1]);
        } else {
            assert(!front.contains(ids.last()));
            if distinct(front) {
                assert forall|i: int, j: int| 0 <= i < j < ids.len() implies ids[i] != ids[j] by {
                    if j < front.len() {
                        assert(front[i] != front[j]);
                    } else {
                        assert(front[i] == ids[i]);
                        assert(!front.contains(ids.last()));
                    }
                }
            }
            if distinct(ids) {
                assert forall|i: int, j: int| 0 <= i < j < front.len() implies front[i] != front[j] by {
                    assert(ids[i] != ids[j]);
                }
            }
        }
    }
}

/// Linking relationships changes no key, and records as many relationships
/// as there are only where both ends of each are in the graph; it then
/// records their ids, in order.
pub proof fn lemma_with_relationships(graph: GraphView, relationships: Seq<Relationship>)
    ensures
        with_relationships(graph, relationships).keys() == graph.keys(),
        with_relationships(graph, relationships).connected.len() <= graph.connected.len()
            + relationships.len(),
        with_relationships(graph, relationships).connected.len() == graph.connected.len()
            + relationships.len() <==> forall|i: int|
            0 <= i < relationships.len() ==> graph.contains_key((#[trigger] relationships[i]).source_id@)
                && graph.contains_key(relationships[i].target_id@),
        with_relationships(graph, relationships).connected.len() == graph.connected.len()
            + relationships.len() ==> with_relationships(graph, relationships).connected
            == graph.connected + relationship_ids(relationships),
    decreases relationships.len(),
{
    if relationships.len() == 0 {
        assert(graph.connected + relationship_ids(relationships) =~= graph.connected);
    }
    if relationships.len() > 0 {
        let front = relationships.drop_last();
        let link = relationships.last();
        let before = with_relationships(graph, front);
        lemma_with_relationships(graph, front);
        lemma_linked(before, link.id@, link.source_id@, link.target_id@);
        let all_front = forall|i: int|
            0 <= i < front.len() ==> graph.contains_key((#[trigger] front[i]).source_id@)
                && graph.contains_key(front[i].target_id@);
        let all = forall|i: int|
            0 <= i < relationships.len() ==> graph.contains_key((#[trigger] relationships[i]).source_id@)
                && graph.contains_key(relationships[i].target_id@);
        if all {
            assert forall|i: int| 0 <= i < front.len() implies graph.contains_key(
                (#[trigger] front[i]).source_id@,
            ) && graph.contains_key(front[i].target_id@) by {
                assert(front[i] == relationships[i]);
            }
            assert(relationships[relationships.len() - 1] == link);
        }
        if all_front && graph.contains_key(link.source_id@) && graph.contains_key(link.target_id@) {
            assert forall|i: int| 0 <= i < relationships.len() implies graph.contains_key(
                (#[trigger] relationships[i]).source_id@,
            ) && graph.contains_key(relationships[i].target_id@) by {
                if i < front.len() {
                    assert(front[i] == relationships[i]);
                }
            }
            assert(relationship_ids(relationships) =~= relationship_ids(front).push(link.id@));
            assert((graph.connected + relationship_ids(front)).push(link.id@) =~= graph.connected
                + relationship_ids(relationships));
        }
    }
}

/// The elements and relationships make a graph with one connector for each
/// element and as many different relationships recorded as connected as
/// there are relationships exactly where a graph can be built from them;
/// every relationship is then recorded, once.
pub proof fn lemma_buildable(elements: Seq<Element>, relationships: Seq<Relationship>)
    requires
        elements.len() > 0,
        relationships.len() > 0,
    ensures
        buildable(elements, relationships) <==> linked_up(elements, relationships).connectors.len()
            == elements.len() && connected_ids(linked_up(elements, relationships)) == relationships.len(),
        connected_ids(linked_up(elements, relationships)) <= relationships.len(),
        buildable(elements, relationships) ==> linked_up(elements, relationships).connected
            == relationship_ids(relationships),
{
    let ids = element_ids(elements);
    let nodes = with_elements(GraphView::empty(), ids);
    lemma_with_elements(ids);
    lemma_with_relationships(nodes, relationships);
    let graph = linked_up(elements, relationships);
    assert(graph.keys().len() == graph.connectors.len());
    assert(nodes.keys().len() == nodes.connectors.len());
    assert(nodes.connected =~= Seq::<Key>::empty());
    lemma_first_seen_len(graph.connected);
    if graph.connected.len() == relationships.len() {
        assert(nodes.connected + relationship_ids(relationships) =~= relationship_ids(relationships));
    }
}

/// In the graph that elements and relationships make, every connector
/// stands under its own element id.
pub proof fn lemma_linked_up_own_ids(elements: Seq<Element>, relationships: Seq<Relationship>)
    ensures
        linked_up(elements, relationships).own_ids(),
{
    lemma_with_elements_own_ids(element_ids(elements));
    lemma_with_relationships_own_ids(with_elements(GraphView::empty(), element_ids(elements)), relationships);
}

proof fn lemma_with_elements_own_ids(ids: Seq<Key>)
    ensures
        with_elements(GraphView::empty(), ids).own_ids(),
    decreases ids.len(),
{
    if ids.len() > 0 {
        lemma_with_elements_own_ids(ids.drop_last());
        let before = with_elements(GraphView::empty(), ids.drop_last());
        lemma_own_ids(before, ids.last(), blank_connector(ids.last()), ids.last(), ids.last());
    }
}

proof fn lemma_with_relationships_own_ids(graph: GraphView, relationships: Seq<Relationship>)
    requires
        graph.own_ids(),
    ensures
        with_relationships(graph, relationships).own_ids(),
    decreases relationships.len(),
{
    if relationships.len() > 0 {
        lemma_with_relationships_own_ids(graph, relationships.drop_last());
        let before = with_relationships(graph, relationships.drop_last());
        let link = relationships.last();
        lemma_own_ids(before, link.source_id@, blank_connector(link.source_id@), link.id@, link.target_id@);
    }
}

pub struct ElementConnectorBuilder;

impl ElementConnectorBuilder {
    /// The graph of `elements` and `relationship`: a connector for each
    /// element, and each relationship as an outbound edge of its source and
    /// an inbound edge of its target.
    pub fn build_graph(elements: &[Element], relationship: &[Relationship]) -> (built: Result<
        ElementGraph,
        ModelError,
    >)
        ensures
            match built {
                Ok(graph) => {
                    &&& buildable(elements@, relationship@)
                    &&& graph@ == linked_up(elements@, relationship@)
                    &&& graph@.connectors.len() == elements@.len()
                    &&& graph@.connected == relationship_ids(relationship@)
                    &&& graph@.own_ids()
                },
                Err(error) => {
                    &&& !buildable(elements@, relationship@)
                    &&& error matches ModelError::ModelGraphBuildingError(why)
                    &&& why@ == build_failure(elements@, relationship@)
                },
            },
    {
        if elements.len() == 0 || relationship.len() == 0 {
            return Err(
                ModelError::ModelGraphBuildingError(
                    "Unable to build graph due to empty element or empty relationship".to_owned(),
                ),
            );
        }
        let mut graph = ElementGraph::new();
        let ghost ids = element_ids(elements@);
        let mut i: usize = 0;
        while i < elements.len()
            invariant
                i <= elements.len(),
                ids == element_ids(elements@),
                graph@ == with_elements(GraphView::empty(), ids.take(i as int)),
            decreases elements.len() - i,
        {
            proof {
                assert(ids.take(i + 1).drop_last() =~= ids.take(i as int));
                assert(ids.take(i + 1).last() == elements@[i as int].id@);
            }
            graph.add_connector(elements[i].id.as_str());
            i += 1;
        }
        assert(ids.take(ids.len() as int) =~= ids);
        let ghost nodes = graph@;
        let mut j: usize = 0;
        while j < relationship.len()
            invariant
                j <= relationship.len(),
                graph@ == with_relationships(nodes, relationship@.take(j as int)),
            decreases relationship.len() - j,
        {
            proof {
                assert(relationship@.take(j + 1).drop_last() =~= relationship@.take(j as int));
                assert(relationship@.take(j + 1).last() == relationship@[j as int]);
            }
            let r = &relationship[j];
            graph.connect(r.id.as_str(), r.source_id.as_str(), r.target_id.as_str());
            j += 1;
        }
        assert(relationship@.take(relationship@.len() as int) =~= relationship@);
        proof {
            lemma_buildable(elements@, relationship@);
            lemma_linked_up_own_ids(elements@, relationship@);
        }
        let elements_size = elements.len();
        let graph_elements_size = graph.get_connection_count();
        if elements_size != graph_elements_size {
            let mut why = "Error building graph due to invalid element number. Provided: ".to_owned();
            why.append(unsigned_text(elements_size as u128).as_str());
            why.append(" vs built:");
            why.append(unsigned_text(graph_elements_size as u128).as_str());
            why.append(" ");
            return Err(ModelError::ModelGraphBuildingError(why));
        }
        let relationship_size = relationship.len();
        let graph_relationship_size = KeyIndex::from_keys(&graph.get_connected_relationship()).len();
        if relationship_size != graph_relationship_size {
            let mut why = "Error building graph due to invalid relationship number. Provided: ".to_owned();
            why.append(unsigned_text(relationship_size as u128).as_str());
            why.append(" vs built:");
            why.append(unsigned_text(graph_relationship_size as u128).as_str());
            why.append(" ");
            return Err(ModelError::ModelGraphBuildingError(why));
        }
        Ok(graph)
    }
}

} // verus!
