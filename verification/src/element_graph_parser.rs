use crate::config::{line_view, line_views, OutputGraph, OutputLine, OutputToken, RelationshipDirection};
use crate::cubs_model::{common_fields, element_position, ModelData};
use crate::element_graph::{
    blank_connector, lemma_own_ids, lemma_with_connector, paths_to, ConnectorView, ElementConnector,
    ElementGraph, GraphView, Path, PathView,
};
use crate::json::{JsonMap, JsonModel};
use crate::keyed::{lemma_first_index_is, string_views, Key};
use crate::model_error::ModelError;
use vstd::prelude::*;
use vstd::string::StringExecFns;

verus! {

/// The edges of `connector` on the side that a walk in `direction` follows.
pub open spec fn edges_towards(connector: ConnectorView, direction: RelationshipDirection) -> Seq<PathView> {
    match direction {
        RelationshipDirection::Parent => connector.inbound,
        RelationshipDirection::Child => connector.outbound,
    }
}

/// The copy of an ancestor that goes into a subgraph: of its outbound edges
/// only those that lead to `child` stay, and at the limit its inbound edges
/// are dropped.
pub open spec fn pruned_parent(parent: ConnectorView, child: Key, at_limit: bool) -> ConnectorView {
    ConnectorView {
        element_id: parent.element_id,
        inbound: if at_limit {
            Seq::empty()
        } else {
            parent.inbound
        },
        outbound: paths_to(parent.outbound, child),
    }
}

/// The copy of a descendant that goes into a subgraph: at the limit its
/// outbound edges are dropped; its inbound edges all stay.
pub open spec fn pruned_child(child: ConnectorView, at_limit: bool) -> ConnectorView {
    ConnectorView {
        element_id: child.element_id,
        inbound: child.inbound,
        outbound: if at_limit {
            Seq::empty()
        } else {
            child.outbound
        },
    }
}

/// The copy of `found` that a walk in `direction` puts into a subgraph,
/// `found` having been reached from the element `reached_from`.
pub open spec fn pruned(
    found: ConnectorView,
    reached_from: Key,
    at_limit: bool,
    direction: RelationshipDirection,
) -> ConnectorView {
    match direction {
        RelationshipDirection::Parent => pruned_parent(found, reached_from, at_limit),
        RelationshipDirection::Child => pruned_child(found, at_limit),
    }
}

/// `result` after a walk in `direction` has gone through the edges of
/// `current` from position `from` on, `current` standing `level - 1` steps
/// away from the target. Each neighbour that `source` holds goes into the
/// result under its id, in the place of what was there, its relationship is
/// recorded, and the walk goes on from it one level further. An edge whose
/// other end `source` does not hold ends the walk through the edges of
/// `current`. Beyond `limit` nothing is added.
pub open spec fn walked(
    source: GraphView,
    result: GraphView,
    current: ConnectorView,
    from: nat,
    level: nat,
    limit: nat,
    direction: RelationshipDirection,
) -> GraphView
    decreases limit + 1 - level, edges_towards(current, direction).len() - from,
{
    let edges = edges_towards(current, direction);
    if level > limit || from >= edges.len() {
        result
    } else {
        let path = edges[from as int];
        match source.lookup(path.neighbour) {
            None => result,
            Some(found) => {
                let placed = result.with_connector(
                    path.neighbour,
                    pruned(found, current.element_id, level == limit, direction),
                ).with_connected(path.relationship);
                let beyond = walked(source, placed, found, 0, level + 1, limit, direction);
                walked(source, beyond, current, from + 1, level, limit, direction)
            },
        }
    }
}

/// The target's own copy: without inbound edges where no ancestors are
/// asked for, without outbound edges where no descendants are.
pub open spec fn trimmed_target(target: ConnectorView, ancestors: nat, descendants: nat) -> ConnectorView {
    ConnectorView {
        element_id: target.element_id,
        inbound: if ancestors == 0 {
            Seq::empty()
        } else {
            target.inbound
        },
        outbound: if descendants == 0 {
            Seq::empty()
        } else {
            target.outbound
        },
    }
}

/// The subgraph of `source` around `target`: its ancestors up to `ancestors`
/// levels, then its descendants down to `descendants` levels, then the
/// target itself.
pub open spec fn extracted(source: GraphView, target: ConnectorView, ancestors: nat, descendants: nat) -> GraphView {
    let up = walked(source, GraphView::empty(), target, 0, 1, ancestors, RelationshipDirection::Parent);
    let down = walked(source, up, target, 0, 1, descendants, RelationshipDirection::Child);
    down.with_connector(target.element_id, trimmed_target(target, ancestors, descendants))
}

/// Every key of `small` is a key of `large`.
pub open spec fn covers(large: GraphView, small: GraphView) -> bool {
    forall|key: Key| small.contains_key(key) ==> large.contains_key(key)
}

/// A walk takes no key out of the result.
pub proof fn lemma_walk_keeps_keys(
    source: GraphView,
    result: GraphView,
    current: ConnectorView,
    from: nat,
    level: nat,
    limit: nat,
    direction: RelationshipDirection,
)
    ensures
        covers(walked(source, result, current, from, level, limit, direction), result),
    decreases limit + 1 - level, edges_towards(current, direction).len() - from,
{
    let edges = edges_towards(current, direction);
    if level > limit || from >= edges.len() {
    } else {
        let path = edges[from as int];
        match source.lookup(path.neighbour) {
            None => {},
            Some(found) => {
                let copy = pruned(found, current.element_id, level == limit, direction);
                let placed = result.with_connector(path.neighbour, copy).with_connected(path.relationship);
                let beyond = walked(source, placed, found, 0, level + 1, limit, direction);
                assert forall|key: Key| result.contains_key(key) implies placed.contains_key(key) by {
                    lemma_with_connector(result, path.neighbour, copy, key);
                }
                lemma_walk_keeps_keys(source, placed, found, 0, level + 1, limit, direction);
                lemma_walk_keeps_keys(source, beyond, current, from + 1, level, limit, direction);
            },
        }
    }
}

/// A walk with a larger limit, begun on a result with more keys, ends on a
/// result with more keys.
pub proof fn lemma_walk_grows_with_limit(
    source: GraphView,
    small: GraphView,
    large: GraphView,
    current: ConnectorView,
    from: nat,
    level: nat,
    small_limit: nat,
    large_limit: nat,
    direction: RelationshipDirection,
)
    requires
        small_limit <= large_limit,
        covers(large, small),
    ensures
        covers(
            walked(source, large, current, from, level, large_limit, direction),
            walked(source, small, current, from, level, small_limit, direction),
        ),
    decreases small_limit + 1 - level, edges_towards(current, direction).len() - from,
{
    let edges = edges_towards(current, direction);
    if level > small_limit || from >= edges.len() {
        lemma_walk_keeps_keys(source, large, current, from, level, large_limit, direction);
    } else {
        let path = edges[from as int];
        match source.lookup(path.neighbour) {
            None => {},
            Some(found) => {
                let small_copy = pruned(found, current.element_id, level == small_limit, direction);
                let large_copy = pruned(found, current.element_id, level == large_limit, direction);
                let small_placed = small.with_connector(path.neighbour, small_copy).with_connected(
                    path.relationship,
                );
                let large_placed = large.with_connector(path.neighbour, large_copy).with_connected(
                    path.relationship,
                );
                assert forall|key: Key| small_placed.contains_key(key) implies large_placed.contains_key(
                    key,
                ) by {
                    lemma_with_connector(small, path.neighbour, small_copy, key);
                    lemma_with_connector(large, path.neighbour, large_copy, key);
                }
                let small_beyond = walked(source, small_placed, found, 0, level + 1, small_limit, direction);
                let large_beyond = walked(source, large_placed, found, 0, level + 1, large_limit, direction);
                lemma_walk_grows_with_limit(
                    source,
                    small_placed,
                    large_placed,
                    found,
                    0,
                    level + 1,
                    small_limit,
                    large_limit,
                    direction,
                );
                lemma_walk_grows_with_limit(
                    source,
                    small_beyond,
                    large_beyond,
                    current,
                    from + 1,
                    level,
                    small_limit,
                    large_limit,
                    direction,
                );
            },
        }
    }
}

/// Extraction is monotonic in its limits: with a larger limit on either
/// side, every element of the smaller subgraph is in the larger one.
pub proof fn lemma_extraction_grows_with_limits(
    source: GraphView,
    target: ConnectorView,
    ancestors: nat,
    descendants: nat,
    more_ancestors: nat,
    more_descendants: nat,
)
    requires
        ancestors <= more_ancestors,
        descendants <= more_descendants,
    ensures
        covers(
            extracted(source, target, more_ancestors, more_descendants),
            extracted(source, target, ancestors, descendants),
        ),
{
    let empty = GraphView::empty();
    let small_up = walked(source, empty, target, 0, 1, ancestors, RelationshipDirection::Parent);
    let large_up = walked(source, empty, target, 0, 1, more_ancestors, RelationshipDirection::Parent);
    lemma_walk_grows_with_limit(
        source,
        empty,
        empty,
        target,
        0,
        1,
        ancestors,
        more_ancestors,
        RelationshipDirection::Parent,
    );
    let small_down = walked(source, small_up, target, 0, 1, descendants, RelationshipDirection::Child);
    let large_down = walked(source, large_up, target, 0, 1, more_descendants, RelationshipDirection::Child);
    lemma_walk_grows_with_limit(
        source,
        small_up,
        large_up,
        target,
        0,
        1,
        descendants,
        more_descendants,
        RelationshipDirection::Child,
    );
    let small_copy = trimmed_target(target, ancestors, descendants);
    let large_copy = trimmed_target(target, more_ancestors, more_descendants);
    assert forall|key: Key|
        small_down.with_connector(target.element_id, small_copy).contains_key(key) implies large_down.with_connector(
        target.element_id,
        large_copy,
    ).contains_key(key) by {
        lemma_with_connector(small_down, target.element_id, small_copy, key);
        lemma_with_connector(large_down, target.element_id, large_copy, key);
    }
}

/// Whatever a walk adds to the result is in the source.
pub proof fn lemma_walk_stays_in_source(
    source: GraphView,
    result: GraphView,
    current: ConnectorView,
    from: nat,
    level: nat,
    limit: nat,
    direction: RelationshipDirection,
)
    ensures
        forall|key: Key|
            walked(source, result, current, from, level, limit, direction).contains_key(key)
                ==> result.contains_key(key) || source.contains_key(key),
    decreases limit + 1 - level, edges_towards(current, direction).len() - from,
{
    let edges = edges_towards(current, direction);
    if level > limit || from >= edges.len() {
    } else {
        let path = edges[from as int];
        match source.lookup(path.neighbour) {
            None => {},
            Some(found) => {
                let copy = pruned(found, current.element_id, level == limit, direction);
                let placed = result.with_connector(path.neighbour, copy).with_connected(path.relationship);
                let beyond = walked(source, placed, found, 0, level + 1, limit, direction);
                lemma_walk_stays_in_source(source, placed, found, 0, level + 1, limit, direction);
                lemma_walk_stays_in_source(source, beyond, current, from + 1, level, limit, direction);
                assert forall|key: Key|
                    walked(source, result, current, from, level, limit, direction).contains_key(
                        key,
                    ) implies result.contains_key(key) || source.contains_key(key) by {
                    lemma_with_connector(result, path.neighbour, copy, key);
                    if beyond.contains_key(key) {
                    }
                }
            },
        }
    }
}

/// The subgraph holds its target, trimmed as asked for, and beside it only
/// what the source holds.
pub proof fn lemma_extraction_holds_target(
    source: GraphView,
    target: ConnectorView,
    ancestors: nat,
    descendants: nat,
)
    ensures
        extracted(source, target, ancestors, descendants).lookup(target.element_id) == Some(
            trimmed_target(target, ancestors, descendants),
        ),
        forall|key: Key|
            extracted(source, target, ancestors, descendants).contains_key(key) ==> key
                == target.element_id || source.contains_key(key),
{
    let empty = GraphView::empty();
    let up = walked(source, empty, target, 0, 1, ancestors, RelationshipDirection::Parent);
    let down = walked(source, up, target, 0, 1, descendants, RelationshipDirection::Child);
    let copy = trimmed_target(target, ancestors, descendants);
    lemma_with_connector(down, target.element_id, copy, target.element_id);
    lemma_walk_stays_in_source(source, empty, target, 0, 1, ancestors, RelationshipDirection::Parent);
    lemma_walk_stays_in_source(source, up, target, 0, 1, descendants, RelationshipDirection::Child);
    assert(empty.keys() =~= Seq::<Key>::empty());
    assert forall|key: Key|
        extracted(source, target, ancestors, descendants).contains_key(key) implies key
        == target.element_id || source.contains_key(key) by {
        lemma_with_connector(down, target.element_id, copy, key);
        if key != target.element_id {
            assert(down.contains_key(key));
            assert(up.contains_key(key) || source.contains_key(key));
            assert(!empty.contains_key(key));
        }
    }
}

/// Where a walk through `edges` that begins at position `from` ends: at the
/// first edge from there on whose other end the source does not hold, or
/// behind the last edge.
pub open spec fn walk_end(source: GraphView, edges: Seq<PathView>, from: nat) -> nat
    decreases edges.len() - from,
{
    if from >= edges.len() {
        edges.len()
    } else if source.lookup(edges[from as int].neighbour) is None {
        from
    } else {
        walk_end(source, edges, from + 1)
    }
}

/// Whether a walk in `direction` that starts at `current` comes to `key`
/// within `steps` steps.
pub open spec fn reaches(
    source: GraphView,
    current: ConnectorView,
    key: Key,
    steps: nat,
    direction: RelationshipDirection,
) -> bool
    decreases steps,
{
    let edges = edges_towards(current, direction);
    steps > 0 && exists|j: int|
        0 <= j < walk_end(source, edges, 0) && ((#[trigger] edges[j]).neighbour == key || reaches(
            source,
            source.lookup(edges[j].neighbour).unwrap(),
            key,
            (steps - 1) as nat,
            direction,
        ))
}

/// A walk ends no earlier than it begins, and every edge on its way leads
/// to a connector of the source.
pub proof fn lemma_walk_end(source: GraphView, edges: Seq<PathView>, from: nat)
    requires
        from <= edges.len(),
    ensures
        from <= walk_end(source, edges, from) <= edges.len(),
        forall|j: int|
            from <= j < walk_end(source, edges, from) ==> source.lookup((#[trigger] edges[j]).neighbour) is Some,
        walk_end(source, edges, from) < edges.len() ==> source.lookup(
            edges[walk_end(source, edges, from) as int].neighbour,
        ) is None,
    decreases edges.len() - from,
{
    if from < edges.len() && source.lookup(edges[from as int].neighbour) is Some {
        lemma_walk_end(source, edges, from + 1);
    }
}

/// A walk that begins on its way ends where the whole walk ends.
pub proof fn lemma_walk_end_from(source: GraphView, edges: Seq<PathView>, from: nat)
    requires
        from <= walk_end(source, edges, 0),
    ensures
        walk_end(source, edges, from) == walk_end(source, edges, 0),
    decreases from,
{
    lemma_walk_end(source, edges, 0);
    if from > 0 {
        lemma_walk_end_from(source, edges, (from - 1) as nat);
        assert(source.lookup(edges[from - 1].neighbour) is Some);
    }
}

/// What a walk through the edges of `current` from position `from` on comes
/// to: the other end of an edge on its way, or what the walk comes to from
/// there within the levels that are left.
pub open spec fn walk_reaches(
    source: GraphView,
    current: ConnectorView,
    from: nat,
    key: Key,
    level: nat,
    limit: nat,
    direction: RelationshipDirection,
) -> bool {
    let edges = edges_towards(current, direction);
    level <= limit && exists|j: int|
        from <= j < walk_end(source, edges, from) && ((#[trigger] edges[j]).neighbour == key || reaches(
            source,
            source.lookup(edges[j].neighbour).unwrap(),
            key,
            (limit - level) as nat,
            direction,
        ))
}

/// The result of a walk holds what it held before and what the walk comes
/// to, and nothing else.
pub proof fn lemma_walk_holds_what_it_reaches(
    source: GraphView,
    result: GraphView,
    current: ConnectorView,
    from: nat,
    key: Key,
    level: nat,
    limit: nat,
    direction: RelationshipDirection,
)
    ensures
        walked(source, result, current, from, level, limit, direction).contains_key(key) <==> result.contains_key(
            key,
        ) || walk_reaches(source, current, from, key, level, limit, direction),
    decreases limit + 1 - level, edges_towards(current, direction).len() - from,
{
    let edges = edges_towards(current, direction);
    if level > limit || from >= edges.len() {
    } else {
        let path = edges[from as int];
        lemma_walk_end(source, edges, from + 1);
        match source.lookup(path.neighbour) {
            None => {},
            Some(found) => {
                let copy = pruned(found, current.element_id, level == limit, direction);
                let placed = result.with_connector(path.neighbour, copy).with_connected(path.relationship);
                let beyond = walked(source, placed, found, 0, level + 1, limit, direction);
                let whole = walked(source, beyond, current, from + 1, level, limit, direction);
                lemma_with_connector(result, path.neighbour, copy, key);
                lemma_walk_holds_what_it_reaches(source, placed, found, 0, key, level + 1, limit, direction);
                lemma_walk_holds_what_it_reaches(source, beyond, current, from + 1, key, level, limit, direction);
                let via_first = walk_reaches(source, found, 0, key, level + 1, limit, direction);
                let via_rest = walk_reaches(source, current, from + 1, key, level, limit, direction);
                let via_any = walk_reaches(source, current, from, key, level, limit, direction);
                let steps = (limit - level) as nat;
                assert(via_first == reaches(source, found, key, steps, direction));
                assert(walk_end(source, edges, from) == walk_end(source, edges, from + 1));
                if via_any {
                    let j = choose|j: int|
                        from <= j < walk_end(source, edges, from) && ((#[trigger] edges[j]).neighbour == key
                            || reaches(source, source.lookup(edges[j].neighbour).unwrap(), key, steps, direction));
                    if j == from {
                        assert(path.neighbour == key || via_first);
                    } else {
                        assert(from + 1 <= j < walk_end(source, edges, from + 1) && (edges[j].neighbour == key
                            || reaches(source, source.lookup(edges[j].neighbour).unwrap(), key, steps, direction)));
                        assert(via_rest);
                    }
                }
                if via_rest {
                    let j = choose|j: int|
                        from + 1 <= j < walk_end(source, edges, from + 1) && ((#[trigger] edges[j]).neighbour
                            == key || reaches(
                            source,
                            source.lookup(edges[j].neighbour).unwrap(),
                            key,
                            steps,
                            direction,
                        ));
                    assert(from <= j < walk_end(source, edges, from) && (edges[j].neighbour == key || reaches(
                        source,
                        source.lookup(edges[j].neighbour).unwrap(),
                        key,
                        steps,
                        direction,
                    )));
                    assert(via_any);
                }
                if path.neighbour == key || via_first {
                    assert(from <= from < walk_end(source, edges, from) && (edges[from as int].neighbour == key
                        || reaches(
                        source,
                        source.lookup(edges[from as int].neighbour).unwrap(),
                        key,
                        steps,
                        direction,
                    )));
                    assert(via_any);
                }
            },
        }
    }
}

/// The subgraph holds the target, what lies within `ancestors` levels above
/// it and what lies within `descendants` levels below it, and nothing else.
pub proof fn lemma_extraction_holds_what_is_near(
    source: GraphView,
    target: ConnectorView,
    ancestors: nat,
    descendants: nat,
    key: Key,
)
    ensures
        extracted(source, target, ancestors, descendants).contains_key(key) <==> key == target.element_id
            || reaches(source, target, key, ancestors, RelationshipDirection::Parent) || reaches(
            source,
            target,
            key,
            descendants,
            RelationshipDirection::Child,
        ),
{
    let empty = GraphView::empty();
    let up = walked(source, empty, target, 0, 1, ancestors, RelationshipDirection::Parent);
    let down = walked(source, up, target, 0, 1, descendants, RelationshipDirection::Child);
    let copy = trimmed_target(target, ancestors, descendants);
    lemma_walk_holds_what_it_reaches(source, empty, target, 0, key, 1, ancestors, RelationshipDirection::Parent);
    lemma_walk_holds_what_it_reaches(source, up, target, 0, key, 1, descendants, RelationshipDirection::Child);
    lemma_with_connector(down, target.element_id, copy, key);
    assert(empty.keys() =~= Seq::<Key>::empty());
    assert(!empty.contains_key(key));
    assert(walk_reaches(source, target, 0, key, 1, ancestors, RelationshipDirection::Parent) == reaches(
        source,
        target,
        key,
        ancestors,
        RelationshipDirection::Parent,
    ));
    assert(walk_reaches(source, target, 0, key, 1, descendants, RelationshipDirection::Child) == reaches(
        source,
        target,
        key,
        descendants,
        RelationshipDirection::Child,
    ));
}

/// The graph that holds the element `id` alone, without edges, and no
/// relationship.
pub open spec fn target_alone(id: Key) -> GraphView {
    GraphView { connectors: seq![(id, blank_connector(id))], connected: Seq::empty() }
}

/// With both limits 0 the subgraph holds the target alone, without edges,
/// and no relationship.
pub proof fn lemma_extraction_without_levels(source: GraphView, target: ConnectorView)
    ensures
        extracted(source, target, 0, 0) == target_alone(target.element_id),
{
    let empty = GraphView::empty();
    assert(walked(source, empty, target, 0, 1, 0, RelationshipDirection::Parent) == empty);
    assert(walked(source, empty, target, 0, 1, 0, RelationshipDirection::Child) == empty);
    assert(empty.keys() =~= Seq::<Key>::empty());
    assert(empty.position(target.element_id) is None);
    assert(extracted(source, target, 0, 0).connectors =~= seq![
        (target.element_id, blank_connector(target.element_id)),
    ]);
}

/// In a graph whose connectors stand under their own ids, the subgraph
/// around the element `id` with both limits 0 holds that element alone,
/// under `id`, without edges.
pub proof fn lemma_extraction_without_levels_by_id(source: GraphView, id: Key)
    requires
        source.own_ids(),
        source.lookup(id) is Some,
    ensures
        extracted(source, source.lookup(id).unwrap(), 0, 0) == target_alone(id),
        target_alone(id).lookup(id) == Some(blank_connector(id)),
        target_alone(id).keys() == seq![id],
{
    let target = source.lookup(id).unwrap();
    lemma_own_ids(source, id, target, id, id);
    lemma_extraction_without_levels(source, target);
    assert(target_alone(id).keys() =~= seq![id]);
    lemma_first_index_is(target_alone(id).keys(), id, 0);
}

/// A walk through a source whose connectors stand under their own ids
/// keeps a result so whose connectors do.
pub proof fn lemma_walk_keeps_own_ids(
    source: GraphView,
    result: GraphView,
    current: ConnectorView,
    from: nat,
    level: nat,
    limit: nat,
    direction: RelationshipDirection,
)
    requires
        source.own_ids(),
        result.own_ids(),
    ensures
        walked(source, result, current, from, level, limit, direction).own_ids(),
    decreases limit + 1 - level, edges_towards(current, direction).len() - from,
{
    let edges = edges_towards(current, direction);
    if level > limit || from >= edges.len() {
    } else {
        let path = edges[from as int];
        match source.lookup(path.neighbour) {
            None => {},
            Some(found) => {
                let copy = pruned(found, current.element_id, level == limit, direction);
                lemma_own_ids(source, path.neighbour, found, path.relationship, path.neighbour);
                assert(copy.element_id == path.neighbour);
                lemma_own_ids(result, path.neighbour, copy, path.relationship, path.neighbour);
                let with_copy = result.with_connector(path.neighbour, copy);
                lemma_own_ids(with_copy, path.neighbour, copy, path.relationship, path.neighbour);
                let placed = with_copy.with_connected(path.relationship);
                let beyond = walked(source, placed, found, 0, level + 1, limit, direction);
                lemma_walk_keeps_own_ids(source, placed, found, 0, level + 1, limit, direction);
                lemma_walk_keeps_own_ids(source, beyond, current, from + 1, level, limit, direction);
            },
        }
    }
}

/// The subgraph of a graph whose connectors stand under their own ids is
/// such a graph.
pub proof fn lemma_extraction_keeps_own_ids(
    source: GraphView,
    target: ConnectorView,
    ancestors: nat,
    descendants: nat,
)
    requires
        source.own_ids(),
    ensures
        extracted(source, target, ancestors, descendants).own_ids(),
{
    let empty = GraphView::empty();
    let up = walked(source, empty, target, 0, 1, ancestors, RelationshipDirection::Parent);
    lemma_walk_keeps_own_ids(source, empty, target, 0, 1, ancestors, RelationshipDirection::Parent);
    let down = walked(source, up, target, 0, 1, descendants, RelationshipDirection::Child);
    lemma_walk_keeps_own_ids(source, up, target, 0, 1, descendants, RelationshipDirection::Child);
    let copy = trimmed_target(target, ancestors, descendants);
    lemma_own_ids(down, target.element_id, copy, target.element_id, target.element_id);
}

/// One visit of the renderer: the element, and how many steps it lies from
/// the target.
pub struct Visit {
    pub element_id: Key,
    pub level: nat,
}

/// The visits of a depth-first walk in `direction` that comes to `current`
/// at `level`: `current` itself, then what the walk visits below each of its
/// neighbours on that side, in the order of the edges. Nothing lies beyond
/// `limit`, and a neighbour that the graph does not hold is passed over. An
/// element that several edges lead to is visited once for each.
pub open spec fn visits_from(
    graph: GraphView,
    current: Option<ConnectorView>,
    level: nat,
    limit: nat,
    direction: RelationshipDirection,
) -> Seq<Visit>
    decreases limit + 1 - level, 0nat,
{
    match current {
        Some(connector) => if level <= limit {
            seq![Visit { element_id: connector.element_id, level }] + visits_below(
                graph,
                connector,
                0,
                level + 1,
                limit,
                direction,
            )
        } else {
            Seq::empty()
        },
        None => Seq::empty(),
    }
}

/// The visits below the neighbours of `above` from the edge at position
/// `from` on, the neighbours lying at `level`.
pub open spec fn visits_below(
    graph: GraphView,
    above: ConnectorView,
    from: nat,
    level: nat,
    limit: nat,
    direction: RelationshipDirection,
) -> Seq<Visit>
    decreases limit + 1 - level, edges_towards(above, direction).len() - from + 1,
{
    let edges = edges_towards(above, direction);
    if level > limit + 1 || from >= edges.len() {
        Seq::empty()
    } else {
        visits_from(graph, graph.lookup(edges[from as int].neighbour), level, limit, direction)
            + visits_below(graph, above, from + 1, level, limit, direction)
    }
}

/// Every visit of a walk lies between the level at which the walk begins
/// and the limit.
pub proof fn lemma_visits_within_limit(
    graph: GraphView,
    current: Option<ConnectorView>,
    level: nat,
    limit: nat,
    direction: RelationshipDirection,
)
    ensures
        forall|i: int|
            0 <= i < visits_from(graph, current, level, limit, direction).len() ==> level <= (
            #[trigger] visits_from(graph, current, level, limit, direction)[i]).level <= limit,
    decreases limit + 1 - level, 0nat,
{
    if let Some(connector) = current {
        if level <= limit {
            lemma_visits_below_within_limit(graph, connector, 0, level + 1, limit, direction);
            let below = visits_below(graph, connector, 0, level + 1, limit, direction);
            let visits = visits_from(graph, current, level, limit, direction);
            assert forall|i: int| 0 <= i < visits.len() implies level <= (#[trigger] visits[i]).level
                <= limit by {
                if i > 0 {
                    assert(visits[i] == below[i - 1]);
                }
            }
        }
    }
}

/// Every visit below the neighbours of a connector lies between the level
/// of the neighbours and the limit.
pub proof fn lemma_visits_below_within_limit(
    graph: GraphView,
    above: ConnectorView,
    from: nat,
    level: nat,
    limit: nat,
    direction: RelationshipDirection,
)
    ensures
        forall|i: int|
            0 <= i < visits_below(graph, above, from, level, limit, direction).len() ==> level <= (
            #[trigger] visits_below(graph, above, from, level, limit, direction)[i]).level <= limit,
    decreases limit + 1 - level, edges_towards(above, direction).len() - from + 1,
{
    let edges = edges_towards(above, direction);
    if level > limit + 1 || from >= edges.len() {
    } else {
        lemma_visits_within_limit(graph, graph.lookup(edges[from as int].neighbour), level, limit, direction);
        lemma_visits_below_within_limit(graph, above, from + 1, level, limit, direction);
        let step = visits_from(graph, graph.lookup(edges[from as int].neighbour), level, limit, direction);
        let rest = visits_below(graph, above, from + 1, level, limit, direction);
        let visits = visits_below(graph, above, from, level, limit, direction);
        assert forall|i: int| 0 <= i < visits.len() implies level <= (#[trigger] visits[i]).level <= limit by {
            if i < step.len() {
                assert(visits[i] == step[i]);
            } else {
                assert(visits[i] == rest[i - step.len()]);
            }
        }
    }
}

/// The line of a visit: one tab for each level, an arrow for the direction
/// unless the visit is that of the target, and the element's id.
pub open spec fn visit_line(visit: Visit, direction: RelationshipDirection) -> Seq<OutputToken<Key>> {
    let tabs = Seq::new(visit.level, |i: int| OutputToken::<Key>::Tab);
    let arrow = match direction {
        RelationshipDirection::Parent => OutputToken::<Key>::InArrow,
        RelationshipDirection::Child => OutputToken::<Key>::OutArrow,
    };
    if visit.level == 0 {
        tabs.push(OutputToken::Value(visit.element_id))
    } else {
        tabs.push(arrow).push(OutputToken::Value(visit.element_id))
    }
}

/// What a connector stands for, where there is one.
pub open spec fn connector_view(connector: Option<&ElementConnector>) -> Option<ConnectorView> {
    match connector {
        Some(connector) => Some(connector@),
        None => None,
    }
}

/// The lines of a list of visits, in order.
pub open spec fn visit_lines(visits: Seq<Visit>, direction: RelationshipDirection) -> Seq<Seq<OutputToken<Key>>> {
    visits.map_values(|visit: Visit| visit_line(visit, direction))
}

/// The elements of a list of visits, in order.
pub open spec fn visit_ids(visits: Seq<Visit>) -> Seq<Key> {
    visits.map_values(|visit: Visit| visit.element_id)
}

/// How far the renderer goes down from the target.
pub const CHILD_LEVELS: u32 = 5;

/// How far the renderer goes up from the target.
pub const PARENT_LEVELS: u32 = 2;

/// Under the id of each of `ids` that the model knows, the common fields of
/// the first element with that id.
pub open spec fn summaries(ids: Seq<Key>, model: ModelData) -> Map<Key, JsonModel> {
    Map::new(
        |id: Key| ids.contains(id) && element_position(model.elements@, id) is Some,
        |id: Key| JsonModel::Object(common_fields(model.elements@[element_position(model.elements@, id).unwrap()]@)),
    )
}

pub struct ElementGraphParser;

impl ElementGraphParser {
    /// The subgraph of `full_graph` around the element `target_element_id`.
    pub fn parse_graph(
        full_graph: &ElementGraph,
        target_element_id: &str,
        ancestor_level_limit: u32,
        children_level_limit: u32,
    ) -> (subgraph: Result<ElementGraph, ModelError>)
        ensures
            match full_graph@.lookup(target_element_id@) {
                Some(target) => subgraph matches Ok(graph) && graph@ == extracted(
                    full_graph@,
                    target,
                    ancestor_level_limit as nat,
                    children_level_limit as nat,
                ),
                None => subgraph matches Err(ModelError::ParsingError(what)) && what@
                    == "Elemennt: "@ + target_element_id@,
            },
            subgraph matches Ok(graph) ==> {
                let target = full_graph@.lookup(target_element_id@).unwrap();
                &&& ancestor_level_limit == 0 && children_level_limit == 0 ==> graph@ == target_alone(
                    target.element_id,
                )
                &&& full_graph@.own_ids() ==> graph@.own_ids() && target.element_id == target_element_id@
            },
    {
        proof {
            if let Some(target) = full_graph@.lookup(target_element_id@) {
                lemma_extraction_without_levels(full_graph@, target);
                if full_graph@.own_ids() {
                    lemma_own_ids(full_graph@, target_element_id@, target, target_element_id@, target_element_id@);
                    lemma_extraction_keeps_own_ids(
                        full_graph@,
                        target,
                        ancestor_level_limit as nat,
                        children_level_limit as nat,
                    );
                }
            }
        }
        let mut partial_graph = ElementGraph::new();
        let target_connector = match full_graph.get_connection(target_element_id) {
            Some(connector) => connector,
            None => {
                let mut what = "Elemennt: ".to_owned();
                what.append(target_element_id);
                return Err(ModelError::ParsingError(what));
            },
        };
        Self::parse_parent(full_graph, &mut partial_graph, target_connector, 1, ancestor_level_limit);
        Self::parse_child(full_graph, &mut partial_graph, target_connector, 1, children_level_limit);
        let mut target_connector_cloned = target_connector.clone();
        if ancestor_level_limit == 0 {
            target_connector_cloned.clear_in_id();
        }
        if children_level_limit == 0 {
            target_connector_cloned.clear_out_id();
        }
        partial_graph.push_connector(target_connector.get_element_id(), target_connector_cloned);
        Ok(partial_graph)
    }

    /// The rendering of the neighbourhood of `target_element_id` in
    /// `full_graph`: descendants down to five levels, ancestors up to two,
    /// and the summary of each element on the way that `model_data` knows.
    pub fn build_output(full_graph: &ElementGraph, target_element_id: &str, model_data: &ModelData) -> (output:
        Result<OutputGraph<String>, ModelError>)
        ensures
            output matches Ok(rendering) && {
                let target = full_graph@.lookup(target_element_id@);
                let down = visits_from(full_graph@, target, 0, CHILD_LEVELS as nat, RelationshipDirection::Child);
                let up = visits_from(full_graph@, target, 0, PARENT_LEVELS as nat, RelationshipDirection::Parent);
                &&& line_views(rendering.child_lines@) == visit_lines(down, RelationshipDirection::Child)
                &&& line_views(rendering.parent_lines@) == visit_lines(up, RelationshipDirection::Parent).reverse()
                &&& rendering.elements_data@ == summaries(visit_ids(down) + visit_ids(up), *model_data)
            },
    {
        let current_element = full_graph.get_connection(target_element_id);
        let mut traversed_element_ids: Vec<String> = Vec::new();
        let mut child_lines: Vec<OutputLine<String>> = Vec::new();
        let mut parent_lines: Vec<OutputLine<String>> = Vec::new();
        let ghost target = full_graph@.lookup(target_element_id@);
        let ghost down = visits_from(full_graph@, target, 0, CHILD_LEVELS as nat, RelationshipDirection::Child);
        let ghost up = visits_from(full_graph@, target, 0, PARENT_LEVELS as nat, RelationshipDirection::Parent);
        proof {
            assert(line_views(child_lines@) =~= Seq::empty());
            assert(line_views(parent_lines@) =~= Seq::empty());
            assert(string_views(traversed_element_ids@) =~= Seq::empty());
        }
        Self::dfs(
            full_graph,
            current_element,
            &mut traversed_element_ids,
            0,
            CHILD_LEVELS,
            &RelationshipDirection::Child,
            &mut child_lines,
        );
        Self::dfs(
            full_graph,
            current_element,
            &mut traversed_element_ids,
            0,
            PARENT_LEVELS,
            &RelationshipDirection::Parent,
            &mut parent_lines,
        );
        proof {
            assert(line_views(child_lines@) =~= visit_lines(down, RelationshipDirection::Child));
            assert(line_views(parent_lines@) =~= visit_lines(up, RelationshipDirection::Parent));
            assert(string_views(traversed_element_ids@) =~= visit_ids(down) + visit_ids(up));
        }
        let parent_lines = reversed_lines(parent_lines);
        let elements_data = Self::element_summaries(&traversed_element_ids, model_data);
        Ok(OutputGraph { parent_lines, child_lines, elements_data })
    }

    /// Under the id of each of `ids` that the model knows, the common
    /// fields of the first element with that id.
    fn element_summaries(ids: &Vec<String>, model_data: &ModelData) -> (data: JsonMap)
        ensures
            data@ == summaries(string_views(ids@), *model_data),
    {
        let mut data = JsonMap::new();
        let ghost all = string_views(ids@);
        let mut i: usize = 0;
        assert(data@ =~= summaries(all.take(0), *model_data));
        while i < ids.len()
            invariant
                i <= ids.len(),
                all == string_views(ids@),
                data@ == summaries(all.take(i as int), *model_data),
            decreases ids.len() - i,
        {
            let ghost seen = all.take(i as int);
            let ghost more = all.take(i + 1);
            proof {
                assert(more =~= seen.push(ids@[i as int]@));
                assert forall|id: Key| more.contains(id) <==> seen.contains(id) || id == ids@[i as int]@ by {
                    if seen.contains(id) {
                        let k = choose|k: int| 0 <= k < seen.len() && seen[k] == id;
                        assert(more[k] == id);
                    }
                    if more.contains(id) {
                        let k = choose|k: int| 0 <= k < more.len() && more[k] == id;
                        if k < seen.len() {
                            assert(seen[k] == id);
                        }
                    }
                    assert(more[i as int] == ids@[i as int]@);
                }
            }
            match model_data.get_element_with_id(ids[i].as_str()) {
                Some(element) => {
                    let summary = element.get_common_fields_values_map().to_value();
                    data.insert(ids[i].clone(), summary);
                    assert(data@ =~= summaries(more, *model_data));
                },
                None => {
                    assert(data@ =~= summaries(more, *model_data));
                },
            }
            i += 1;
        }
        assert(all.take(all.len() as int) =~= all);
        data
    }

    /// Walks depth-first from `current_element`, which lies `level` steps
    /// from the target, and adds a line for each element that it comes to.
    fn dfs(
        full_graph: &ElementGraph,
        current_element: Option<&ElementConnector>,
        traversed_element_ids: &mut Vec<String>,
        level: u32,
        limit: u32,
        direction: &RelationshipDirection,
        lines: &mut Vec<OutputLine<String>>,
    )
        requires
            limit < u32::MAX,
        ensures
            ({
                let visits = visits_from(
                    full_graph@,
                    connector_view(current_element),
                    level as nat,
                    limit as nat,
                    *direction,
                );
                &&& string_views(final(traversed_element_ids)@) == string_views(old(traversed_element_ids)@)
                    + visit_ids(visits)
                &&& line_views(final(lines)@) == line_views(old(lines)@) + visit_lines(visits, *direction)
            }),
        decreases limit + 1 - level, 0nat,
    {
        let ghost ids_before = string_views(traversed_element_ids@);
        let ghost lines_before = line_views(lines@);
        let ghost none = Seq::<Visit>::empty();
        proof {
            assert(ids_before + visit_ids(none) =~= ids_before);
            assert(lines_before + visit_lines(none, *direction) =~= lines_before);
        }
        let current_element = match current_element {
            Some(connector) => connector,
            None => {
                return ;
            },
        };
        if level > limit {
            return ;
        }
        let ghost here = Visit { element_id: current_element@.element_id, level: level as nat };
        let ghost below = visits_below(
            full_graph@,
            current_element@,
            0,
            (level + 1) as nat,
            limit as nat,
            *direction,
        );
        traversed_element_ids.push(current_element.get_element_id().to_owned());
        lines.push(Self::line_of(current_element.get_element_id(), level, direction));
        let childs = match direction {
            RelationshipDirection::Parent => current_element.get_in_id(),
            RelationshipDirection::Child => current_element.get_out_id(),
        };
        let ghost edges = edges_towards(current_element@, *direction);
        let ghost ids_here = ids_before.push(here.element_id);
        let ghost lines_here = lines_before.push(visit_line(here, *direction));
        proof {
            assert(string_views(traversed_element_ids@) =~= ids_here);
            assert(line_views(lines@) =~= lines_here);
            assert(ids_here + visit_ids(below) =~= ids_before + visit_ids(seq![here] + below));
            assert(lines_here + visit_lines(below, *direction) =~= lines_before + visit_lines(
                seq![here] + below,
                *direction,
            ));
        }
        let mut i: usize = 0;
        while i < childs.len()
            invariant
                i <= childs.len(),
                level <= limit < u32::MAX,
                childs@.len() == edges.len(),
                forall|k: int| 0 <= k < childs@.len() ==> (#[trigger] childs@[k])@ == edges[k],
                edges == edges_towards(current_element@, *direction),
                string_views(traversed_element_ids@) + visit_ids(
                    visits_below(full_graph@, current_element@, i as nat, (level + 1) as nat, limit as nat, *direction),
                ) == ids_here + visit_ids(below),
                line_views(lines@) + visit_lines(
                    visits_below(full_graph@, current_element@, i as nat, (level + 1) as nat, limit as nat, *direction),
                    *direction,
                ) == lines_here + visit_lines(below, *direction),
            decreases childs.len() - i,
        {
            let child: &Path = childs[i];
            let next_element = full_graph.get_connection(child.1.as_str());
            let ghost step = visits_from(
                full_graph@,
                full_graph@.lookup(edges[i as int].neighbour),
                (level + 1) as nat,
                limit as nat,
                *direction,
            );
            let ghost rest = visits_below(
                full_graph@,
                current_element@,
                (i + 1) as nat,
                (level + 1) as nat,
                limit as nat,
                *direction,
            );
            let ghost ids_now = string_views(traversed_element_ids@);
            let ghost lines_now = line_views(lines@);
            proof {
                assert(child@ == edges[i as int]);
                assert(visit_ids(step + rest) =~= visit_ids(step) + visit_ids(rest));
                assert(visit_lines(step + rest, *direction) =~= visit_lines(step, *direction) + visit_lines(
                    rest,
                    *direction,
                ));
                assert((ids_now + visit_ids(step)) + visit_ids(rest) =~= ids_now + (visit_ids(step) + visit_ids(
                    rest,
                )));
                assert((lines_now + visit_lines(step, *direction)) + visit_lines(rest, *direction) =~= lines_now
                    + (visit_lines(step, *direction) + visit_lines(rest, *direction)));
            }
            Self::dfs(full_graph, next_element, traversed_element_ids, level + 1, limit, direction, lines);
            i += 1;
        }
        proof {
            assert(string_views(traversed_element_ids@) + visit_ids(none) =~= string_views(
                traversed_element_ids@,
            ));
            assert(line_views(lines@) + visit_lines(none, *direction) =~= line_views(lines@));
        }
    }

    /// The line of the element `id` at `level`.
    fn line_of(id: &str, level: u32, direction: &RelationshipDirection) -> (line: OutputLine<String>)
        ensures
            line_view(line) == visit_line(Visit { element_id: id@, level: level as nat }, *direction),
    {
        let mut output_line: OutputLine<String> = OutputLine::new();
        let mut tabs: u32 = 0;
        assert(line_view(output_line) =~= Seq::new(0, |i: int| OutputToken::<Key>::Tab));
        while tabs < level
            invariant
                tabs <= level,
                line_view(output_line) == Seq::new(tabs as nat, |i: int| OutputToken::<Key>::Tab),
            decreases level - tabs,
        {
            let ghost before = line_view(output_line);
            output_line.push(OutputToken::Tab);
            tabs += 1;
            assert(line_view(output_line) =~= before.push(OutputToken::<Key>::Tab));
            assert(line_view(output_line) =~= Seq::new(tabs as nat, |i: int| OutputToken::<Key>::Tab));
        }
        if level != 0 {
            let ghost before = line_view(output_line);
            match direction {
                RelationshipDirection::Parent => {
                    output_line.push(OutputToken::InArrow);
                    assert(line_view(output_line) =~= before.push(OutputToken::<Key>::InArrow));
                },
                RelationshipDirection::Child => {
                    output_line.push(OutputToken::OutArrow);
                    assert(line_view(output_line) =~= before.push(OutputToken::<Key>::OutArrow));
                },
            };
        }
        let ghost before = line_view(output_line);
        output_line.push(OutputToken::Value(id.to_owned()));
        assert(line_view(output_line) =~= before.push(OutputToken::Value(id@)));
        output_line
    }

    fn parse_parent(
        source_graph: &ElementGraph,
        target_graph: &mut ElementGraph,
        current_element_connector: &ElementConnector,
        current_level: u32,
        limit: u32,
    )
        ensures
            final(target_graph)@ == walked(
                source_graph@,
                old(target_graph)@,
                current_element_connector@,
                0,
                current_level as nat,
                limit as nat,
                RelationshipDirection::Parent,
            ),
    {
        walk(
            source_graph,
            target_graph,
            current_element_connector,
            current_level,
            limit,
            &RelationshipDirection::Parent,
        );
    }

    fn parse_child(
        source_graph: &ElementGraph,
        target_graph: &mut ElementGraph,
        current_element_connector: &ElementConnector,
        current_level: u32,
        limit: u32,
    )
        ensures
            final(target_graph)@ == walked(
                source_graph@,
                old(target_graph)@,
                current_element_connector@,
                0,
                current_level as nat,
                limit as nat,
                RelationshipDirection::Child,
            ),
    {
        walk(
            source_graph,
            target_graph,
            current_element_connector,
            current_level,
            limit,
            &RelationshipDirection::Child,
        );
    }
}

/// A connector on the way of a walk, with its edges on the side of the
/// walk, the position of the edge that comes next, and the level at which
/// the neighbours of the connector lie.
struct Frame<'a> {
    connector: &'a ElementConnector,
    edges: Vec<&'a Path>,
    next: usize,
    level: u32,
}

/// The edges of a frame are those of its connector on the side of the walk,
/// and its level lies within the limit.
spec fn frame_is_sound(frame: Frame, limit: nat, direction: RelationshipDirection) -> bool {
    let edges = edges_towards(frame.connector@, direction);
    &&& frame.edges@.len() == edges.len()
    &&& forall|k: int| 0 <= k < edges.len() ==> (#[trigger] frame.edges@[k])@ == edges[k]
    &&& frame.level <= limit
}

/// How many steps a walk takes that goes on from position `from` of the
/// edges of `current`.
spec fn steps_left(
    source: GraphView,
    current: ConnectorView,
    from: nat,
    level: nat,
    limit: nat,
    direction: RelationshipDirection,
) -> nat
    decreases limit + 1 - level, edges_towards(current, direction).len() - from,
{
    let edges = edges_towards(current, direction);
    if level > limit || from >= edges.len() {
        1
    } else {
        match source.lookup(edges[from as int].neighbour) {
            None => 1,
            Some(found) => 1 + steps_left(source, found, 0, level + 1, limit, direction) + steps_left(
                source,
                current,
                from + 1,
                level,
                limit,
                direction,
            ),
        }
    }
}

/// How many steps are left for the frames of a walk.
spec fn steps_pending(source: GraphView, frames: Seq<Frame>, limit: nat, direction: RelationshipDirection) -> nat
    decreases frames.len(),
{
    if frames.len() == 0 {
        0
    } else {
        steps_pending(source, frames.drop_last(), limit, direction) + steps_left(
            source,
            frames.last().connector@,
            frames.last().next as nat,
            frames.last().level as nat,
            limit,
            direction,
        )
    }
}

/// `result` after the walk has gone on from each of `frames`, the last
/// first.
spec fn unwound(
    source: GraphView,
    result: GraphView,
    frames: Seq<Frame>,
    limit: nat,
    direction: RelationshipDirection,
) -> GraphView
    decreases frames.len(),
{
    if frames.len() == 0 {
        result
    } else {
        unwound(
            source,
            walked(
                source,
                result,
                frames.last().connector@,
                frames.last().next as nat,
                frames.last().level as nat,
                limit,
                direction,
            ),
            frames.drop_last(),
            limit,
            direction,
        )
    }
}

/// A frame on top of the others is the first from which the walk goes on.
proof fn lemma_frame_on_top(
    source: GraphView,
    result: GraphView,
    frames: Seq<Frame>,
    frame: Frame,
    limit: nat,
    direction: RelationshipDirection,
)
    ensures
        unwound(source, result, frames.push(frame), limit, direction) == unwound(
            source,
            walked(source, result, frame.connector@, frame.next as nat, frame.level as nat, limit, direction),
            frames,
            limit,
            direction,
        ),
        steps_pending(source, frames.push(frame), limit, direction) == steps_pending(
            source,
            frames,
            limit,
            direction,
        ) + steps_left(source, frame.connector@, frame.next as nat, frame.level as nat, limit, direction),
        steps_left(source, frame.connector@, frame.next as nat, frame.level as nat, limit, direction) >= 1,
{
    assert(frames.push(frame).drop_last() =~= frames);
    assert(frames.push(frame).last() == frame);
}

/// The edges of `connector` on the side that a walk in `direction` follows.
fn edges_of<'a>(connector: &'a ElementConnector, direction: &RelationshipDirection) -> (edges: Vec<&'a Path>)
    ensures
        edges@.len() == edges_towards(connector@, *direction).len(),
        forall|k: int| 0 <= k < edges@.len() ==> (#[trigger] edges@[k])@ == edges_towards(connector@, *direction)[k],
{
    match direction {
        RelationshipDirection::Parent => connector.get_in_id(),
        RelationshipDirection::Child => connector.get_out_id(),
    }
}

/// The copy of `found` that a walk in `direction` puts into a subgraph.
fn pruned_copy(found: &ElementConnector, reached_from: &str, at_limit: bool, direction: &RelationshipDirection) -> (copy:
    ElementConnector)
    ensures
        copy@ == pruned(found@, reached_from@, at_limit, *direction),
{
    let mut copy = found.clone();
    match direction {
        RelationshipDirection::Parent => {
            if at_limit {
                copy.clear_in_id();
            }
            copy.retain_out_id(reached_from);
        },
        RelationshipDirection::Child => {
            if at_limit {
                copy.clear_out_id();
            }
        },
    }
    copy
}

/// Walks from `start` in `direction` and puts what it comes to into
/// `target_graph`. The way back is kept on a stack of frames, so that the
/// walk goes as deep as the limit lets it.
fn walk(
    source_graph: &ElementGraph,
    target_graph: &mut ElementGraph,
    start: &ElementConnector,
    level: u32,
    limit: u32,
    direction: &RelationshipDirection,
)
    ensures
        final(target_graph)@ == walked(
            source_graph@,
            old(target_graph)@,
            start@,
            0,
            level as nat,
            limit as nat,
            *direction,
        ),
{
    if level > limit {
        return ;
    }
    let ghost source = source_graph@;
    let ghost goal = walked(source, target_graph@, start@, 0, level as nat, limit as nat, *direction);
    let mut stack: Vec<Frame> = Vec::new();
    let first = Frame { connector: start, edges: edges_of(start, direction), next: 0, level };
    stack.push(first);
    proof {
        assert(stack@ =~= Seq::<Frame>::empty().push(first));
        lemma_frame_on_top(source, target_graph@, Seq::<Frame>::empty(), first, limit as nat, *direction);
    }
    while stack.len() > 0
        invariant
            source == source_graph@,
            forall|k: int| 0 <= k < stack@.len() ==> frame_is_sound(#[trigger] stack@[k], limit as nat, *direction),
            unwound(source, target_graph@, stack@, limit as nat, *direction) == goal,
        decreases steps_pending(source, stack@, limit as nat, *direction),
    {
        let ghost before = stack@;
        let ghost result = target_graph@;
        let frame = match stack.pop() {
            Some(frame) => frame,
            None => {
                return ;
            },
        };
        let ghost rest = stack@;
        let ghost current = frame.connector@;
        let ghost edges = edges_towards(current, *direction);
        proof {
            assert(rest =~= before.drop_last());
            assert(frame == before.last());
            assert(before =~= rest.push(frame));
            lemma_frame_on_top(source, result, rest, frame, limit as nat, *direction);
            assert(frame_is_sound(before[before.len() - 1], limit as nat, *direction));
            assert forall|k: int| 0 <= k < rest.len() implies frame_is_sound(
                #[trigger] rest[k],
                limit as nat,
                *direction,
            ) by {
                assert(rest[k] == before[k]);
            }
        }
        let ghost from_frame = walked(
            source,
            result,
            current,
            frame.next as nat,
            frame.level as nat,
            limit as nat,
            *direction,
        );
        assert(unwound(source, from_frame, rest, limit as nat, *direction) == goal);
        if frame.next < frame.edges.len() {
            let path: &Path = frame.edges[frame.next];
            assert(path@ == edges[frame.next as int]);
            match source_graph.get_connection(path.1.as_str()) {
                Some(found) => {
                    let copy = pruned_copy(found, frame.connector.get_element_id(), frame.level == limit, direction);
                    target_graph.push_connector(path.1.as_str(), copy);
                    target_graph.add_connected_relationship(path.0.as_str());
                    let ghost placed = target_graph@;
                    let ghost beyond = walked(
                        source,
                        placed,
                        found@,
                        0,
                        (frame.level + 1) as nat,
                        limit as nat,
                        *direction,
                    );
                    let again = Frame {
                        connector: frame.connector,
                        edges: frame.edges,
                        next: frame.next + 1,
                        level: frame.level,
                    };
                    proof {
                        assert(source.lookup(edges[frame.next as int].neighbour) == Some(found@));
                        assert(placed == result.with_connector(
                            path@.neighbour,
                            pruned(found@, current.element_id, frame.level == limit, *direction),
                        ).with_connected(path@.relationship));
                        assert(from_frame == walked(
                            source,
                            beyond,
                            current,
                            (frame.next + 1) as nat,
                            frame.level as nat,
                            limit as nat,
                            *direction,
                        ));
                        assert(frame_is_sound(again, limit as nat, *direction));
                        lemma_frame_on_top(source, beyond, rest, again, limit as nat, *direction);
                        assert(unwound(source, beyond, rest.push(again), limit as nat, *direction) == goal);
                    }
                    stack.push(again);
                    assert(stack@ =~= rest.push(again));
                    if frame.level < limit {
                        let deeper = Frame {
                            connector: found,
                            edges: edges_of(found, direction),
                            next: 0,
                            level: frame.level + 1,
                        };
                        proof {
                            assert(frame_is_sound(deeper, limit as nat, *direction));
                            lemma_frame_on_top(source, placed, rest.push(again), deeper, limit as nat, *direction);
                        }
                        stack.push(deeper);
                        assert(stack@ =~= rest.push(again).push(deeper));
                        assert(unwound(source, placed, stack@, limit as nat, *direction) == goal);
                    } else {
                        assert(beyond == placed);
                        assert(unwound(source, placed, stack@, limit as nat, *direction) == goal);
                    }
                    proof {
                        assert forall|k: int| 0 <= k < stack@.len() implies frame_is_sound(
                            #[trigger] stack@[k],
                            limit as nat,
                            *direction,
                        ) by {
                            if k < rest.len() {
                                assert(stack@[k] == rest[k]);
                            }
                        }
                    }
                },
                None => {
                    assert(from_frame == result);
                },
            }
        } else {
            assert(from_frame == result);
        }
    }
}

/// `lines` from the last to the first.
fn reversed_lines(lines: Vec<OutputLine<String>>) -> (reversed: Vec<OutputLine<String>>)
    ensures
        line_views(reversed@) == line_views(lines@).reverse(),
{
    let mut lines = lines;
    let ghost all = lines@;
    let mut reversed: Vec<OutputLine<String>> = Vec::new();
    while lines.len() > 0
        invariant
            lines@.len() + reversed@.len() == all.len(),
            lines@ == all.take(lines@.len() as int),
            forall|k: int| 0 <= k < reversed@.len() ==> reversed@[k] == all[all.len() - 1 - k],
        decreases lines.len(),
    {
        let line = lines.pop();
        match line {
            Some(line) => {
                reversed.push(line);
            },
            None => {},
        }
        assert(lines@ =~= all.take(lines@.len() as int));
    }
    assert(line_views(reversed@) =~= line_views(all).reverse());
    reversed
}

} // verus!
