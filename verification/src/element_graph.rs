use crate::key_index::KeyIndex;
use crate::keyed::{
    distinct, first_index, lemma_first_index, lemma_first_index_is, lemma_first_index_none, string_views, Key,
};
use vstd::prelude::*;
use vstd::string::StringExecFns;

verus! {

/// A directed edge reference: the relationship's id, then the id of the
/// element at the other end of it.
#[derive(Debug)]
pub struct Path(pub String, pub String);

/// What a `Path` stands for.
pub struct PathView {
    pub relationship: Seq<char>,
    pub neighbour: Seq<char>,
}

impl View for Path {
    type V = PathView;

    open spec fn view(&self) -> PathView {
        PathView { relationship: self.0@, neighbour: self.1@ }
    }
}

impl Clone for Path {
    fn clone(&self) -> (copy: Self)
        ensures
            copy@ == self@,
    {
        Path(self.0.clone(), self.1.clone())
    }
}

/// The views of a list of paths, in order.
pub open spec fn path_views(paths: Seq<Path>) -> Seq<PathView> {
    paths.map_values(|p: Path| p@)
}

/// One node of the graph: an element's id with its inbound and outbound
/// edges, each list in the order in which the edges were added.
#[derive(Debug)]
pub struct ElementConnector {
    element_id: String,
    in_ids: Vec<Path>,
    out_ids: Vec<Path>,
}

/// What an `ElementConnector` stands for.
pub struct ConnectorView {
    pub element_id: Seq<char>,
    pub inbound: Seq<PathView>,
    pub outbound: Seq<PathView>,
}

impl View for ElementConnector {
    type V = ConnectorView;

    closed spec fn view(&self) -> ConnectorView {
        ConnectorView {
            element_id: self.element_id@,
            inbound: path_views(self.in_ids@),
            outbound: path_views(self.out_ids@),
        }
    }
}

/// The edges of `paths` that lead to `id`, in their order.
pub open spec fn paths_to(paths: Seq<PathView>, id: Seq<char>) -> Seq<PathView> {
    paths.filter(|p: PathView| p.neighbour == id)
}

fn clone_paths(paths: &Vec<Path>) -> (copy: Vec<Path>)
    ensures
        path_views(copy@) == path_views(paths@),
{
    let mut copy: Vec<Path> = Vec::new();
    let mut i: usize = 0;
    while i < paths.len()
        invariant
            i <= paths.len(),
            copy@.len() == i,
            forall|j: int| 0 <= j < i ==> copy@[j]@ == paths@[j]@,
        decreases paths.len() - i,
    {
        copy.push(paths[i].clone());
        i += 1;
    }
    assert(path_views(copy@) =~= path_views(paths@));
    copy
}

fn keep_paths_to(paths: &Vec<Path>, id: &str) -> (kept: Vec<Path>)
    ensures
        path_views(kept@) == paths_to(path_views(paths@), id@),
{
    let wanted = id.to_owned();
    let mut kept: Vec<Path> = Vec::new();
    let mut i: usize = 0;
    while i < paths.len()
        invariant
            i <= paths.len(),
            wanted@ == id@,
            path_views(kept@) == paths_to(path_views(paths@).take(i as int), id@),
        decreases paths.len() - i,
    {
        let ghost before = path_views(paths@).take(i as int);
        let ghost after = path_views(paths@).take(i + 1);
        proof {
            assert(after.drop_last() =~= before);
            assert(after.last() == paths@[i as int]@);
            reveal(Seq::filter);
        }
        if paths[i].1 == wanted {
            let ghost old_kept = path_views(kept@);
            kept.push(paths[i].clone());
            assert(path_views(kept@) =~= old_kept.push(paths@[i as int]@));
        }
        i += 1;
    }
    assert(path_views(paths@).take(paths@.len() as int) =~= path_views(paths@));
    kept
}

impl ElementConnector {
    /// A connector for `id` without edges.
    pub(crate) fn new(id: &str) -> (connector: Self)
        ensures
            connector@ == (ConnectorView { element_id: id@, inbound: Seq::empty(), outbound: Seq::empty() }),
    {
        let connector = ElementConnector { element_id: id.to_owned(), in_ids: Vec::new(), out_ids: Vec::new() };
        assert(path_views(connector.in_ids@) =~= Seq::empty());
        assert(path_views(connector.out_ids@) =~= Seq::empty());
        connector
    }

    pub fn get_element_id(&self) -> (id: &str)
        ensures
            id@ == self@.element_id,
    {
        self.element_id.as_str()
    }

    pub fn get_in_id(&self) -> (paths: Vec<&Path>)
        ensures
            paths@.len() == self@.inbound.len(),
            forall|i: int| 0 <= i < paths@.len() ==> (#[trigger] paths@[i])@ == self@.inbound[i],
    {
        let mut paths: Vec<&Path> = Vec::new();
        let mut i: usize = 0;
        while i < self.in_ids.len()
            invariant
                i <= self.in_ids.len(),
                paths@.len() == i,
                forall|j: int| 0 <= j < i ==> (#[trigger] paths@[j])@ == self.in_ids@[j]@,
            decreases self.in_ids.len() - i,
        {
            paths.push(&self.in_ids[i]);
            i += 1;
        }
        paths
    }

    pub fn get_out_id(&self) -> (paths: Vec<&Path>)
        ensures
            paths@.len() == self@.outbound.len(),
            forall|i: int| 0 <= i < paths@.len() ==> (#[trigger] paths@[i])@ == self@.outbound[i],
    {
        let mut paths: Vec<&Path> = Vec::new();
        let mut i: usize = 0;
        while i < self.out_ids.len()
            invariant
                i <= self.out_ids.len(),
                paths@.len() == i,
                forall|j: int| 0 <= j < i ==> (#[trigger] paths@[j])@ == self.out_ids@[j]@,
            decreases self.out_ids.len() - i,
        {
            paths.push(&self.out_ids[i]);
            i += 1;
        }
        paths
    }

    pub fn clear_in_id(&mut self)
        ensures
            final(self)@ == (ConnectorView { inbound: Seq::empty(), ..old(self)@ }),
    {
        self.in_ids.clear();
        assert(path_views(self.in_ids@) =~= Seq::empty());
    }

    pub fn clear_out_id(&mut self)
        ensures
            final(self)@ == (ConnectorView { outbound: Seq::empty(), ..old(self)@ }),
    {
        self.out_ids.clear();
        assert(path_views(self.out_ids@) =~= Seq::empty());
    }

    pub fn retain_in_id(&mut self, id: &str)
        ensures
            final(self)@ == (ConnectorView { inbound: paths_to(old(self)@.inbound, id@), ..old(self)@ }),
    {
        self.in_ids = keep_paths_to(&self.in_ids, id);
    }

    pub fn retain_out_id(&mut self, id: &str)
        ensures
            final(self)@ == (ConnectorView { outbound: paths_to(old(self)@.outbound, id@), ..old(self)@ }),
    {
        self.out_ids = keep_paths_to(&self.out_ids, id);
    }

    /// Adds an inbound edge behind those that are there.
    pub(crate) fn push_in(&mut self, path: Path)
        ensures
            final(self)@ == (ConnectorView { inbound: old(self)@.inbound.push(path@), ..old(self)@ }),
    {
        self.in_ids.push(path);
        assert(path_views(self.in_ids@) =~= path_views(old(self).in_ids@).push(path@));
    }

    /// Adds an outbound edge behind those that are there.
    pub(crate) fn push_out(&mut self, path: Path)
        ensures
            final(self)@ == (ConnectorView { outbound: old(self)@.outbound.push(path@), ..old(self)@ }),
    {
        self.out_ids.push(path);
        assert(path_views(self.out_ids@) =~= path_views(old(self).out_ids@).push(path@));
    }

    pub fn is_in_ids_empty(&self) -> (empty: bool)
        ensures
            empty == (self@.inbound.len() == 0),
    {
        self.in_ids.is_empty()
    }

    pub fn is_out_ids_empty(&self) -> (empty: bool)
        ensures
            empty == (self@.outbound.len() == 0),
    {
        self.out_ids.is_empty()
    }
}

/// The lines of the inbound edges of a connector: where each comes from,
/// and by which relationship.
pub open spec fn inbound_lines(paths: Seq<PathView>) -> Seq<char>
    decreases paths.len(),
{
    if paths.len() == 0 {
        Seq::empty()
    } else {
        inbound_lines(paths.drop_last()) + "<"@ + paths.last().neighbour + "> -- ("@
            + paths.last().relationship + ") --> \n"@
    }
}

/// The lines of the outbound edges of a connector: by which relationship
/// each goes, and where to.
pub open spec fn outbound_lines(paths: Seq<PathView>) -> Seq<char>
    decreases paths.len(),
{
    if paths.len() == 0 {
        Seq::empty()
    } else {
        outbound_lines(paths.drop_last()) + "                 -- ("@ + paths.last().relationship
            + ") --> <"@ + paths.last().neighbour + ">\n"@
    }
}

/// A connector drawn in text: its inbound edges, its element, its outbound
/// edges.
pub open spec fn connector_text(connector: ConnectorView) -> Seq<char> {
    inbound_lines(connector.inbound) + "              ["@ + connector.element_id + "] \n"@ + outbound_lines(
        connector.outbound,
    )
}

impl ElementConnector {
    /// The connector drawn in text.
    pub fn to_string(&self) -> (text: String)
        ensures
            text@ == connector_text(self@),
    {
        let mut text = String::new();
        let ghost inbound = path_views(self.in_ids@);
        let ghost outbound = path_views(self.out_ids@);
        let mut i: usize = 0;
        assert(text@ =~= inbound_lines(inbound.take(0)));
        while i < self.in_ids.len()
            invariant
                i <= self.in_ids.len(),
                inbound == path_views(self.in_ids@),
                text@ == inbound_lines(inbound.take(i as int)),
            decreases self.in_ids.len() - i,
        {
            proof {
                assert(inbound.take(i + 1).drop_last() =~= inbound.take(i as int));
                assert(inbound.take(i + 1).last() == self.in_ids@[i as int]@);
            }
            text.append("<");
            text.append(self.in_ids[i].1.as_str());
            text.append("> -- (");
            text.append(self.in_ids[i].0.as_str());
            text.append(") --> \n");
            i += 1;
        }
        assert(inbound.take(inbound.len() as int) =~= inbound);
        text.append("              [");
        text.append(self.element_id.as_str());
        text.append("] \n");
        let ghost head = text@;
        let mut j: usize = 0;
        assert(text@ =~= head + outbound_lines(outbound.take(0)));
        while j < self.out_ids.len()
            invariant
                j <= self.out_ids.len(),
                outbound == path_views(self.out_ids@),
                text@ == head + outbound_lines(outbound.take(j as int)),
            decreases self.out_ids.len() - j,
        {
            proof {
                assert(outbound.take(j + 1).drop_last() =~= outbound.take(j as int));
                assert(outbound.take(j + 1).last() == self.out_ids@[j as int]@);
            }
            let ghost before = outbound_lines(outbound.take(j as int));
            text.append("                 -- (");
            text.append(self.out_ids[j].0.as_str());
            text.append(") --> <");
            text.append(self.out_ids[j].1.as_str());
            text.append(">\n");
            assert(text@ =~= head + (before + "                 -- ("@ + self.out_ids@[j as int].0@
                + ") --> <"@ + self.out_ids@[j as int].1@ + ">\n"@));
            j += 1;
        }
        assert(outbound.take(outbound.len() as int) =~= outbound);
        text
    }
}

impl Clone for ElementGraph {
    fn clone(&self) -> (copy: Self)
        ensures
            copy@ == self@,
    {
        proof {
            use_type_invariant(self);
        }
        let mut connectors: Vec<ElementConnector> = Vec::new();
        let mut i: usize = 0;
        while i < self.nodes.connectors.len()
            invariant
                i <= self.nodes.connectors.len(),
                connectors@.len() == i,
                forall|j: int| 0 <= j < i ==> connectors@[j]@ == self.nodes.connectors@[j]@,
            decreases self.nodes.connectors.len() - i,
        {
            connectors.push(self.nodes.connectors[i].clone());
            i += 1;
        }
        let index = self.nodes.index.clone();
        assert(node_views(index@, connectors@) =~= node_views(self.nodes.index@, self.nodes.connectors@));
        ElementGraph {
            nodes: Nodes { index, connectors },
            connected_relationship: self.get_connected_relationship(),
        }
    }
}

impl Clone for ElementConnector {
    fn clone(&self) -> (copy: Self)
        ensures
            copy@ == self@,
    {
        ElementConnector {
            element_id: self.element_id.clone(),
            in_ids: clone_paths(&self.in_ids),
            out_ids: clone_paths(&self.out_ids),
        }
    }
}

/// A connector without edges.
pub open spec fn blank_connector(id: Key) -> ConnectorView {
    ConnectorView { element_id: id, inbound: Seq::empty(), outbound: Seq::empty() }
}

/// The keys of a list of connectors under their keys, in order.
pub open spec fn keys_of(connectors: Seq<(Key, ConnectorView)>) -> Seq<Key> {
    connectors.map_values(|entry: (Key, ConnectorView)| entry.0)
}

/// What an `ElementGraph` stands for: its connectors under their keys, in the
/// order in which the keys came in, and the relationships recorded as
/// connected, in the order in which they were recorded.
pub struct GraphView {
    pub connectors: Seq<(Key, ConnectorView)>,
    pub connected: Seq<Key>,
}

impl GraphView {
    pub open spec fn empty() -> GraphView {
        GraphView { connectors: Seq::empty(), connected: Seq::empty() }
    }

    /// The keys, in the order in which they came in.
    pub open spec fn keys(self) -> Seq<Key> {
        keys_of(self.connectors)
    }

    /// Where the connector under `key` stands.
    pub open spec fn position(self, key: Key) -> Option<int> {
        first_index(self.keys(), key)
    }

    pub open spec fn contains_key(self, key: Key) -> bool {
        self.position(key) is Some
    }

    /// The connector under `key`.
    pub open spec fn lookup(self, key: Key) -> Option<ConnectorView> {
        match self.position(key) {
            Some(i) => Some(self.connectors[i].1),
            None => None,
        }
    }

    /// The graph with `connector` under `key`, in the place of the one that
    /// was there or, where none was, behind the others.
    pub open spec fn with_connector(self, key: Key, connector: ConnectorView) -> GraphView {
        match self.position(key) {
            Some(i) => GraphView { connectors: self.connectors.update(i, (key, connector)), ..self },
            None => GraphView { connectors: self.connectors.push((key, connector)), ..self },
        }
    }

    /// The graph with a connector without edges under `key`, unless it has
    /// one under that key.
    pub open spec fn with_blank(self, key: Key) -> GraphView {
        if self.contains_key(key) {
            self
        } else {
            GraphView { connectors: self.connectors.push((key, blank_connector(key))), ..self }
        }
    }

    /// The graph with `relationship` recorded as connected once more.
    pub open spec fn with_connected(self, relationship: Key) -> GraphView {
        GraphView { connected: self.connected.push(relationship), ..self }
    }

    /// The graph with `path` added to the outbound edges under `key`; the
    /// graph itself where it has nothing under `key`.
    pub open spec fn with_outbound(self, key: Key, path: PathView) -> GraphView {
        match self.position(key) {
            Some(i) => {
                let (k, c) = self.connectors[i];
                let grown = ConnectorView { outbound: c.outbound.push(path), ..c };
                GraphView { connectors: self.connectors.update(i, (k, grown)), ..self }
            },
            None => self,
        }
    }

    /// The graph with `path` added to the inbound edges under `key`; the
    /// graph itself where it has nothing under `key`.
    pub open spec fn with_inbound(self, key: Key, path: PathView) -> GraphView {
        match self.position(key) {
            Some(i) => {
                let (k, c) = self.connectors[i];
                let grown = ConnectorView { inbound: c.inbound.push(path), ..c };
                GraphView { connectors: self.connectors.update(i, (k, grown)), ..self }
            },
            None => self,
        }
    }

    /// Whether every connector stands under its own element id.
    pub open spec fn own_ids(self) -> bool {
        forall|i: int|
            0 <= i < self.connectors.len() ==> (#[trigger] self.connectors[i]).1.element_id
                == self.connectors[i].0
    }

    /// The graph after linking `from` to `to` by `relationship`: each end
    /// that is there gets its half of the edge, and the relationship is
    /// recorded as connected only where both ends are there.
    pub open spec fn linked(self, relationship: Key, from: Key, to: Key) -> GraphView {
        let half = self.with_outbound(from, PathView { relationship, neighbour: to });
        let full = half.with_inbound(to, PathView { relationship, neighbour: from });
        if self.contains_key(from) && self.contains_key(to) {
            full.with_connected(relationship)
        } else {
            full
        }
    }
}

/// After `with_connector`, `key` leads to `connector`, every other key leads
/// to what it led to before, and the keys are those of before, with `key`
/// behind them where it is new.
pub proof fn lemma_with_connector(graph: GraphView, key: Key, connector: ConnectorView, other: Key)
    ensures
        graph.with_connector(key, connector).lookup(key) == Some(connector),
        other != key ==> graph.with_connector(key, connector).lookup(other) == graph.lookup(other),
        graph.with_connector(key, connector).contains_key(other) <==> other == key
            || graph.contains_key(other),
        graph.with_connector(key, connector).keys() == if graph.contains_key(key) {
            graph.keys()
        } else {
            graph.keys().push(key)
        },
        graph.with_connector(key, connector).connected == graph.connected,
        distinct(graph.keys()) ==> distinct(graph.with_connector(key, connector).keys()),
{
    let after = graph.with_connector(key, connector);
    let keys = graph.keys();
    lemma_first_index(keys, key);
    lemma_first_index(keys, other);
    match graph.position(key) {
        Some(i) => {
            assert(after.keys() =~= keys);
            if other != key {
                if let Some(p) = graph.position(other) {
                    assert(keys[p] == other);
                    assert(p != i);
                }
            }
        },
        None => {
            assert(after.keys() =~= keys.push(key));
            assert forall|i: int, j: int| 0 <= i < j < after.keys().len() && distinct(
                keys,
            ) implies after.keys()[i] != after.keys()[j] by {
                assert(after.keys()[i] == keys[i]);
            }
            lemma_first_index_is(after.keys(), key, keys.len() as int);
            if other != key {
                match graph.position(other) {
                    Some(p) => {
                        assert forall|j: int| 0 <= j < p implies after.keys()[j] != other by {
                            assert(after.keys()[j] == keys[j]);
                        }
                        lemma_first_index_is(after.keys(), other, p);
                    },
                    None => {
                        assert forall|j: int| 0 <= j < after.keys().len() implies after.keys()[j]
                            != other by {
                            if j < keys.len() {
                                assert(after.keys()[j] == keys[j]);
                            }
                        }
                        lemma_first_index_none(after.keys(), other);
                    },
                }
            }
        },
    }
}

/// In a graph whose connectors stand under their own ids, what a key leads
/// to has that key for its id. Adding a connector without edges, linking,
/// and putting a connector under its own id keep the graph so.
pub proof fn lemma_own_ids(graph: GraphView, key: Key, connector: ConnectorView, relationship: Key, to: Key)
    requires
        graph.own_ids(),
    ensures
        graph.lookup(key) matches Some(found) ==> found.element_id == key,
        graph.with_blank(key).own_ids(),
        graph.linked(relationship, key, to).own_ids(),
        graph.with_connected(relationship).own_ids(),
        connector.element_id == key ==> graph.with_connector(key, connector).own_ids(),
{
    lemma_first_index(graph.keys(), key);
    lemma_first_index(graph.keys(), to);
    let half = graph.with_outbound(key, PathView { relationship, neighbour: to });
    assert(half.keys() =~= graph.keys());
    assert(half.own_ids());
    lemma_first_index(half.keys(), to);
    let full = half.with_inbound(to, PathView { relationship, neighbour: key });
    assert(full.own_ids());
    if let Some(i) = graph.position(key) {
        assert(graph.keys()[i] == graph.connectors[i].0);
    }
}

/// After `with_blank`, the keys are those of before, with `key` behind them
/// where it is new; every connector that was there is there unchanged.
pub proof fn lemma_with_blank(graph: GraphView, key: Key, other: Key)
    ensures
        graph.with_blank(key).contains_key(other) <==> other == key || graph.contains_key(other),
        graph.with_blank(key).keys() == if graph.contains_key(key) {
            graph.keys()
        } else {
            graph.keys().push(key)
        },
        graph.with_blank(key).connected == graph.connected,
        distinct(graph.keys()) ==> distinct(graph.with_blank(key).keys()),
        graph.contains_key(other) ==> graph.with_blank(key).lookup(other) == graph.lookup(other),
{
    if !graph.contains_key(key) {
        assert(graph.with_blank(key) == graph.with_connector(key, blank_connector(key)));
        lemma_with_connector(graph, key, blank_connector(key), other);
    }
}

/// Linking changes no key; it records the relationship only where both of
/// its ends are there.
pub proof fn lemma_linked(graph: GraphView, relationship: Key, from: Key, to: Key)
    ensures
        graph.linked(relationship, from, to).keys() == graph.keys(),
        graph.linked(relationship, from, to).connected == if graph.contains_key(from)
            && graph.contains_key(to) {
            graph.connected.push(relationship)
        } else {
            graph.connected
        },
{
    let half = graph.with_outbound(from, PathView { relationship, neighbour: to });
    lemma_first_index(graph.keys(), from);
    assert(half.keys() =~= graph.keys());
    let full = half.with_inbound(to, PathView { relationship, neighbour: from });
    lemma_first_index(half.keys(), to);
    assert(full.keys() =~= half.keys());
}

#[derive(Debug)]
struct Nodes {
    index: KeyIndex,
    connectors: Vec<ElementConnector>,
}

/// The adjacency structure: one connector under each key, and the ids of the
/// relationships recorded as connected.
#[derive(Debug)]
pub struct ElementGraph {
    nodes: Nodes,
    connected_relationship: Vec<String>,
}

/// What a list of keys and a list of connectors, one for each key, stand
/// for.
spec fn node_views(keys: Seq<Key>, connectors: Seq<ElementConnector>) -> Seq<(Key, ConnectorView)> {
    Seq::new(keys.len(), |i: int| (keys[i], connectors[i]@))
}

impl View for ElementGraph {
    type V = GraphView;

    closed spec fn view(&self) -> GraphView {
        GraphView {
            connectors: node_views(self.nodes.index@, self.nodes.connectors@),
            connected: string_views(self.connected_relationship@),
        }
    }
}

impl ElementGraph {
    #[verifier::type_invariant]
    closed spec fn one_connector_for_each_key(self) -> bool {
        self.nodes.index@.len() == self.nodes.connectors@.len()
    }

    pub fn new() -> (graph: Self)
        ensures
            graph@ == GraphView::empty(),
    {
        let graph = ElementGraph {
            nodes: Nodes { index: KeyIndex::new(), connectors: Vec::new() },
            connected_relationship: Vec::new(),
        };
        assert(graph@.connectors =~= Seq::empty());
        assert(graph@.connected =~= Seq::empty());
        graph
    }

    /// The connector under `id`.
    pub fn get_connection(&self, id: &str) -> (connector: Option<&ElementConnector>)
        ensures
            match connector {
                Some(c) => self@.lookup(id@) == Some(c@),
                None => self@.lookup(id@) is None,
            },
    {
        proof {
            use_type_invariant(self);
            assert(self@.keys() =~= self.nodes.index@);
        }
        match self.nodes.index.position(id) {
            Some(i) => Some(&self.nodes.connectors[i]),
            None => None,
        }
    }

    /// Adds a connector without edges under `id`, unless one is there.
    pub fn add_connector(&mut self, id: &str)
        ensures
            final(self)@ == old(self)@.with_blank(id@),
    {
        proof {
            use_type_invariant(&*self);
            assert(self@.keys() =~= self.nodes.index@);
        }
        let ghost before = self@;
        let mut nodes = Nodes { index: KeyIndex::new(), connectors: Vec::new() };
        std::mem::swap(&mut self.nodes, &mut nodes);
        assert(node_views(nodes.index@, nodes.connectors@) == before.connectors);
        if nodes.index.position(id).is_none() {
            let _ = nodes.index.insert(id);
            nodes.connectors.push(ElementConnector::new(id));
            assert(node_views(nodes.index@, nodes.connectors@) =~= before.connectors.push(
                (id@, blank_connector(id@)),
            ));
        }
        std::mem::swap(&mut self.nodes, &mut nodes);
    }

    /// Puts `connector` under `id`, in the place of the one that was there
    /// or, where none was, behind the others.
    pub fn push_connector(&mut self, id: &str, connector: ElementConnector)
        ensures
            final(self)@ == old(self)@.with_connector(id@, connector@),
    {
        proof {
            use_type_invariant(&*self);
            assert(self@.keys() =~= self.nodes.index@);
            lemma_first_index(self@.keys(), id@);
        }
        let ghost before = self@;
        let mut nodes = Nodes { index: KeyIndex::new(), connectors: Vec::new() };
        std::mem::swap(&mut self.nodes, &mut nodes);
        assert(node_views(nodes.index@, nodes.connectors@) == before.connectors);
        match nodes.index.position(id) {
            Some(i) => {
                nodes.connectors.set(i, connector);
                assert(node_views(nodes.index@, nodes.connectors@) =~= before.connectors.update(
                    i as int,
                    (id@, connector@),
                ));
            },
            None => {
                let _ = nodes.index.insert(id);
                nodes.connectors.push(connector);
                assert(node_views(nodes.index@, nodes.connectors@) =~= before.connectors.push((id@, connector@)));
            },
        }
        std::mem::swap(&mut self.nodes, &mut nodes);
    }

    /// Links `from_id` to `to_id` by `relationship_id`: each end that is
    /// there gets its half of the edge, also where the other end is missing.
    pub fn connect(&mut self, relationship_id: &str, from_id: &str, to_id: &str)
        ensures
            final(self)@ == old(self)@.linked(relationship_id@, from_id@, to_id@),
    {
        proof {
            use_type_invariant(&*self);
            assert(self@.keys() =~= self.nodes.index@);
        }
        let ghost before = self@;
        let mut nodes = Nodes { index: KeyIndex::new(), connectors: Vec::new() };
        std::mem::swap(&mut self.nodes, &mut nodes);
        assert(node_views(nodes.index@, nodes.connectors@) == before.connectors);
        let from = nodes.index.position(from_id);
        let to = nodes.index.position(to_id);
        if let Some(i) = from {
            let path = Path(relationship_id.to_owned(), to_id.to_owned());
            nodes.connectors[i].push_out(path);
        }
        let ghost half = before.with_outbound(from_id@, PathView { relationship: relationship_id@, neighbour: to_id@ });
        proof {
            assert(node_views(nodes.index@, nodes.connectors@) =~= half.connectors);
            assert(half.keys() =~= before.keys());
        }
        if let Some(j) = to {
            let path = Path(relationship_id.to_owned(), from_id.to_owned());
            nodes.connectors[j].push_in(path);
        }
        let ghost full = half.with_inbound(to_id@, PathView { relationship: relationship_id@, neighbour: from_id@ });
        proof {
            assert(node_views(nodes.index@, nodes.connectors@) =~= full.connectors);
        }
        std::mem::swap(&mut self.nodes, &mut nodes);
        if from.is_some() && to.is_some() {
            self.add_connected_relationship(relationship_id);
        }
    }

    /// Records `relationship_id` as connected once more.
    pub fn add_connected_relationship(&mut self, relationship_id: &str)
        ensures
            final(self)@ == old(self)@.with_connected(relationship_id@),
    {
        proof {
            use_type_invariant(&*self);
        }
        let ghost before = self.connected_relationship@;
        let mut connected: Vec<String> = Vec::new();
        std::mem::swap(&mut self.connected_relationship, &mut connected);
        connected.push(relationship_id.to_owned());
        assert(string_views(connected@) =~= string_views(before).push(relationship_id@));
        std::mem::swap(&mut self.connected_relationship, &mut connected);
    }

    /// The relationships recorded as connected, in the order in which they
    /// were recorded.
    pub fn get_connected_relationship(&self) -> (relationships: Vec<String>)
        ensures
            string_views(relationships@) == self@.connected,
    {
        let mut relationships: Vec<String> = Vec::new();
        let mut i: usize = 0;
        while i < self.connected_relationship.len()
            invariant
                i <= self.connected_relationship.len(),
                relationships@.len() == i,
                forall|j: int| 0 <= j < i ==> relationships@[j]@ == self.connected_relationship@[j]@,
            decreases self.connected_relationship.len() - i,
        {
            relationships.push(self.connected_relationship[i].clone());
            i += 1;
        }
        assert(string_views(relationships@) =~= self@.connected);
        relationships
    }

    /// The keys, each once, in the order in which they came in.
    pub fn get_all_elements(&self) -> (ids: Vec<String>)
        ensures
            string_views(ids@) == self@.keys(),
            distinct(string_views(ids@)),
    {
        proof {
            use_type_invariant(self);
            assert(self@.keys() =~= self.nodes.index@);
        }
        self.nodes.index.keys()
    }

    /// How many connectors there are: one for each key.
    pub fn get_connection_count(&self) -> (count: usize)
        ensures
            count == self@.connectors.len(),
            distinct(self@.keys()),
    {
        proof {
            use_type_invariant(self);
            assert(self@.keys() =~= self.nodes.index@);
        }
        self.nodes.index.len()
    }

    pub fn get_connected_relationship_count(&self) -> (count: usize)
        ensures
            count == self@.connected.len(),
    {
        self.connected_relationship.len()
    }
}

} // verus!
