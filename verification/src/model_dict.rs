use crate::cubs_model::{pointed, CusObject, Element, ModelData, ModelVersionNumber, Relationship};
use crate::json::{
    array_items, borrowed_entry_names, borrowed_models, json_model, lists_fields, object_entries, text_of,
    value_kind, JsonKind, JsonModel,
};
use crate::keyed::{
    first_index, first_seen, lemma_first_index, lemma_first_index_is, lemma_first_index_none, lemma_first_seen,
    present, string_views, Key,
};
use serde_json::Value;
use vstd::prelude::*;

verus! {

/// How often one type or one nature occurs.
#[derive(Debug)]
pub struct ElementCount {
    pub element: String,
    pub count: u32,
}

/// What an `ElementCount` stands for: the name, and how often it occurs.
pub type Tally = (Key, u32);

impl View for ElementCount {
    type V = Tally;

    open spec fn view(&self) -> Tally {
        (self.element@, self.count)
    }
}

impl Clone for ElementCount {
    fn clone(&self) -> (copy: Self)
        ensures
            copy@ == self@,
    {
        ElementCount { element: self.element.clone(), count: self.count }
    }
}

/// The counts of a grouping, the most frequent first.
#[derive(Debug)]
pub struct ElementCounts {
    pub value: Vec<ElementCount>,
}

impl View for ElementCounts {
    type V = Seq<Tally>;

    open spec fn view(&self) -> Seq<Tally> {
        self.value@.map_values(|count: ElementCount| count@)
    }
}

impl Default for ElementCounts {
    fn default() -> (counts: Self)
        ensures
            counts@ == Seq::<Tally>::empty(),
    {
        let counts = ElementCounts { value: Vec::new() };
        assert(counts@ =~= Seq::<Tally>::empty());
        counts
    }
}

impl Clone for ElementCounts {
    fn clone(&self) -> (copy: Self)
        ensures
            copy@ == self@,
    {
        let mut value: Vec<ElementCount> = Vec::new();
        let mut i: usize = 0;
        while i < self.value.len()
            invariant
                i <= self.value.len(),
                value@.len() == i,
                forall|j: int| 0 <= j < i ==> value@[j]@ == self.value@[j]@,
            decreases self.value.len() - i,
        {
            value.push(self.value[i].clone());
            i += 1;
        }
        let copy = ElementCounts { value };
        assert(copy@ =~= self@);
        copy
    }
}

/// How many elements or relationships there are, and how many of each type
/// and of each nature.
#[derive(Debug, Clone)]
pub struct CubsObjectReport {
    pub all_count: u32,
    pub by_type: ElementCounts,
    pub by_nature: ElementCounts,
}

/// The statistics of a model or of a list of elements.
#[derive(Debug, Clone)]
pub struct ModelStats {
    pub elements_stats: Option<CubsObjectReport>,
    pub relationships_stats: Option<CubsObjectReport>,
    pub version: u32,
}

/// The statistics of one version of a model, with all its known versions.
#[derive(Debug)]
pub struct ModelDictionary {
    pub model_id: String,
    pub version: u32,
    pub model_stats: ModelStats,
    pub model_versions: Vec<ModelVersionNumber>,
}

/// Elements by type and by nature.
#[derive(Debug)]
pub struct ElementRefMap<'a> {
    pub type_: Vec<(String, Vec<&'a Element>)>,
    pub nature: Vec<(String, Vec<&'a Element>)>,
}

/// Relationships by type and by nature.
#[derive(Debug)]
pub struct RelationshipRefMap<'a> {
    pub type_: Vec<(String, Vec<&'a Relationship>)>,
    pub nature: Vec<(String, Vec<&'a Relationship>)>,
}

/// A count as 32 bits hold it: the number itself up to the largest that
/// fits, which stands for every larger one.
pub open spec fn capped(n: nat) -> u32 {
    if n <= u32::MAX {
        n as u32
    } else {
        u32::MAX
    }
}

/// How often `key` stands in `keys`.
pub open spec fn occurrences(keys: Seq<Key>, key: Key) -> nat
    decreases keys.len(),
{
    if keys.len() == 0 {
        0
    } else if keys.last() == key {
        occurrences(keys.drop_last(), key) + 1
    } else {
        occurrences(keys.drop_last(), key)
    }
}

/// For each key of `keys`, in the order in which the keys are first seen,
/// how often it stands there.
pub open spec fn tallied(keys: Seq<Key>) -> Seq<Tally> {
    first_seen(keys).map_values(|key: Key| (key, capped(occurrences(keys, key))))
}

/// Where a tally with `count` goes into `ranked`: behind every tally that
/// is as large or larger.
pub open spec fn rank_of(ranked: Seq<Tally>, count: u32) -> int
    decreases ranked.len(),
{
    if ranked.len() == 0 {
        0
    } else if ranked.last().1 < count {
        rank_of(ranked.drop_last(), count)
    } else {
        ranked.len() as int
    }
}

/// `tallies` with the largest first; tallies of one size keep their order.
pub open spec fn ranked(tallies: Seq<Tally>) -> Seq<Tally>
    decreases tallies.len(),
{
    if tallies.len() == 0 {
        Seq::empty()
    } else {
        let front = ranked(tallies.drop_last());
        front.insert(rank_of(front, tallies.last().1), tallies.last())
    }
}

/// The counts of a grouping by `keys`: for each key how often it occurs,
/// the most frequent first, keys that occur equally often in the order in
/// which they are first seen.
pub open spec fn counts_of(keys: Seq<Key>) -> Seq<Tally> {
    ranked(tallied(keys))
}

/// No count of `tallies` is smaller than a later one.
pub open spec fn descending(tallies: Seq<Tally>) -> bool {
    forall|i: int, j: int| 0 <= i <= j < tallies.len() ==> tallies[i].1 >= tallies[j].1
}

/// In a descending list, a tally with `count` goes to the first position
/// that holds a smaller one.
pub proof fn lemma_rank_of(ranked: Seq<Tally>, count: u32)
    requires
        descending(ranked),
    ensures
        0 <= rank_of(ranked, count) <= ranked.len(),
        forall|i: int| 0 <= i < rank_of(ranked, count) ==> ranked[i].1 >= count,
        forall|i: int| rank_of(ranked, count) <= i < ranked.len() ==> ranked[i].1 < count,
    decreases ranked.len(),
{
    if ranked.len() > 0 {
        let front = ranked.drop_last();
        assert forall|i: int, j: int| 0 <= i <= j < front.len() implies front[i].1 >= front[j].1 by {
            assert(ranked[i].1 >= ranked[j].1);
        }
        lemma_rank_of(front, count);
        if ranked.last().1 < count {
            assert forall|i: int| 0 <= i < rank_of(ranked, count) implies ranked[i].1 >= count by {
                assert(front[i] == ranked[i]);
            }
            assert forall|i: int| rank_of(ranked, count) <= i < ranked.len() implies ranked[i].1 < count by {
                if i < front.len() {
                    assert(front[i] == ranked[i]);
                }
            }
        } else {
            assert forall|i: int| 0 <= i < ranked.len() implies ranked[i].1 >= count by {
                assert(ranked[i].1 >= ranked[ranked.len() - 1].1);
            }
        }
    }
}

/// Ranking keeps every tally, as often as it was there, and puts the
/// tallies in descending order.
pub proof fn lemma_ranked(tallies: Seq<Tally>)
    ensures
        descending(ranked(tallies)),
        ranked(tallies).to_multiset() == tallies.to_multiset(),
        ranked(tallies).len() == tallies.len(),
    decreases tallies.len(),
{
    broadcast use vstd::seq_lib::group_to_multiset_ensures;

    if tallies.len() == 0 {
    } else {
        let rest = tallies.drop_last();
        let last = tallies.last();
        let front = ranked(rest);
        lemma_ranked(rest);
        lemma_rank_of(front, last.1);
        let at = rank_of(front, last.1);
        let all = front.insert(at, last);
        assert forall|i: int, j: int| 0 <= i <= j < all.len() implies all[i].1 >= all[j].1 by {
            if i < at && j > at {
                assert(front[i].1 >= front[j - 1].1);
            } else if i < at && j < at {
                assert(front[i].1 >= front[j].1);
            } else if i > at {
                assert(front[i - 1].1 >= front[j - 1].1);
            }
        }
        assert(tallies =~= rest.push(last));
        assert(all.to_multiset() =~= front.to_multiset().insert(last));
        assert(tallies.to_multiset() =~= rest.to_multiset().insert(last));
    }
}

/// A key occurs at least once exactly where it stands in the list.
pub proof fn lemma_occurrences(keys: Seq<Key>)
    ensures
        forall|key: Key| occurrences(keys, key) > 0 <==> keys.contains(key),
    decreases keys.len(),
{
    if keys.len() > 0 {
        let front = keys.drop_last();
        let last = keys.last();
        lemma_occurrences(front);
        assert forall|key: Key| occurrences(keys, key) > 0 <==> keys.contains(key) by {
            if front.contains(key) {
                let i = choose|i: int| 0 <= i < front.len() && front[i] == key;
                assert(keys[i] == key);
            }
            if keys.contains(key) {
                let i = choose|i: int| 0 <= i < keys.len() && keys[i] == key;
                if i < front.len() {
                    assert(front[i] == key);
                }
            }
            assert(keys[keys.len() - 1] == last);
        }
    }
}

/// The names of `tallies`, in order.
pub open spec fn tally_names(tallies: Seq<Tally>) -> Seq<Key> {
    tallies.map_values(|tally: Tally| tally.0)
}

/// The count after `count`, as 32 bits hold it.
pub open spec fn next_count(count: u32) -> u32 {
    if count < u32::MAX {
        (count + 1) as u32
    } else {
        count
    }
}

/// `tallies` after one more occurrence of `key`.
pub open spec fn bumped(tallies: Seq<Tally>, key: Key) -> Seq<Tally> {
    match first_index(tally_names(tallies), key) {
        Some(i) => tallies.update(i, (key, next_count(tallies[i].1))),
        None => tallies.push((key, 1u32)),
    }
}

/// One more key raises the tally of that key by one, or adds a tally of
/// one for it behind the others where it is new.
pub proof fn lemma_tallied_push(keys: Seq<Key>, key: Key)
    ensures
        tallied(keys.push(key)) == bumped(tallied(keys), key),
{
    let more = keys.push(key);
    assert(more.drop_last() =~= keys);
    assert(more.last() == key);
    lemma_first_seen(keys);
    lemma_occurrences(keys);
    let seen = first_seen(keys);
    let before = tallied(keys);
    let after = tallied(more);
    assert(tally_names(before) =~= seen);
    lemma_first_index(seen, key);
    assert forall|other: Key| occurrences(more, other) == occurrences(keys, other) + if other == key {
        1nat
    } else {
        0nat
    } by {}
    if seen.contains(key) {
        let i = first_index(seen, key).unwrap();
        assert forall|p: int| 0 <= p < seen.len() implies after[p] == bumped(before, key)[p] by {
            if p != i {
                assert(seen[p] != seen[i]);
            }
        }
        assert(after =~= bumped(before, key));
    } else {
        assert(!keys.contains(key));
        assert(occurrences(keys, key) == 0);
        assert(after =~= bumped(before, key));
    }
}

fn tally_keys(keys: &Vec<String>) -> (tallies: Vec<ElementCount>)
    ensures
        (ElementCounts { value: tallies })@ == tallied(string_views(keys@)),
{
    let mut tallies: Vec<ElementCount> = Vec::new();
    let ghost all = string_views(keys@);
    let mut i: usize = 0;
    assert((ElementCounts { value: tallies })@ =~= tallied(all.take(0)));
    while i < keys.len()
        invariant
            i <= keys.len(),
            all == string_views(keys@),
            (ElementCounts { value: tallies })@ == tallied(all.take(i as int)),
        decreases keys.len() - i,
    {
        let ghost before = (ElementCounts { value: tallies })@;
        let ghost names = tally_names(before);
        proof {
            assert(all.take(i + 1) =~= all.take(i as int).push(keys@[i as int]@));
            lemma_tallied_push(all.take(i as int), keys@[i as int]@);
        }
        let mut at: usize = 0;
        while at < tallies.len() && tallies[at].element != keys[i]
            invariant
                at <= tallies.len(),
                i < keys.len(),
                names == tally_names((ElementCounts { value: tallies })@),
                forall|k: int| 0 <= k < at ==> names[k] != keys@[i as int]@,
            decreases tallies.len() - at,
        {
            assert(names[at as int] == tallies@[at as int].element@);
            at += 1;
        }
        if at < tallies.len() {
            proof {
                assert(names[at as int] == tallies@[at as int].element@);
                lemma_first_index_is(names, keys@[i as int]@, at as int);
            }
            let count = tallies[at].count;
            let raised = ElementCount {
                element: keys[i].clone(),
                count: if count < u32::MAX {
                    count + 1
                } else {
                    count
                },
            };
            tallies.set(at, raised);
            assert((ElementCounts { value: tallies })@ =~= bumped(before, keys@[i as int]@));
        } else {
            proof {
                lemma_first_index_none(names, keys@[i as int]@);
            }
            tallies.push(ElementCount { element: keys[i].clone(), count: 1 });
            assert((ElementCounts { value: tallies })@ =~= bumped(before, keys@[i as int]@));
        }
        i += 1;
    }
    assert(all.take(all.len() as int) =~= all);
    tallies
}

fn rank(tallies: Vec<ElementCount>) -> (sorted: Vec<ElementCount>)
    ensures
        (ElementCounts { value: sorted })@ == ranked((ElementCounts { value: tallies })@),
{
    let ghost all = (ElementCounts { value: tallies })@;
    let mut sorted: Vec<ElementCount> = Vec::new();
    let mut i: usize = 0;
    assert((ElementCounts { value: sorted })@ =~= ranked(all.take(0)));
    while i < tallies.len()
        invariant
            i <= tallies.len(),
            all == (ElementCounts { value: tallies })@,
            (ElementCounts { value: sorted })@ == ranked(all.take(i as int)),
        decreases tallies.len() - i,
    {
        let ghost before = (ElementCounts { value: sorted })@;
        let count = tallies[i].count;
        proof {
            assert(all.take(i + 1).drop_last() =~= all.take(i as int));
            assert(all.take(i + 1).last() == tallies@[i as int]@);
            lemma_ranked(all.take(i as int));
            lemma_rank_of(before, count);
        }
        let mut at: usize = 0;
        while at < sorted.len() && sorted[at].count >= count
            invariant
                at <= sorted.len(),
                before == (ElementCounts { value: sorted })@,
                forall|k: int| 0 <= k < at ==> before[k].1 >= count,
            decreases sorted.len() - at,
        {
            assert(before[at as int] == sorted@[at as int]@);
            at += 1;
        }
        proof {
            if at < sorted.len() {
                assert(before[at as int] == sorted@[at as int]@);
            }
            let wanted = rank_of(before, count);
            if wanted < at {
                assert(before[wanted].1 >= count);
            }
            if wanted > at {
                assert(before[at as int].1 < count);
            }
            assert(wanted == at);
        }
        sorted.insert(at, tallies[i].clone());
        assert((ElementCounts { value: sorted })@ =~= before.insert(at as int, tallies@[i as int]@));
        i += 1;
    }
    assert(all.take(all.len() as int) =~= all);
    sorted
}

/// The counts of a grouping by `keys`.
pub fn count_keys(keys: &Vec<String>) -> (counts: ElementCounts)
    ensures
        counts@ == counts_of(string_views(keys@)),
{
    let tallies = tally_keys(keys);
    ElementCounts { value: rank(tallies) }
}

/// What a `CubsObjectReport` stands for.
pub struct ReportView {
    pub all_count: u32,
    pub by_type: Seq<Tally>,
    pub by_nature: Seq<Tally>,
}

impl View for CubsObjectReport {
    type V = ReportView;

    open spec fn view(&self) -> ReportView {
        ReportView { all_count: self.all_count, by_type: self.by_type@, by_nature: self.by_nature@ }
    }
}

/// What `ModelStats` stand for.
pub struct StatsView {
    pub elements_stats: Option<ReportView>,
    pub relationships_stats: Option<ReportView>,
    pub version: u32,
}

/// What a report stands for, where there is one.
pub open spec fn report_view(report: Option<CubsObjectReport>) -> Option<ReportView> {
    match report {
        Some(report) => Some(report@),
        None => None,
    }
}

impl View for ModelStats {
    type V = StatsView;

    open spec fn view(&self) -> StatsView {
        StatsView {
            elements_stats: report_view(self.elements_stats),
            relationships_stats: report_view(self.relationships_stats),
            version: self.version,
        }
    }
}

/// The report on objects of the given types and natures, one type and one
/// nature for each object.
pub open spec fn report_of(types: Seq<Key>, natures: Seq<Key>) -> ReportView {
    ReportView { all_count: capped(types.len()), by_type: counts_of(types), by_nature: counts_of(natures) }
}

/// The types of `elements`, in order.
pub open spec fn element_types(elements: Seq<Element>) -> Seq<Key> {
    elements.map_values(|element: Element| element.type_@)
}

/// The natures of `elements`, in order.
pub open spec fn element_natures(elements: Seq<Element>) -> Seq<Key> {
    elements.map_values(|element: Element| element.nature@)
}

/// The types of `relationships`, in order.
pub open spec fn relationship_types(relationships: Seq<Relationship>) -> Seq<Key> {
    relationships.map_values(|relationship: Relationship| relationship.type_@)
}

/// The natures of `relationships`, in order.
pub open spec fn relationship_natures(relationships: Seq<Relationship>) -> Seq<Key> {
    relationships.map_values(|relationship: Relationship| relationship.nature@)
}

/// The statistics of a whole model.
pub open spec fn model_stats_of(model: ModelData) -> StatsView {
    StatsView {
        elements_stats: Some(report_of(element_types(model.elements@), element_natures(model.elements@))),
        relationships_stats: Some(
            report_of(relationship_types(model.relationships@), relationship_natures(model.relationships@)),
        ),
        version: model.version,
    }
}

/// The statistics of a list of elements.
pub open spec fn element_stats_of(elements: Seq<Element>) -> StatsView {
    StatsView {
        elements_stats: Some(report_of(element_types(elements), element_natures(elements))),
        relationships_stats: None,
        version: 0,
    }
}

fn type_key<T: CusObject>(object: &T) -> (key: String)
    ensures
        key@ == object.type_of(),
{
    object.get_type()
}

fn nature_key<T: CusObject>(object: &T) -> (key: String)
    ensures
        key@ == object.nature_of(),
{
    object.get_nature()
}

fn counts_by_type<T: CusObject>(objects: &Vec<T>) -> (counts: ElementCounts)
    ensures
        counts@ == counts_of(objects@.map_values(|object: T| object.type_of())),
{
    match generate_element_count_by(objects, type_key::<T>) {
        Some(counts) => {
            proof {
                let keys = choose|keys: Seq<String>|
                    {
                        &&& keys.len() == objects@.len()
                        &&& forall|i: int|
                            0 <= i < keys.len() ==> call_ensures(
                                type_key::<T>,
                                (&objects@[i],),
                                #[trigger] keys[i],
                            )
                        &&& counts@ == counts_of(string_views(keys))
                    };
                assert(string_views(keys) =~= objects@.map_values(|object: T| object.type_of()));
            }
            counts
        },
        None => {
            proof {
                lemma_counts_of_none();
                assert(objects@.map_values(|object: T| object.type_of()) =~= Seq::<Key>::empty());
            }
            ElementCounts::default()
        },
    }
}

fn counts_by_nature<T: CusObject>(objects: &Vec<T>) -> (counts: ElementCounts)
    ensures
        counts@ == counts_of(objects@.map_values(|object: T| object.nature_of())),
{
    match generate_element_count_by(objects, nature_key::<T>) {
        Some(counts) => {
            proof {
                let keys = choose|keys: Seq<String>|
                    {
                        &&& keys.len() == objects@.len()
                        &&& forall|i: int|
                            0 <= i < keys.len() ==> call_ensures(
                                nature_key::<T>,
                                (&objects@[i],),
                                #[trigger] keys[i],
                            )
                        &&& counts@ == counts_of(string_views(keys))
                    };
                assert(string_views(keys) =~= objects@.map_values(|object: T| object.nature_of()));
            }
            counts
        },
        None => {
            proof {
                lemma_counts_of_none();
                assert(objects@.map_values(|object: T| object.nature_of()) =~= Seq::<Key>::empty());
            }
            ElementCounts::default()
        },
    }
}

fn capped_len(len: usize) -> (count: u32)
    ensures
        count == capped(len as nat),
{
    if len > u32::MAX as usize {
        u32::MAX
    } else {
        len as u32
    }
}

impl ModelDictionary {
    /// The dictionary of `model`: its statistics, with all known versions.
    pub fn from(model: &ModelData, model_versions: Vec<ModelVersionNumber>) -> (dictionary: Self)
        ensures
            dictionary.model_id@ == model.model_id@,
            dictionary.version == model.version,
            dictionary.model_stats@ == model_stats_of(*model),
            dictionary.model_versions == model_versions,
    {
        let element_type_count = counts_by_type(&model.elements);
        let element_nature_count = counts_by_nature(&model.elements);
        let rel_type_count = counts_by_type(&model.relationships);
        let rel_nature_count = counts_by_nature(&model.relationships);
        proof {
            assert(model.elements@.map_values(|object: Element| object.type_of()) =~= element_types(
                model.elements@,
            ));
            assert(model.elements@.map_values(|object: Element| object.nature_of()) =~= element_natures(
                model.elements@,
            ));
            assert(model.relationships@.map_values(|object: Relationship| object.type_of())
                =~= relationship_types(model.relationships@));
            assert(model.relationships@.map_values(|object: Relationship| object.nature_of())
                =~= relationship_natures(model.relationships@));
        }
        ModelDictionary {
            model_id: model.model_id.clone(),
            version: model.version,
            model_stats: ModelStats {
                elements_stats: Some(
                    CubsObjectReport {
                        all_count: capped_len(model.elements.len()),
                        by_type: element_type_count,
                        by_nature: element_nature_count,
                    },
                ),
                relationships_stats: Some(
                    CubsObjectReport {
                        all_count: capped_len(model.relationships.len()),
                        by_type: rel_type_count,
                        by_nature: rel_nature_count,
                    },
                ),
                version: model.version,
            },
            model_versions,
        }
    }

    /// The types of the elements, the most frequent first.
    pub fn get_element_types(&self) -> (types: Vec<String>)
        ensures
            string_views(types@) == match self.model_stats.elements_stats {
                Some(report) => tally_names(report.by_type@),
                None => Seq::empty(),
            },
    {
        match &self.model_stats.elements_stats {
            Some(r) => count_names(&r.by_type),
            None => {
                let types: Vec<String> = Vec::new();
                assert(string_views(types@) =~= Seq::<Key>::empty());
                types
            },
        }
    }

    /// The natures of the elements, the most frequent first.
    pub fn get_element_nature(&self) -> (natures: Vec<String>)
        ensures
            string_views(natures@) == match self.model_stats.elements_stats {
                Some(report) => tally_names(report.by_nature@),
                None => Seq::empty(),
            },
    {
        match &self.model_stats.elements_stats {
            Some(r) => count_names(&r.by_nature),
            None => {
                let natures: Vec<String> = Vec::new();
                assert(string_views(natures@) =~= Seq::<Key>::empty());
                natures
            },
        }
    }
}

fn count_names(counts: &ElementCounts) -> (names: Vec<String>)
    ensures
        string_views(names@) == tally_names(counts@),
{
    let mut names: Vec<String> = Vec::new();
    let mut i: usize = 0;
    while i < counts.value.len()
        invariant
            i <= counts.value.len(),
            names@.len() == i,
            forall|j: int| 0 <= j < i ==> names@[j]@ == counts.value@[j].element@,
        decreases counts.value.len() - i,
    {
        names.push(counts.value[i].element.clone());
        i += 1;
    }
    assert(string_views(names@) =~= tally_names(counts@));
    names
}

/// Nothing counted gives no counts.
pub proof fn lemma_counts_of_none()
    ensures
        counts_of(Seq::<Key>::empty()) == Seq::<Tally>::empty(),
{
    assert(tallied(Seq::<Key>::empty()) =~= Seq::<Tally>::empty());
}

impl ModelStats {
    /// The statistics of `elements`: how many there are, and how many of
    /// each type and of each nature.
    pub fn from_elements(elements: &Vec<&Element>) -> (stats: Option<Self>)
        ensures
            stats matches Some(made) && made@ == element_stats_of(pointed(elements@)),
    {
        let ghost all = pointed(elements@);
        let mut types: Vec<String> = Vec::new();
        let mut natures: Vec<String> = Vec::new();
        let mut i: usize = 0;
        while i < elements.len()
            invariant
                i <= elements.len(),
                types@.len() == i,
                natures@.len() == i,
                forall|j: int| 0 <= j < i ==> types@[j]@ == elements@[j].type_@,
                forall|j: int| 0 <= j < i ==> natures@[j]@ == elements@[j].nature@,
            decreases elements.len() - i,
        {
            types.push(elements[i].type_.clone());
            natures.push(elements[i].nature.clone());
            i += 1;
        }
        proof {
            assert(string_views(types@) =~= element_types(all));
            assert(string_views(natures@) =~= element_natures(all));
        }
        Some(
            Self {
                elements_stats: Some(
                    CubsObjectReport {
                        all_count: capped_len(elements.len()),
                        by_type: count_keys(&types),
                        by_nature: count_keys(&natures),
                    },
                ),
                relationships_stats: None,
                version: 0,
            },
        )
    }
}

/// The text under `field_name` in `document`, where `document` is an
/// object that has a string there.
pub open spec fn field_text(document: JsonModel, field_name: Key) -> Option<Key> {
    match document {
        JsonModel::Object(fields) => if fields.contains_key(field_name) {
            match fields[field_name] {
                JsonModel::String(text) => Some(text),
                _ => None,
            }
        } else {
            None
        },
        _ => None,
    }
}

/// The texts that the items of an array hold under `field_name`, in the
/// order of the items; nothing for a document that is no array.
pub open spec fn field_texts(document: JsonModel, field_name: Key) -> Seq<Key> {
    match document {
        JsonModel::Array(items) => present(items.map_values(|item: JsonModel| field_text(item, field_name))),
        _ => Seq::empty(),
    }
}

fn text_under<'a>(value: &'a Value, field_name: &str) -> (text: Option<&'a str>)
    ensures
        match field_text(json_model(*value), field_name@) {
            Some(content) => text matches Some(t) && t@ == content,
            None => text is None,
        },
{
    let entries = object_entries(value);
    let wanted = field_name.to_owned();
    let ghost names = borrowed_entry_names(entries@);
    let ghost contents = entries@.map_values(|entry: (&String, &Value)| json_model(*entry.1));
    let mut i: usize = 0;
    while i < entries.len()
        invariant
            i <= entries.len(),
            wanted@ == field_name@,
            names == borrowed_entry_names(entries@),
            contents == entries@.map_values(|entry: (&String, &Value)| json_model(*entry.1)),
            json_model(*value) matches JsonModel::Object(fields) ==> lists_fields(names, contents, fields),
            !(json_model(*value) is Object) ==> entries@.len() == 0,
            forall|k: int| 0 <= k < i ==> names[k] != field_name@,
        decreases entries.len() - i,
    {
        assert(names[i as int] == entries@[i as int].0@);
        if *entries[i].0 == wanted {
            proof {
                let fields = json_model(*value)->Object_0;
                assert(names[i as int] == field_name@);
                assert(fields.contains_pair(names[i as int], contents[i as int]));
                assert(contents[i as int] == json_model(*entries@[i as int].1));
            }
            return text_of(entries[i].1);
        }
        i += 1;
    }
    proof {
        lemma_first_index_none(names, field_name@);
    }
    None
}

/// How often each text stands under `field_name` in the items of the array
/// `value`, the most frequent first; `None` where no item has a text there,
/// or `value` is no array.
pub fn generate_array_field_count(value: &Value, field_name: &str) -> (counts: Option<ElementCounts>)
    ensures
        match counts {
            Some(made) => field_texts(json_model(*value), field_name@).len() > 0 && made@ == counts_of(
                field_texts(json_model(*value), field_name@),
            ),
            None => field_texts(json_model(*value), field_name@).len() == 0,
        },
{
    match value_kind(value) {
        JsonKind::Array => {},
        _ => {
            return None;
        },
    }
    let array = array_items(value);
    let ghost items = json_model(*value)->Array_0;
    let ghost found = items.map_values(|item: JsonModel| field_text(item, field_name@));
    let mut texts: Vec<String> = Vec::new();
    let mut i: usize = 0;
    assert(string_views(texts@) =~= present(found.take(0)));
    while i < array.len()
        invariant
            i <= array.len(),
            borrowed_models(array@) == items,
            found == items.map_values(|item: JsonModel| field_text(item, field_name@)),
            string_views(texts@) == present(found.take(i as int)),
        decreases array.len() - i,
    {
        proof {
            assert(json_model(*array@[i as int]) == borrowed_models(array@)[i as int]);
            assert(found.take(i + 1).drop_last() =~= found.take(i as int));
            assert(found.take(i + 1).last() == field_text(items[i as int], field_name@));
        }
        match text_under(array[i], field_name) {
            Some(text) => {
                let ghost before = string_views(texts@);
                texts.push(text.to_owned());
                assert(string_views(texts@) =~= before.push(text@));
            },
            None => {},
        }
        i += 1;
    }
    assert(found.take(found.len() as int) =~= found);
    if texts.len() == 0 {
        return None;
    }
    Some(count_keys(&texts))
}

/// How many items the array `value` has, as 32 bits hold it; 0 for a
/// document that is no array.
#[allow(dead_code)]
fn _get_json_array_len(value: &Value) -> (len: u32)
    ensures
        len == match json_model(*value) {
            JsonModel::Array(items) => capped(items.len()),
            _ => 0u32,
        },
{
    let items = array_items(value);
    proof {
        if json_model(*value) is Array {
            assert(borrowed_models(items@).len() == items@.len());
        }
    }
    capped_len(items.len())
}

/// The counts of a grouping of `cubs_objects` by the key that `key_getter`
/// gives for each; `None` where there are no objects.
pub fn generate_element_count_by<T, F>(cubs_objects: &Vec<T>, key_getter: F) -> (counts: Option<
    ElementCounts,
>) where T: CusObject, F: Fn(&T) -> String
    requires
        forall|i: int| 0 <= i < cubs_objects@.len() ==> call_requires(key_getter, (&cubs_objects@[i],)),
    ensures
        counts is None <==> cubs_objects@.len() == 0,
        counts matches Some(made) ==> exists|keys: Seq<String>|
            {
                &&& keys.len() == cubs_objects@.len()
                &&& forall|i: int|
                    0 <= i < keys.len() ==> call_ensures(key_getter, (&cubs_objects@[i],), #[trigger] keys[i])
                &&& made@ == counts_of(string_views(keys))
            },
{
    let mut keys: Vec<String> = Vec::new();
    let mut i: usize = 0;
    while i < cubs_objects.len()
        invariant
            i <= cubs_objects.len(),
            keys@.len() == i,
            forall|j: int| 0 <= j < cubs_objects@.len() ==> call_requires(key_getter, (&cubs_objects@[j],)),
            forall|j: int| 0 <= j < i ==> call_ensures(key_getter, (&cubs_objects@[j],), #[trigger] keys@[j]),
        decreases cubs_objects.len() - i,
    {
        let key = key_getter(&cubs_objects[i]);
        keys.push(key);
        i += 1;
    }
    if keys.len() == 0 {
        return None;
    }
    Some(count_keys(&keys))
}

} // verus!
