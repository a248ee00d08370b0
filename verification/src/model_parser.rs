use crate::app_state::QuickCache;
use crate::config::PageConfig;
use crate::cubs_model::{
    cut_at, element_fields, element_position, element_views, pointed, projections, truncate_value,
    Element, FacetType, ModelData, ModelVersionNumber,
};
use crate::element_graph::{ElementGraph, GraphView};
use crate::element_graph_parser::{extracted, ElementGraphParser};
use crate::element_parser::{buildable, linked_up, ElementConnectorBuilder};
use crate::json::{clone_value, json_model, models, pretty_string, pretty_text, JsonModel};
use crate::key_index::KeyIndex;
use crate::keyed::{first_seen, lemma_first_index, lemma_first_seen, string_views, Key};
use crate::model_dict::{element_stats_of, model_stats_of, ModelDictionary, ModelStats};
use crate::model_error::ModelError;
use crate::text::{
    decimal, i32_written, lemma_signed_decimal_reads_back, parse_i32, same_text, signed_decimal, unsigned_text,
};
use serde_json::Value;
use std::sync::Arc;
use std::time::Instant;
use vstd::prelude::*;
use vstd::string::StringExecFns;

verus! {

/// Which page of how many a result is, and how long the pages are.
#[derive(Debug)]
pub struct Page {
    pub elements_per_page: usize,
    pub total_page: usize,
    pub current_page: usize,
}

impl Default for Page {
    fn default() -> (page: Self)
        ensures
            page.elements_per_page == 0,
            page.total_page == 0,
            page.current_page == 0,
    {
        Page { elements_per_page: 0, total_page: 0, current_page: 0 }
    }
}

/// The answer to a query: the page as JSON text, how long the query took,
/// the paging, how many results there are on all pages together, and the
/// statistics of the elements that the results come from.
#[derive(Debug)]
pub struct ModelQueryResult {
    pub data: String,
    pub duration: String,
    pub page_count: Page,
    pub total_result_count: usize,
    pub stats: Option<ModelStats>,
}

impl Default for ModelQueryResult {
    fn default() -> (result: Self)
        ensures
            result.data@.len() == 0,
            result.duration@.len() == 0,
            result.page_count.elements_per_page == 0,
            result.page_count.total_page == 0,
            result.page_count.current_page == 0,
            result.total_result_count == 0,
            result.stats is None,
    {
        ModelQueryResult {
            data: String::new(),
            duration: String::new(),
            page_count: Page::default(),
            total_result_count: 0,
            stats: None,
        }
    }
}

/// The value of a filter that lets every element through.
pub open spec fn all_text() -> Seq<char> {
    "All"@
}

/// Whether an element passes a filter on its nature: every element passes
/// the filter "All".
pub open spec fn nature_passes(natures: Key) -> spec_fn(Element) -> bool {
    |element: Element| natures == all_text() || element.nature@ == natures
}

/// Whether an element passes a filter on its type: every element passes
/// the filter "All".
pub open spec fn type_passes(types: Key) -> spec_fn(Element) -> bool {
    |element: Element| types == all_text() || element.type_@ == types
}

/// Whether the id of an element is among `ids`.
pub open spec fn id_among(ids: Seq<Key>) -> spec_fn(Element) -> bool {
    |element: Element| ids.contains(element.id@)
}

/// The elements of `elements` whose nature is `natures`, in order; all of
/// them where `natures` is "All".
pub open spec fn of_nature(elements: Seq<Element>, natures: Key) -> Seq<Element> {
    elements.filter(nature_passes(natures))
}

/// The elements of `elements` whose type is `types`, in order; all of them
/// where `types` is "All".
pub open spec fn of_type(elements: Seq<Element>, types: Key) -> Seq<Element> {
    elements.filter(type_passes(types))
}

/// The elements of `elements` whose id is among `ids`, in order.
pub open spec fn with_id_among(elements: Seq<Element>, ids: Seq<Key>) -> Seq<Element> {
    elements.filter(id_among(ids))
}

/// The elements that a query starts from: all of them without an id; with
/// a subgraph asked for and found, those of the subgraph; else the first
/// element with the id, if there is one.
pub open spec fn selected(elements: Seq<Element>, id: Key, is_parse_subgraph: bool, subgraph: Seq<Key>) -> Seq<
    Element,
> {
    if id.len() == 0 {
        elements
    } else if is_parse_subgraph && subgraph.len() > 0 {
        with_id_among(elements, subgraph)
    } else {
        match element_position(elements, id) {
            Some(i) => seq![elements[i]],
            None => Seq::empty(),
        }
    }
}

/// The namespace that a selector names, if it names one.
pub open spec fn facet_type_named(selector: Seq<char>) -> Option<FacetType> {
    if selector == "dynamicFacets"@ {
        Some(FacetType::DynamicFacets)
    } else if selector == "coreFacets"@ {
        Some(FacetType::CoreFacets)
    } else if selector == "facets"@ {
        Some(FacetType::Facets)
    } else {
        None
    }
}

/// What is shown of `elements`: with a namespace, the projections that are
/// there; without one, each element as a JSON object.
pub open spec fn shown(elements: Seq<Element>, facet_type: Option<FacetType>, pointer: Seq<char>, with_identity: bool) -> Seq<
    JsonModel,
> {
    match facet_type {
        Some(facet) => projections(elements.map_values(|element: Element| element@), facet, pointer, with_identity),
        None => elements.map_values(|element: Element| JsonModel::Object(element_fields(element@))),
    }
}

/// How many pages of `per_page` items `total` items make: the least number
/// of pages that hold them all; no page where pages hold nothing.
pub open spec fn pages_of(total: nat, per_page: nat) -> nat {
    if per_page == 0 {
        0
    } else if total % per_page == 0 {
        total / per_page
    } else {
        total / per_page + 1
    }
}

/// Whether `items` has a page `page`, pages counting from 1.
pub open spec fn has_page(total: nat, per_page: nat, page: nat) -> bool {
    per_page > 0 && 1 <= page <= pages_of(total, per_page)
}

/// The items of page `page` of `items`, pages counting from 1.
pub open spec fn page_items<T>(items: Seq<T>, per_page: nat, page: nat) -> Seq<T>
    recommends
        has_page(items.len(), per_page, page),
{
    items.subrange((page - 1) * per_page, pages_end(items.len(), per_page, page))
}

/// Where page `pages` of a list of `total` items ends.
pub open spec fn pages_end(total: nat, per_page: nat, pages: nat) -> int {
    if pages * per_page <= total {
        (pages * per_page) as int
    } else {
        total as int
    }
}

/// The pages 1 to `pages` of `items`, one behind the other.
pub open spec fn pages_joined<T>(items: Seq<T>, per_page: nat, pages: nat) -> Seq<T>
    decreases pages,
{
    if pages == 0 {
        Seq::empty()
    } else {
        pages_joined(items, per_page, (pages - 1) as nat) + page_items(items, per_page, pages)
    }
}

/// `pages_of` is the ceiling of `total / per_page`.
pub proof fn lemma_pages_of(total: nat, per_page: nat)
    requires
        per_page > 0,
    ensures
        pages_of(total, per_page) * per_page >= total,
        total > 0 ==> (pages_of(total, per_page) - 1) * per_page < total,
        total == 0 ==> pages_of(total, per_page) == 0,
{
    let q = total / per_page;
    let r = total % per_page;
    assert(total == q * per_page + r && 0 <= r < per_page) by (nonlinear_arith)
        requires
            q == total / per_page,
            r == total % per_page,
            per_page > 0,
    ;
    assert((q + 1) * per_page == q * per_page + per_page) by (nonlinear_arith);
    assert((q - 1) * per_page == q * per_page - per_page) by (nonlinear_arith);
    if total == 0 {
        assert(q == 0) by (nonlinear_arith)
            requires
                0 == q * per_page + r,
                0 <= r,
                per_page > 0,
                q >= 0,
        ;
    }
}

/// The first `pages` pages, one behind the other, are the items up to the
/// end of the last of them.
pub proof fn lemma_pages_joined<T>(items: Seq<T>, per_page: nat, pages: nat)
    requires
        per_page > 0,
        pages <= pages_of(items.len(), per_page),
    ensures
        pages_joined(items, per_page, pages) == items.take(pages_end(items.len(), per_page, pages)),
    decreases pages,
{
    if pages == 0 {
        assert(0 * per_page == 0) by (nonlinear_arith);
        assert(items.take(0) =~= Seq::<T>::empty());
    } else {
        let before = (pages - 1) as nat;
        lemma_pages_joined(items, per_page, before);
        lemma_pages_of(items.len(), per_page);
        assert(before * per_page + per_page == pages * per_page) by (nonlinear_arith)
            requires
                before + 1 == pages,
        ;
        assert(before * per_page <= (pages_of(items.len(), per_page) - 1) * per_page) by (nonlinear_arith)
            requires
                before <= pages_of(items.len(), per_page) - 1,
                per_page > 0,
        ;
        assert(before * per_page < items.len());
        let end = pages_end(items.len(), per_page, pages);
        assert(items.take((before * per_page) as int) + items.subrange((before * per_page) as int, end)
            =~= items.take(end));
    }
}

/// All the pages of a list, one behind the other, are the list.
pub proof fn lemma_pages_make_the_list<T>(items: Seq<T>, per_page: nat)
    requires
        per_page > 0,
    ensures
        pages_joined(items, per_page, pages_of(items.len(), per_page)) == items,
{
    lemma_pages_joined(items, per_page, pages_of(items.len(), per_page));
    lemma_pages_of(items.len(), per_page);
    assert(items.take(items.len() as int) =~= items);
}

/// A filter that lets every item through changes nothing.
pub proof fn lemma_filter_all<T>(items: Seq<T>, keep: spec_fn(T) -> bool)
    requires
        forall|i: int| 0 <= i < items.len() ==> keep(#[trigger] items[i]),
    ensures
        items.filter(keep) == items,
    decreases items.len(),
{
    reveal(Seq::filter);
    if items.len() > 0 {
        let front = items.drop_last();
        assert forall|i: int| 0 <= i < front.len() implies keep(#[trigger] front[i]) by {
            assert(front[i] == items[i]);
        }
        lemma_filter_all(front, keep);
        assert(keep(items[items.len() - 1]));
        assert(front.push(items.last()) =~= items);
    }
}

/// Filtering by the nature "All", or by the type "All", changes nothing.
pub proof fn lemma_all_is_no_filter(elements: Seq<Element>)
    ensures
        of_nature(elements, all_text()) == elements,
        of_type(elements, all_text()) == elements,
{
    lemma_filter_all(elements, nature_passes(all_text()));
    lemma_filter_all(elements, type_passes(all_text()));
}

/// Why a query is refused before anything is looked up; `None` for one
/// that is let through.
pub open spec fn query_refusal(model_id: Seq<char>, id: Seq<char>, is_parse_subgraph: bool) -> Option<Seq<char>> {
    if model_id.len() == 0 {
        Some("Model id is empty nothing to query."@)
    } else if is_parse_subgraph && id.len() == 0 {
        Some("Unable to parse subgraph. Please provide element id in Id"@)
    } else {
        None
    }
}

/// The version that a query is about: the number that the caller wrote,
/// else the first of the known versions, else 0.
pub open spec fn version_asked(version_number: Seq<char>, model_versions: Seq<ModelVersionNumber>) -> i32 {
    match i32_written(version_number) {
        Some(number) => number,
        None => if model_versions.len() > 0 {
            model_versions[0].vers_no
        } else {
            0
        },
    }
}

/// A version asked for by the text that the caches write for it is that
/// version, whatever versions are known.
pub proof fn lemma_version_asked_by_its_text(version: i32, model_versions: Seq<ModelVersionNumber>)
    ensures
        version_asked(signed_decimal(version as int), model_versions) == version,
{
    lemma_signed_decimal_reads_back(version);
}

/// Why there is no such page.
pub open spec fn page_refusal(total: nat, per_page: nat, page: nat) -> Seq<char> {
    if per_page == 0 {
        "Elements per page must be at least 1"@
    } else {
        "Page "@ + decimal(page) + " is out of range: there are "@ + decimal(pages_of(total, per_page))
            + " pages"@
    }
}

/// The elements that a query is about: those that it starts from, of the
/// nature and of the type asked for.
pub open spec fn queried(
    elements: Seq<Element>,
    id: Key,
    is_parse_subgraph: bool,
    subgraph: Seq<Key>,
    types: Key,
    natures: Key,
) -> Seq<Element> {
    of_type(of_nature(selected(elements, id, is_parse_subgraph, subgraph), natures), types)
}

/// `std::time::Instant`: a reading of the clock.
#[verifier::external_type_specification]
#[verifier::external_body]
pub struct ExInstant(Instant);

/// `Instant::elapsed`, in milliseconds: how long ago the clock was read.
/// That is for the clock to say.
#[verifier::external_body]
fn millis_since(started: &Instant) -> u128 {
    started.elapsed().as_millis()
}

/// How long a query took, in words.
pub open spec fn duration_words(elapsed_millis: nat) -> Seq<char> {
    "Query model took "@ + decimal(elapsed_millis) + " ms"@
}

/// How long a query took, in words.
pub fn duration_text(elapsed_millis: u128) -> (words: String)
    ensures
        words@ == duration_words(elapsed_millis as nat),
{
    let mut words = "Query model took ".to_owned();
    words.append(unsigned_text(elapsed_millis).as_str());
    words.append(" ms");
    words
}

/// How far below its target a query follows a subgraph.
pub const DESCENDANT_LEVELS: u32 = 99;

/// The ids of the subgraph of `graph` below the element `id`, the element
/// itself among them, in the order in which the walk comes to them; none
/// where `graph` does not hold the element.
pub open spec fn subgraph_keys(graph: GraphView, id: Key) -> Seq<Key> {
    match graph.lookup(id) {
        Some(target) => extracted(graph, target, 0, DESCENDANT_LEVELS as nat).keys(),
        None => Seq::empty(),
    }
}

/// Why there is no subgraph around an element that the graph does not
/// hold.
pub open spec fn missing_target(id: Key) -> Seq<char> {
    "Elemennt: "@ + id
}

/// Whether `subgraph` holds the ids of the subgraph that a query is about:
/// none unless a subgraph is asked for; else those of the subgraph below
/// the element `id` in a graph that holds the element.
pub open spec fn subgraph_found(subgraph: Seq<Key>, id: Key, is_parse_subgraph: bool) -> bool {
    if is_parse_subgraph && id.len() > 0 {
        exists|graph: GraphView| graph.lookup(id) is Some && subgraph == #[trigger] subgraph_keys(graph, id)
    } else {
        subgraph.len() == 0
    }
}

/// Whether `graph` is the graph of the relationships of `model` in the
/// version `version_number`, `existing` being what the cache of graphs
/// holds for it: what the cache holds; where it holds none, the graph built
/// from the model, unless the version is 0 or no graph can be built, and
/// then none.
pub open spec fn relationship_graph_is(
    existing: Option<Arc<ElementGraph>>,
    version_number: u32,
    model: ModelData,
    graph: Option<Arc<ElementGraph>>,
) -> bool {
    match existing {
        Some(cached) => graph == Some(cached),
        None => if version_number != 0 && buildable(model.elements@, model.relationships@) {
            graph matches Some(built) && built@ == linked_up(model.elements@, model.relationships@)
        } else {
            graph is None
        },
    }
}

/// Whether `result` answers a query over `elements`, `subgraph` holding the
/// ids of the subgraph that was found: the page asked for of what is shown
/// of the queried elements, cut at `depth`, as JSON text, with the paging,
/// the number of all results and the statistics of the queried elements; or
/// the reason why there is no such page, or no such text.
pub open spec fn answers(
    result: Result<ModelQueryResult, ModelError>,
    elements: Seq<Element>,
    subgraph: Seq<Key>,
    id: Key,
    is_parse_subgraph: bool,
    types: Key,
    natures: Key,
    query: Seq<char>,
    depth: nat,
    page_config: PageConfig,
    facet_type: Seq<char>,
    is_detail: bool,
) -> bool {
    let chosen = queried(elements, id, is_parse_subgraph, subgraph, types, natures);
    let values = shown(chosen, facet_type_named(facet_type), query, is_detail);
    let per_page = page_config.elements_per_page as nat;
    let page = page_config.page_to_get as nat;
    let text = pretty_text(cut_at(page_items(values, per_page, page), depth));
    match result {
        Ok(answer) => {
            &&& has_page(values.len(), per_page, page)
            &&& text == Some(answer.data@)
            &&& exists|elapsed_millis: nat| answer.duration@ == duration_words(elapsed_millis)
            &&& answer.page_count.elements_per_page == page_config.elements_per_page
            &&& answer.page_count.total_page == pages_of(values.len(), per_page)
            &&& answer.page_count.current_page == page_config.page_to_get
            &&& answer.total_result_count == values.len()
            &&& answer.stats matches Some(stats) && stats@ == element_stats_of(chosen)
        },
        Err(error) => if has_page(values.len(), per_page, page) {
            &&& text is None
            &&& error matches ModelError::ParsingError(what)
            &&& what@ == "the page as JSON text"@
        } else {
            &&& error matches ModelError::InvalidInput(why)
            &&& why@ == page_refusal(values.len(), per_page, page)
        },
    }
}

fn elements_among<'a>(elements: &'a Vec<Element>, ids: &Vec<String>) -> (kept: Vec<&'a Element>)
    ensures
        pointed(kept@) == with_id_among(elements@, string_views(ids@)),
{
    let wanted = KeyIndex::from_keys(ids);
    let mut kept: Vec<&Element> = Vec::new();
    let ghost keep = id_among(string_views(ids@));
    let mut i: usize = 0;
    assert(pointed(kept@) =~= elements@.take(0).filter(keep)) by {
        reveal(Seq::filter);
    }
    while i < elements.len()
        invariant
            i <= elements.len(),
            keep == id_among(string_views(ids@)),
            wanted@ == first_seen(string_views(ids@)),
            pointed(kept@) == elements@.take(i as int).filter(keep),
        decreases elements.len() - i,
    {
        proof {
            assert(elements@.take(i + 1).drop_last() =~= elements@.take(i as int));
            reveal(Seq::filter);
            lemma_first_seen(string_views(ids@));
            lemma_first_index(wanted@, elements@[i as int].id@);
            if wanted@.contains(elements@[i as int].id@) {
                let j = choose|j: int| 0 <= j < wanted@.len() && wanted@[j] == elements@[i as int].id@;
            }
        }
        if wanted.position(elements[i].id.as_str()).is_some() {
            let ghost before = pointed(kept@);
            kept.push(&elements[i]);
            assert(pointed(kept@) =~= before.push(elements@[i as int]));
        }
        i += 1;
    }
    assert(elements@.take(elements@.len() as int) =~= elements@);
    kept
}

fn retain_nature<'a>(elements: Vec<&'a Element>, natures: &str) -> (kept: Vec<&'a Element>)
    ensures
        pointed(kept@) == of_nature(pointed(elements@), natures@),
{
    let lets_all = same_text(natures, "All");
    let wanted = natures.to_owned();
    let mut kept: Vec<&Element> = Vec::new();
    let ghost keep = nature_passes(natures@);
    let ghost all = pointed(elements@);
    let mut i: usize = 0;
    assert(pointed(kept@) =~= all.take(0).filter(keep)) by {
        reveal(Seq::filter);
    }
    while i < elements.len()
        invariant
            i <= elements.len(),
            wanted@ == natures@,
            lets_all == (natures@ == all_text()),
            keep == nature_passes(natures@),
            all == pointed(elements@),
            pointed(kept@) == all.take(i as int).filter(keep),
        decreases elements.len() - i,
    {
        proof {
            assert(all.take(i + 1).drop_last() =~= all.take(i as int));
            assert(all.take(i + 1).last() == *elements@[i as int]);
            reveal(Seq::filter);
        }
        if lets_all || elements[i].nature == wanted {
            let ghost before = pointed(kept@);
            kept.push(elements[i]);
            assert(pointed(kept@) =~= before.push(*elements@[i as int]));
        }
        i += 1;
    }
    assert(all.take(all.len() as int) =~= all);
    kept
}

fn retain_type<'a>(elements: Vec<&'a Element>, types: &str) -> (kept: Vec<&'a Element>)
    ensures
        pointed(kept@) == of_type(pointed(elements@), types@),
{
    let lets_all = same_text(types, "All");
    let wanted = types.to_owned();
    let mut kept: Vec<&Element> = Vec::new();
    let ghost keep = type_passes(types@);
    let ghost all = pointed(elements@);
    let mut i: usize = 0;
    assert(pointed(kept@) =~= all.take(0).filter(keep)) by {
        reveal(Seq::filter);
    }
    while i < elements.len()
        invariant
            i <= elements.len(),
            wanted@ == types@,
            lets_all == (types@ == all_text()),
            keep == type_passes(types@),
            all == pointed(elements@),
            pointed(kept@) == all.take(i as int).filter(keep),
        decreases elements.len() - i,
    {
        proof {
            assert(all.take(i + 1).drop_last() =~= all.take(i as int));
            assert(all.take(i + 1).last() == *elements@[i as int]);
            reveal(Seq::filter);
        }
        if lets_all || elements[i].type_ == wanted {
            let ghost before = pointed(kept@);
            kept.push(elements[i]);
            assert(pointed(kept@) =~= before.push(*elements@[i as int]));
        }
        i += 1;
    }
    assert(all.take(all.len() as int) =~= all);
    kept
}

fn element_values(elements: &Vec<&Element>) -> (values: Vec<Value>)
    ensures
        models(values@) == shown(pointed(elements@), None, Seq::empty(), false),
{
    let mut values: Vec<Value> = Vec::new();
    let mut i: usize = 0;
    while i < elements.len()
        invariant
            i <= elements.len(),
            values@.len() == i,
            forall|j: int| 0 <= j < i ==> json_model(values@[j]) == JsonModel::Object(element_fields(elements@[j]@)),
        decreases elements.len() - i,
    {
        values.push(elements[i].to_value());
        i += 1;
    }
    assert(models(values@) =~= shown(pointed(elements@), None, Seq::empty(), false));
    values
}

/// The pipeline that answers queries about a model, with the caches of
/// models and of graphs that it works with.
pub struct ModelParser {
    model_cache: QuickCache<ModelData>,
    graph_cache: QuickCache<ElementGraph>,
}

impl ModelParser {
    /// The cache of models that the pipeline works with.
    pub closed spec fn held_model_cache(&self) -> QuickCache<ModelData> {
        self.model_cache
    }

    /// The cache of graphs that the pipeline works with.
    pub closed spec fn held_graph_cache(&self) -> QuickCache<ElementGraph> {
        self.graph_cache
    }

    /// The pipeline that works with these two caches.
    pub fn new(model_cache: QuickCache<ModelData>, graph_cache: QuickCache<ElementGraph>) -> (pipeline: Self)
        ensures
            pipeline.held_model_cache() == model_cache,
            pipeline.held_graph_cache() == graph_cache,
    {
        ModelParser { model_cache, graph_cache }
    }

    /// The cache of models.
    pub fn model_cache(&self) -> (cache: &QuickCache<ModelData>)
        ensures
            *cache == self.held_model_cache(),
    {
        &self.model_cache
    }

    /// The cache of graphs.
    pub fn graph_cache(&self) -> (cache: &QuickCache<ElementGraph>)
        ensures
            *cache == self.held_graph_cache(),
    {
        &self.graph_cache
    }

    /// Refuses a query without a model id, and one for a subgraph without
    /// the id of its target.
    pub fn validate_query(model_id: &str, id: &str, is_parse_subgraph: bool) -> (outcome: Result<(), ModelError>)
        ensures
            match query_refusal(model_id@, id@, is_parse_subgraph) {
                Some(why) => outcome matches Err(ModelError::InvalidInput(said)) && said@ == why,
                None => outcome is Ok,
            },
    {
        if model_id.is_empty() {
            return Err(ModelError::InvalidInput("Model id is empty nothing to query.".to_owned()));
        }
        if is_parse_subgraph && id.is_empty() {
            return Err(
                ModelError::InvalidInput("Unable to parse subgraph. Please provide element id in Id".to_owned()),
            );
        }
        Ok(())
    }

    /// The version that a query is about: the number that the caller
    /// wrote, else the first of the known versions, else 0.
    pub fn get_version_number(version_number: &str, model_versions: &Vec<ModelVersionNumber>) -> (version: i32)
        ensures
            version == version_asked(version_number@, model_versions@),
    {
        match parse_i32(version_number) {
            Some(number) => number,
            None => if model_versions.len() > 0 {
                model_versions[0].vers_no
            } else {
                0
            },
        }
    }

    /// The namespace that a selector names, if it names one.
    pub fn parse_facet_type(facet_type: &str) -> (named: Option<FacetType>)
        ensures
            named == facet_type_named(facet_type@),
    {
        if same_text(facet_type, "dynamicFacets") {
            Some(FacetType::DynamicFacets)
        } else if same_text(facet_type, "coreFacets") {
            Some(FacetType::CoreFacets)
        } else if same_text(facet_type, "facets") {
            Some(FacetType::Facets)
        } else {
            None
        }
    }

    /// The elements that a query starts from.
    pub fn select_elements<'a>(
        model_data: &'a ModelData,
        id: &str,
        is_parse_subgraph: bool,
        subgraph_elements: &Vec<String>,
    ) -> (elements: Vec<&'a Element>)
        ensures
            pointed(elements@) == selected(
                model_data.elements@,
                id@,
                is_parse_subgraph,
                string_views(subgraph_elements@),
            ),
    {
        if id.is_empty() {
            let elements = model_data.get_elements();
            assert(pointed(elements@) =~= model_data.elements@);
            elements
        } else if is_parse_subgraph && subgraph_elements.len() > 0 {
            elements_among(&model_data.elements, subgraph_elements)
        } else {
            match model_data.get_element_with_id(id) {
                Some(element) => {
                    let mut elements: Vec<&Element> = Vec::new();
                    elements.push(element);
                    assert(pointed(elements@) =~= seq![*element]);
                    elements
                },
                None => {
                    let elements: Vec<&Element> = Vec::new();
                    assert(pointed(elements@) =~= Seq::<Element>::empty());
                    elements
                },
            }
        }
    }

    /// The page of `values` that `page_config` asks for, with the paging.
    /// There is no page 0, no page behind the last, and no page at all of
    /// a list without items or with pages that hold nothing.
    pub fn paginate(values: &Vec<Value>, page_config: &PageConfig) -> (paged: Result<(Vec<Value>, Page), ModelError>)
        ensures
            match paged {
                Ok((page_values, page)) => {
                    &&& has_page(
                        values@.len(),
                        page_config.elements_per_page as nat,
                        page_config.page_to_get as nat,
                    )
                    &&& models(page_values@) == page_items(
                        models(values@),
                        page_config.elements_per_page as nat,
                        page_config.page_to_get as nat,
                    )
                    &&& page.elements_per_page == page_config.elements_per_page
                    &&& page.total_page == pages_of(values@.len(), page_config.elements_per_page as nat)
                    &&& page.current_page == page_config.page_to_get
                },
                Err(error) => {
                    &&& !has_page(
                        values@.len(),
                        page_config.elements_per_page as nat,
                        page_config.page_to_get as nat,
                    )
                    &&& error matches ModelError::InvalidInput(why)
                    &&& why@ == page_refusal(
                        values@.len(),
                        page_config.elements_per_page as nat,
                        page_config.page_to_get as nat,
                    )
                },
            },
    {
        let per_page = page_config.elements_per_page;
        let wanted = page_config.page_to_get;
        if per_page == 0 {
            return Err(ModelError::InvalidInput("Elements per page must be at least 1".to_owned()));
        }
        let total = values.len();
        assert(total % per_page != 0 ==> total / per_page < total) by (nonlinear_arith)
            requires
                per_page > 0,
                total >= 0,
        ;
        let total_page = if total % per_page == 0 {
            total / per_page
        } else {
            total / per_page + 1
        };
        if wanted == 0 || wanted > total_page {
            let mut why = "Page ".to_owned();
            why.append(unsigned_text(wanted as u128).as_str());
            why.append(" is out of range: there are ");
            why.append(unsigned_text(total_page as u128).as_str());
            why.append(" pages");
            return Err(ModelError::InvalidInput(why));
        }
        proof {
            lemma_pages_of(total as nat, per_page as nat);
            assert((wanted - 1) * per_page <= (total_page - 1) * per_page) by (nonlinear_arith)
                requires
                    wanted <= total_page,
                    wanted >= 1,
                    per_page > 0,
            ;
            assert(wanted * per_page == (wanted - 1) * per_page + per_page) by (nonlinear_arith);
        }
        let start = (wanted - 1) * per_page;
        let end = if total - start < per_page {
            total
        } else {
            start + per_page
        };
        let mut page_values: Vec<Value> = Vec::new();
        let mut i: usize = start;
        while i < end
            invariant
                start <= i <= end <= values.len(),
                page_values@.len() == i - start,
                forall|j: int| 0 <= j < i - start ==> json_model(page_values@[j]) == json_model(values@[start + j]),
            decreases end - i,
        {
            page_values.push(clone_value(&values[i]));
            i += 1;
        }
        assert(models(page_values@) =~= models(values@).subrange(start as int, end as int));
        Ok((page_values, Page { elements_per_page: per_page, total_page, current_page: wanted }))
    }
}

impl ModelParser {
    /// The ids of the subgraph of `graph` below the element `id`; a parsing
    /// error where `graph` does not hold the element.
    pub fn subgraph_ids(graph: &ElementGraph, id: &str) -> (ids: Result<Vec<String>, ModelError>)
        ensures
            match graph@.lookup(id@) {
                Some(_) => ids matches Ok(found) && string_views(found@) == subgraph_keys(graph@, id@),
                None => ids matches Err(ModelError::ParsingError(what)) && what@ == missing_target(id@),
            },
    {
        match ElementGraphParser::parse_graph(graph, id, 0, DESCENDANT_LEVELS) {
            Ok(subgraph) => Ok(subgraph.get_all_elements()),
            Err(error) => Err(error),
        }
    }

    /// The graph to work with, given what the cache of graphs holds: what
    /// it holds, else the graph built from the model, which is then to be
    /// put into the cache.
    pub fn graph_to_use(existing: Option<Arc<ElementGraph>>, model_data: &ModelData) -> (graph: Result<
        (Arc<ElementGraph>, bool),
        ModelError,
    >)
        ensures
            match existing {
                Some(cached) => graph == Ok::<(Arc<ElementGraph>, bool), ModelError>((cached, false)),
                None => match graph {
                    Ok((built, fresh)) => {
                        &&& fresh
                        &&& buildable(model_data.elements@, model_data.relationships@)
                        &&& built@ == linked_up(model_data.elements@, model_data.relationships@)
                    },
                    Err(error) => {
                        &&& !buildable(model_data.elements@, model_data.relationships@)
                        &&& error is ModelGraphBuildingError
                    },
                },
            },
    {
        match existing {
            Some(cached) => Ok((cached, false)),
            None => {
                match ElementConnectorBuilder::build_graph(
                    model_data.elements.as_slice(),
                    model_data.relationships.as_slice(),
                ) {
                    Ok(built) => Ok((Arc::new(built), true)),
                    Err(error) => Err(error),
                }
            },
        }
    }

    /// The ids of the subgraph that a query is about: none unless a
    /// subgraph is asked for, else those of the subgraph below `id` in the
    /// graph that the cache holds for the model in its version or, where it
    /// holds none, in the graph built from the model, which then goes into
    /// the cache. Where no graph can be built, and where the graph does not
    /// hold the element `id`, the error of the builder or of the extractor
    /// is handed on.
    pub fn subgraph_elements(&self, model_data: &ModelData, model_id: &str, id: &str, is_parse_subgraph: bool) -> (ids:
        Result<Vec<String>, ModelError>)
        ensures
            match ids {
                Ok(found) => subgraph_found(string_views(found@), id@, is_parse_subgraph),
                Err(error) => {
                    &&& is_parse_subgraph && id@.len() > 0
                    &&& {
                        ||| error is ModelGraphBuildingError && !buildable(
                            model_data.elements@,
                            model_data.relationships@,
                        )
                        ||| error matches ModelError::ParsingError(what) && what@ == missing_target(id@)
                    }
                },
            },
    {
        if is_parse_subgraph && !id.is_empty() {
            let version = unsigned_text(model_data.version as u128);
            let existing = self.graph_cache.get_ref(model_id, version.as_str());
            match Self::graph_to_use(existing, model_data) {
                Ok((graph, fresh)) => {
                    if fresh {
                        self.graph_cache.insert(model_id, version.as_str(), &*graph);
                    }
                    match Self::subgraph_ids(&*graph, id) {
                        Ok(found) => {
                            assert(graph@.lookup(id@) is Some && string_views(found@) == subgraph_keys(
                                graph@,
                                id@,
                            ));
                            Ok(found)
                        },
                        Err(error) => Err(error),
                    }
                },
                Err(error) => Err(error),
            }
        } else {
            Ok(Vec::new())
        }
    }

    /// The graph of the relationships of a model in the version
    /// `version_number`, given what the cache of graphs holds for it: what
    /// the cache holds; else, unless the version is 0, the graph built from
    /// the model, which is then to be put into the cache; else none.
    pub fn relationship_graph(existing: Option<Arc<ElementGraph>>, version_number: u32, model_data: &ModelData) -> (outcome:
        (Option<Arc<ElementGraph>>, bool))
        ensures
            relationship_graph_is(existing, version_number, *model_data, outcome.0),
            outcome.1 == (existing is None && outcome.0 is Some),
    {
        if version_number != 0 && existing.is_none() {
            match Self::graph_to_use(existing, model_data) {
                Ok((graph, _)) => (Some(graph), true),
                Err(_) => (None, false),
            }
        } else {
            (existing, false)
        }
    }

    /// The graph of the relationships of a model, from the cache of graphs
    /// or, where the cache holds none and the version is not 0, built from
    /// the model and put into the cache; `None` where none can be built.
    /// The cache is asked under `cache_key(model_id, version)`, the version
    /// written in decimal, and what it answers is for the cache to say.
    pub fn build_relationship_graph(&self, model_id: &str, version_number: u32, model_data: &ModelData) -> (graph:
        Option<Arc<ElementGraph>>)
        ensures
            exists|existing: Option<Arc<ElementGraph>>|
                relationship_graph_is(existing, version_number, *model_data, graph),
            graph is None ==> version_number == 0 || !buildable(
                model_data.elements@,
                model_data.relationships@,
            ),
    {
        let version = unsigned_text(version_number as u128);
        let existing = self.graph_cache.get_ref(model_id, version.as_str());
        let (graph, fresh) = Self::relationship_graph(existing, version_number, model_data);
        if fresh {
            if let Some(built) = &graph {
                self.graph_cache.insert(model_id, version.as_str(), &**built);
            }
        }
        assert(relationship_graph_is(existing, version_number, *model_data, graph));
        graph
    }

    /// The dictionary of a model that has been loaded, with the versions
    /// known of it. The graph of its relationships goes into the cache of
    /// graphs on the way, if one can be built.
    pub fn get_model_stats(&self, model_id: &str, model_data: &ModelData, model_version: Vec<ModelVersionNumber>) -> (dictionary:
        ModelDictionary)
        ensures
            dictionary.model_id@ == model_data.model_id@,
            dictionary.version == model_data.version,
            dictionary.model_stats@ == model_stats_of(*model_data),
            dictionary.model_versions == model_version,
    {
        let _graph = self.build_relationship_graph(model_id, model_data.version, model_data);
        ModelDictionary::from(model_data, model_version)
    }

    /// The answer to a query over the elements of a model, `subgraph_elements`
    /// holding the ids of the subgraph that was found, if one was asked
    /// for, and `started` the reading of the clock when the query came in.
    pub fn query_elements(
        model_data: &ModelData,
        subgraph_elements: &Vec<String>,
        id: &str,
        is_parse_subgraph: bool,
        types: &str,
        natures: &str,
        query: &str,
        depth: usize,
        page_config: &PageConfig,
        facet_type: &str,
        is_detail: bool,
        started: &Instant,
    ) -> (result: Result<ModelQueryResult, ModelError>)
        ensures
            answers(
                result,
                model_data.elements@,
                string_views(subgraph_elements@),
                id@,
                is_parse_subgraph,
                types@,
                natures@,
                query@,
                depth as nat,
                *page_config,
                facet_type@,
                is_detail,
            ),
    {
        let selected_elements = Self::select_elements(model_data, id, is_parse_subgraph, subgraph_elements);
        let of_nature = retain_nature(selected_elements, natures);
        let filtered_elements = retain_type(of_nature, types);
        let ghost chosen = pointed(filtered_elements@);
        let stats = ModelStats::from_elements(&filtered_elements);
        let facet = Self::parse_facet_type(facet_type);
        let values = match facet {
            Some(facet) => {
                proof {
                    assert(element_views(filtered_elements@) =~= chosen.map_values(|element: Element| element@));
                }
                ModelData::get_json_values(filtered_elements, Some(facet), query, is_detail)
            },
            None => element_values(&filtered_elements),
        };
        assert(models(values@) == shown(chosen, facet_type_named(facet_type@), query@, is_detail));
        let total_result_count = values.len();
        let (page_values, page) = match Self::paginate(&values, page_config) {
            Ok(paged) => paged,
            Err(error) => {
                return Err(error);
            },
        };
        let limited = if depth > 0 {
            truncate_value(page_values.as_slice(), depth)
        } else {
            page_values
        };
        match pretty_string(&limited) {
            Ok(data) => {
                let elapsed_millis = millis_since(started);
                let duration = duration_text(elapsed_millis);
                assert(duration@ == duration_words(elapsed_millis as nat));
                Ok(ModelQueryResult { data, duration, page_count: page, total_result_count, stats })
            },
            Err(_) => Err(ModelError::ParsingError("the page as JSON text".to_owned())),
        }
    }

    /// The answer to a query about a model that has been loaded. Where a
    /// subgraph is asked for, its ids come from the graph that the cache of
    /// graphs holds for the model in its version or, where it holds none,
    /// from the graph built from the model; where no graph can be built,
    /// or the graph does not hold the element, the query fails with the
    /// error of the builder or of the extractor. `started` is the reading of the
    /// clock when the query came in.
    pub fn query_model(
        &self,
        model_data: &ModelData,
        model_id: String,
        id: String,
        is_parse_subgraph: bool,
        types: String,
        natures: String,
        query: String,
        depth: usize,
        page_config: PageConfig,
        facet_type: String,
        is_detail: bool,
        started: &Instant,
    ) -> (result: Result<ModelQueryResult, ModelError>)
        ensures
            match query_refusal(model_id@, id@, is_parse_subgraph) {
                Some(why) => result matches Err(ModelError::InvalidInput(said)) && said@ == why,
                None => {
                    ||| {
                        &&& result matches Err(error)
                        &&& error is ModelGraphBuildingError
                        &&& is_parse_subgraph
                        &&& !buildable(model_data.elements@, model_data.relationships@)
                    }
                    ||| {
                        &&& result matches Err(ModelError::ParsingError(what))
                        &&& is_parse_subgraph
                        &&& what@ == missing_target(id@)
                    }
                    ||| exists|subgraph: Seq<Key>|
                        subgraph_found(subgraph, id@, is_parse_subgraph) && #[trigger] answers(
                            result,
                            model_data.elements@,
                            subgraph,
                            id@,
                            is_parse_subgraph,
                            types@,
                            natures@,
                            query@,
                            depth as nat,
                            page_config,
                            facet_type@,
                            is_detail,
                        )
                },
            },
    {
        match Self::validate_query(model_id.as_str(), id.as_str(), is_parse_subgraph) {
            Ok(_) => {},
            Err(error) => {
                return Err(error);
            },
        }
        let subgraph_elements = match self.subgraph_elements(
            model_data,
            model_id.as_str(),
            id.as_str(),
            is_parse_subgraph,
        ) {
            Ok(ids) => ids,
            Err(error) => {
                return Err(error);
            },
        };
        let result = Self::query_elements(
            model_data,
            &subgraph_elements,
            id.as_str(),
            is_parse_subgraph,
            types.as_str(),
            natures.as_str(),
            query.as_str(),
            depth,
            &page_config,
            facet_type.as_str(),
            is_detail,
            started,
        );
        assert(answers(
            result,
            model_data.elements@,
            string_views(subgraph_elements@),
            id@,
            is_parse_subgraph,
            types@,
            natures@,
            query@,
            depth as nat,
            page_config,
            facet_type@,
            is_detail,
        ));
        result
    }
}

} // verus!
