//! Queries against versioned object models: typed elements and the typed
//! relationships between them.
//!
//! A model becomes a graph with a connector for each element
//! ([`element_parser`]); around any element of it a subgraph of bounded
//! height and depth can be cut out ([`element_graph_parser`]), or its
//! neighbourhood drawn line by line. A query selects elements, filters them
//! by type and nature, counts them ([`model_dict`]), projects each through
//! a JSON pointer into one namespace of its facets ([`cubs_model`]), and
//! hands out one page of the result, cut at a depth ([`model_parser`]).
//! Models and graphs are shared through caches that forget by themselves
//! ([`app_state`]).
//!
//! JSON documents are those of serde_json, the caches those of mini_moka,
//! and stored models are unzipped by flate2. What the library takes for
//! granted of the three stands in [`json`], [`app_state`] and [`parser`],
//! in the contracts of the functions that make the calls; the clock is
//! read in [`model_parser`]. Everything else is proved of the code.

pub mod app_state;
pub mod config;
pub mod cubs_model;
pub mod element_graph;
pub mod element_graph_parser;
pub mod element_parser;
pub mod json;
pub mod key_index;
pub mod keyed;
pub mod model_dict;
pub mod model_error;
pub mod model_json;
pub mod model_parser;
pub mod parser;
pub mod text;
