use crate::json::JsonMap;
use crate::keyed::Key;
use vstd::prelude::*;

verus! {

/// How a list of results is cut into pages, and which page is asked for;
/// pages count from 1.
#[derive(Debug)]
pub struct PageConfig {
    pub elements_per_page: usize,
    pub page_to_get: usize,
}

impl Default for PageConfig {
    fn default() -> (config: Self)
        ensures
            config.elements_per_page == 10,
            config.page_to_get == 1,
    {
        PageConfig { elements_per_page: 10, page_to_get: 1 }
    }
}

/// One token of a rendered line.
#[derive(Debug, Clone)]
pub enum OutputToken<T> {
    Tab,
    Value(T),
    InArrow,
    OutArrow,
}

/// One rendered line: its tokens from left to right.
#[derive(Debug, Clone)]
pub struct OutputLine<T> {
    pub line: Vec<OutputToken<T>>,
}

/// The rendering of the neighbourhood of an element: the lines of its
/// ancestors, the furthest first, the lines of the element and its
/// descendants, and under the id of each element on those lines that the
/// model knows its common fields.
#[derive(Debug)]
pub struct OutputGraph<T> {
    pub parent_lines: Vec<OutputLine<T>>,
    pub child_lines: Vec<OutputLine<T>>,
    pub elements_data: JsonMap,
}

/// What a token of text stands for.
pub open spec fn token_view(token: OutputToken<String>) -> OutputToken<Key> {
    match token {
        OutputToken::Tab => OutputToken::Tab,
        OutputToken::Value(text) => OutputToken::Value(text@),
        OutputToken::InArrow => OutputToken::InArrow,
        OutputToken::OutArrow => OutputToken::OutArrow,
    }
}

/// What a line of text tokens stands for.
pub open spec fn line_view(line: OutputLine<String>) -> Seq<OutputToken<Key>> {
    line.line@.map_values(|token: OutputToken<String>| token_view(token))
}

/// What each of `lines` stands for, in order.
pub open spec fn line_views(lines: Seq<OutputLine<String>>) -> Seq<Seq<OutputToken<Key>>> {
    lines.map_values(|line: OutputLine<String>| line_view(line))
}

/// The side of an element on which a walk looks for its neighbours.
pub enum RelationshipDirection {
    Parent,
    Child,
}

impl<T> OutputLine<T> {
    pub fn new() -> (line: Self)
        ensures
            line.line@ == Seq::<OutputToken<T>>::empty(),
    {
        Self { line: Vec::new() }
    }

    pub fn push(&mut self, token: OutputToken<T>)
        ensures
            final(self).line@ == old(self).line@.push(token),
    {
        self.line.push(token);
    }
}

} // verus!
