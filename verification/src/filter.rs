//! A keyword filter over free text: words that must all occur, and after a
//! `+` words of which one must occur. Matching ignores case, and `_` stands
//! for a space inside a keyword.
//!
//! | Filter | Of "A", "B", "C", "A B", "B A C" passes |
//! | ------ | --------------------------------------- |
//! | a B    | A B; B A C                              |
//! | A_B    | A B                                     |
//! | A +b C | A B; B A C                              |
//! | +A B   | A; B; A B; B A C                        |

use vstd::prelude::*;
use crate::text::{
    contains, cut_at_first, first_index, is_substring, lemma_first_index, lowercase,
    replace_char, replaced, split_in_two, split_whitespace, texts, to_lowercase, words,
};

verus! {

/// A parsed keyword query.
pub struct Filter {
    keywords: Vec<String>,
    optional_keywords: Vec<String>,
}

/// What a `Filter` holds: the keywords that must all occur, and those of
/// which one must occur.
pub struct FilterView {
    pub keywords: Seq<Seq<char>>,
    pub optional_keywords: Seq<Seq<char>>,
}

impl View for Filter {
    type V = FilterView;

    closed spec fn view(&self) -> FilterView {
        FilterView {
            keywords: texts(self.keywords@),
            optional_keywords: texts(self.optional_keywords@),
        }
    }
}

/// A text with each `_` turned into a space.
pub open spec fn spaced(s: Seq<char>) -> Seq<char> {
    replaced(s, '_', ' ')
}

/// Each of `items` with `_` turned into a space.
pub open spec fn spaced_each(items: Seq<Seq<char>>) -> Seq<Seq<char>> {
    items.map_values(|w: Seq<char>| spaced(w))
}

/// A text cut at its first `+`: what stands before it and what stands
/// after it. A text without `+` is one part.
pub open spec fn plus_parts(s: Seq<char>) -> Seq<Seq<char>> {
    cut_at_first(s, '+')
}

/// The keywords in one part of a query: its words, with `_` read as a
/// space.
pub open spec fn keywords_of(part: Seq<char>) -> Seq<Seq<char>> {
    spaced_each(words(part))
}

/// The filter that a lower-case query stands for: the keywords before the
/// first `+` are mandatory, those after it optional.
pub open spec fn parse_folded(query: Seq<char>) -> FilterView {
    let parts = plus_parts(query);
    FilterView {
        keywords: keywords_of(parts[0]),
        optional_keywords: if parts.len() > 1 {
            keywords_of(parts[1])
        } else {
            Seq::empty()
        },
    }
}

/// The filter that a query stands for.
pub open spec fn parse(query: Seq<char>) -> FilterView {
    parse_folded(lowercase(query))
}

/// Every one of `keywords` occurs in `subject`.
pub open spec fn all_occur(subject: Seq<char>, keywords: Seq<Seq<char>>) -> bool {
    forall|i: int| 0 <= i < keywords.len() ==> is_substring(subject, #[trigger] keywords[i])
}

/// At least one of `keywords` occurs in `subject`.
pub open spec fn any_occurs(subject: Seq<char>, keywords: Seq<Seq<char>>) -> bool {
    exists|i: int| 0 <= i < keywords.len() && is_substring(subject, #[trigger] keywords[i])
}

/// Whether a lower-case text passes: with `_` read as a space, it holds
/// every mandatory keyword, and one of the optional ones if there are any.
pub open spec fn passes_folded(filter: FilterView, text: Seq<char>) -> bool {
    all_occur(spaced(text), filter.keywords) && (filter.optional_keywords.len() == 0
        || any_occurs(spaced(text), filter.optional_keywords))
}

/// Whether a text passes a filter, whatever its case.
pub open spec fn passes(filter: FilterView, text: Seq<char>) -> bool {
    passes_folded(filter, lowercase(text))
}

/// A query without `+` has no optional keywords: all its words are
/// mandatory.
pub proof fn lemma_query_without_plus(query: Seq<char>)
    requires
        !query.contains('+'),
    ensures
        parse_folded(query).keywords == keywords_of(query),
        parse_folded(query).optional_keywords.len() == 0,
{
    lemma_first_index(query, '+');
}

/// A query with a `+` is read in two parts: the words before the first
/// `+` are mandatory, the words after it optional.
pub proof fn lemma_query_with_plus(before: Seq<char>, after: Seq<char>)
    requires
        !before.contains('+'),
    ensures
        parse_folded(before + seq!['+'] + after).keywords == keywords_of(before),
        parse_folded(before + seq!['+'] + after).optional_keywords == keywords_of(after),
{
    let query = before + seq!['+'] + after;
    let i = first_index(query, '+');
    lemma_first_index(query, '+');
    lemma_first_index(before, '+');
    assert(query[before.len() as int] == '+');
    assert(query.contains('+'));
    if i < before.len() {
        assert(query[i] == before[i]);
        assert(before.contains('+'));
    }
    assert(i == before.len());
    assert(query.take(i) =~= before);
    assert(query.skip(i + 1) =~= after);
}

/// A filter without keywords passes every text.
pub proof fn lemma_empty_filter_passes(filter: FilterView, text: Seq<char>)
    requires
        filter.keywords.len() == 0,
        filter.optional_keywords.len() == 0,
    ensures
        passes_folded(filter, text),
        passes(filter, text),
{
}

/// A filter with optional keywords alone passes the texts that hold one of
/// them; a filter with mandatory keywords alone, those that hold them all.
pub proof fn lemma_one_group_alone(filter: FilterView, text: Seq<char>)
    ensures
        filter.keywords.len() == 0 && filter.optional_keywords.len() > 0 ==> (passes_folded(
            filter,
            text,
        ) <==> any_occurs(spaced(text), filter.optional_keywords)),
        filter.optional_keywords.len() == 0 ==> (passes_folded(filter, text) <==> all_occur(
            spaced(text),
            filter.keywords,
        )),
{
}

/// Copies of `items` with each `_` turned into a space.
pub fn with_spaces(items: &Vec<String>) -> (r: Vec<String>)
    ensures
        texts(r@) == spaced_each(texts(items@)),
{
    let mut out: Vec<String> = Vec::new();
    let mut i: usize = 0;
    while i < items.len()
        invariant
            i <= items.len(),
            out.len() == i,
            forall|k: int| 0 <= k < i ==> (#[trigger] out@[k])@ == spaced(items@[k]@),
        decreases items.len() - i,
    {
        out.push(replace_char(items[i].as_str(), '_', ' '));
        i = i + 1;
    }
    proof {
        assert(texts(out@) =~= spaced_each(texts(items@)));
    }
    out
}

/// The keywords in one part of a lower-case query.
pub fn keywords_in(part: &str) -> (r: Vec<String>)
    ensures
        texts(r@) == keywords_of(part@),
{
    let found = split_whitespace(part);
    with_spaces(&found)
}

/// Whether every one of `keywords` occurs in `subject`.
pub fn holds_all(subject: &str, keywords: &Vec<String>) -> (r: bool)
    ensures
        r == all_occur(subject@, texts(keywords@)),
{
    let mut i: usize = 0;
    while i < keywords.len()
        invariant
            i <= keywords.len(),
            forall|k: int| 0 <= k < i ==> is_substring(subject@, #[trigger] texts(keywords@)[k]),
        decreases keywords.len() - i,
    {
        if !contains(subject, keywords[i].as_str()) {
            assert(!is_substring(subject@, texts(keywords@)[i as int]));
            return false;
        }
        i = i + 1;
    }
    true
}

/// Whether at least one of `keywords` occurs in `subject`.
pub fn holds_any(subject: &str, keywords: &Vec<String>) -> (r: bool)
    ensures
        r == any_occurs(subject@, texts(keywords@)),
{
    let mut i: usize = 0;
    while i < keywords.len()
        invariant
            i <= keywords.len(),
            forall|k: int| 0 <= k < i ==> !is_substring(subject@, #[trigger] texts(keywords@)[k]),
        decreases keywords.len() - i,
    {
        if contains(subject, keywords[i].as_str()) {
            assert(is_substring(subject@, texts(keywords@)[i as int]));
            return true;
        }
        i = i + 1;
    }
    false
}

impl Filter {
    /// Parses a query: the words before the first `+` must all occur, of
    /// those after it one must. Case is ignored.
    pub fn new(filter: &str) -> (r: Filter)
        ensures
            r@ == parse(filter@),
    {
        let folded = to_lowercase(filter);
        Filter::from_folded(folded.as_str())
    }

    /// Parses a query that is already in lower case.
    pub fn from_folded(filter: &str) -> (r: Filter)
        ensures
            r@ == parse_folded(filter@),
    {
        let parts = split_in_two(filter, '+');
        proof {
            assert(texts(parts@).len() == parts@.len());
            assert(texts(parts@)[0] == parts@[0]@);
            if parts@.len() > 1 {
                assert(texts(parts@)[1] == parts@[1]@);
            }
        }
        let keywords = keywords_in(parts[0].as_str());
        let optional_keywords = if parts.len() > 1 {
            keywords_in(parts[1].as_str())
        } else {
            Vec::new()
        };
        proof {
            assert(texts(optional_keywords@) =~= parse_folded(filter@).optional_keywords);
        }
        Filter { keywords, optional_keywords }
    }

    /// Whether `text` passes the filter, whatever its case.
    pub fn test(&self, text: &str) -> (r: bool)
        ensures
            r == passes(self@, text@),
    {
        let folded = to_lowercase(text);
        self.test_folded(folded.as_str())
    }

    /// Whether a text that is already in lower case passes the filter.
    pub fn test_folded(&self, text: &str) -> (r: bool)
        ensures
            r == passes_folded(self@, text@),
    {
        let subject = replace_char(text, '_', ' ');
        holds_all(subject.as_str(), &self.keywords) && (self.optional_keywords.len() == 0
            || holds_any(subject.as_str(), &self.optional_keywords))
    }
}

} // verus!
