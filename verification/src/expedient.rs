//! The records that are searched, and how well one of them answers a query
//! of the same shape.

use vstd::prelude::*;
use crate::dates::Date;
use crate::score::{
    grade_at_most, lemma_combine_best_is_upper_bound, lemma_grade_at_most_transitive, Grade,
    MatchType, Ratio, Score,
};
use crate::text::{
    blank, contains, is_substring, lemma_blank_has_no_words, lemma_one_word,
    lemma_substring_reflexive, lowercase, no_white_space, split_whitespace, texts, to_lowercase,
    words,
};

verus! {

/// A person: a display name and the ways to reach them.
#[derive(Debug)]
pub struct User {
    pub name: String,
    pub emails: Vec<String>,
    pub phones: Vec<String>,
}

/// One piece of work on a case: when it was done, and what was done.
#[derive(Debug)]
pub struct Order {
    pub dates: Vec<Date>,
    pub description: String,
}

/// A case: the people it concerns, the vehicle, and the work done on it.
#[derive(Debug)]
pub struct Expedient {
    pub users: Vec<User>,
    pub model: String,
    pub license_plate: String,
    pub vin: String,
    pub description: String,
    pub orders: Vec<Order>,
}

/// What a `User` holds, as texts.
pub struct UserView {
    pub name: Seq<char>,
    pub emails: Seq<Seq<char>>,
    pub phones: Seq<Seq<char>>,
}

impl View for User {
    type V = UserView;

    open spec fn view(&self) -> UserView {
        UserView { name: self.name@, emails: texts(self.emails@), phones: texts(self.phones@) }
    }
}

/// How many of `keywords` occur in `candidate`, each counted as often as it
/// is listed.
pub open spec fn hits(candidate: Seq<char>, keywords: Seq<Seq<char>>) -> nat
    decreases keywords.len(),
{
    if keywords.len() == 0 {
        0
    } else {
        hits(candidate, keywords.drop_last()) + if is_substring(candidate, keywords.last()) {
            1nat
        } else {
            0nat
        }
    }
}

/// The share of `keywords` that occur in `candidate`; `0 / 1` where there
/// is no keyword.
pub open spec fn keyword_score(candidate: Seq<char>, keywords: Seq<Seq<char>>) -> Ratio {
    if keywords.len() == 0 {
        Ratio::zero()
    } else {
        Ratio { num: hits(candidate, keywords), den: keywords.len() }
    }
}

/// The grade of a case-folded query against a case-folded candidate:
/// `Inclusive` where the candidate holds the query, else the share of the
/// query's words that the candidate holds.
pub open spec fn folded_match(candidate: Seq<char>, query: Seq<char>) -> Grade {
    if is_substring(candidate, query) {
        Grade::Inclusive
    } else {
        Grade::Similar(keyword_score(candidate, words(query)))
    }
}

/// The grade of a query against a candidate text. An empty query tells
/// nothing; any other is compared in lower case.
pub open spec fn text_match(candidate: Seq<char>, query: Seq<char>) -> Grade {
    if query.len() == 0 {
        Grade::weakest()
    } else {
        folded_match(lowercase(candidate), lowercase(query))
    }
}

/// The best grade of one query against each candidate in turn, starting
/// from `seed`.
pub open spec fn best_of_candidates(
    seed: Grade,
    candidates: Seq<Seq<char>>,
    query: Seq<char>,
) -> Grade
    decreases candidates.len(),
{
    if candidates.len() == 0 {
        seed
    } else {
        best_of_candidates(seed, candidates.drop_last(), query).combine_best(
            text_match(candidates.last(), query),
        )
    }
}

/// The best grade of each query against each candidate, starting from
/// `seed`.
pub open spec fn best_of_pairs(
    seed: Grade,
    candidates: Seq<Seq<char>>,
    queries: Seq<Seq<char>>,
) -> Grade
    decreases queries.len(),
{
    if queries.len() == 0 {
        seed
    } else {
        best_of_candidates(
            best_of_pairs(seed, candidates, queries.drop_last()),
            candidates,
            queries.last(),
        )
    }
}

/// The grade of a list of queries against a list of candidates: the best
/// pairing found, and the weakest grade where there is no pair.
pub open spec fn collection_match(candidates: Seq<Seq<char>>, queries: Seq<Seq<char>>) -> Grade {
    best_of_pairs(Grade::weakest(), candidates, queries)
}

/// The grade of a query person against a candidate: the best of phones,
/// emails and the name, a literal hit on the name counting as `1 / 1`.
pub open spec fn person_match(candidate: UserView, query: UserView) -> Grade {
    collection_match(candidate.phones, query.phones).combine_best(
        collection_match(candidate.emails, query.emails),
    ).combine_best(text_match(candidate.name, query.name).soften())
}

/// No more keywords are found than there are.
pub proof fn lemma_hits_bounded(candidate: Seq<char>, keywords: Seq<Seq<char>>)
    ensures
        hits(candidate, keywords) <= keywords.len(),
    decreases keywords.len(),
{
    if keywords.len() > 0 {
        lemma_hits_bounded(candidate, keywords.drop_last());
    }
}

/// Scores a candidate by the share of `keywords` that it holds.
pub fn score_keywords(candidate: &str, keywords: &Vec<String>) -> (r: Score)
    ensures
        r@ == keyword_score(candidate@, texts(keywords@)),
        r@.wf(),
        r.num <= r.den,
{
    let total: usize = keywords.len();
    if total == 0 {
        return Score::zero();
    }
    let ghost all = texts(keywords@);
    let mut found: usize = 0;
    let mut i: usize = 0;
    while i < total
        invariant
            total == keywords.len(),
            all == texts(keywords@),
            i <= total,
            found <= i,
            found == hits(candidate@, all.take(i as int)),
        decreases total - i,
    {
        proof {
            assert(all.take(i + 1).drop_last() =~= all.take(i as int));
            assert(all.take(i + 1).last() == keywords@[i as int]@);
        }
        if contains(candidate, keywords[i].as_str()) {
            found = found + 1;
        }
        i = i + 1;
    }
    proof {
        assert(all.take(total as int) =~= all);
    }
    Score { num: found as u64, den: total as u64 }
}

/// Compares texts that are already in lower case.
pub fn match_folded(candidate: &str, query: &str) -> (r: MatchType)
    ensures
        r@ == folded_match(candidate@, query@),
        r@.wf(),
{
    if contains(candidate, query) {
        return MatchType::Inclusive;
    }
    let keywords = split_whitespace(query);
    MatchType::Similar(score_keywords(candidate, &keywords))
}

/// How well `query` matches the text `candidate`, whatever the case of
/// either.
pub fn match_text(candidate: &str, query: &str) -> (r: MatchType)
    ensures
        r@ == text_match(candidate@, query@),
        query@.len() == 0 ==> r@ == Grade::weakest(),
        r@.wf(),
{
    if query.is_empty() {
        return MatchType::weakest();
    }
    let folded_query = to_lowercase(query);
    let folded_candidate = to_lowercase(candidate);
    match_folded(folded_candidate.as_str(), folded_query.as_str())
}

/// How well a list of queries matches a list of candidates: the best grade
/// over all pairs of one query and one candidate.
pub fn match_collection(candidates: &Vec<String>, queries: &Vec<String>) -> (r: MatchType)
    ensures
        r@ == collection_match(texts(candidates@), texts(queries@)),
        r@.wf(),
{
    let ghost cs = texts(candidates@);
    let ghost qs = texts(queries@);
    let mut best = MatchType::weakest();
    let mut i: usize = 0;
    while i < queries.len()
        invariant
            cs == texts(candidates@),
            qs == texts(queries@),
            i <= queries.len(),
            best@ == best_of_pairs(Grade::weakest(), cs, qs.take(i as int)),
        decreases queries.len() - i,
    {
        let ghost before = best@;
        proof {
            assert(qs.take(i + 1).drop_last() =~= qs.take(i as int));
            assert(qs.take(i + 1).last() == queries@[i as int]@);
        }
        let mut j: usize = 0;
        while j < candidates.len()
            invariant
                cs == texts(candidates@),
                i < queries.len(),
                j <= candidates.len(),
                best@ == best_of_candidates(before, cs.take(j as int), queries@[i as int]@),
            decreases candidates.len() - j,
        {
            proof {
                assert(cs.take(j + 1).drop_last() =~= cs.take(j as int));
                assert(cs.take(j + 1).last() == candidates@[j as int]@);
            }
            let found = match_text(candidates[j].as_str(), queries[i].as_str());
            best = best.combine_best(&found);
            j = j + 1;
        }
        proof {
            assert(cs.take(candidates.len() as int) =~= cs);
        }
        i = i + 1;
    }
    proof {
        assert(qs.take(queries.len() as int) =~= qs);
        lemma_collection_match_is_best_pair(cs, qs);
    }
    best
}

/// How well a query person matches a candidate.
pub fn match_person(candidate: &User, query: &User) -> (r: MatchType)
    ensures
        r@ == person_match(candidate@, query@),
        r@.wf(),
{
    let mut best = match_collection(&candidate.phones, &query.phones);
    best = best.combine_best(&match_collection(&candidate.emails, &query.emails));
    best.combine_best(&match_text(candidate.name.as_str(), query.name.as_str()).soften())
}

/// How well a query case matches a candidate. Cases are not compared yet:
/// every pair gets the weakest grade.
pub fn match_expedient(candidate: &Expedient, query: &Expedient) -> (r: MatchType)
    ensures
        r@ == Grade::weakest(),
        r@.wf(),
{
    MatchType::weakest()
}

/// A text that is not empty matches itself literally.
pub proof fn lemma_text_matches_itself(t: Seq<char>)
    requires
        t.len() > 0,
    ensures
        text_match(t, t) == Grade::Inclusive,
{
    lemma_substring_reflexive(lowercase(t));
}

/// The empty query gets the weakest grade against every text.
pub proof fn lemma_empty_query_is_weakest(t: Seq<char>)
    ensures
        text_match(t, Seq::empty()) == Grade::weakest(),
{
}

/// A graded text match is the share of the query's words that were found:
/// a ratio between 0 and 1.
pub proof fn lemma_text_match_in_range(candidate: Seq<char>, query: Seq<char>)
    ensures
        text_match(candidate, query).wf(),
        match text_match(candidate, query) {
            Grade::Inclusive => true,
            Grade::Similar(s) => s.num <= s.den,
        },
{
    lemma_hits_bounded(lowercase(candidate), words(lowercase(query)));
}

/// A lower-case query of white space alone, if the candidate does not
/// hold it literally, scores `0 / 1`.
pub proof fn lemma_blank_query_scores_zero(candidate: Seq<char>, query: Seq<char>)
    requires
        blank(query),
        !is_substring(candidate, query),
    ensures
        folded_match(candidate, query) == Grade::weakest(),
{
    lemma_blank_has_no_words(query);
}

/// A lower-case query of one word either occurs in the candidate or scores
/// `0 / 1`.
pub proof fn lemma_one_word_query(candidate: Seq<char>, query: Seq<char>)
    requires
        query.len() > 0,
        no_white_space(query),
    ensures
        folded_match(candidate, query) == if is_substring(candidate, query) {
            Grade::Inclusive
        } else {
            Grade::Similar(Ratio { num: 0, den: 1 })
        },
{
    lemma_one_word(query);
    let one = seq![query];
    assert(one.drop_last() =~= Seq::<Seq<char>>::empty());
    assert(one.last() == query);
    assert(hits(candidate, one.drop_last()) == 0);
}

/// Folding the candidates in, one query against each: the result is the
/// seed or one of the matches, and neither the seed nor any match stands
/// above it.
pub proof fn lemma_best_of_candidates_is_best(
    seed: Grade,
    candidates: Seq<Seq<char>>,
    query: Seq<char>,
)
    requires
        seed.wf(),
    ensures
        best_of_candidates(seed, candidates, query).wf(),
        grade_at_most(seed, best_of_candidates(seed, candidates, query)),
        forall|j: int|
            0 <= j < candidates.len() ==> grade_at_most(
                text_match(#[trigger] candidates[j], query),
                best_of_candidates(seed, candidates, query),
            ),
        best_of_candidates(seed, candidates, query) == seed || exists|j: int|
            0 <= j < candidates.len() && best_of_candidates(seed, candidates, query) == text_match(
                #[trigger] candidates[j],
                query,
            ),
    decreases candidates.len(),
{
    let r = best_of_candidates(seed, candidates, query);
    if candidates.len() > 0 {
        let init = candidates.drop_last();
        let prev = best_of_candidates(seed, init, query);
        let last = text_match(candidates.last(), query);
        lemma_best_of_candidates_is_best(seed, init, query);
        lemma_text_match_in_range(candidates.last(), query);
        lemma_combine_best_is_upper_bound(prev, last);
        lemma_grade_at_most_transitive(seed, prev, r);
        assert forall|j: int| 0 <= j < candidates.len() implies grade_at_most(
            text_match(#[trigger] candidates[j], query),
            r,
        ) by {
            if j < candidates.len() - 1 {
                assert(init[j] == candidates[j]);
                lemma_text_match_in_range(candidates[j], query);
                lemma_grade_at_most_transitive(text_match(candidates[j], query), prev, r);
            }
        }
        if r != seed {
            if r == last {
                assert(r == text_match(candidates[candidates.len() - 1], query));
            } else {
                let j = choose|j: int|
                    0 <= j < init.len() && prev == text_match(#[trigger] init[j], query);
                assert(init[j] == candidates[j]);
            }
        }
    }
}

proof fn lemma_best_of_pairs_is_best(
    seed: Grade,
    candidates: Seq<Seq<char>>,
    queries: Seq<Seq<char>>,
)
    requires
        seed.wf(),
    ensures
        best_of_pairs(seed, candidates, queries).wf(),
        grade_at_most(seed, best_of_pairs(seed, candidates, queries)),
        forall|i: int, j: int|
            0 <= i < candidates.len() && 0 <= j < queries.len() ==> grade_at_most(
                #[trigger] text_match(candidates[i], queries[j]),
                best_of_pairs(seed, candidates, queries),
            ),
        best_of_pairs(seed, candidates, queries) == seed || exists|i: int, j: int|
            0 <= i < candidates.len() && 0 <= j < queries.len() && best_of_pairs(
                seed,
                candidates,
                queries,
            ) == #[trigger] text_match(candidates[i], queries[j]),
    decreases queries.len(),
{
    let r = best_of_pairs(seed, candidates, queries);
    if queries.len() > 0 {
        let init = queries.drop_last();
        let prev = best_of_pairs(seed, candidates, init);
        let q = queries.last();
        lemma_best_of_pairs_is_best(seed, candidates, init);
        lemma_best_of_candidates_is_best(prev, candidates, q);
        lemma_grade_at_most_transitive(seed, prev, r);
        assert forall|i: int, j: int|
            0 <= i < candidates.len() && 0 <= j < queries.len() implies grade_at_most(
            #[trigger] text_match(candidates[i], queries[j]),
            r,
        ) by {
            if j < queries.len() - 1 {
                assert(init[j] == queries[j]);
                lemma_text_match_in_range(candidates[i], queries[j]);
                assert(grade_at_most(text_match(candidates[i], init[j]), prev));
                lemma_grade_at_most_transitive(text_match(candidates[i], queries[j]), prev, r);
            } else {
                assert(queries[j] == q);
            }
        }
        if r != seed {
            if r == prev {
                let (i, j) = choose|i: int, j: int|
                    0 <= i < candidates.len() && 0 <= j < init.len() && prev == #[trigger] text_match(
                        candidates[i],
                        init[j],
                    );
                assert(init[j] == queries[j]);
                assert(r == text_match(candidates[i], queries[j]));
            } else {
                let i = choose|i: int|
                    0 <= i < candidates.len() && r == text_match(#[trigger] candidates[i], q);
                assert(r == text_match(candidates[i], queries[queries.len() - 1]));
            }
        }
    }
}

/// A collection match is the single best pairing: it is the weakest grade
/// or the match of one query with one candidate, and no such match stands
/// above it. So the order of neither list matters.
pub proof fn lemma_collection_match_is_best_pair(
    candidates: Seq<Seq<char>>,
    queries: Seq<Seq<char>>,
)
    ensures
        collection_match(candidates, queries).wf(),
        forall|i: int, j: int|
            0 <= i < candidates.len() && 0 <= j < queries.len() ==> grade_at_most(
                #[trigger] text_match(candidates[i], queries[j]),
                collection_match(candidates, queries),
            ),
        collection_match(candidates, queries) == Grade::weakest() || exists|i: int, j: int|
            0 <= i < candidates.len() && 0 <= j < queries.len() && collection_match(
                candidates,
                queries,
            ) == #[trigger] text_match(candidates[i], queries[j]),
{
    lemma_best_of_pairs_is_best(Grade::weakest(), candidates, queries);
}

/// With no candidate, or with no query, a collection match is the weakest
/// grade.
pub proof fn lemma_collection_match_of_nothing(
    candidates: Seq<Seq<char>>,
    queries: Seq<Seq<char>>,
)
    requires
        candidates.len() == 0 || queries.len() == 0,
    ensures
        collection_match(candidates, queries) == Grade::weakest(),
    decreases queries.len(),
{
    if queries.len() > 0 {
        lemma_collection_match_of_nothing(candidates, queries.drop_last());
    }
}

/// A literal hit on the name alone never makes a person match `Inclusive`:
/// that takes a literal hit on a phone or an email.
pub proof fn lemma_person_inclusive_needs_contact(candidate: UserView, query: UserView)
    ensures
        person_match(candidate, query) == Grade::Inclusive <==> (collection_match(
            candidate.phones,
            query.phones,
        ) == Grade::Inclusive || collection_match(candidate.emails, query.emails)
            == Grade::Inclusive),
{
}

} // verus!
