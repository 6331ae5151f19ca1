//! What the matching rules need of text: case folding, substring search,
//! splitting into words. Text is modelled as `Seq<char>`; the functions here
//! hand the work to the standard library and state what comes back.

use vstd::prelude::*;

verus! {

/// The lower-case form of a text, as `str::to_lowercase` gives it.
pub uninterp spec fn lowercase(s: Seq<char>) -> Seq<char>;

/// Whether a character is white space to `str::split_whitespace`: whether
/// it has the Unicode property `White_Space`.
pub uninterp spec fn white_space(c: char) -> bool;

/// `needle` occurs in `hay` as a run of consecutive characters.
pub open spec fn is_substring(hay: Seq<char>, needle: Seq<char>) -> bool {
    exists|i: int|
        0 <= i && i + needle.len() <= hay.len() && #[trigger] hay.subrange(i, i + needle.len())
            == needle
}

/// One item: `cur`, unless it is empty.
pub open spec fn word_if_any(cur: Seq<char>) -> Seq<Seq<char>> {
    if cur.len() == 0 {
        Seq::empty()
    } else {
        seq![cur]
    }
}

/// The words of `s`, read from left to right, when `cur` holds the
/// characters of the word that was being read before `s` began.
pub open spec fn words_after(cur: Seq<char>, s: Seq<char>) -> Seq<Seq<char>>
    decreases s.len(),
{
    if s.len() == 0 {
        word_if_any(cur)
    } else if white_space(s[0]) {
        word_if_any(cur) + words_after(Seq::empty(), s.drop_first())
    } else {
        words_after(cur.push(s[0]), s.drop_first())
    }
}

/// The words of a text: its longest runs of characters that are not white
/// space, in the order in which they stand. None of them is empty.
pub open spec fn words(s: Seq<char>) -> Seq<Seq<char>> {
    words_after(Seq::empty(), s)
}

/// A text with each `from` turned into `to`.
pub open spec fn replaced(s: Seq<char>, from: char, to: char) -> Seq<char> {
    s.map_values(
        |c: char|
            if c == from {
                to
            } else {
                c
            },
    )
}

/// The place of the first `sep` in a text; its length where it has none.
pub open spec fn first_index(s: Seq<char>, sep: char) -> int
    decreases s.len(),
{
    if s.len() == 0 || s[0] == sep {
        0
    } else {
        1 + first_index(s.drop_first(), sep)
    }
}

/// A text cut at its first `sep`: what stands before it and what stands
/// after it. A text without `sep` is one part.
pub open spec fn cut_at_first(s: Seq<char>, sep: char) -> Seq<Seq<char>> {
    let i = first_index(s, sep);
    if i < s.len() {
        seq![s.take(i), s.skip(i + 1)]
    } else {
        seq![s]
    }
}

/// The texts that a list of strings holds.
pub open spec fn texts(v: Seq<String>) -> Seq<Seq<char>> {
    v.map_values(|s: String| s@)
}

/// `str::to_lowercase`: the result is the lower-case form of the argument.
/// Nothing more is claimed of it than that it depends on the text alone.
#[verifier::external_body]
pub(crate) fn to_lowercase(s: &str) -> (r: String)
    ensures
        r@ == lowercase(s@),
{
    s.to_lowercase()
}

/// `str::contains` with a string as the pattern: whether `needle` occurs in
/// `hay` as a substring.
#[verifier::external_body]
pub(crate) fn contains(hay: &str, needle: &str) -> (r: bool)
    ensures
        r == is_substring(hay@, needle@),
{
    hay.contains(needle)
}

/// `str::split_whitespace`: the sub-slices between runs of white space, in
/// order, each copied into a `String`. No character of any of them is
/// white space.
#[verifier::external_body]
pub(crate) fn split_whitespace(s: &str) -> (r: Vec<String>)
    ensures
        texts(r@) == words(s@),
        forall|i: int, j: int|
            0 <= i < r@.len() && 0 <= j < r@[i]@.len() ==> !white_space(#[trigger] r@[i]@[j]),
{
    s.split_whitespace().map(String::from).collect()
}

/// `str::replace` with a character as the pattern and a character as the
/// replacement: every `from` becomes `to` and every other character stays.
#[verifier::external_body]
pub(crate) fn replace_char(s: &str, from: char, to: char) -> (r: String)
    ensures
        r@ == replaced(s@, from, to),
{
    s.replace(from, to.encode_utf8(&mut [0; 4]))
}

/// `str::splitn` for two parts with a character as the pattern: the text
/// cut at its first `sep`, which is dropped; one part where there is no
/// `sep`.
#[verifier::external_body]
pub(crate) fn split_in_two(s: &str, sep: char) -> (r: Vec<String>)
    ensures
        texts(r@) == cut_at_first(s@, sep),
{
    s.splitn(2, sep).map(String::from).collect()
}

/// Every text occurs in itself.
pub proof fn lemma_substring_reflexive(s: Seq<char>)
    ensures
        is_substring(s, s),
{
    let i: int = 0;
    assert(s.subrange(i, i + s.len()) =~= s);
}

/// The empty text occurs in every text.
pub proof fn lemma_empty_is_substring(s: Seq<char>)
    ensures
        is_substring(s, Seq::empty()),
{
    let i: int = 0;
    let none = Seq::<char>::empty();
    assert(s.subrange(i, i + none.len()) =~= none);
}

/// `first_index` is where the first `sep` stands: no `sep` stands before
/// it, and one stands there unless the text has none.
pub proof fn lemma_first_index(s: Seq<char>, sep: char)
    ensures
        0 <= first_index(s, sep) <= s.len(),
        forall|j: int| 0 <= j < first_index(s, sep) ==> #[trigger] s[j] != sep,
        first_index(s, sep) < s.len() ==> s[first_index(s, sep)] == sep,
        first_index(s, sep) == s.len() <==> !s.contains(sep),
    decreases s.len(),
{
    if s.len() > 0 && s[0] != sep {
        let rest = s.drop_first();
        lemma_first_index(rest, sep);
        assert forall|j: int| 0 <= j < first_index(s, sep) implies #[trigger] s[j] != sep by {
            if j > 0 {
                assert(s[j] == rest[j - 1]);
            }
        }
        let i = first_index(s, sep);
        if i < s.len() {
            assert(s[i] == rest[i - 1]);
        }
    }
    let i = first_index(s, sep);
    if i < s.len() {
        assert(s.contains(sep));
    } else if s.contains(sep) {
        let k = choose|k: int| 0 <= k < s.len() && s[k] == sep;
        assert(s[k] != sep);
    }
}

/// No character of `w` is white space.
pub open spec fn no_white_space(w: Seq<char>) -> bool {
    forall|j: int| 0 <= j < w.len() ==> !white_space(#[trigger] w[j])
}

/// Every character of `s` is white space.
pub open spec fn blank(s: Seq<char>) -> bool {
    forall|j: int| 0 <= j < s.len() ==> white_space(#[trigger] s[j])
}

proof fn lemma_words_after_are_words(cur: Seq<char>, s: Seq<char>)
    requires
        no_white_space(cur),
    ensures
        forall|i: int|
            0 <= i < words_after(cur, s).len() ==> (#[trigger] words_after(cur, s)[i]).len() > 0
                && no_white_space(words_after(cur, s)[i]),
    decreases s.len(),
{
    let all = words_after(cur, s);
    if s.len() > 0 {
        if white_space(s[0]) {
            let rest = words_after(Seq::empty(), s.drop_first());
            lemma_words_after_are_words(Seq::empty(), s.drop_first());
            assert forall|i: int| 0 <= i < all.len() implies (#[trigger] all[i]).len() > 0
                && no_white_space(all[i]) by {
                if cur.len() == 0 {
                    assert(all =~= rest);
                } else if i == 0 {
                    assert(all[i] == cur);
                } else {
                    assert(all[i] == rest[i - 1]);
                }
            }
        } else {
            let longer = cur.push(s[0]);
            assert forall|j: int| 0 <= j < longer.len() implies !white_space(
                #[trigger] longer[j],
            ) by {
                if j < cur.len() {
                    assert(longer[j] == cur[j]);
                }
            }
            lemma_words_after_are_words(longer, s.drop_first());
            assert(all == words_after(longer, s.drop_first()));
        }
    } else {
        assert forall|i: int| 0 <= i < all.len() implies (#[trigger] all[i]).len() > 0
            && no_white_space(all[i]) by {
            assert(all[i] == cur);
        }
    }
}

/// No word of a text is empty, and none holds white space.
pub proof fn lemma_words_are_words(s: Seq<char>)
    ensures
        forall|i: int|
            0 <= i < words(s).len() ==> (#[trigger] words(s)[i]).len() > 0 && no_white_space(
                words(s)[i],
            ),
{
    lemma_words_after_are_words(Seq::empty(), s);
}

/// A text of white space alone has no words.
pub proof fn lemma_blank_has_no_words(s: Seq<char>)
    requires
        blank(s),
    ensures
        words(s) == Seq::<Seq<char>>::empty(),
    decreases s.len(),
{
    if s.len() > 0 {
        assert(white_space(s[0]));
        assert forall|j: int| 0 <= j < s.drop_first().len() implies white_space(
            #[trigger] s.drop_first()[j],
        ) by {
            assert(s.drop_first()[j] == s[j + 1]);
        }
        lemma_blank_has_no_words(s.drop_first());
        assert(words(s) =~= Seq::<Seq<char>>::empty());
    }
}

proof fn lemma_one_word_after(cur: Seq<char>, s: Seq<char>)
    requires
        no_white_space(s),
        cur.len() + s.len() > 0,
    ensures
        words_after(cur, s) == seq![cur + s],
    decreases s.len(),
{
    if s.len() == 0 {
        assert(cur + s =~= cur);
    } else {
        assert(!white_space(s[0]));
        assert forall|j: int| 0 <= j < s.drop_first().len() implies !white_space(
            #[trigger] s.drop_first()[j],
        ) by {
            assert(s.drop_first()[j] == s[j + 1]);
        }
        lemma_one_word_after(cur.push(s[0]), s.drop_first());
        assert(cur.push(s[0]) + s.drop_first() =~= cur + s);
    }
}

/// A text without white space, if it is not empty, is its one word.
pub proof fn lemma_one_word(s: Seq<char>)
    requires
        s.len() > 0,
        no_white_space(s),
    ensures
        words(s) == seq![s],
{
    lemma_one_word_after(Seq::empty(), s);
    assert(Seq::<char>::empty() + s =~= s);
}

} // verus!
