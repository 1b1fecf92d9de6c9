//! General laws of the line matcher, stated over its mathematical model
//! and proved once for every query and every text.

use vstd::prelude::*;

use crate::search::line_pred;
use crate::search::search_insensitive_spec;
use crate::search::search_spec;
use crate::text::contains_at;
use crate::text::contains_seq;
use crate::text::lower_seq;
use crate::text::spec_lines;

verus! {

/// `sub` is `full` with zero or more elements left out: the elements of
/// `sub` occur in `full` in their order.
pub open spec fn is_subsequence_of<A>(sub: Seq<A>, full: Seq<A>) -> bool
    decreases full.len(),
{
    if sub.len() == 0 {
        true
    } else if full.len() == 0 {
        false
    } else if sub.last() == full.last() && is_subsequence_of(sub.drop_last(), full.drop_last()) {
        true
    } else {
        is_subsequence_of(sub, full.drop_last())
    }
}

/// What a filter keeps is an order-preserving subsequence of what it was
/// given.
proof fn lemma_filter_is_subsequence<A>(s: Seq<A>, pred: spec_fn(A) -> bool)
    ensures
        is_subsequence_of(s.filter(pred), s),
    decreases s.len(),
{
    reveal_with_fuel(Seq::filter, 1);
    if s.len() > 0 {
        lemma_filter_is_subsequence(s.drop_last(), pred);
        let kept = s.drop_last().filter(pred);
        if pred(s.last()) {
            assert(s.filter(pred) == kept.push(s.last()));
            assert(s.filter(pred).drop_last() =~= kept);
        }
    }
}

/// Filtering with a test that every element passes returns the sequence
/// unchanged.
proof fn lemma_filter_all_pass<A>(s: Seq<A>, pred: spec_fn(A) -> bool)
    requires
        forall|i: int| 0 <= i < s.len() ==> pred(s[i]),
    ensures
        s.filter(pred) == s,
    decreases s.len(),
{
    reveal_with_fuel(Seq::filter, 1);
    if s.len() == 0 {
        assert(s.filter(pred) =~= s);
    } else {
        lemma_filter_all_pass(s.drop_last(), pred);
        assert(s.drop_last().push(s.last()) =~= s);
    }
}

/// Lowercasing both texts keeps an occurrence at its position: where the
/// query occurs in a line, the lowercased query occurs in the lowercased
/// line.
pub proof fn lemma_lower_preserves_contains(text: Seq<char>, pat: Seq<char>)
    requires
        contains_seq(text, pat),
    ensures
        contains_seq(lower_seq(text), lower_seq(pat)),
{
    let i = choose|i: int| contains_at(text, pat, i);
    assert(lower_seq(text).subrange(i, i + lower_seq(pat).len() as int) =~= lower_seq(pat)) by {
        assert forall|k: int| 0 <= k < pat.len() implies lower_seq(text)[i + k] == lower_seq(
            pat,
        )[k] by {
            assert(text.subrange(i, i + pat.len() as int)[k] == text[i + k]);
        }
    }
    assert(contains_at(lower_seq(text), lower_seq(pat), i));
}

/// Every line the case-sensitive search keeps, the case-insensitive
/// search on the same query and contents keeps too.
pub proof fn lemma_sensitive_subset_of_insensitive(query: Seq<char>, contents: Seq<char>)
    ensures
        forall|line: Seq<char>| #[trigger] search_spec(query, contents).contains(line)
            ==> search_insensitive_spec(query, contents).contains(line),
{
    let all = spec_lines(contents);
    let exact = line_pred(false, query);
    let folded = line_pred(true, query);
    assert forall|line: Seq<char>| #[trigger] search_spec(query, contents).contains(
        line,
    ) implies search_insensitive_spec(query, contents).contains(line) by {
        let j = choose|j: int|
            0 <= j < all.filter(exact).len() && all.filter(exact)[j] == line;
        all.lemma_filter_pred(exact, j);
        all.lemma_filter_contains_rev(exact, line);
        let i = choose|i: int| 0 <= i < all.len() && all[i] == line;
        lemma_lower_preserves_contains(line, query);
        all.lemma_filter_contains(folded, i);
    }
}

/// An empty query occurs in every line, so both search modes return every
/// line of the contents, unchanged and in order.
pub proof fn lemma_empty_query_matches_all(contents: Seq<char>)
    ensures
        search_spec(Seq::empty(), contents) == spec_lines(contents),
        search_insensitive_spec(Seq::empty(), contents) == spec_lines(contents),
{
    let all = spec_lines(contents);
    let exact = line_pred(false, Seq::empty());
    let folded = line_pred(true, Seq::empty());
    assert(lower_seq(Seq::empty()) =~= Seq::<char>::empty());
    assert forall|i: int| 0 <= i < all.len() implies exact(all[i]) && folded(all[i]) by {
        assert(all[i].subrange(0, 0) =~= Seq::<char>::empty());
        assert(lower_seq(all[i]).subrange(0, 0) =~= Seq::<char>::empty());
        assert(contains_at(all[i], Seq::empty(), 0));
        assert(contains_at(lower_seq(all[i]), lower_seq(Seq::empty()), 0));
    }
    lemma_filter_all_pass(all, exact);
    lemma_filter_all_pass(all, folded);
}

/// The matcher is a function of the query and the contents alone: two
/// results of the same mode on the same pair are the same sequence.
pub proof fn lemma_matcher_deterministic(
    case_sensitive: bool,
    query: Seq<char>,
    contents: Seq<char>,
    first: Seq<Seq<char>>,
    second: Seq<Seq<char>>,
)
    requires
        first == (if case_sensitive {
            search_spec(query, contents)
        } else {
            search_insensitive_spec(query, contents)
        }),
        second == (if case_sensitive {
            search_spec(query, contents)
        } else {
            search_insensitive_spec(query, contents)
        }),
    ensures
        first == second,
{
}

/// Each search result keeps the lines of the contents in their order.
pub proof fn lemma_search_order_preserving(query: Seq<char>, contents: Seq<char>)
    ensures
        is_subsequence_of(search_spec(query, contents), spec_lines(contents)),
        is_subsequence_of(search_insensitive_spec(query, contents), spec_lines(contents)),
{
    lemma_filter_is_subsequence(spec_lines(contents), line_pred(false, query));
    lemma_filter_is_subsequence(spec_lines(contents), line_pred(true, query));
}

} // verus!
