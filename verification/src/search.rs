//! The line matcher: the lines of a text that contain a query, in their
//! original order, under exact or case-insensitive comparison.

use vstd::prelude::*;

use crate::config::Config;
use crate::text::contains_seq;
use crate::text::contains_folded;
use crate::text::fold_case;
use crate::text::spec_lines;
use crate::text::split_lines;

verus! {

/// The test one line must pass to be kept: it contains the query, both
/// lowercased when `fold` is set.
pub open spec fn line_pred(fold: bool, query: Seq<char>) -> spec_fn(Seq<char>) -> bool {
    |line: Seq<char>| contains_seq(fold_case(fold, line), fold_case(fold, query))
}

/// The lines of `contents` that contain `query` exactly, in their original
/// order.
pub open spec fn search_spec(query: Seq<char>, contents: Seq<char>) -> Seq<Seq<char>> {
    spec_lines(contents).filter(line_pred(false, query))
}

/// The lines of `contents` that contain `query` up to lowercasing, in
/// their original order.
pub open spec fn search_insensitive_spec(query: Seq<char>, contents: Seq<char>) -> Seq<
    Seq<char>,
> {
    spec_lines(contents).filter(line_pred(true, query))
}

/// Keep the lines of `contents` that pass `line_pred(fold, query@)`.
#[verifier::loop_isolation(false)]
fn filter_lines<'a>(query: &str, contents: &'a str, fold: bool) -> (r: Vec<&'a str>)
    ensures
        r.deep_view() == spec_lines(contents@).filter(line_pred(fold, query@)),
{
    let ghost pred = line_pred(fold, query@);
    let ghost all = spec_lines(contents@);
    let lines = split_lines(contents);
    let mut r: Vec<&'a str> = Vec::new();
    proof {
        reveal_with_fuel(Seq::filter, 1);
        assert(r.deep_view() =~= all.subrange(0, 0).filter(pred));
    }
    let mut i: usize = 0;
    while i < lines.len()
        invariant
            i <= lines@.len(),
            lines@.len() == all.len(),
            r.deep_view() == all.subrange(0, i as int).filter(pred),
        decreases lines@.len() - i,
    {
        let ghost prefix = r.deep_view();
        let line = &lines[i];
        proof {
            assert(line@ == all[i as int]);
            assert(all.subrange(0, i + 1).drop_last() =~= all.subrange(0, i as int));
            assert(all.subrange(0, i + 1).last() == all[i as int]);
        }
        if contains_folded(line, query, fold) {
            r.push(line);
            proof {
                reveal_with_fuel(Seq::filter, 1);
                assert(pred(all[i as int]));
                assert(r.deep_view() =~= prefix.push(all[i as int]));
                assert(all.subrange(0, i + 1).filter(pred) == prefix.push(all[i as int]));
            }
        } else {
            proof {
                reveal_with_fuel(Seq::filter, 1);
                assert(!pred(all[i as int]));
                assert(all.subrange(0, i + 1).filter(pred) == prefix);
            }
        }
        i = i + 1;
    }
    proof {
        assert(all.subrange(0, all.len() as int) =~= all);
    }
    r
}

/// The lines of `contents` that contain `query` as an exact substring, in
/// their original order.
pub fn search<'a>(query: &str, contents: &'a str) -> (r: Vec<&'a str>)
    ensures
        r.deep_view() == search_spec(query@, contents@),
{
    filter_lines(query, contents, false)
}

/// The lines of `contents` that contain `query` once both are lowercased,
/// in their original order; the lines returned keep their original case.
pub fn search_case_insensitive<'a>(query: &str, contents: &'a str) -> (r: Vec<&'a str>)
    ensures
        r.deep_view() == search_insensitive_spec(query@, contents@),
{
    filter_lines(query, contents, true)
}

/// The lines of `contents` that match the query of `config`, under the
/// comparison that `config.case_sensitive` selects.
pub fn matching_lines<'a>(config: &Config, contents: &'a str) -> (r: Vec<&'a str>)
    ensures
        config.case_sensitive ==> r.deep_view() == search_spec(config.query@, contents@),
        !config.case_sensitive ==> r.deep_view() == search_insensitive_spec(
            config.query@,
            contents@,
        ),
{
    if config.case_sensitive {
        search(config.query.as_str(), contents)
    } else {
        search_case_insensitive(config.query.as_str(), contents)
    }
}

} // verus!
