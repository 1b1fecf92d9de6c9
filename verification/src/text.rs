//! The mathematical model of the searched text — occurrence of one
//! character sequence inside another, character-wise lowercasing, and the
//! division of a text into lines — together with the verified executable
//! functions that realise it on `&str` values.

use vstd::prelude::*;

verus! {

/// `pat` occurs in `text` starting exactly at position `i`.
pub open spec fn contains_at(text: Seq<char>, pat: Seq<char>, i: int) -> bool {
    &&& 0 <= i
    &&& i + pat.len() <= text.len()
    &&& text.subrange(i, i + pat.len() as int) == pat
}

/// `pat` occurs somewhere in `text`.  An empty `pat` occurs in every text,
/// the empty one included.
pub open spec fn contains_seq(text: Seq<char>, pat: Seq<char>) -> bool {
    exists|i: int| contains_at(text, pat, i)
}

/// Simple, locale-independent lowercasing of one character: the letters
/// 'A' through 'Z' map to 'a' through 'z', every other character is left
/// unchanged.
pub open spec fn lower_char(c: char) -> char {
    if 'A' <= c && c <= 'Z' {
        ((c as u32) + 32) as char
    } else {
        c
    }
}

/// Character-wise lowercasing of a whole text.
pub open spec fn lower_seq(s: Seq<char>) -> Seq<char> {
    s.map_values(|c: char| lower_char(c))
}

/// `s` lowercased when `fold` is set, `s` itself otherwise.
pub open spec fn fold_case(fold: bool, s: Seq<char>) -> Seq<char> {
    if fold {
        lower_seq(s)
    } else {
        s
    }
}

/// The position of the first line feed at or after `from`, or the length
/// of `text` when there is none.
pub open spec fn find_newline(text: Seq<char>, from: int) -> int
    recommends
        0 <= from <= text.len(),
    decreases text.len() - from,
{
    if from < 0 || from >= text.len() {
        text.len() as int
    } else if text[from] == '\n' {
        from
    } else {
        find_newline(text, from + 1)
    }
}

proof fn lemma_find_newline(text: Seq<char>, from: int)
    requires
        0 <= from <= text.len(),
    ensures
        from <= find_newline(text, from) <= text.len(),
        find_newline(text, from) < text.len() ==> text[find_newline(text, from)] == '\n',
        forall|k: int| from <= k < find_newline(text, from) ==> text[k] != '\n',
    decreases text.len() - from,
{
    if from < text.len() && text[from] != '\n' {
        lemma_find_newline(text, from + 1);
    }
}

/// A line cut at a line feed drops a carriage return directly before it:
/// remove one trailing '\r'.
pub open spec fn strip_cr(line: Seq<char>) -> Seq<char> {
    if line.len() > 0 && line[line.len() - 1] == '\r' {
        line.drop_last()
    } else {
        line
    }
}

/// The lines of `text` from position `from` on: the pieces between line
/// feeds, a carriage return directly before a line feed removed, and no
/// empty final line for a text that ends with a terminator.
pub open spec fn lines_from(text: Seq<char>, from: int) -> Seq<Seq<char>>
    recommends
        0 <= from <= text.len(),
    decreases text.len() - from,
        via lines_from_decreases
{
    if from < 0 || from >= text.len() {
        Seq::empty()
    } else {
        let j = find_newline(text, from);
        if j >= text.len() {
            seq![text.subrange(from, text.len() as int)]
        } else {
            seq![strip_cr(text.subrange(from, j))] + lines_from(text, j + 1)
        }
    }
}

#[via_fn]
proof fn lines_from_decreases(text: Seq<char>, from: int) {
    if 0 <= from < text.len() {
        lemma_find_newline(text, from);
    }
}

/// The lines of `text`, in order.
pub open spec fn spec_lines(text: Seq<char>) -> Seq<Seq<char>> {
    lines_from(text, 0)
}

/// Lowercase one character, as `lower_char` describes.
fn char_to_lower(c: char) -> (r: char)
    ensures
        r == lower_char(c),
{
    match c {
        'A' => 'a',
        'B' => 'b',
        'C' => 'c',
        'D' => 'd',
        'E' => 'e',
        'F' => 'f',
        'G' => 'g',
        'H' => 'h',
        'I' => 'i',
        'J' => 'j',
        'K' => 'k',
        'L' => 'l',
        'M' => 'm',
        'N' => 'n',
        'O' => 'o',
        'P' => 'p',
        'Q' => 'q',
        'R' => 'r',
        'S' => 's',
        'T' => 't',
        'U' => 'u',
        'V' => 'v',
        'W' => 'w',
        'X' => 'x',
        'Y' => 'y',
        'Z' => 'z',
        _ => c,
    }
}

/// Find the first line feed of `text` at or after `from`.
#[verifier::loop_isolation(false)]
fn find_newline_exec(text: &str, from: usize) -> (j: usize)
    requires
        from <= text@.len(),
    ensures
        j == find_newline(text@, from as int),
{
    let n = text.unicode_len();
    let mut j = from;
    while j < n
        invariant
            from <= j <= n,
            find_newline(text@, from as int) == find_newline(text@, j as int),
        decreases n - j,
    {
        if text.get_char(j) == '\n' {
            return j;
        }
        j = j + 1;
    }
    j
}

/// Does `needle` occur in `hay` starting at position `i`, after both are
/// lowercased when `fold` is set?
#[verifier::loop_isolation(false)]
fn match_at(hay: &str, needle: &str, i: usize, fold: bool) -> (r: bool)
    requires
        i + needle@.len() <= hay@.len(),
    ensures
        r == contains_at(fold_case(fold, hay@), fold_case(fold, needle@), i as int),
{
    let ghost fh = fold_case(fold, hay@);
    let ghost fp = fold_case(fold, needle@);
    let n = hay.unicode_len();
    let m = needle.unicode_len();
    let mut j: usize = 0;
    while j < m
        invariant
            j <= m,
            forall|k: int| 0 <= k < j ==> fh[i + k] == fp[k],
        decreases m - j,
    {
        let mut hc = hay.get_char(i + j);
        let mut nc = needle.get_char(j);
        if fold {
            hc = char_to_lower(hc);
            nc = char_to_lower(nc);
        }
        if hc != nc {
            proof {
                assert(fh[i + j] != fp[j as int]);
                assert forall|p: int| !contains_at(fh, fp, p) || p != i by {
                    if contains_at(fh, fp, i as int) {
                        assert(fh.subrange(i as int, i + fp.len() as int)[j as int] == fh[i + j]);
                    }
                }
            }
            return false;
        }
        j = j + 1;
    }
    proof {
        assert(fh.subrange(i as int, i + fp.len() as int) =~= fp);
    }
    true
}

/// Does `needle` occur anywhere in `hay`, after both are lowercased when
/// `fold` is set?  An empty `needle` occurs in every `hay`.
#[verifier::loop_isolation(false)]
pub(crate) fn contains_folded(hay: &str, needle: &str, fold: bool) -> (r: bool)
    ensures
        r == contains_seq(fold_case(fold, hay@), fold_case(fold, needle@)),
{
    let ghost fh = fold_case(fold, hay@);
    let ghost fp = fold_case(fold, needle@);
    let n = hay.unicode_len();
    let m = needle.unicode_len();
    if m > n {
        proof {
            assert forall|p: int| !contains_at(fh, fp, p) by {}
        }
        return false;
    }
    let mut i: usize = 0;
    loop
        invariant
            m <= n,
            i <= n - m,
            forall|k: int| 0 <= k < i ==> !contains_at(fh, fp, k),
        decreases n - m - i,
    {
        if match_at(hay, needle, i, fold) {
            return true;
        }
        if i == n - m {
            proof {
                assert forall|p: int| !contains_at(fh, fp, p) by {
                    if 0 <= p && p + fp.len() <= fh.len() {
                        assert(p <= i);
                    }
                }
            }
            return false;
        }
        i = i + 1;
    }
}

/// Are the two strings equal, character for character?
#[verifier::loop_isolation(false)]
pub(crate) fn str_eq(a: &str, b: &str) -> (r: bool)
    ensures
        r == (a@ == b@),
{
    let n = a.unicode_len();
    let m = b.unicode_len();
    if n != m {
        return false;
    }
    let mut j: usize = 0;
    while j < n
        invariant
            j <= n,
            forall|k: int| 0 <= k < j ==> a@[k] == b@[k],
        decreases n - j,
    {
        if a.get_char(j) != b.get_char(j) {
            return false;
        }
        j = j + 1;
    }
    proof {
        assert(a@ =~= b@);
    }
    true
}

/// Split `contents` into its lines, each a subslice of `contents`, in
/// their original order.
#[verifier::loop_isolation(false)]
pub fn split_lines<'a>(contents: &'a str) -> (r: Vec<&'a str>)
    ensures
        r.deep_view() == spec_lines(contents@),
{
    let n = contents.unicode_len();
    let mut r: Vec<&'a str> = Vec::new();
    let mut start: usize = 0;
    while start < n
        invariant
            start <= n,
            spec_lines(contents@) == r.deep_view() + lines_from(contents@, start as int),
        decreases n - start,
    {
        let ghost prefix = r.deep_view();
        let j = find_newline_exec(contents, start);
        proof {
            lemma_find_newline(contents@, start as int);
        }
        if j == n {
            let line = contents.substring_char(start, n);
            r.push(line);
            proof {
                assert(lines_from(contents@, start as int) =~= seq![line@]);
                assert(r.deep_view() =~= prefix + seq![line@]);
                assert(spec_lines(contents@) =~= r.deep_view() + lines_from(
                    contents@,
                    n as int,
                ));
            }
            start = n;
        } else {
            let end = if j > start && contents.get_char(j - 1) == '\r' {
                j - 1
            } else {
                j
            };
            let line = contents.substring_char(start, end);
            proof {
                let cut = contents@.subrange(start as int, j as int);
                if j > start {
                    assert(cut[cut.len() - 1] == contents@[j - 1]);
                }
                assert(line@ =~= strip_cr(cut));
            }
            r.push(line);
            proof {
                assert(r.deep_view() =~= prefix + seq![line@]);
                assert(lines_from(contents@, start as int) =~= seq![line@] + lines_from(
                    contents@,
                    j + 1,
                ));
                assert(prefix + (seq![line@] + lines_from(contents@, j + 1)) =~= (prefix + seq![
                    line@,
                ]) + lines_from(contents@, j + 1));
            }
            start = j + 1;
        }
    }
    proof {
        assert(r.deep_view() + lines_from(contents@, start as int) =~= r.deep_view());
    }
    r
}

} // verus!
