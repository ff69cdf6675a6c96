//! The line matcher: returns the lines of a text that contain a query.

use vstd::prelude::*;
use vstd::utf8::is_ascii_chars;

use crate::casing::ascii_lowering;
use crate::casing::lemma_ascii_lowering_preserves_substring;
use crate::casing::lower_of;
use crate::casing::lowercase;
use crate::lines::lemma_lines_ascii;
use crate::lines::spec_lines;
use crate::lines::split_lines;
use crate::substring::contains_substring;
use crate::substring::has_substring;
use crate::substring::lemma_empty_needle;

verus! {

/// The predicate a line must satisfy to be returned by `search`: it
/// contains the query as a literal substring.
pub open spec fn match_pred(q: Seq<char>) -> spec_fn(Seq<char>) -> bool {
    |l: Seq<char>| has_substring(l, q)
}

/// What `search` returns: the lines of `t` containing `q`, in source order.
pub open spec fn spec_search(q: Seq<char>, t: Seq<char>) -> Seq<Seq<char>> {
    spec_lines(t).filter(match_pred(q))
}

/// The predicate for the case-insensitive variant: the line's Unicode
/// lowercasing contains the query's Unicode lowercasing.
pub open spec fn match_pred_ci(q: Seq<char>) -> spec_fn(Seq<char>) -> bool {
    |l: Seq<char>| has_substring(lower_of(l), lower_of(q))
}

/// What `search_case_insensitive` returns.
pub open spec fn spec_search_ci(q: Seq<char>, t: Seq<char>) -> Seq<Seq<char>> {
    spec_lines(t).filter(match_pred_ci(q))
}

/// `xs` is an order-preserving selection from `ys`: `ys` with zero or more
/// elements left out.
pub open spec fn is_subsequence_of(xs: Seq<Seq<char>>, ys: Seq<Seq<char>>) -> bool
    decreases xs.len() + ys.len(),
{
    if xs.len() == 0 {
        true
    } else if ys.len() == 0 {
        false
    } else {
        (xs.last() == ys.last() && is_subsequence_of(xs.drop_last(), ys.drop_last()))
            || is_subsequence_of(xs, ys.drop_last())
    }
}

proof fn lemma_filter_empty(pred: spec_fn(Seq<char>) -> bool)
    ensures
        Seq::<Seq<char>>::empty().filter(pred) == Seq::<Seq<char>>::empty(),
{
    reveal(Seq::filter);
}

proof fn lemma_filter_push(s: Seq<Seq<char>>, pred: spec_fn(Seq<char>) -> bool, x: Seq<char>)
    ensures
        s.push(x).filter(pred) == if pred(x) {
            s.filter(pred).push(x)
        } else {
            s.filter(pred)
        },
{
    reveal(Seq::filter);
    assert(s.push(x).drop_last() =~= s);
    assert(s.push(x).last() == x);
}

proof fn lemma_filter_all_true(s: Seq<Seq<char>>, pred: spec_fn(Seq<char>) -> bool)
    requires
        forall|i: int| 0 <= i < s.len() ==> pred(#[trigger] s[i]),
    ensures
        s.filter(pred) == s,
    decreases s.len(),
{
    reveal(Seq::filter);
    if s.len() > 0 {
        let d = s.drop_last();
        assert(forall|i: int| 0 <= i < d.len() ==> d[i] == s[i]);
        lemma_filter_all_true(d, pred);
        assert(pred(s[s.len() - 1]));
        assert(s.filter(pred) =~= s);
    }
}

proof fn lemma_filter_subsequence(s: Seq<Seq<char>>, pred: spec_fn(Seq<char>) -> bool)
    ensures
        is_subsequence_of(s.filter(pred), s),
    decreases s.len(),
{
    reveal(Seq::filter);
    if s.len() > 0 {
        lemma_filter_subsequence(s.drop_last(), pred);
        if pred(s.last()) {
            assert(s.filter(pred).drop_last() =~= s.drop_last().filter(pred));
        }
    }
}

proof fn lemma_subsequence_membership(xs: Seq<Seq<char>>, ys: Seq<Seq<char>>, l: Seq<char>)
    requires
        is_subsequence_of(xs, ys),
        xs.contains(l),
    ensures
        ys.contains(l),
    decreases xs.len() + ys.len(),
{
    if xs.last() == ys.last() && is_subsequence_of(xs.drop_last(), ys.drop_last()) {
        if l == ys.last() {
            assert(ys[ys.len() - 1] == l);
        } else {
            let i = choose|i: int| 0 <= i < xs.len() && xs[i] == l;
            assert(xs.drop_last()[i] == l);
            lemma_subsequence_membership(xs.drop_last(), ys.drop_last(), l);
            let j = choose|j: int|
                0 <= j < ys.drop_last().len() && ys.drop_last()[j] == l;
            assert(ys[j] == l);
        }
    } else {
        lemma_subsequence_membership(xs, ys.drop_last(), l);
        let j = choose|j: int| 0 <= j < ys.drop_last().len() && ys.drop_last()[j] == l;
        assert(ys[j] == l);
    }
}

/// Returns every line of `contents` that contains `query` as a literal
/// substring, in source order, as borrowed slices into `contents`.
pub fn search<'a>(query: &str, contents: &'a str) -> (result: Vec<&'a str>)
    ensures
        result.deep_view() == spec_search(query@, contents@),
{
    let lines = split_lines(contents);
    let mut result: Vec<&str> = Vec::new();
    let n = lines.len();
    proof {
        lemma_filter_empty(match_pred(query@));
        assert(lines.deep_view().subrange(0, 0) =~= Seq::<Seq<char>>::empty());
        assert(result.deep_view() =~= Seq::<Seq<char>>::empty());
        assert(lines.deep_view().len() == n);
    }
    let mut i: usize = 0;
    while i < n
        invariant
            n == lines.len(),
            i <= n,
            lines.deep_view() == spec_lines(contents@),
            lines.deep_view().len() == n,
            result.deep_view() == lines.deep_view().subrange(0, i as int).filter(
                match_pred(query@),
            ),
        decreases n - i,
    {
        let line = lines[i];
        let ghost prefix = lines.deep_view().subrange(0, i as int);
        let ghost dv = result.deep_view();
        proof {
            assert(line@ == lines.deep_view()[i as int]);
        }
        if contains_substring(line, query) {
            result.push(line);
            proof {
                assert(result.deep_view() =~= dv.push(line@));
            }
        }
        proof {
            assert(lines.deep_view().subrange(0, i + 1) =~= prefix.push(line@));
            lemma_filter_push(prefix, match_pred(query@), line@);
        }
        i = i + 1;
    }
    proof {
        assert(lines.deep_view().subrange(0, n as int) =~= lines.deep_view());
    }
    result
}

/// Returns every line of `contents` whose Unicode lowercasing contains the
/// Unicode lowercasing of `query`, in source order, as borrowed slices into
/// `contents`. On all-ASCII inputs the result includes every line that the
/// case-sensitive `search` returns.
pub fn search_case_insensitive<'a>(query: &str, contents: &'a str) -> (result: Vec<&'a str>)
    ensures
        result.deep_view() == spec_search_ci(query@, contents@),
        is_ascii_chars(query@) && is_ascii_chars(contents@) ==> forall|l: Seq<char>|
            spec_search(query@, contents@).contains(l) ==> result.deep_view().contains(l),
{
    let low_query = lowercase(query);
    let lines = split_lines(contents);
    let mut result: Vec<&str> = Vec::new();
    let n = lines.len();
    proof {
        lemma_filter_empty(match_pred_ci(query@));
        assert(lines.deep_view().subrange(0, 0) =~= Seq::<Seq<char>>::empty());
        assert(result.deep_view() =~= Seq::<Seq<char>>::empty());
        assert(lines.deep_view().len() == n);
    }
    let mut i: usize = 0;
    while i < n
        invariant
            n == lines.len(),
            i <= n,
            lines.deep_view() == spec_lines(contents@),
            lines.deep_view().len() == n,
            low_query@ == lower_of(query@),
            is_ascii_chars(query@) ==> ascii_lowering(query@, lower_of(query@)),
            result.deep_view() == lines.deep_view().subrange(0, i as int).filter(
                match_pred_ci(query@),
            ),
            forall|j: int|
                0 <= j < i && is_ascii_chars(#[trigger] lines.deep_view()[j])
                    ==> ascii_lowering(lines.deep_view()[j], lower_of(lines.deep_view()[j])),
        decreases n - i,
    {
        let line = lines[i];
        let ghost prefix = lines.deep_view().subrange(0, i as int);
        let ghost dv = result.deep_view();
        proof {
            assert(line@ == lines.deep_view()[i as int]);
        }
        let low_line = lowercase(line);
        if contains_substring(low_line.as_str(), low_query.as_str()) {
            result.push(line);
            proof {
                assert(result.deep_view() =~= dv.push(line@));
            }
        }
        proof {
            assert(lines.deep_view().subrange(0, i + 1) =~= prefix.push(line@));
            lemma_filter_push(prefix, match_pred_ci(query@), line@);
        }
        i = i + 1;
    }
    proof {
        assert(lines.deep_view().subrange(0, n as int) =~= lines.deep_view());
        if is_ascii_chars(query@) && is_ascii_chars(contents@) {
            let lines_seq = spec_lines(contents@);
            lemma_lines_ascii(contents@);
            assert forall|l: Seq<char>|
                spec_search(query@, contents@).contains(l) implies result.deep_view().contains(
                l,
            ) by {
                let idx = choose|idx: int|
                    0 <= idx < spec_search(query@, contents@).len() && spec_search(
                        query@,
                        contents@,
                    )[idx] == l;
                lines_seq.lemma_filter_pred(match_pred(query@), idx);
                assert(has_substring(l, query@));
                lemma_filter_subsequence(lines_seq, match_pred(query@));
                lemma_subsequence_membership(spec_search(query@, contents@), lines_seq, l);
                let j = choose|j: int| 0 <= j < lines_seq.len() && lines_seq[j] == l;
                assert(is_ascii_chars(lines_seq[j]));
                assert(ascii_lowering(l, lower_of(l)));
                lemma_ascii_lowering_preserves_substring(
                    l,
                    lower_of(l),
                    query@,
                    lower_of(query@),
                );
                lines_seq.lemma_filter_contains(match_pred_ci(query@), j);
            }
        }
    }
    result
}

/// An empty query matches every line: the search returns exactly the lines
/// of the text, in order.
pub proof fn lemma_search_empty_query(q: Seq<char>, t: Seq<char>)
    requires
        q.len() == 0,
    ensures
        spec_search(q, t) == spec_lines(t),
{
    assert forall|i: int| 0 <= i < spec_lines(t).len() implies match_pred(q)(
        #[trigger] spec_lines(t)[i],
    ) by {
        lemma_empty_needle(spec_lines(t)[i], q);
    }
    lemma_filter_all_true(spec_lines(t), match_pred(q));
}

/// The search result is an order-preserving subsequence of the text's
/// lines, and every returned line contains the query as a literal
/// substring.
pub proof fn lemma_search_subsequence(q: Seq<char>, t: Seq<char>)
    ensures
        is_subsequence_of(spec_search(q, t), spec_lines(t)),
        forall|i: int|
            0 <= i < spec_search(q, t).len() ==> has_substring(
                #[trigger] spec_search(q, t)[i],
                q,
            ),
{
    lemma_filter_subsequence(spec_lines(t), match_pred(q));
    assert forall|i: int| 0 <= i < spec_search(q, t).len() implies has_substring(
        #[trigger] spec_search(q, t)[i],
        q,
    ) by {
        spec_lines(t).lemma_filter_pred(match_pred(q), i);
    }
}

/// The search is deterministic: any two results of `search` on the same
/// query and text are equal, since each equals `spec_search` of the inputs.
pub proof fn lemma_search_deterministic(
    q: Seq<char>,
    t: Seq<char>,
    r1: Seq<Seq<char>>,
    r2: Seq<Seq<char>>,
)
    requires
        r1 == spec_search(q, t),
        r2 == spec_search(q, t),
    ensures
        r1 == r2,
{
}

} // verus!
