//! The two search variants — exact and lowercase-normalised substring
//! match — and the laws that hold of them.

use vstd::prelude::*;

use crate::text::contains_at;
use crate::text::contains_str;
use crate::text::contains_substring;
use crate::text::spec_lines;
use crate::text::split_lines;

verus! {

/// The lowercase form of a sequence of characters, as the standard
/// library's locale-independent lowercase conversion produces it.
pub uninterp spec fn lower_of(s: Seq<char>) -> Seq<char>;

/// Relies on `str::to_lowercase`: the result is the locale-independent
/// lowercase form of the input, a function of its characters alone, and an
/// empty input gives an empty result.
#[verifier::external_body]
fn lowercase(s: &str) -> (r: String)
    ensures
        r@ == lower_of(s@),
        s@.len() == 0 ==> r@.len() == 0,
{
    s.to_lowercase()
}

/// The test that a case-sensitive search applies to each line.
pub open spec fn match_pred(query: Seq<char>) -> spec_fn(Seq<char>) -> bool {
    |line: Seq<char>| contains_substring(line, query)
}

/// The test that a case-insensitive search applies to each line.
pub open spec fn match_pred_ci(query: Seq<char>) -> spec_fn(Seq<char>) -> bool {
    |line: Seq<char>| contains_substring(lower_of(line), lower_of(query))
}

/// What `search` returns: the lines of `text` in which `query` occurs.
pub open spec fn search_spec(query: Seq<char>, text: Seq<char>) -> Seq<Seq<char>> {
    spec_lines(text).filter(match_pred(query))
}

/// What `search_case_insensitive` returns: the lines of `text` whose
/// lowercase form holds the lowercase form of `query`.
pub open spec fn search_ci_spec(query: Seq<char>, text: Seq<char>) -> Seq<Seq<char>> {
    spec_lines(text).filter(match_pred_ci(query))
}

proof fn lemma_filter_empty<A>(pred: spec_fn(A) -> bool)
    ensures
        Seq::<A>::empty().filter(pred) == Seq::<A>::empty(),
{
    reveal(Seq::filter);
}

proof fn lemma_filter_push<A>(s: Seq<A>, x: A, pred: spec_fn(A) -> bool)
    ensures
        s.push(x).filter(pred) == (if pred(x) {
            s.filter(pred).push(x)
        } else {
            s.filter(pred)
        }),
{
    reveal(Seq::filter);
    assert(s.push(x).drop_last() =~= s);
    assert(s.push(x).last() == x);
}

proof fn lemma_filter_all_true<A>(s: Seq<A>, pred: spec_fn(A) -> bool)
    requires
        forall|i: int| 0 <= i < s.len() ==> pred(#[trigger] s[i]),
    ensures
        s.filter(pred) == s,
    decreases s.len(),
{
    reveal(Seq::filter);
    if s.len() > 0 {
        lemma_filter_all_true(s.drop_last(), pred);
        assert(s.filter(pred) =~= s);
    } else {
        assert(s.filter(pred) =~= s);
    }
}

/// Returns the lines of `contents` in which `query` occurs as a contiguous
/// substring, in their original order and with their original characters.
/// An empty query matches every line.
pub fn search<'a>(query: &str, contents: &'a str) -> (result: Vec<&'a str>)
    ensures
        result.deep_view() == search_spec(query@, contents@),
        query@.len() == 0 ==> result.deep_view() == spec_lines(contents@),
{
    let lines = split_lines(contents);
    let mut result: Vec<&'a str> = Vec::new();
    proof {
        lemma_filter_empty(match_pred(query@));
        assert(lines.deep_view().subrange(0, 0) =~= Seq::<Seq<char>>::empty());
        assert(result.deep_view() =~= Seq::<Seq<char>>::empty());
    }
    let mut i: usize = 0;
    while i < lines.len()
        invariant
            i <= lines.len(),
            lines.deep_view() == spec_lines(contents@),
            lines.deep_view().len() == lines@.len(),
            result.deep_view() == lines.deep_view().subrange(0, i as int).filter(
                match_pred(query@),
            ),
        decreases lines.len() - i,
    {
        let ghost prev = result.deep_view();
        let line: &'a str = lines[i];
        let matched = contains_str(line, query);
        if matched {
            result.push(line);
        }
        proof {
            let dv = lines.deep_view();
            assert(dv[i as int] == line@);
            assert(dv.subrange(0, i + 1) =~= dv.subrange(0, i as int).push(line@));
            lemma_filter_push(dv.subrange(0, i as int), line@, match_pred(query@));
            if matched {
                assert(result.deep_view() =~= prev.push(line@));
            }
        }
        i += 1;
    }
    proof {
        assert(lines.deep_view().subrange(0, lines@.len() as int) =~= lines.deep_view());
        if query@.len() == 0 {
            assert forall|k: int|
                0 <= k < spec_lines(contents@).len() implies match_pred(query@)(
                #[trigger] spec_lines(contents@)[k],
            ) by {
                assert(spec_lines(contents@)[k].subrange(0, 0) =~= query@);
                assert(contains_at(spec_lines(contents@)[k], query@, 0));
            }
            lemma_filter_all_true(spec_lines(contents@), match_pred(query@));
        }
    }
    result
}

/// Returns the lines of `contents` whose lowercase form holds the lowercase
/// form of `query`, in their original order and with their original casing.
/// An empty query matches every line.
pub fn search_case_insensitive<'a>(query: &str, contents: &'a str) -> (result: Vec<&'a str>)
    ensures
        result.deep_view() == search_ci_spec(query@, contents@),
        query@.len() == 0 ==> result.deep_view() == spec_lines(contents@),
{
    let query_lower = lowercase(query);
    let lines = split_lines(contents);
    let mut result: Vec<&'a str> = Vec::new();
    proof {
        lemma_filter_empty(match_pred_ci(query@));
        assert(lines.deep_view().subrange(0, 0) =~= Seq::<Seq<char>>::empty());
        assert(result.deep_view() =~= Seq::<Seq<char>>::empty());
    }
    let mut i: usize = 0;
    while i < lines.len()
        invariant
            i <= lines.len(),
            lines.deep_view() == spec_lines(contents@),
            lines.deep_view().len() == lines@.len(),
            query_lower@ == lower_of(query@),
            result.deep_view() == lines.deep_view().subrange(0, i as int).filter(
                match_pred_ci(query@),
            ),
        decreases lines.len() - i,
    {
        let ghost prev = result.deep_view();
        let line: &'a str = lines[i];
        let line_lower = lowercase(line);
        let matched = contains_str(line_lower.as_str(), query_lower.as_str());
        if matched {
            result.push(line);
        }
        proof {
            let dv = lines.deep_view();
            assert(dv[i as int] == line@);
            assert(matched == match_pred_ci(query@)(line@));
            assert(dv.subrange(0, i + 1) =~= dv.subrange(0, i as int).push(line@));
            lemma_filter_push(dv.subrange(0, i as int), line@, match_pred_ci(query@));
            if matched {
                assert(result.deep_view() =~= prev.push(line@));
            }
        }
        i += 1;
    }
    proof {
        assert(lines.deep_view().subrange(0, lines@.len() as int) =~= lines.deep_view());
        if query@.len() == 0 {
            assert(lower_of(query@) =~= Seq::<char>::empty());
            assert forall|k: int|
                0 <= k < spec_lines(contents@).len() implies match_pred_ci(query@)(
                #[trigger] spec_lines(contents@)[k],
            ) by {
                let low = lower_of(spec_lines(contents@)[k]);
                assert(low.subrange(0, 0) =~= lower_of(query@));
                assert(contains_at(low, lower_of(query@), 0));
            }
            lemma_filter_all_true(spec_lines(contents@), match_pred_ci(query@));
        }
    }
    result
}

/// An index map witnessing that `sub` is `sup` with some elements left
/// out and the rest kept in their original order.
pub open spec fn is_subsequence_with<A>(sub: Seq<A>, sup: Seq<A>, idx: Seq<int>) -> bool {
    &&& idx.len() == sub.len()
    &&& forall|k: int|
        0 <= k < idx.len() ==> 0 <= #[trigger] idx[k] < sup.len() && sub[k] == sup[idx[k]]
    &&& forall|k: int| 0 <= k < idx.len() - 1 ==> #[trigger] idx[k] < idx[k + 1]
}

/// `sub` is a subsequence of `sup`: every element of `sub` stands in `sup`,
/// and in the same order.
pub open spec fn is_subsequence<A>(sub: Seq<A>, sup: Seq<A>) -> bool {
    exists|idx: Seq<int>| is_subsequence_with(sub, sup, idx)
}

proof fn lemma_filter_is_subsequence<A>(s: Seq<A>, pred: spec_fn(A) -> bool)
    ensures
        is_subsequence(s.filter(pred), s),
    decreases s.len(),
{
    reveal(Seq::filter);
    if s.len() == 0 {
        let idx = Seq::<int>::empty();
        assert(is_subsequence_with(s.filter(pred), s, idx));
    } else {
        let s0 = s.drop_last();
        lemma_filter_is_subsequence(s0, pred);
        let idx0 = choose|idx: Seq<int>| is_subsequence_with(s0.filter(pred), s0, idx);
        if pred(s.last()) {
            let idx = idx0.push(s.len() - 1);
            assert forall|k: int|
                0 <= k < idx.len() implies 0 <= #[trigger] idx[k] < s.len() && s.filter(pred)[k]
                == s[idx[k]] by {
                if k < idx0.len() {
                    assert(0 <= idx0[k] < s0.len());
                    assert(s0.filter(pred)[k] == s0[idx0[k]]);
                    assert(s[idx[k]] == s0[idx0[k]]);
                }
            }
            assert forall|k: int| 0 <= k < idx.len() - 1 implies #[trigger] idx[k] < idx[k
                + 1] by {
                if k < idx0.len() - 1 {
                    assert(idx0[k] < idx0[k + 1]);
                } else {
                    assert(idx[k] == idx0[k]);
                    assert(0 <= idx0[k] < s0.len());
                }
            }
            assert(is_subsequence_with(s.filter(pred), s, idx));
        } else {
            assert forall|k: int|
                0 <= k < idx0.len() implies 0 <= #[trigger] idx0[k] < s.len() && s.filter(pred)[k]
                == s[idx0[k]] by {
                assert(0 <= idx0[k] < s0.len());
                assert(s0.filter(pred)[k] == s0[idx0[k]]);
                assert(s[idx0[k]] == s0[idx0[k]]);
            }
            assert(is_subsequence_with(s.filter(pred), s, idx0));
        }
    }
}

/// Law: a case-sensitive search returns a subsequence of the text's lines,
/// in original order, and keeps exactly the lines in which the query occurs
/// as a contiguous substring.
pub proof fn lemma_search_characterisation(query: Seq<char>, text: Seq<char>)
    ensures
        is_subsequence(search_spec(query, text), spec_lines(text)),
        forall|k: int|
            0 <= k < search_spec(query, text).len() ==> contains_substring(
                #[trigger] search_spec(query, text)[k],
                query,
            ),
        forall|k: int|
            0 <= k < spec_lines(text).len() && contains_substring(
                #[trigger] spec_lines(text)[k],
                query,
            ) ==> search_spec(query, text).contains(spec_lines(text)[k]),
{
    let lines = spec_lines(text);
    let pred = match_pred(query);
    lemma_filter_is_subsequence(lines, pred);
    assert forall|k: int|
        0 <= k < search_spec(query, text).len() implies contains_substring(
        #[trigger] search_spec(query, text)[k],
        query,
    ) by {
        lines.lemma_filter_pred(pred, k);
    }
    assert forall|k: int|
        0 <= k < lines.len() && contains_substring(#[trigger] lines[k], query) implies search_spec(
        query,
        text,
    ).contains(lines[k]) by {
        lines.lemma_filter_contains(pred, k);
    }
}

/// Law: a case-insensitive search returns a subsequence of the text's
/// lines — so every returned line keeps its original casing — and keeps
/// exactly the lines whose lowercase form holds the query's lowercase form.
pub proof fn lemma_search_case_insensitive_characterisation(query: Seq<char>, text: Seq<char>)
    ensures
        is_subsequence(search_ci_spec(query, text), spec_lines(text)),
        forall|k: int|
            0 <= k < search_ci_spec(query, text).len() ==> contains_substring(
                lower_of(#[trigger] search_ci_spec(query, text)[k]),
                lower_of(query),
            ),
        forall|k: int|
            0 <= k < spec_lines(text).len() && contains_substring(
                lower_of(#[trigger] spec_lines(text)[k]),
                lower_of(query),
            ) ==> search_ci_spec(query, text).contains(spec_lines(text)[k]),
{
    let lines = spec_lines(text);
    let pred = match_pred_ci(query);
    lemma_filter_is_subsequence(lines, pred);
    assert forall|k: int|
        0 <= k < search_ci_spec(query, text).len() implies contains_substring(
        lower_of(#[trigger] search_ci_spec(query, text)[k]),
        lower_of(query),
    ) by {
        lines.lemma_filter_pred(pred, k);
    }
    assert forall|k: int|
        0 <= k < lines.len() && contains_substring(
        lower_of(#[trigger] lines[k]),
        lower_of(query),
    ) implies search_ci_spec(query, text).contains(lines[k]) by {
        lines.lemma_filter_contains(pred, k);
    }
}

/// Law: both search variants are pure functions of their inputs: two
/// results that meet the search contract for the same query and text are
/// identical.
pub proof fn lemma_search_deterministic(
    query: Seq<char>,
    text: Seq<char>,
    r1: Seq<Seq<char>>,
    r2: Seq<Seq<char>>,
)
    requires
        r1 == search_spec(query, text) || r1 == search_ci_spec(query, text),
        r1 == search_spec(query, text) ==> r2 == search_spec(query, text),
        r1 == search_ci_spec(query, text) ==> r2 == search_ci_spec(query, text),
    ensures
        r1 == r2,
{
}

/// Law: the empty query occurs in every line, so a case-sensitive search
/// for it returns every line of the text.
pub proof fn lemma_empty_query_matches_all(query: Seq<char>, text: Seq<char>)
    requires
        query.len() == 0,
    ensures
        search_spec(query, text) == spec_lines(text),
{
    let lines = spec_lines(text);
    assert forall|k: int| 0 <= k < lines.len() implies match_pred(query)(
        #[trigger] lines[k],
    ) by {
        assert(lines[k].subrange(0, 0) =~= query);
        assert(contains_at(lines[k], query, 0));
    }
    lemma_filter_all_true(lines, match_pred(query));
}

/// Law: a text with no lines — the empty text — gives an empty result for
/// every query, in both variants.
pub proof fn lemma_empty_text(query: Seq<char>, text: Seq<char>)
    requires
        text.len() == 0,
    ensures
        spec_lines(text).len() == 0,
        search_spec(query, text) == Seq::<Seq<char>>::empty(),
        search_ci_spec(query, text) == Seq::<Seq<char>>::empty(),
{
    assert(spec_lines(text) =~= Seq::<Seq<char>>::empty());
    lemma_filter_empty(match_pred(query));
    lemma_filter_empty(match_pred_ci(query));
}

} // verus!
