//! General properties of the line filters, stated and proved once for
//! all queries and documents.

use crate::search::insensitive_pred;
use crate::search::sensitive_pred;
use crate::search::spec_search_insensitive;
use crate::search::spec_search_sensitive;
use crate::text::contains_at;
use crate::text::is_substring;
use crate::text::lower_char;
use crate::text::spec_lines;
use crate::text::spec_lower;
use vstd::prelude::*;
use vstd::seq_lib::lemma_flatten_concat;

verus! {

/// Filtering a sequence extended by one element keeps the old part and
/// appends the element exactly when it satisfies the predicate.
pub proof fn lemma_filter_push<A>(s: Seq<A>, x: A, p: spec_fn(A) -> bool)
    ensures
        s.push(x).filter(p) == if p(x) {
            s.filter(p).push(x)
        } else {
            s.filter(p)
        },
{
    reveal(Seq::filter);
    assert(s.push(x).drop_last() =~= s);
    assert(s.push(x).last() == x);
}

/// A sequence all of whose elements satisfy the predicate is left
/// unchanged by filtering.
pub proof fn lemma_filter_all_true<A>(s: Seq<A>, p: spec_fn(A) -> bool)
    requires
        forall|i: int| 0 <= i < s.len() ==> p(#[trigger] s[i]),
    ensures
        s.filter(p) == s,
    decreases s.len(),
{
    reveal(Seq::filter);
    if s.len() > 0 {
        lemma_filter_all_true(s.drop_last(), p);
        assert(s.drop_last().push(s.last()) =~= s);
        lemma_filter_push(s.drop_last(), s.last(), p);
    }
}

/// The sequence 0, 1, ..., n - 1.
pub open spec fn index_seq(n: nat) -> Seq<int> {
    Seq::new(n, |i: int| i)
}

/// The positions below `n` whose element in `s` satisfies `p`, in
/// increasing order.
pub open spec fn matching_positions_upto<A>(s: Seq<A>, p: spec_fn(A) -> bool, n: int) -> Seq<
    int,
> {
    index_seq(n as nat).filter(|i: int| p(s[i]))
}

/// The positions in `s` whose element satisfies `p`, in increasing
/// order.
pub open spec fn matching_positions<A>(s: Seq<A>, p: spec_fn(A) -> bool) -> Seq<int> {
    matching_positions_upto(s, p, s.len() as int)
}

/// The elements of `s` at the given positions, in that order.
pub open spec fn select_at<A>(s: Seq<A>, positions: Seq<int>) -> Seq<A> {
    positions.map_values(|i: int| s[i])
}

proof fn lemma_filter_take_via_positions<A>(s: Seq<A>, p: spec_fn(A) -> bool, n: int)
    requires
        0 <= n <= s.len(),
    ensures
        s.take(n).filter(p) == select_at(s, matching_positions_upto(s, p, n)),
    decreases n,
{
    let pi = |i: int| p(s[i]);
    if n == 0 {
        reveal(Seq::filter);
        assert(s.take(0) =~= Seq::<A>::empty());
        assert(index_seq(0) =~= Seq::<int>::empty());
        assert(select_at(s, matching_positions_upto(s, p, 0)) =~= Seq::<A>::empty());
    } else {
        lemma_filter_take_via_positions(s, p, n - 1);
        assert(s.take(n) =~= s.take(n - 1).push(s[n - 1]));
        lemma_filter_push(s.take(n - 1), s[n - 1], p);
        assert(index_seq(n as nat) =~= index_seq((n - 1) as nat).push(n - 1));
        lemma_filter_push(index_seq((n - 1) as nat), n - 1, pi);
        if p(s[n - 1]) {
            assert(select_at(s, matching_positions_upto(s, p, n - 1).push(n - 1)) =~= select_at(
                s,
                matching_positions_upto(s, p, n - 1),
            ).push(s[n - 1]));
        }
    }
}

/// Filtering keeps a strictly increasing sequence of integers strictly
/// increasing.
proof fn lemma_filter_increasing(s: Seq<int>, p: spec_fn(int) -> bool)
    requires
        forall|a: int, b: int| 0 <= a < b < s.len() ==> s[a] < s[b],
    ensures
        forall|a: int, b: int|
            0 <= a < b < s.filter(p).len() ==> s.filter(p)[a] < s.filter(p)[b],
    decreases s.len(),
{
    reveal(Seq::filter);
    if s.len() > 0 {
        let rest = s.drop_last();
        lemma_filter_increasing(rest, p);
        assert(rest.push(s.last()) =~= s);
        lemma_filter_push(rest, s.last(), p);
        let kept = s.filter(p);
        if p(s.last()) {
            assert forall|a: int, b: int| 0 <= a < b < kept.len() implies kept[a] < kept[b] by {
                if b == kept.len() - 1 {
                    let fr = rest.filter(p);
                    assert(fr.contains(fr[a]));
                    rest.lemma_filter_contains_rev(p, fr[a]);
                    let j = choose|j: int| 0 <= j < rest.len() && rest[j] == fr[a];
                    assert(s[j] < s[s.len() - 1]);
                }
            }
        }
    }
}

/// What filtering a sequence means, position by position: the result
/// reads off, in order, the elements at the strictly increasing
/// sequence of exactly those positions whose element satisfies the
/// predicate.
pub proof fn lemma_filter_via_positions<A>(s: Seq<A>, p: spec_fn(A) -> bool)
    ensures
        ({
            let idx = matching_positions(s, p);
            &&& s.filter(p) == select_at(s, idx)
            &&& forall|a: int, b: int| 0 <= a < b < idx.len() ==> idx[a] < idx[b]
            &&& forall|j: int|
                0 <= j < idx.len() ==> 0 <= #[trigger] idx[j] < s.len() && p(s[idx[j]])
            &&& forall|i: int| 0 <= i < s.len() && p(#[trigger] s[i]) ==> idx.contains(i)
        }),
{
    let pi = |i: int| p(s[i]);
    let ixs = index_seq(s.len());
    let idx = matching_positions(s, p);
    lemma_filter_take_via_positions(s, p, s.len() as int);
    assert(s.take(s.len() as int) =~= s);
    lemma_filter_increasing(ixs, pi);
    assert forall|j: int| 0 <= j < idx.len() implies 0 <= #[trigger] idx[j] < s.len() && p(
        s[idx[j]],
    ) by {
        ixs.lemma_filter_pred(pi, j);
        assert(idx.contains(idx[j]));
        ixs.lemma_filter_contains_rev(pi, idx[j]);
        let k = choose|k: int| 0 <= k < ixs.len() && ixs[k] == idx[j];
        assert(ixs[k] == k);
    }
    assert forall|i: int| 0 <= i < s.len() && p(#[trigger] s[i]) implies idx.contains(i) by {
        assert(ixs[i] == i && pi(ixs[i]));
        ixs.lemma_filter_contains(pi, i);
    }
}

/// Law: the case-sensitive match set consists of exactly the lines of
/// the document that contain the query, each verbatim, read off in
/// document order: its lines stand at a strictly increasing sequence
/// of line numbers, and that sequence holds precisely the numbers of
/// the matching lines.
pub proof fn lemma_sensitive_search_exact(q: Seq<char>, d: Seq<char>)
    ensures
        ({
            let lines = spec_lines(d);
            let idx = matching_positions(lines, sensitive_pred(q));
            &&& spec_search_sensitive(q, d) == select_at(lines, idx)
            &&& forall|a: int, b: int| 0 <= a < b < idx.len() ==> idx[a] < idx[b]
            &&& forall|j: int|
                0 <= j < idx.len() ==> 0 <= #[trigger] idx[j] < lines.len() && is_substring(
                    q,
                    lines[idx[j]],
                )
            &&& forall|i: int|
                0 <= i < lines.len() && is_substring(q, #[trigger] lines[i]) ==> idx.contains(i)
        }),
{
    lemma_filter_via_positions(spec_lines(d), sensitive_pred(q));
}

/// Law: so does the case-insensitive match set, for its own
/// predicate: lines whose lowercase form contains the lowercase form
/// of the query.
pub proof fn lemma_insensitive_search_exact(q: Seq<char>, d: Seq<char>)
    ensures
        ({
            let lines = spec_lines(d);
            let idx = matching_positions(lines, insensitive_pred(q));
            &&& spec_search_insensitive(q, d) == select_at(lines, idx)
            &&& forall|a: int, b: int| 0 <= a < b < idx.len() ==> idx[a] < idx[b]
            &&& forall|j: int|
                0 <= j < idx.len() ==> 0 <= #[trigger] idx[j] < lines.len() && is_substring(
                    spec_lower(q),
                    spec_lower(lines[idx[j]]),
                )
            &&& forall|i: int|
                0 <= i < lines.len() && is_substring(spec_lower(q), spec_lower(#[trigger] lines[i]))
                    ==> idx.contains(i)
        }),
{
    lemma_filter_via_positions(spec_lines(d), insensitive_pred(q));
}

/// Lowercasing a concatenation lowercases the parts: the lowercase
/// form of a text is the concatenation of its characters' expansions.
proof fn lemma_lower_concat(a: Seq<char>, b: Seq<char>)
    ensures
        spec_lower(a + b) == spec_lower(a) + spec_lower(b),
{
    let f = |c: char| lower_char(c);
    assert((a + b).map_values(f) =~= a.map_values(f) + b.map_values(f));
    lemma_flatten_concat(a.map_values(f), b.map_values(f));
}

/// A verbatim occurrence survives lowercasing: if the query occurs in
/// a line, its lowercase form occurs in the line's lowercase form.
pub proof fn lemma_lower_preserves_substring(q: Seq<char>, l: Seq<char>)
    requires
        is_substring(q, l),
    ensures
        is_substring(spec_lower(q), spec_lower(l)),
{
    let i = choose|i: int| contains_at(l, q, i);
    let pre = l.subrange(0, i);
    let mid = l.subrange(i, i + q.len());
    let suf = l.subrange(i + q.len(), l.len() as int);
    assert(l =~= (pre + mid) + suf);
    lemma_lower_concat(pre + mid, suf);
    lemma_lower_concat(pre, mid);
    let w = spec_lower(pre).len() as int;
    assert(contains_at(spec_lower(l), spec_lower(q), w)) by {
        assert(spec_lower(l) == (spec_lower(pre) + spec_lower(mid)) + spec_lower(suf));
        assert(((spec_lower(pre) + spec_lower(mid)) + spec_lower(suf)).subrange(
            w,
            w + spec_lower(mid).len(),
        ) =~= spec_lower(mid));
    }
}

/// Filtering by a stronger predicate cuts the same elements out of the
/// sequence whether or not it was first filtered by a weaker one.
proof fn lemma_filter_subsumed<A>(s: Seq<A>, p: spec_fn(A) -> bool, r: spec_fn(A) -> bool)
    requires
        forall|x: A| #[trigger] p(x) ==> r(x),
    ensures
        s.filter(p) == s.filter(r).filter(p),
    decreases s.len(),
{
    reveal(Seq::filter);
    if s.len() > 0 {
        let rest = s.drop_last();
        lemma_filter_subsumed(rest, p, r);
        assert(rest.push(s.last()) =~= s);
        lemma_filter_push(rest, s.last(), p);
        lemma_filter_push(rest, s.last(), r);
        if r(s.last()) {
            lemma_filter_push(rest.filter(r), s.last(), p);
        }
    }
}

/// Law: case-insensitive matching is at least as permissive as
/// case-sensitive matching. The case-sensitive match set is exactly
/// what filtering the case-insensitive match set by the verbatim
/// predicate leaves, and in particular each of its lines appears in
/// the case-insensitive match set.
pub proof fn lemma_insensitive_at_least_as_permissive(q: Seq<char>, d: Seq<char>)
    ensures
        spec_search_sensitive(q, d) == spec_search_insensitive(q, d).filter(sensitive_pred(q)),
        forall|j: int|
            0 <= j < spec_search_sensitive(q, d).len() ==> spec_search_insensitive(q, d).contains(
                #[trigger] spec_search_sensitive(q, d)[j],
            ),
{
    assert forall|x: Seq<char>| #[trigger] sensitive_pred(q)(x) implies insensitive_pred(q)(
        x,
    ) by {
        lemma_lower_preserves_substring(q, x);
    }
    lemma_filter_subsumed(spec_lines(d), sensitive_pred(q), insensitive_pred(q));
    assert forall|j: int| 0 <= j < spec_search_sensitive(q, d).len() implies spec_search_insensitive(
        q,
        d,
    ).contains(#[trigger] spec_search_sensitive(q, d)[j]) by {
        let kept = spec_search_insensitive(q, d).filter(sensitive_pred(q));
        assert(kept.contains(kept[j]));
        spec_search_insensitive(q, d).lemma_filter_contains_rev(sensitive_pred(q), kept[j]);
    }
}

/// Law: filtering is idempotent. Every line of a match set matches the
/// same query again, so re-filtering a match set with the query that
/// produced it reproduces it, in either mode.
pub proof fn lemma_search_idempotent(q: Seq<char>, d: Seq<char>)
    ensures
        spec_search_sensitive(q, d).filter(sensitive_pred(q)) == spec_search_sensitive(q, d),
        spec_search_insensitive(q, d).filter(insensitive_pred(q)) == spec_search_insensitive(q, d),
{
    let sens = spec_search_sensitive(q, d);
    let insens = spec_search_insensitive(q, d);
    assert forall|i: int| 0 <= i < sens.len() implies sensitive_pred(q)(#[trigger] sens[i]) by {
        spec_lines(d).lemma_filter_pred(sensitive_pred(q), i);
    }
    lemma_filter_all_true(sens, sensitive_pred(q));
    assert forall|i: int| 0 <= i < insens.len() implies insensitive_pred(q)(
        #[trigger] insens[i],
    ) by {
        spec_lines(d).lemma_filter_pred(insensitive_pred(q), i);
    }
    lemma_filter_all_true(insens, insensitive_pred(q));
}

/// Law: the empty query matches every line, in both modes, since every
/// line contains the empty text at its start.
pub proof fn lemma_empty_query_returns_every_line(d: Seq<char>)
    ensures
        spec_search_sensitive(Seq::empty(), d) == spec_lines(d),
        spec_search_insensitive(Seq::empty(), d) == spec_lines(d),
{
    let q = Seq::<char>::empty();
    assert(q.map_values(|c: char| lower_char(c)) =~= Seq::<Seq<char>>::empty());
    assert(spec_lower(q) == Seq::<char>::empty());
    assert forall|i: int| 0 <= i < spec_lines(d).len() implies sensitive_pred(q)(
        #[trigger] spec_lines(d)[i],
    ) by {
        let l = spec_lines(d)[i];
        assert(l.subrange(0, 0) =~= q);
        assert(contains_at(l, q, 0));
    }
    lemma_filter_all_true(spec_lines(d), sensitive_pred(q));
    assert forall|i: int| 0 <= i < spec_lines(d).len() implies insensitive_pred(q)(
        #[trigger] spec_lines(d)[i],
    ) by {
        let l = spec_lines(d)[i];
        assert(spec_lower(l).subrange(0, 0) =~= spec_lower(q));
        assert(contains_at(spec_lower(l), spec_lower(q), 0));
    }
    lemma_filter_all_true(spec_lines(d), insensitive_pred(q));
}

} // verus!
