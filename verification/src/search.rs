//! The two line filters and the mode dispatch.

use crate::config::Config;
use crate::laws::lemma_filter_push;
use crate::text::contains_chars;
use crate::text::is_substring;
use crate::text::spec_lines;
use crate::text::spec_lower;
use crate::text::split_lines;
use crate::text::str_chars;
use crate::text::to_lower_chars;
use vstd::prelude::*;

verus! {

/// The case-sensitive match predicate: the line contains the query
/// verbatim.
pub open spec fn sensitive_pred(q: Seq<char>) -> spec_fn(Seq<char>) -> bool {
    |l: Seq<char>| is_substring(q, l)
}

/// The case-insensitive match predicate: the lowercased line contains
/// the lowercased query.
pub open spec fn insensitive_pred(q: Seq<char>) -> spec_fn(Seq<char>) -> bool {
    |l: Seq<char>| is_substring(spec_lower(q), spec_lower(l))
}

/// The case-sensitive match set of query `q` in document `d`: the
/// lines of `d` that contain `q`, in document order.
pub open spec fn spec_search_sensitive(q: Seq<char>, d: Seq<char>) -> Seq<Seq<char>> {
    spec_lines(d).filter(sensitive_pred(q))
}

/// The case-insensitive match set of query `q` in document `d`.
pub open spec fn spec_search_insensitive(q: Seq<char>, d: Seq<char>) -> Seq<Seq<char>> {
    spec_lines(d).filter(insensitive_pred(q))
}

/// The match set that a given configuration asks for.
pub open spec fn spec_run_search(config: Config, d: Seq<char>) -> Seq<Seq<char>> {
    if config.case_sensitive {
        spec_search_sensitive(config.query@, d)
    } else {
        spec_search_insensitive(config.query@, d)
    }
}

/// The lines of `contents` that contain `query` verbatim, in document
/// order. Never fails; an empty query matches every line.
pub fn search_case_sensitive<'a>(query: &str, contents: &'a str) -> (r: Vec<&'a str>)
    ensures
        r@.map_values(|l: &str| l@) == spec_search_sensitive(query@, contents@),
{
    let q = str_chars(query);
    let lines = split_lines(contents);
    let mut out: Vec<&'a str> = Vec::new();
    let mut i: usize = 0;
    proof {
        reveal(Seq::filter);
        assert(spec_lines(contents@).take(0) =~= Seq::<Seq<char>>::empty());
        assert(out@.map_values(|l: &str| l@) =~= Seq::<Seq<char>>::empty());
    }
    while i < lines.len()
        invariant
            q@ == query@,
            lines@.map_values(|l: &str| l@) == spec_lines(contents@),
            i <= lines@.len(),
            out@.map_values(|l: &str| l@) == spec_lines(contents@).take(i as int).filter(
                sensitive_pred(query@),
            ),
        decreases lines@.len() - i,
    {
        let line = lines[i];
        let lc = str_chars(line);
        let hit = contains_chars(&lc, &q);
        let ghost prev = out@;
        if hit {
            out.push(line);
        }
        proof {
            let f = |l: &str| l@;
            let ls = spec_lines(contents@);
            assert(ls[i as int] == lines@.map_values(f)[i as int]);
            assert(ls.take(i + 1 as int) =~= ls.take(i as int).push(ls[i as int]));
            lemma_filter_push(ls.take(i as int), ls[i as int], sensitive_pred(query@));
            if hit {
                assert(out@.map_values(f) =~= prev.map_values(f).push(line@));
            }
        }
        i = i + 1;
    }
    proof {
        assert(spec_lines(contents@).take(lines@.len() as int) =~= spec_lines(contents@));
    }
    out
}

/// The lines of `contents` whose lowercase form contains the lowercase
/// form of `query`, in document order; each retained line is returned
/// as it stands in the document. Never fails.
pub fn search_case_insensitive<'a>(query: &str, contents: &'a str) -> (r: Vec<&'a str>)
    ensures
        r@.map_values(|l: &str| l@) == spec_search_insensitive(query@, contents@),
{
    let qc = str_chars(query);
    let q_low = to_lower_chars(&qc);
    let lines = split_lines(contents);
    let mut out: Vec<&'a str> = Vec::new();
    let mut i: usize = 0;
    proof {
        reveal(Seq::filter);
        assert(spec_lines(contents@).take(0) =~= Seq::<Seq<char>>::empty());
        assert(out@.map_values(|l: &str| l@) =~= Seq::<Seq<char>>::empty());
    }
    while i < lines.len()
        invariant
            q_low@ == spec_lower(query@),
            lines@.map_values(|l: &str| l@) == spec_lines(contents@),
            i <= lines@.len(),
            out@.map_values(|l: &str| l@) == spec_lines(contents@).take(i as int).filter(
                insensitive_pred(query@),
            ),
        decreases lines@.len() - i,
    {
        let line = lines[i];
        let lc = str_chars(line);
        let l_low = to_lower_chars(&lc);
        let hit = contains_chars(&l_low, &q_low);
        let ghost prev = out@;
        if hit {
            out.push(line);
        }
        proof {
            let f = |l: &str| l@;
            let ls = spec_lines(contents@);
            assert(ls[i as int] == lines@.map_values(f)[i as int]);
            assert(ls.take(i + 1 as int) =~= ls.take(i as int).push(ls[i as int]));
            lemma_filter_push(ls.take(i as int), ls[i as int], insensitive_pred(query@));
            if hit {
                assert(out@.map_values(f) =~= prev.map_values(f).push(line@));
            }
        }
        i = i + 1;
    }
    proof {
        assert(spec_lines(contents@).take(lines@.len() as int) =~= spec_lines(contents@));
    }
    out
}

/// Runs the filter that the configuration selects over the document.
pub fn run_search<'a>(config: &Config, contents: &'a str) -> (r: Vec<&'a str>)
    ensures
        r@.map_values(|l: &str| l@) == spec_run_search(*config, contents@),
{
    if config.case_sensitive {
        search_case_sensitive(config.query.as_str(), contents)
    } else {
        search_case_insensitive(config.query.as_str(), contents)
    }
}

} // verus!
