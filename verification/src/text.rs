//! The mathematical model of documents: splitting a text into lines,
//! substring containment, and lowercasing, together with the verified
//! executable routines that realize the model.

use vstd::prelude::*;
use vstd::string::StrSliceExecFns;

verus! {

/// Index of the first `'\n'` in `s`, or `s.len()` if there is none.
pub open spec fn first_newline(s: Seq<char>) -> nat
    decreases s.len(),
{
    if s.len() == 0 {
        0
    } else if s[0] == '\n' {
        0
    } else {
        first_newline(s.drop_first()) + 1
    }
}

/// Everything `first_newline` promises: it points at the first `'\n'`
/// of `s` if one exists, and at `s.len()` otherwise.
pub proof fn lemma_first_newline(s: Seq<char>)
    ensures
        first_newline(s) <= s.len(),
        forall|k: int| 0 <= k < first_newline(s) ==> s[k] != '\n',
        first_newline(s) < s.len() ==> s[first_newline(s) as int] == '\n',
    decreases s.len(),
{
    if s.len() != 0 && s[0] != '\n' {
        lemma_first_newline(s.drop_first());
        assert forall|k: int| 0 <= k < first_newline(s) implies s[k] != '\n' by {
            if k > 0 {
                assert(s.drop_first()[k - 1] != '\n');
            }
        }
    }
}

/// A line terminated by `'\n'` loses one trailing `'\r'`, so that both
/// `"\n"` and `"\r\n"` count as line endings.
pub open spec fn strip_cr(l: Seq<char>) -> Seq<char> {
    if l.len() > 0 && l.last() == '\r' {
        l.drop_last()
    } else {
        l
    }
}

/// The lines of a text, in order: the text is cut at every `'\n'`, each
/// piece so cut loses one trailing `'\r'`, and a final piece without a
/// terminator is kept as it stands. An empty text has no lines, and a
/// final line ending opens no further empty line.
pub open spec fn spec_lines(s: Seq<char>) -> Seq<Seq<char>>
    decreases s.len(),
{
    if s.len() == 0 {
        Seq::empty()
    } else {
        let i = first_newline(s) as int;
        if i >= s.len() {
            seq![s]
        } else {
            seq![strip_cr(s.take(i))] + spec_lines(s.skip(i + 1))
        }
    }
}

/// `needle` occurs in `hay` starting at position `i`.
pub open spec fn contains_at(hay: Seq<char>, needle: Seq<char>, i: int) -> bool {
    &&& 0 <= i
    &&& i + needle.len() <= hay.len()
    &&& hay.subrange(i, i + needle.len()) == needle
}

/// `needle` occurs somewhere in `hay`. The empty needle occurs in
/// every haystack, at position zero.
pub open spec fn is_substring(needle: Seq<char>, hay: Seq<char>) -> bool {
    exists|i: int| contains_at(hay, needle, i)
}

/// The lowercase expansion of one character. A character may expand to
/// several, so the result is a sequence.
pub uninterp spec fn lower_char(c: char) -> Seq<char>;

/// The lowercase form of a text: each character replaced by its
/// lowercase expansion.
pub open spec fn spec_lower(s: Seq<char>) -> Seq<char> {
    s.flat_map(|c: char| lower_char(c))
}

/// Relies on char::to_lowercase: the lowercase mapping of a character
/// depends on that character alone.
#[verifier::external_body]
fn char_to_lower(c: char) -> (r: Vec<char>)
    ensures
        r@ == lower_char(c),
{
    c.to_lowercase().collect()
}

/// The characters of a string slice, as a vector.
pub fn str_chars(s: &str) -> (r: Vec<char>)
    ensures
        r@ == s@,
{
    let n: usize = s.unicode_len();
    let mut r: Vec<char> = Vec::new();
    let mut i: usize = 0;
    while i < n
        invariant
            n == s@.len(),
            i <= n,
            r@ == s@.take(i as int),
        decreases n - i,
    {
        let c = s.get_char(i);
        r.push(c);
        proof {
            assert(s@.take(i + 1 as int) =~= s@.take(i as int).push(s@[i as int]));
        }
        i = i + 1;
    }
    proof {
        assert(s@.take(n as int) =~= s@);
    }
    r
}

/// Whether `needle` occurs in `hay` starting exactly at position `i`.
fn match_at(hay: &Vec<char>, needle: &Vec<char>, i: usize) -> (r: bool)
    requires
        i + needle@.len() <= hay@.len(),
    ensures
        r == contains_at(hay@, needle@, i as int),
{
    let n: usize = hay.len();
    let m: usize = needle.len();
    let mut j: usize = 0;
    while j < m
        invariant
            n == hay@.len(),
            m == needle@.len(),
            i + m <= hay@.len(),
            j <= m,
            forall|k: int| 0 <= k < j ==> hay@[i + k] == needle@[k],
        decreases m - j,
    {
        if hay[i + j] != needle[j] {
            proof {
                if contains_at(hay@, needle@, i as int) {
                    assert(hay@.subrange(i as int, i + needle@.len())[j as int] == needle@[
                    j as int]);
                }
            }
            return false;
        }
        j = j + 1;
    }
    proof {
        assert(hay@.subrange(i as int, i + needle@.len()) =~= needle@);
    }
    true
}

/// Whether `needle` occurs anywhere in `hay`; the empty needle always
/// does.
pub fn contains_chars(hay: &Vec<char>, needle: &Vec<char>) -> (r: bool)
    ensures
        r == is_substring(needle@, hay@),
{
    let n: usize = hay.len();
    let m: usize = needle.len();
    if m == 0 {
        proof {
            assert(hay@.subrange(0, 0) =~= needle@);
            assert(contains_at(hay@, needle@, 0));
        }
        return true;
    }
    if m > n {
        proof {
            if is_substring(needle@, hay@) {
                let i = choose|i: int| contains_at(hay@, needle@, i);
            }
        }
        return false;
    }
    let mut i: usize = 0;
    while i <= n - m
        invariant
            n == hay@.len(),
            m == needle@.len(),
            1 <= m <= n,
            i <= n - m + 1,
            forall|k: int| 0 <= k < i ==> !contains_at(hay@, needle@, k),
        decreases n - m + 1 - i,
    {
        if match_at(hay, needle, i) {
            return true;
        }
        i = i + 1;
    }
    proof {
        if is_substring(needle@, hay@) {
            let k = choose|k: int| contains_at(hay@, needle@, k);
            assert(k < i);
        }
    }
    false
}

/// The lines of a string slice, as slices borrowed from it, in order.
pub fn split_lines<'a>(s: &'a str) -> (r: Vec<&'a str>)
    ensures
        r@.map_values(|l: &str| l@) == spec_lines(s@),
{
    let n: usize = s.unicode_len();
    let mut res: Vec<&'a str> = Vec::new();
    let mut start: usize = 0;
    let mut i: usize = 0;
    proof {
        assert(s@.skip(0) =~= s@);
        assert(res@.map_values(|l: &str| l@) =~= Seq::<Seq<char>>::empty());
        assert(Seq::<Seq<char>>::empty() + spec_lines(s@) =~= spec_lines(s@));
    }
    while i < n
        invariant
            n == s@.len(),
            start <= i <= n,
            forall|k: int| start <= k < i ==> s@[k] != '\n',
            spec_lines(s@) == res@.map_values(|l: &str| l@) + spec_lines(s@.skip(start as int)),
        decreases n - i,
    {
        if s.get_char(i) == '\n' {
            let end: usize = if i > start && s.get_char(i - 1) == '\r' {
                i - 1
            } else {
                i
            };
            let line = s.substring_char(start, end);
            let ghost prev = res@;
            res.push(line);
            proof {
                let rem = s@.skip(start as int);
                lemma_first_newline(rem);
                assert forall|k: int| 0 <= k < i - start implies rem[k] != '\n' by {
                    assert(s@[start + k] != '\n');
                }
                assert(rem[i - start] == '\n');
                assert(first_newline(rem) == i - start) by {
                    if first_newline(rem) < i - start {
                        assert(rem[first_newline(rem) as int] == '\n');
                    }
                }
                assert(rem.take(i - start) =~= s@.subrange(start as int, i as int));
                assert(strip_cr(rem.take(i - start)) =~= s@.subrange(start as int, end as int));
                assert(rem.skip(i - start + 1) =~= s@.skip(i + 1));
                let f = |l: &str| l@;
                assert(spec_lines(rem) == seq![strip_cr(rem.take(i - start))] + spec_lines(
                rem.skip(i - start + 1)));
                assert(res@.map_values(f) =~= prev.map_values(f).push(line@));
                assert(prev.map_values(f) + (seq![line@] + spec_lines(s@.skip(i + 1)))
                    =~= prev.map_values(f).push(line@) + spec_lines(s@.skip(i + 1)));
            }
            start = i + 1;
        }
        i = i + 1;
    }
    if start < n {
        let line = s.substring_char(start, n);
        let ghost prev = res@;
        res.push(line);
        proof {
            let rem = s@.skip(start as int);
            lemma_first_newline(rem);
            if first_newline(rem) < rem.len() {
                assert(s@[start + first_newline(rem)] == '\n');
            }
            assert(rem =~= s@.subrange(start as int, n as int));
            assert(spec_lines(rem) =~= seq![line@]);
            let f = |l: &str| l@;
            assert(res@.map_values(f) =~= prev.map_values(f).push(line@));
            assert(prev.map_values(f) + seq![line@] =~= prev.map_values(f).push(line@));
        }
    } else {
        proof {
            assert(s@.skip(start as int) =~= Seq::<char>::empty());
            let f = |l: &str| l@;
            assert(res@.map_values(f) + Seq::<Seq<char>>::empty() =~= res@.map_values(f));
        }
    }
    res
}

/// The lowercase form of a character vector.
pub fn to_lower_chars(s: &Vec<char>) -> (r: Vec<char>)
    ensures
        r@ == spec_lower(s@),
{
    let mut r: Vec<char> = Vec::new();
    let mut i: usize = 0;
    while i < s.len()
        invariant
            i <= s@.len(),
            r@ == spec_lower(s@.take(i as int)),
        decreases s@.len() - i,
    {
        let mut piece = char_to_lower(s[i]);
        r.append(&mut piece);
        proof {
            let f = |c: char| lower_char(c);
            assert(s@.take(i + 1 as int) =~= s@.take(i as int).push(s@[i as int]));
            assert(s@.take(i + 1 as int).map_values(f) =~= s@.take(i as int).map_values(f).push(
                f(s@[i as int]),
            ));
            s@.take(i as int).map_values(f).lemma_flatten_push(f(s@[i as int]));
        }
        i = i + 1;
    }
    proof {
        assert(s@.take(s@.len() as int) =~= s@);
    }
    r
}

} // verus!
