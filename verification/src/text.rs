//! Character-level text helpers shared by the catalog parser and the
//! template renderer: whitespace tests, prefix tests, equality, first
//! occurrence of a character, and splitting a document into lines.

use vstd::prelude::*;

verus! {

/// Horizontal whitespace (a carriage return counts, so that documents
/// with Windows line endings read as blank where intended).
pub open spec fn is_ws(c: char) -> bool {
    c == ' ' || c == '\t' || c == '\r'
}

/// Every character of `s` is whitespace; true of the empty sequence.
pub open spec fn all_ws(s: Seq<char>) -> bool {
    forall|k: int| 0 <= k < s.len() ==> is_ws(s[k])
}

/// `p` is a prefix of `s`.
pub open spec fn starts_with(s: Seq<char>, p: Seq<char>) -> bool {
    p.len() <= s.len() && s.subrange(0, p.len() as int) == p
}

/// The views of a sequence of strings.
pub open spec fn views_of(v: Seq<String>) -> Seq<Seq<char>> {
    v.map_values(|x: String| x@)
}

/// Index of the first occurrence of `c` in `s`, or `s.len()` if absent.
pub open spec fn first_at(s: Seq<char>, c: char) -> int
    decreases s.len(),
{
    if s.len() == 0 {
        0
    } else if s[0] == c {
        0
    } else {
        1 + first_at(s.drop_first(), c)
    }
}

/// `first_at` lies in `[0, s.len()]`, nothing before it is `c`, and it
/// points at `c` whenever it is inside the sequence.
pub proof fn lemma_first_at(s: Seq<char>, c: char)
    ensures
        0 <= first_at(s, c) <= s.len(),
        forall|k: int| 0 <= k < first_at(s, c) ==> s[k] != c,
        first_at(s, c) < s.len() ==> s[first_at(s, c)] == c,
    decreases s.len(),
{
    if s.len() == 0 {
    } else if s[0] == c {
    } else {
        lemma_first_at(s.drop_first(), c);
        assert forall|k: int| 0 <= k < first_at(s, c) implies s[k] != c by {
            if k >= 1 {
                assert(s.drop_first()[k - 1] == s[k]);
            }
        }
        if first_at(s, c) < s.len() {
            assert(s.drop_first()[first_at(s.drop_first(), c)] == s[first_at(s, c)]);
        }
    }
}

/// An index with the three properties of `lemma_first_at` is `first_at`.
pub proof fn lemma_first_at_is(s: Seq<char>, c: char, j: int)
    requires
        0 <= j <= s.len(),
        forall|k: int| 0 <= k < j ==> s[k] != c,
        j < s.len() ==> s[j] == c,
    ensures
        first_at(s, c) == j,
    decreases s.len(),
{
    if s.len() == 0 {
    } else if s[0] == c {
        assert(j == 0);
    } else {
        assert(s[0] != c);
        assert(j >= 1);
        assert forall|k: int| 0 <= k < j - 1 implies s.drop_first()[k] != c by {
            assert(s.drop_first()[k] == s[k + 1]);
        }
        if j - 1 < s.drop_first().len() {
            assert(s.drop_first()[j - 1] == s[j]);
        }
        lemma_first_at_is(s.drop_first(), c, j - 1);
    }
}

/// The lines of `s`, split on newline characters. A document without a
/// newline is one line; a trailing newline yields a final empty line.
pub open spec fn split_lines_spec(s: Seq<char>) -> Seq<Seq<char>>
    decreases s.len(),
    via split_lines_spec_dec
{
    let j = first_at(s, '\n');
    if j >= s.len() {
        seq![s]
    } else {
        seq![s.subrange(0, j)] + split_lines_spec(s.subrange(j + 1, s.len() as int))
    }
}

#[via_fn]
proof fn split_lines_spec_dec(s: Seq<char>) {
    lemma_first_at(s, '\n');
}

/// Index of the last occurrence of `c` in `s`, or `-1` if absent.
pub open spec fn last_at(s: Seq<char>, c: char) -> int
    decreases s.len(),
{
    if s.len() == 0 {
        -1
    } else if s[s.len() - 1] == c {
        s.len() - 1
    } else {
        last_at(s.drop_last(), c)
    }
}

/// `last_at` lies in `[-1, s.len())`, nothing after it is `c`, and it
/// points at `c` whenever it is inside the sequence.
pub proof fn lemma_last_at(s: Seq<char>, c: char)
    ensures
        -1 <= last_at(s, c) < s.len(),
        forall|k: int| last_at(s, c) < k < s.len() ==> s[k] != c,
        last_at(s, c) >= 0 ==> s[last_at(s, c)] == c,
    decreases s.len(),
{
    if s.len() == 0 {
    } else if s[s.len() - 1] == c {
    } else {
        lemma_last_at(s.drop_last(), c);
        assert forall|k: int| last_at(s, c) < k < s.len() implies s[k] != c by {
            if k < s.len() - 1 {
                assert(s.drop_last()[k] == s[k]);
            }
        }
        if last_at(s, c) >= 0 {
            assert(s.drop_last()[last_at(s.drop_last(), c)] == s[last_at(s, c)]);
        }
    }
}

/// An index with the three properties of `lemma_last_at` is `last_at`.
pub proof fn lemma_last_at_is(s: Seq<char>, c: char, j: int)
    requires
        -1 <= j < s.len(),
        forall|k: int| j < k < s.len() ==> s[k] != c,
        j >= 0 ==> s[j] == c,
    ensures
        last_at(s, c) == j,
    decreases s.len(),
{
    if s.len() == 0 {
    } else if s[s.len() - 1] == c {
        assert(j == s.len() - 1);
    } else {
        assert(j < s.len() - 1);
        assert forall|k: int| j < k < s.drop_last().len() implies s.drop_last()[k] != c by {
            assert(s.drop_last()[k] == s[k]);
        }
        if j >= 0 {
            assert(s.drop_last()[j] == s[j]);
        }
        lemma_last_at_is(s.drop_last(), c, j);
    }
}

/// Last index with `s[j] == c`, as `Some(j)`, or `None` if absent.
pub fn find_last(s: &str, c: char) -> (r: Option<usize>)
    ensures
        match r {
            Some(j) => last_at(s@, c) == j as int,
            None => last_at(s@, c) == -1,
        },
{
    let n = s.unicode_len();
    let mut i: usize = n;
    while i > 0
        invariant
            i <= n,
            n == s@.len(),
            forall|k: int| i <= k < n ==> s@[k] != c,
        decreases i,
    {
        i = i - 1;
        if s.get_char(i) == c {
            proof {
                lemma_last_at_is(s@, c, i as int);
            }
            return Some(i);
        }
    }
    proof {
        lemma_last_at_is(s@, c, -1);
    }
    None
}

/// First index `j >= from` with `s[j] == c`, or the length if none.
pub fn find_from(s: &str, from: usize, c: char) -> (j: usize)
    requires
        from <= s@.len(),
    ensures
        from <= j <= s@.len(),
        forall|k: int| from <= k < j ==> s@[k] != c,
        j < s@.len() ==> s@[j as int] == c,
{
    let n = s.unicode_len();
    let mut j = from;
    while j < n
        invariant
            from <= j <= n,
            n == s@.len(),
            forall|k: int| from <= k < j ==> s@[k] != c,
        decreases n - j,
    {
        if s.get_char(j) == c {
            return j;
        }
        j = j + 1;
    }
    j
}

/// Character-for-character string equality, stated on the views.
pub fn str_eq(a: &str, b: &str) -> (r: bool)
    ensures
        r == (a@ == b@),
{
    let na = a.unicode_len();
    let nb = b.unicode_len();
    if na != nb {
        return false;
    }
    let mut i: usize = 0;
    while i < na
        invariant
            i <= na,
            na == a@.len(),
            nb == b@.len(),
            na == nb,
            forall|k: int| 0 <= k < i ==> a@[k] == b@[k],
        decreases na - i,
    {
        if a.get_char(i) != b.get_char(i) {
            return false;
        }
        i = i + 1;
    }
    proof {
        assert(a@ =~= b@);
    }
    true
}

/// Whether `p` is a prefix of `s`, stated on the views.
pub fn str_starts_with(s: &str, p: &str) -> (r: bool)
    ensures
        r == starts_with(s@, p@),
{
    let np = p.unicode_len();
    let ns = s.unicode_len();
    if np > ns {
        return false;
    }
    let mut i: usize = 0;
    while i < np
        invariant
            i <= np,
            np == p@.len(),
            ns == s@.len(),
            np <= ns,
            forall|k: int| 0 <= k < i ==> s@[k] == p@[k],
        decreases np - i,
    {
        if s.get_char(i) != p.get_char(i) {
            proof {
                assert(s@.subrange(0, np as int)[i as int] == s@[i as int]);
            }
            return false;
        }
        i = i + 1;
    }
    proof {
        assert(s@.subrange(0, np as int) =~= p@);
    }
    true
}

/// Whether the whole string is whitespace (or empty).
pub fn is_blank(s: &str) -> (r: bool)
    ensures
        r == all_ws(s@),
{
    let n = s.unicode_len();
    let mut i: usize = 0;
    while i < n
        invariant
            i <= n,
            n == s@.len(),
            forall|k: int| 0 <= k < i ==> is_ws(s@[k]),
        decreases n - i,
    {
        let c = s.get_char(i);
        if !(c == ' ' || c == '\t' || c == '\r') {
            return false;
        }
        i = i + 1;
    }
    true
}

/// The lines of `s` as owned strings, matching `split_lines_spec`.
pub fn split_lines(s: &str) -> (r: Vec<String>)
    ensures
        views_of(r@) == split_lines_spec(s@),
{
    let n = s.unicode_len();
    let mut r: Vec<String> = Vec::new();
    let mut pos: usize = 0;
    proof {
        assert(s@.subrange(0, n as int) =~= s@);
        assert(views_of(r@) + split_lines_spec(s@) =~= split_lines_spec(s@));
    }
    loop
        invariant_except_break
            pos <= n,
            n == s@.len(),
            split_lines_spec(s@) == views_of(r@) + split_lines_spec(
                s@.subrange(pos as int, n as int),
            ),
        ensures
            views_of(r@) == split_lines_spec(s@),
        decreases n - pos,
    {
        let j = find_from(s, pos, '\n');
        let line: String = s.substring_char(pos, j).to_owned();
        proof {
            let tail = s@.subrange(pos as int, n as int);
            assert forall|k: int| 0 <= k < j - pos implies tail[k] != '\n' by {
                assert(tail[k] == s@[pos + k]);
            }
            if j < n {
                assert(tail[j - pos] == s@[j as int]);
            }
            lemma_first_at_is(tail, '\n', j - pos);
            if j == n {
                assert(split_lines_spec(tail) == seq![tail]);
                assert(line@ == tail);
                assert(views_of(r@.push(line)) =~= views_of(r@).push(tail));
                assert(views_of(r@) + seq![tail] =~= views_of(r@).push(tail));
            } else {
                assert(tail.subrange(0, j - pos) =~= line@);
                assert(tail.subrange(j - pos + 1, tail.len() as int) =~= s@.subrange(
                    j + 1,
                    n as int,
                ));
                assert(split_lines_spec(tail) == seq![line@] + split_lines_spec(
                    s@.subrange(j + 1, n as int),
                ));
                assert(views_of(r@.push(line)) =~= views_of(r@).push(line@));
                assert(views_of(r@) + (seq![line@] + split_lines_spec(
                    s@.subrange(j + 1, n as int),
                )) =~= views_of(r@).push(line@) + split_lines_spec(s@.subrange(j + 1, n as int)));
            }
        }
        r.push(line);
        if j == n {
            break;
        }
        pos = j + 1;
    }
    r
}

} // verus!
