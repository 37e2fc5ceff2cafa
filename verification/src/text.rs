//! Character-level text helpers: whitespace trimming, splitting a line at
//! spaces, joining tokens back with spaces, and string comparison.

use vstd::prelude::*;
use vstd::string::*;

verus! {

/// Whitespace that may cling to a token of a log line.
pub open spec fn is_ws(c: char) -> bool {
    c == ' ' || c == '\t' || c == '\n' || c == '\r'
}

/// The sequence with its leading whitespace removed.
pub open spec fn trim_start_rec(s: Seq<char>) -> Seq<char>
    decreases s.len(),
{
    if s.len() > 0 && is_ws(s[0]) {
        trim_start_rec(s.drop_first())
    } else {
        s
    }
}

/// The sequence with its trailing whitespace removed.
pub open spec fn trim_end_rec(s: Seq<char>) -> Seq<char>
    decreases s.len(),
{
    if s.len() > 0 && is_ws(s[s.len() - 1]) {
        trim_end_rec(s.drop_last())
    } else {
        s
    }
}

/// The sequence with leading and trailing whitespace removed.
pub open spec fn spec_trim(s: Seq<char>) -> Seq<char> {
    trim_end_rec(trim_start_rec(s))
}

proof fn lemma_trim_start_subrange(s: Seq<char>, i: int)
    requires
        0 <= i <= s.len(),
        forall|j: int| 0 <= j < i ==> is_ws(s[j]),
        i == s.len() || !is_ws(s[i]),
    ensures
        trim_start_rec(s) == s.subrange(i, s.len() as int),
    decreases i,
{
    if i == 0 {
        assert(s.subrange(0, s.len() as int) =~= s);
    } else {
        assert(is_ws(s[0]));
        lemma_trim_start_subrange(s.drop_first(), i - 1);
        assert(s.drop_first().subrange(i - 1, s.drop_first().len() as int) =~= s.subrange(
            i,
            s.len() as int,
        ));
    }
}

proof fn lemma_trim_end_subrange(s: Seq<char>, e: int)
    requires
        0 <= e <= s.len(),
        forall|j: int| e <= j < s.len() ==> is_ws(s[j]),
        e == 0 || !is_ws(s[e - 1]),
    ensures
        trim_end_rec(s) == s.subrange(0, e),
    decreases s.len() - e,
{
    if e == s.len() {
        assert(s.subrange(0, s.len() as int) =~= s);
        if s.len() > 0 {
            assert(!is_ws(s[s.len() - 1]));
        }
    } else {
        assert(is_ws(s[s.len() - 1]));
        lemma_trim_end_subrange(s.drop_last(), e);
        assert(s.drop_last().subrange(0, e) =~= s.subrange(0, e));
    }
}

/// A trimmed sequence neither starts nor ends with whitespace.
pub proof fn lemma_trim_of_clean(s: Seq<char>)
    requires
        forall|j: int| 0 <= j < s.len() ==> !is_ws(s[j]),
    ensures
        spec_trim(s) == s,
{
    lemma_trim_start_subrange(s, 0);
    assert(s.subrange(0, s.len() as int) =~= s);
    lemma_trim_end_subrange(s, s.len() as int);
}

fn is_ws_char(c: char) -> (b: bool)
    ensures
        b == is_ws(c),
{
    c == ' ' || c == '\t' || c == '\n' || c == '\r'
}

/// Remove leading and trailing whitespace from a string.
pub fn trim_ws(s: &str) -> (t: String)
    ensures
        t@ == spec_trim(s@),
{
    let n = s.unicode_len();
    let mut start: usize = 0;
    while start < n && is_ws_char(s.get_char(start))
        invariant
            start <= n,
            forall|j: int| 0 <= j < start ==> is_ws(s@[j]),
        decreases n - start,
    {
        start = start + 1;
    }
    let mut end: usize = n;
    while end > start && is_ws_char(s.get_char(end - 1))
        invariant
            start <= end <= n,
            forall|j: int| end <= j < n ==> is_ws(s@[j]),
        decreases end,
    {
        end = end - 1;
    }
    let r = s.substring_char(start, end);
    proof {
        lemma_trim_start_subrange(s@, start as int);
        let suffix = s@.subrange(start as int, s@.len() as int);
        lemma_trim_end_subrange(suffix, end - start);
        assert(suffix.subrange(0, end - start) =~= s@.subrange(start as int, end as int));
    }
    String::from_str(r)
}

/// The index of the first space of `s`; `s.len()` when it has none.
pub open spec fn first_space(s: Seq<char>) -> int
    decreases s.len(),
{
    if s.len() == 0 {
        0
    } else if s[0] == ' ' {
        0
    } else {
        1 + first_space(s.drop_first())
    }
}

pub proof fn lemma_first_space(s: Seq<char>)
    ensures
        0 <= first_space(s) <= s.len(),
        first_space(s) < s.len() ==> s[first_space(s)] == ' ',
        forall|j: int| 0 <= j < first_space(s) ==> s[j] != ' ',
    decreases s.len(),
{
    if s.len() == 0 {
    } else if s[0] == ' ' {
    } else {
        lemma_first_space(s.drop_first());
        assert forall|j: int| 1 <= j < first_space(s) implies s[j] != ' ' by {
            assert(s[j] == s.drop_first()[j - 1]);
            assert(s.drop_first()[j - 1] != ' ');
        };
    }
}

/// The tokens of `s`, split at every single space; empty tokens are kept,
/// so consecutive spaces give empty tokens and the result is never empty.
pub open spec fn spec_split(s: Seq<char>) -> Seq<Seq<char>>
    decreases s.len(),
    via spec_split_dec
{
    let i = first_space(s);
    if i < s.len() {
        seq![s.subrange(0, i)] + spec_split(s.subrange(i + 1, s.len() as int))
    } else {
        seq![s]
    }
}

#[via_fn]
proof fn spec_split_dec(s: Seq<char>) {
    lemma_first_space(s);
}

/// Splitting a space-free sequence yields that sequence alone.
pub proof fn lemma_split_no_space(s: Seq<char>)
    requires
        forall|j: int| 0 <= j < s.len() ==> s[j] != ' ',
    ensures
        spec_split(s) == seq![s],
{
    lemma_first_space(s);
    if first_space(s) < s.len() {
        assert(s[first_space(s)] == ' ');
    }
}

/// Splitting at the first space: a space-free head token comes off whole.
pub proof fn lemma_split_at_space(s1: Seq<char>, s2: Seq<char>)
    requires
        forall|j: int| 0 <= j < s1.len() ==> s1[j] != ' ',
    ensures
        spec_split(s1 + seq![' '] + s2) == seq![s1] + spec_split(s2),
{
    let s = s1 + seq![' '] + s2;
    lemma_first_space(s);
    let fs = first_space(s);
    assert(s[s1.len() as int] == ' ');
    assert(forall|j: int| 0 <= j < s1.len() ==> s[j] == s1[j] && s[j] != ' ');
    if fs < s1.len() {
        assert(s[fs] != ' ');
        assert(false);
    }
    if fs > s1.len() {
        assert(s[s1.len() as int] != ' ');
        assert(false);
    }
    assert(fs == s1.len());
    assert(fs < s.len());
    assert(s.subrange(0, fs) =~= s1);
    assert(s.subrange(fs + 1, s.len() as int) =~= s2);
}

/// Split a line into its space-separated tokens, empty tokens included.
pub fn split_spaces(line: &str) -> (tokens: Vec<String>)
    ensures
        tokens@.map_values(|t: String| t@) == spec_split(line@),
        tokens@.len() >= 1,
{
    let n = line.unicode_len();
    let mut tokens: Vec<String> = Vec::new();
    proof {
        assert(line@.subrange(0, n as int) =~= line@);
        assert(tokens@.map_values(|t: String| t@) =~= Seq::<Seq<char>>::empty());
    }
    let mut start: usize = 0;
    let mut i: usize = 0;
    while i < n
        invariant
            start <= i <= n,
            forall|j: int| start <= j < i ==> line@[j] != ' ',
            spec_split(line@) == tokens@.map_values(|t: String| t@) + spec_split(
                line@.subrange(start as int, n as int),
            ),
        decreases n - i,
    {
        if line.get_char(i) == ' ' {
            let tok = String::from_str(line.substring_char(start, i));
            proof {
                let rest = line@.subrange(start as int, n as int);
                let head = line@.subrange(start as int, i as int);
                let tail = line@.subrange(i + 1, n as int);
                assert(rest =~= head + seq![' '] + tail);
                lemma_split_at_space(head, tail);
                assert((tokens@.push(tok)).map_values(|t: String| t@) =~= tokens@.map_values(
                    |t: String| t@,
                ).push(tok@));
            }
            tokens.push(tok);
            start = i + 1;
        }
        i = i + 1;
    }
    let tok = String::from_str(line.substring_char(start, n));
    proof {
        lemma_split_no_space(line@.subrange(start as int, n as int));
        assert((tokens@.push(tok)).map_values(|t: String| t@) =~= tokens@.map_values(
            |t: String| t@,
        ).push(tok@));
        assert(tokens@.map_values(|t: String| t@).push(tok@) =~= tokens@.map_values(
            |t: String| t@,
        ) + seq![tok@]);
    }
    tokens.push(tok);
    tokens
}

/// The tokens joined back together with a single space between them.
pub open spec fn join_spaces(ts: Seq<Seq<char>>) -> Seq<char>
    decreases ts.len(),
{
    if ts.len() == 0 {
        Seq::empty()
    } else if ts.len() == 1 {
        ts[0]
    } else {
        join_spaces(ts.drop_last()) + seq![' '] + ts.last()
    }
}

/// Splitting always yields at least one token.
pub proof fn lemma_split_nonempty(s: Seq<char>)
    ensures
        spec_split(s).len() >= 1,
{
    lemma_first_space(s);
}

/// Splitting distributes over a space: the tokens of `x`, then those of
/// `y`.
pub proof fn lemma_split_concat(x: Seq<char>, y: Seq<char>)
    ensures
        spec_split(x + seq![' '] + y) == spec_split(x) + spec_split(y),
    decreases x.len(),
{
    let s = x + seq![' '] + y;
    lemma_first_space(x);
    lemma_first_space(s);
    let i = first_space(x);
    if i == x.len() {
        lemma_split_at_space(x, y);
        assert(spec_split(x) =~= seq![x]);
    } else {
        assert(x[i] == ' ');
        assert(s[i] == ' ');
        assert(forall|j: int| 0 <= j < i ==> s[j] == x[j] && s[j] != ' ');
        if first_space(s) < i {
            assert(s[first_space(s)] != ' ');
            assert(false);
        }
        if first_space(s) > i {
            assert(s[i] != ' ');
            assert(false);
        }
        assert(first_space(s) == i);
        let xr = x.subrange(i + 1, x.len() as int);
        lemma_split_concat(xr, y);
        assert(s.subrange(0, i) =~= x.subrange(0, i));
        assert(s.subrange(i + 1, s.len() as int) =~= xr + seq![' '] + y);
        assert(spec_split(s) =~= seq![x.subrange(0, i)] + (spec_split(xr) + spec_split(y)));
        assert(spec_split(x) == seq![x.subrange(0, i)] + spec_split(xr));
        assert(spec_split(s) =~= spec_split(x) + spec_split(y));
    }
}

proof fn lemma_join_cons(t: Seq<char>, rest: Seq<Seq<char>>)
    requires
        rest.len() >= 1,
    ensures
        join_spaces(seq![t] + rest) == t + seq![' '] + join_spaces(rest),
    decreases rest.len(),
{
    let whole = seq![t] + rest;
    if rest.len() == 1 {
        assert(whole.drop_last() =~= seq![t]);
        assert(whole.last() == rest[0]);
        assert(join_spaces(whole) == join_spaces(seq![t]) + seq![' '] + rest[0]);
        assert(join_spaces(seq![t]) == t);
        assert(join_spaces(rest) == rest[0]);
    } else {
        assert(whole.drop_last() =~= seq![t] + rest.drop_last());
        assert(whole.last() == rest.last());
        lemma_join_cons(t, rest.drop_last());
        assert(join_spaces(whole) == (t + seq![' '] + join_spaces(rest.drop_last())) + seq![' ']
            + rest.last());
        assert(join_spaces(rest) == join_spaces(rest.drop_last()) + seq![' '] + rest.last());
        assert(join_spaces(whole) =~= t + seq![' '] + join_spaces(rest));
    }
}

/// Splitting at spaces and rejoining with single spaces reconstructs the
/// text exactly: no character is lost and internal spacing is preserved.
pub proof fn lemma_join_split(s: Seq<char>)
    ensures
        join_spaces(spec_split(s)) == s,
    decreases s.len(),
{
    lemma_first_space(s);
    let i = first_space(s);
    if i == s.len() {
        assert(join_spaces(spec_split(s)) == s);
    } else {
        let head = s.subrange(0, i);
        let tail = s.subrange(i + 1, s.len() as int);
        lemma_join_split(tail);
        lemma_split_nonempty(tail);
        lemma_join_cons(head, spec_split(tail));
        assert(join_spaces(spec_split(s)) == head + seq![' '] + tail);
        assert(head + seq![' '] + tail =~= s);
    }
}

/// Character-by-character string equality.
pub fn str_eq(a: &str, b: &str) -> (r: bool)
    ensures
        r == (a@ == b@),
{
    let na = a.unicode_len();
    let nb = b.unicode_len();
    if na != nb {
        proof {
            if a@ == b@ {
                assert(a@.len() == b@.len());
            }
        }
        return false;
    }
    let mut i: usize = 0;
    while i < na
        invariant
            i <= na,
            na == a@.len(),
            na == b@.len(),
            forall|j: int| 0 <= j < i ==> a@[j] == b@[j],
        decreases na - i,
    {
        if a.get_char(i) != b.get_char(i) {
            proof {
                if a@ == b@ {
                    assert(a@[i as int] == b@[i as int]);
                }
            }
            return false;
        }
        i = i + 1;
    }
    proof {
        assert(a@ =~= b@);
    }
    true
}

} // verus!
