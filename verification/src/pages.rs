//! The textual page specification: comma-separated terms, each a number or a
//! dashed pair of numbers, turned into merged page ranges.

use vstd::prelude::*;
use vstd::string::*;
use crate::merge::{PageRange, merged, canonical, merge_ranges, kept};
use crate::numeral::{i32_of, parse_i32, cause_text};

verus! {

/// A term of a page specification that is no integer, with the cause.
#[derive(Debug, Clone)]
pub struct ParseRangeError {
    pub error: core::num::ParseIntError,
    pub bad_range: String,
}

/// Whether a character has the Unicode property `White_Space`.
pub uninterp spec fn white_space(c: char) -> bool;

/// `char::is_whitespace`. Trusted: its answer is the Unicode property that
/// `white_space` names.
#[verifier::external_body]
fn is_white_space(c: char) -> (b: bool)
    ensures
        b == white_space(c),
{
    c.is_whitespace()
}

/// `s` without its leading white space.
pub open spec fn trim_front(s: Seq<char>) -> Seq<char>
    decreases s.len(),
{
    if s.len() > 0 && white_space(s[0]) {
        trim_front(s.drop_first())
    } else {
        s
    }
}

/// `s` without its trailing white space.
pub open spec fn trim_back(s: Seq<char>) -> Seq<char>
    decreases s.len(),
{
    if s.len() > 0 && white_space(s.last()) {
        trim_back(s.drop_last())
    } else {
        s
    }
}

/// `s` without white space at either end.
pub open spec fn trimmed(s: Seq<char>) -> Seq<char> {
    trim_back(trim_front(s))
}

/// The index of the first `c` in `s`, or the length of `s` if there is none.
pub open spec fn position(s: Seq<char>, c: char) -> int
    decreases s.len(),
{
    if s.len() == 0 || s[0] == c {
        0
    } else {
        1 + position(s.drop_first(), c)
    }
}

/// The pieces of `s` between occurrences of `sep`; always at least one.
pub open spec fn split_on(s: Seq<char>, sep: char) -> Seq<Seq<char>>
    decreases s.len(),
{
    let k = position(s, sep);
    if 0 <= k < s.len() {
        seq![s.take(k)] + split_on(s.skip(k + 1), sep)
    } else {
        seq![s]
    }
}

/// The two numerals of a term: the parts before and after its first dash,
/// or the whole term twice where it has no dash.
pub open spec fn range_ends(t: Seq<char>) -> (Seq<char>, Seq<char>) {
    let d = position(t, '-');
    if 0 <= d < t.len() {
        (t.take(d), t.skip(d + 1))
    } else {
        (t, t)
    }
}

/// The range that a trimmed term denotes, or the first of its two numerals
/// that is no integer.
pub open spec fn range_of(t: Seq<char>) -> Result<PageRange, Seq<char>> {
    let (a, b) = range_ends(t);
    match i32_of(a) {
        None => Err(a),
        Some(x) => match i32_of(b) {
            None => Err(b),
            Some(y) => Ok((x, y)),
        },
    }
}

/// The offending numeral of the first term that denotes no range.
pub open spec fn first_bad(ts: Seq<Seq<char>>) -> Option<Seq<char>>
    decreases ts.len(),
{
    if ts.len() == 0 {
        None
    } else {
        match first_bad(ts.drop_last()) {
            Some(b) => Some(b),
            None => match range_of(trimmed(ts.last())) {
                Err(b) => Some(b),
                Ok(_) => None,
            },
        }
    }
}

/// The ranges that the terms denote, in the order of the terms.
pub open spec fn ranges_of(ts: Seq<Seq<char>>) -> Seq<PageRange>
    decreases ts.len(),
{
    if ts.len() == 0 {
        Seq::empty()
    } else {
        match range_of(trimmed(ts.last())) {
            Ok(r) => ranges_of(ts.drop_last()).push(r),
            Err(_) => ranges_of(ts.drop_last()),
        }
    }
}

/// What a page specification means: no ranges where it is blank; else the
/// first offending numeral, or the merged ranges of its terms.
pub open spec fn pages_outcome(s: Seq<char>) -> Result<Seq<PageRange>, Seq<char>> {
    if trimmed(s).len() == 0 {
        Ok(Seq::empty())
    } else {
        match first_bad(split_on(s, ',')) {
            Some(b) => Err(b),
            None => Ok(merged(ranges_of(split_on(s, ',')))),
        }
    }
}

proof fn lemma_trim_front(s: Seq<char>, k: int)
    requires
        0 <= k <= s.len(),
        forall|i: int| 0 <= i < k ==> white_space(#[trigger] s[i]),
        k == s.len() || !white_space(s[k]),
    ensures
        trim_front(s) == s.skip(k),
    decreases k,
{
    if k == 0 {
        assert(s.skip(0) =~= s);
    } else {
        assert(white_space(s[0]));
        let d = s.drop_first();
        assert forall|i: int| 0 <= i < k - 1 implies white_space(#[trigger] d[i]) by {
            assert(white_space(s[i + 1]));
        }
        lemma_trim_front(d, k - 1);
        assert(d.skip(k - 1) =~= s.skip(k));
    }
}

proof fn lemma_trim_back(s: Seq<char>, k: int)
    requires
        0 <= k <= s.len(),
        forall|i: int| k <= i < s.len() ==> white_space(#[trigger] s[i]),
        k == 0 || !white_space(s[k - 1]),
    ensures
        trim_back(s) == s.take(k),
    decreases s.len() - k,
{
    if k == s.len() {
        assert(s.take(k) =~= s);
    } else {
        assert(white_space(s[s.len() - 1]));
        let d = s.drop_last();
        lemma_trim_back(d, k);
        assert(d.take(k) =~= s.take(k));
    }
}

proof fn lemma_position(s: Seq<char>, c: char, k: int)
    requires
        0 <= k <= s.len(),
        forall|i: int| 0 <= i < k ==> #[trigger] s[i] != c,
        k == s.len() || s[k] == c,
    ensures
        position(s, c) == k,
    decreases k,
{
    if k > 0 {
        assert(s[0] != c);
        let d = s.drop_first();
        assert forall|i: int| 0 <= i < k - 1 implies #[trigger] d[i] != c by {
            assert(s[i + 1] != c);
        }
        lemma_position(d, c, k - 1);
    }
}

proof fn lemma_first_bad_stays(x: Seq<Seq<char>>, y: Seq<Seq<char>>)
    requires
        first_bad(x) is Some,
    ensures
        first_bad(x + y) == first_bad(x),
    decreases y.len(),
{
    if y.len() == 0 {
        assert(x + y =~= x);
    } else {
        assert((x + y).drop_last() =~= x + y.drop_last());
        lemma_first_bad_stays(x, y.drop_last());
    }
}

/// A specification that is one bare page number selects nothing: the number
/// reads as a range that ends where it starts, and merging drops it.
pub proof fn lemma_bare_page_selects_nothing(s: Seq<char>)
    requires
        position(s, ',') == s.len(),
        position(trimmed(s), '-') == trimmed(s).len(),
        i32_of(trimmed(s)) is Some,
    ensures
        pages_outcome(s) == Ok::<Seq<PageRange>, Seq<char>>(Seq::empty()),
{
    let ts = split_on(s, ',');
    assert(ts == seq![s]);
    assert(ts.drop_last() =~= Seq::<Seq<char>>::empty());
    let n = i32_of(trimmed(s))->0;
    assert(range_of(trimmed(s)) == Ok::<PageRange, Seq<char>>((n, n)));
    assert(first_bad(ts.drop_last()) is None);
    assert(first_bad(ts) is None);
    assert(ranges_of(ts.drop_last()) =~= Seq::<PageRange>::empty());
    let rs = ranges_of(ts);
    assert(rs == Seq::<PageRange>::empty().push((n, n)));
    assert(rs.drop_last() =~= Seq::<PageRange>::empty());
    assert(kept(rs.drop_last()) =~= Seq::<PageRange>::empty());
    assert(kept(rs) =~= Seq::<PageRange>::empty());
    assert(merged(rs) =~= Seq::<PageRange>::empty());
}

/// A specification that is one term without a dash, and that term no
/// integer, fails and names the term as it stands once trimmed.
pub proof fn lemma_bad_single_term_is_named(s: Seq<char>)
    requires
        trimmed(s).len() != 0,
        position(s, ',') == s.len(),
        position(trimmed(s), '-') == trimmed(s).len(),
        i32_of(trimmed(s)) is None,
    ensures
        pages_outcome(s) == Err::<Seq<PageRange>, Seq<char>>(trimmed(s)),
{
    let ts = split_on(s, ',');
    assert(ts == seq![s]);
    assert(ts.drop_last() =~= Seq::<Seq<char>>::empty());
    assert(range_of(trimmed(s)) == Err::<PageRange, Seq<char>>(trimmed(s)));
    assert(first_bad(ts.drop_last()) is None);
    assert(first_bad(ts) == Some(trimmed(s)));
}

/// The bounds of what is left of `s[from..to]` when white space is taken
/// from both of its ends.
fn trim_bounds(s: &str, from: usize, to: usize) -> (r: (usize, usize))
    requires
        from <= to <= s@.len(),
    ensures
        from <= r.0 <= r.1 <= to,
        s@.subrange(r.0 as int, r.1 as int) == trimmed(s@.subrange(from as int, to as int)),
{
    let mut lo: usize = from;
    while lo < to && is_white_space(s.get_char(lo))
        invariant
            from <= lo <= to <= s@.len(),
            forall|i: int| from <= i < lo ==> white_space(#[trigger] s@[i]),
        decreases to - lo,
    {
        lo += 1;
    }
    let mut hi: usize = to;
    while hi > lo && is_white_space(s.get_char(hi - 1))
        invariant
            lo <= hi <= to <= s@.len(),
            forall|i: int| hi <= i < to ==> white_space(#[trigger] s@[i]),
        decreases hi,
    {
        hi -= 1;
    }
    proof {
        let t = s@.subrange(from as int, to as int);
        assert forall|i: int| 0 <= i < lo - from implies white_space(#[trigger] t[i]) by {
            assert(white_space(s@[i + from]));
        }
        lemma_trim_front(t, lo - from);
        let u = t.skip(lo - from);
        assert(u =~= s@.subrange(lo as int, to as int));
        assert forall|i: int| hi - lo <= i < u.len() implies white_space(#[trigger] u[i]) by {
            assert(white_space(s@[i + lo]));
        }
        lemma_trim_back(u, hi - lo);
        assert(u.take(hi - lo) =~= s@.subrange(lo as int, hi as int));
    }
    (lo, hi)
}

/// The index of the first `c` in `s[from..to]`, or `to`.
pub(crate) fn find(s: &str, from: usize, to: usize, c: char) -> (k: usize)
    requires
        from <= to <= s@.len(),
    ensures
        from <= k <= to,
        k - from == position(s@.subrange(from as int, to as int), c),
{
    let mut k: usize = from;
    while k < to && s.get_char(k) != c
        invariant
            from <= k <= to <= s@.len(),
            forall|i: int| from <= i < k ==> #[trigger] s@[i] != c,
        decreases to - k,
    {
        k += 1;
    }
    proof {
        let t = s@.subrange(from as int, to as int);
        assert forall|i: int| 0 <= i < k - from implies #[trigger] t[i] != c by {
            assert(s@[i + from] != c);
        }
        lemma_position(t, c, k - from);
    }
    k
}

/// Reads one numeral of a term as an `i32`; a numeral that is none comes
/// back in the error.
pub fn parse_one_in_range(term: &str) -> (r: Result<i32, ParseRangeError>)
    ensures
        match r {
            Ok(v) => i32_of(term@) == Some(v),
            Err(e) => i32_of(term@) is None && e.bad_range@ == term@,
        },
{
    match parse_i32(term) {
        Ok(v) => Ok(v),
        Err(error) => Err(ParseRangeError { error, bad_range: term.to_owned() }),
    }
}

/// Reads a trimmed term, `N` or `N-M`, as a range; a bare `N` is `(N, N)`.
pub fn parse_range(range: &str) -> (r: Result<PageRange, ParseRangeError>)
    ensures
        match r {
            Ok(v) => range_of(range@) == Ok::<PageRange, Seq<char>>(v),
            Err(e) => range_of(range@) == Err::<PageRange, Seq<char>>(e.bad_range@),
        },
{
    let n: usize = range.unicode_len();
    let d: usize = find(range, 0, n, '-');
    proof {
        assert(range@.subrange(0, n as int) =~= range@);
    }
    let (a, b) = if d < n {
        (range.substring_char(0, d), range.substring_char(d + 1, n))
    } else {
        (range, range)
    };
    let start: i32 = match parse_one_in_range(a) {
        Ok(v) => v,
        Err(e) => {
            return Err(e);
        },
    };
    let end: i32 = match parse_one_in_range(b) {
        Ok(v) => v,
        Err(e) => {
            return Err(e);
        },
    };
    Ok((start, end))
}

/// Reads a page specification. A blank one selects every page and gives no
/// ranges. Otherwise each comma-separated term is trimmed and read; the first
/// numeral that is no integer is reported, and where there is none the ranges
/// are merged. Merging drops every range that does not end after its start,
/// so a bare page number, which reads as `(N, N)`, selects nothing.
pub fn parse_pages(pages: &str) -> (r: Result<Vec<PageRange>, ParseRangeError>)
    ensures
        match r {
            Ok(v) => pages_outcome(pages@) == Ok::<Seq<PageRange>, Seq<char>>(v@) && canonical(
                v@,
            ),
            Err(e) => pages_outcome(pages@) == Err::<Seq<PageRange>, Seq<char>>(e.bad_range@),
        },
{
    let n: usize = pages.unicode_len();
    let (lo0, hi0) = trim_bounds(pages, 0, n);
    proof {
        assert(pages@.subrange(0, n as int) =~= pages@);
    }
    if lo0 == hi0 {
        return Ok(Vec::new());
    }
    let ghost s = pages@;
    let ghost mut acc: Seq<Seq<char>> = Seq::empty();
    let mut raw: Vec<PageRange> = Vec::new();
    let mut from: usize = 0;
    let mut done: bool = false;
    proof {
        assert(s.skip(0) =~= s);
        assert(acc + split_on(s, ',') =~= split_on(s, ','));
    }
    while !done
        invariant
            s == pages@,
            n == s.len(),
            from <= n,
            trimmed(s).len() != 0,
            !done ==> split_on(s, ',') == acc + split_on(s.skip(from as int), ','),
            done ==> split_on(s, ',') == acc,
            first_bad(acc) is None,
            raw@ == ranges_of(acc),
        decreases n - from + (if done { 0int } else { 1int }),
    {
        let k: usize = find(pages, from, n, ',');
        let (lo, hi) = trim_bounds(pages, from, k);
        let term = pages.substring_char(lo, hi);
        let ghost rest = s.skip(from as int);
        let ghost piece = s.subrange(from as int, k as int);
        let ghost next = acc.push(piece);
        proof {
            assert(rest =~= s.subrange(from as int, n as int));
            assert(rest.take(k - from) =~= piece);
            assert(next.drop_last() =~= acc);
            if k < n {
                assert(rest.skip(k - from + 1) =~= s.skip(k + 1));
                assert(acc + (seq![piece] + split_on(s.skip(k + 1), ',')) =~= next + split_on(
                    s.skip(k + 1),
                    ',',
                ));
            } else {
                assert(piece =~= rest);
                assert(acc + seq![rest] =~= next);
            }
        }
        match parse_range(term) {
            Ok(range) => {
                raw.push(range);
            },
            Err(e) => {
                proof {
                    if k < n {
                        lemma_first_bad_stays(next, split_on(s.skip(k + 1), ','));
                    }
                }
                return Err(e);
            },
        }
        proof {
            acc = next;
        }
        if k == n {
            done = true;
        } else {
            from = k + 1;
        }
    }
    Ok(merge_ranges(&raw))
}

/// The message of a range error whose cause reads `cause` and whose
/// offending numeral is `term`.
pub fn render_range_error(cause: &str, term: &str) -> (m: String)
    ensures
        m@ == "Range Parsing Error: "@ + cause@ + " in "@ + term@,
{
    let mut m = "Range Parsing Error: ".to_owned();
    m.append(cause);
    m.append(" in ");
    m.append(term);
    m
}

impl ParseRangeError {
    /// The numeral that is no integer, as it stood in the specification.
    pub fn bad_range(&self) -> (t: &str)
        ensures
            t@ == self.bad_range@,
    {
        self.bad_range.as_str()
    }

    /// The message: the standard library's wording of the cause, then the
    /// offending numeral.
    pub fn message(&self) -> (m: String)
        ensures
            exists|cause: Seq<char>|
                m@ == "Range Parsing Error: "@ + cause + " in "@ + self.bad_range@,
    {
        let cause = cause_text(&self.error);
        render_range_error(cause.as_str(), self.bad_range.as_str())
    }
}

} // verus!
