//! Character-level text model shared by the parsers.
//!
//! Strings are reasoned about through their `Seq<char>` view. Executable code
//! works on a `Vec<char>` copy of the input and on half-open index ranges.

use vstd::prelude::*;

verus! {

// ── Spec model ────────────────────────────────────────────────────────────────

/// Unicode `White_Space` property, as used by `str::trim`.
pub open spec fn is_ws(c: char) -> bool {
    let u = c as u32;
    ||| (0x09 <= u && u <= 0x0d)
    ||| u == 0x20
    ||| u == 0x85
    ||| u == 0xa0
    ||| u == 0x1680
    ||| (0x2000 <= u && u <= 0x200a)
    ||| u == 0x2028
    ||| u == 0x2029
    ||| u == 0x202f
    ||| u == 0x205f
    ||| u == 0x3000
}

/// `s` with every leading character equal to `c` removed.
pub open spec fn trim_start_char(s: Seq<char>, c: char) -> Seq<char>
    decreases s.len(),
{
    if s.len() > 0 && s[0] == c {
        trim_start_char(s.drop_first(), c)
    } else {
        s
    }
}

/// `s` with every trailing character equal to `c` removed.
pub open spec fn trim_end_char(s: Seq<char>, c: char) -> Seq<char>
    decreases s.len(),
{
    if s.len() > 0 && s.last() == c {
        trim_end_char(s.drop_last(), c)
    } else {
        s
    }
}

/// `s` with leading and trailing `c` removed (`str::trim_matches(c)`).
pub open spec fn trim_matches_char(s: Seq<char>, c: char) -> Seq<char> {
    trim_end_char(trim_start_char(s, c), c)
}

/// Leading white space removed.
pub open spec fn trim_start_ws(s: Seq<char>) -> Seq<char>
    decreases s.len(),
{
    if s.len() > 0 && is_ws(s[0]) {
        trim_start_ws(s.drop_first())
    } else {
        s
    }
}

/// Trailing white space removed.
pub open spec fn trim_end_ws(s: Seq<char>) -> Seq<char>
    decreases s.len(),
{
    if s.len() > 0 && is_ws(s.last()) {
        trim_end_ws(s.drop_last())
    } else {
        s
    }
}

/// `str::trim`: white space removed at both ends.
pub open spec fn trim_ws(s: Seq<char>) -> Seq<char> {
    trim_end_ws(trim_start_ws(s))
}

/// `p` occurs in `s` starting at index `i`.
pub open spec fn matches_at(s: Seq<char>, p: Seq<char>, i: int) -> bool {
    0 <= i && i + p.len() <= s.len() && s.subrange(i, i + p.len()) == p
}

pub open spec fn starts_with(s: Seq<char>, p: Seq<char>) -> bool {
    matches_at(s, p, 0)
}

pub open spec fn ends_with(s: Seq<char>, p: Seq<char>) -> bool {
    matches_at(s, p, s.len() - p.len())
}

/// First index at or after `i` where `p` occurs in `s`.
pub open spec fn find_from(s: Seq<char>, p: Seq<char>, i: int) -> Option<int>
    decreases s.len() + 1 - i,
{
    if i < 0 || i > s.len() || i + p.len() > s.len() {
        None
    } else if matches_at(s, p, i) {
        Some(i)
    } else {
        find_from(s, p, i + 1)
    }
}

/// `str::find` with a string pattern.
pub open spec fn find(s: Seq<char>, p: Seq<char>) -> Option<int> {
    find_from(s, p, 0)
}

/// `str::contains` with a string pattern.
pub open spec fn contains(s: Seq<char>, p: Seq<char>) -> bool {
    find(s, p) is Some
}

/// First index at or after `i` holding `c`.
pub open spec fn find_char_from(s: Seq<char>, c: char, i: int) -> Option<int>
    decreases s.len() - i,
{
    if i < 0 || i >= s.len() {
        None
    } else if s[i] == c {
        Some(i)
    } else {
        find_char_from(s, c, i + 1)
    }
}

/// A line without its `\n` terminator: one trailing `\r` is dropped only when
/// the line was terminated by `\n`.
pub open spec fn strip_cr(line: Seq<char>) -> Seq<char> {
    if line.len() > 0 && line.last() == '\r' {
        line.drop_last()
    } else {
        line
    }
}

/// `str::lines`.
pub open spec fn lines(s: Seq<char>) -> Seq<Seq<char>>
    decreases s.len(),
{
    if s.len() == 0 {
        seq![]
    } else {
        match find_char_from(s, '\n', 0) {
            None => seq![s],
            Some(i) => {
                proof {
                    lemma_find_char_from_bounds(s, '\n', 0);
                }
                seq![strip_cr(s.take(i))] + lines(s.skip(i + 1))
            },
        }
    }
}

// ── Lemmas ────────────────────────────────────────────────────────────────────

pub proof fn lemma_find_char_from_bounds(s: Seq<char>, c: char, i: int)
    requires
        i >= 0,
    ensures
        find_char_from(s, c, i) matches Some(j) ==> i <= j < s.len() && s[j] == c
            && forall|k: int| i <= k < j ==> s[k] != c,
        find_char_from(s, c, i) is None ==> forall|k: int| i <= k < s.len() ==> s[k] != c,
    decreases s.len() - i,
{
    if i < 0 || i >= s.len() {
    } else if s[i] == c {
    } else {
        lemma_find_char_from_bounds(s, c, i + 1);
    }
}

pub proof fn lemma_find_from_bounds(s: Seq<char>, p: Seq<char>, i: int)
    requires
        i >= 0,
    ensures
        find_from(s, p, i) matches Some(j) ==> i <= j && matches_at(s, p, j)
            && forall|k: int| i <= k < j ==> !matches_at(s, p, k),
        find_from(s, p, i) is None ==> forall|k: int| i <= k ==> !matches_at(s, p, k),
    decreases s.len() + 1 - i,
{
    if i > s.len() || i + p.len() > s.len() {
    } else if matches_at(s, p, i) {
    } else {
        lemma_find_from_bounds(s, p, i + 1);
    }
}

/// Searching a suffix of `s` is searching `s` from a later position.
pub proof fn lemma_find_char_shift(s: Seq<char>, c: char, off: int, i: int)
    requires
        0 <= off <= s.len(),
        i >= 0,
    ensures
        find_char_from(s, c, off + i) == (match find_char_from(s.skip(off), c, i) {
            Some(j) => Some(j + off),
            None => None::<int>,
        }),
    decreases s.len() - off - i,
{
    if off + i >= s.len() {
    } else {
        assert(s.skip(off)[i] == s[off + i]);
        if s[off + i] != c {
            lemma_find_char_shift(s, c, off, i + 1);
        }
    }
}

/// Searching a suffix of `s` is searching `s` from a later position.
pub proof fn lemma_find_shift(s: Seq<char>, p: Seq<char>, off: int, i: int)
    requires
        0 <= off <= s.len(),
        i >= 0,
    ensures
        find_from(s, p, off + i) == (match find_from(s.skip(off), p, i) {
            Some(j) => Some(j + off),
            None => None::<int>,
        }),
    decreases s.len() + 1 - off - i,
{
    if off + i > s.len() || off + i + p.len() > s.len() {
    } else {
        assert(s.skip(off).subrange(i, i + p.len()) =~= s.subrange(off + i, off + i + p.len()));
        if !matches_at(s, p, off + i) {
            lemma_find_shift(s, p, off, i + 1);
        }
    }
}

/// Searching `s[0..hi]` never finds anything that does not fit before `hi`.
pub proof fn lemma_find_char_prefix(s: Seq<char>, c: char, hi: int, i: int)
    requires
        0 <= i,
        0 <= hi <= s.len(),
    ensures
        find_char_from(s.take(hi), c, i) == (match find_char_from(s, c, i) {
            Some(j) => if j < hi { Some(j) } else { None::<int> },
            None => None::<int>,
        }),
    decreases s.len() - i,
{
    if i >= s.len() {
    } else if i >= hi {
        lemma_find_char_from_bounds(s, c, i);
    } else if s[i] == c {
    } else {
        lemma_find_char_prefix(s, c, hi, i + 1);
    }
}

// ── Executable helpers ───────────────────────────────────────────────────────

/// Character-wise copy of a string slice.
pub fn chars_of(s: &str) -> (v: Vec<char>)
    ensures
        v@ == s@,
{
    let n = s.unicode_len();
    let mut v: Vec<char> = Vec::new();
    let mut i: usize = 0;
    while i < n
        invariant
            n == s@.len(),
            i <= n,
            v@ == s@.take(i as int),
        decreases n - i,
    {
        let c = s.get_char(i);
        v.push(c);
        i = i + 1;
        assert(v@ =~= s@.take(i as int));
    }
    assert(v@ =~= s@);
    v
}

/// Appends one character to a `String` (`String::push`).
#[verifier::external_body]
pub(crate) fn push_char(s: &mut String, c: char)
    ensures
        final(s)@ == old(s)@.push(c),
{
    s.push(c);
}

/// A `String` holding `v[lo..hi]`.
pub fn string_of(v: &Vec<char>, lo: usize, hi: usize) -> (s: String)
    requires
        lo <= hi <= v@.len(),
    ensures
        s@ == v@.subrange(lo as int, hi as int),
{
    let mut s = String::new();
    let mut i = lo;
    while i < hi
        invariant
            lo <= i <= hi <= v@.len(),
            s@ == v@.subrange(lo as int, i as int),
        decreases hi - i,
    {
        push_char(&mut s, v[i]);
        i = i + 1;
        assert(s@ =~= v@.subrange(lo as int, i as int));
    }
    s
}

/// A `String` holding the whole of `v`.
pub fn string_of_all(v: &Vec<char>) -> (s: String)
    ensures
        s@ == v@,
{
    let s = string_of(v, 0, v.len());
    assert(v@.subrange(0, v@.len() as int) =~= v@);
    s
}

pub fn is_ws_char(c: char) -> (b: bool)
    ensures
        b == is_ws(c),
{
    let u = c as u32;
    (0x09 <= u && u <= 0x0d) || u == 0x20 || u == 0x85 || u == 0xa0 || u == 0x1680 || (0x2000
        <= u && u <= 0x200a) || u == 0x2028 || u == 0x2029 || u == 0x202f || u == 0x205f || u
        == 0x3000
}

/// Index of the first character of `v[lo..hi]` that is not `c`.
pub fn skip_char(v: &Vec<char>, lo: usize, hi: usize, c: char) -> (r: usize)
    requires
        lo <= hi <= v@.len(),
    ensures
        lo <= r <= hi,
        v@.subrange(r as int, hi as int) == trim_start_char(v@.subrange(lo as int, hi as int), c),
{
    let mut i = lo;
    while i < hi && v[i] == c
        invariant
            lo <= i <= hi <= v@.len(),
            trim_start_char(v@.subrange(i as int, hi as int), c) == trim_start_char(
                v@.subrange(lo as int, hi as int),
                c,
            ),
        decreases hi - i,
    {
        assert(v@.subrange(i as int, hi as int).drop_first() =~= v@.subrange(
            i + 1,
            hi as int,
        ));
        i = i + 1;
    }
    i
}

/// End index of `v[lo..hi]` once trailing `c` are removed.
pub fn skip_char_back(v: &Vec<char>, lo: usize, hi: usize, c: char) -> (r: usize)
    requires
        lo <= hi <= v@.len(),
    ensures
        lo <= r <= hi,
        v@.subrange(lo as int, r as int) == trim_end_char(v@.subrange(lo as int, hi as int), c),
{
    let mut j = hi;
    while j > lo && v[j - 1] == c
        invariant
            lo <= j <= hi <= v@.len(),
            trim_end_char(v@.subrange(lo as int, j as int), c) == trim_end_char(
                v@.subrange(lo as int, hi as int),
                c,
            ),
        decreases j - lo,
    {
        assert(v@.subrange(lo as int, j as int).drop_last() =~= v@.subrange(
            lo as int,
            j - 1,
        ));
        j = j - 1;
    }
    j
}

/// Bounds of `v[lo..hi]` once `c` is trimmed from both ends.
pub fn trim_char_bounds(v: &Vec<char>, lo: usize, hi: usize, c: char) -> (r: (usize, usize))
    requires
        lo <= hi <= v@.len(),
    ensures
        lo <= r.0 <= r.1 <= hi,
        v@.subrange(r.0 as int, r.1 as int) == trim_matches_char(
            v@.subrange(lo as int, hi as int),
            c,
        ),
{
    let a = skip_char(v, lo, hi, c);
    let b = skip_char_back(v, a, hi, c);
    (a, b)
}

/// Bounds of `v[lo..hi]` once white space is trimmed from both ends.
pub fn trim_bounds(v: &Vec<char>, lo: usize, hi: usize) -> (r: (usize, usize))
    requires
        lo <= hi <= v@.len(),
    ensures
        lo <= r.0 <= r.1 <= hi,
        v@.subrange(r.0 as int, r.1 as int) == trim_ws(v@.subrange(lo as int, hi as int)),
{
    let mut i = lo;
    while i < hi && is_ws_char(v[i])
        invariant
            lo <= i <= hi <= v@.len(),
            trim_start_ws(v@.subrange(i as int, hi as int)) == trim_start_ws(
                v@.subrange(lo as int, hi as int),
            ),
        decreases hi - i,
    {
        assert(v@.subrange(i as int, hi as int).drop_first() =~= v@.subrange(
            i + 1,
            hi as int,
        ));
        i = i + 1;
    }
    let mut j = hi;
    while j > i && is_ws_char(v[j - 1])
        invariant
            lo <= i <= j <= hi <= v@.len(),
            trim_end_ws(v@.subrange(i as int, j as int)) == trim_end_ws(
                v@.subrange(i as int, hi as int),
            ),
        decreases j - i,
    {
        assert(v@.subrange(i as int, j as int).drop_last() =~= v@.subrange(i as int, j - 1));
        j = j - 1;
    }
    (i, j)
}

/// Whether `p` occurs in `v` at index `i` (all of `p` must fit before `hi`).
pub fn matches_at_exec(v: &Vec<char>, hi: usize, p: &Vec<char>, i: usize) -> (b: bool)
    requires
        hi <= v@.len(),
    ensures
        b == matches_at(v@.subrange(0, hi as int), p@, i as int),
{
    let ghost s = v@.subrange(0, hi as int);
    if i > hi || hi - i < p.len() {
        return false;
    }
    let mut k: usize = 0;
    while k < p.len()
        invariant
            i + p@.len() <= hi <= v@.len(),
            s == v@.subrange(0, hi as int),
            k <= p@.len(),
            forall|m: int| 0 <= m < k ==> v@[i + m] == p@[m],
        decreases p@.len() - k,
    {
        if v[i + k] != p[k] {
            assert(s.subrange(i as int, i + p@.len())[k as int] != p@[k as int]);
            return false;
        }
        k = k + 1;
    }
    assert(s.subrange(i as int, i + p@.len()) =~= p@);
    true
}

/// `find_from(v[0..hi], p, i)`.
pub fn find_exec(v: &Vec<char>, hi: usize, p: &Vec<char>, start: usize) -> (r: Option<usize>)
    requires
        hi <= v@.len(),
        start <= hi,
    ensures
        r matches Some(j) ==> find_from(v@.subrange(0, hi as int), p@, start as int) == Some(
            j as int,
        ),
        r is None ==> find_from(v@.subrange(0, hi as int), p@, start as int) is None,
{
    let ghost s = v@.subrange(0, hi as int);
    if p.len() == 0 {
        assert(s.subrange(start as int, start as int) =~= p@);
        return Some(start);
    }
    let mut i = start;
    while i < hi
        invariant
            start <= i <= hi,
            hi <= v@.len(),
            p@.len() > 0,
            s == v@.subrange(0, hi as int),
            find_from(s, p@, start as int) == find_from(s, p@, i as int),
        decreases hi - i,
    {
        if hi - i < p.len() {
            return None;
        }
        if matches_at_exec(v, hi, p, i) {
            return Some(i);
        }
        i = i + 1;
    }
    None
}

/// `find_char_from(v[0..hi], c, i)`.
pub fn find_char_exec(v: &Vec<char>, hi: usize, c: char, start: usize) -> (r: Option<usize>)
    requires
        hi <= v@.len(),
        start <= hi,
    ensures
        r matches Some(j) ==> find_char_from(v@.subrange(0, hi as int), c, start as int) == Some(
            j as int,
        ) && start <= j < hi,
        r is None ==> find_char_from(v@.subrange(0, hi as int), c, start as int) is None,
{
    let ghost s = v@.subrange(0, hi as int);
    let mut i = start;
    while i < hi
        invariant
            start <= i <= hi <= v@.len(),
            s == v@.subrange(0, hi as int),
            find_char_from(s, c, start as int) == find_char_from(s, c, i as int),
        decreases hi - i,
    {
        if v[i] == c {
            return Some(i);
        }
        i = i + 1;
    }
    None
}

/// Splits the first line off `v[p..n]`: returns the end of that line's text
/// (terminator and a `\r` before `\n` excluded) and the start of the rest.
pub fn next_line(v: &Vec<char>, p: usize, n: usize) -> (r: (usize, usize))
    requires
        p < n,
        n == v@.len(),
    ensures
        p <= r.0 <= r.1 <= n,
        p < r.1,
        lines(v@.subrange(p as int, n as int)) == seq![v@.subrange(p as int, r.0 as int)] + lines(
            v@.subrange(r.1 as int, n as int),
        ),
{
    let ghost rest = v@.subrange(p as int, n as int);
    let nl = find_char_exec(v, n, '\n', p);
    proof {
        assert(v@.subrange(0, n as int) =~= v@);
        assert(v@.skip(p as int) =~= rest);
        lemma_find_char_shift(v@, '\n', p as int, 0);
    }
    match nl {
        Some(i) => {
            let e = if i > p && v[i - 1] == '\r' {
                i - 1
            } else {
                i
            };
            proof {
                assert(rest.take(i - p) =~= v@.subrange(p as int, i as int));
                assert(rest.skip(i - p + 1) =~= v@.subrange(i + 1, n as int));
                if i > p && v@[i - 1] == '\r' {
                    assert(v@.subrange(p as int, i as int).drop_last() =~= v@.subrange(
                        p as int,
                        i - 1,
                    ));
                }
            }
            (e, i + 1)
        },
        None => {
            proof {
                assert(v@.subrange(n as int, n as int) =~= Seq::<char>::empty());
                assert(lines(Seq::<char>::empty()) =~= Seq::<Seq<char>>::empty());
                assert(seq![rest] + Seq::<Seq<char>>::empty() =~= seq![rest]);
            }
            (n, n)
        },
    }
}

/// Decimal digits of `n`.
pub open spec fn decimal(n: nat) -> Seq<char>
    decreases n,
{
    if n < 10 {
        seq![digit_char(n)]
    } else {
        decimal(n / 10).push(digit_char(n % 10))
    }
}

pub open spec fn digit_char(d: nat) -> char {
    (('0' as nat) + d) as char
}

/// Appends the decimal digits of `n` to `s`.
pub fn push_decimal(s: &mut String, n: u64)
    ensures
        final(s)@ == old(s)@ + decimal(n as nat),
    decreases n,
{
    if n >= 10 {
        push_decimal(s, n / 10);
    }
    let d = (n % 10) as u32;
    let c = digit_exec(d);
    push_char(s, c);
    proof {
        if n >= 10 {
            assert(decimal(n as nat) == decimal((n / 10) as nat).push(digit_char((n % 10) as nat)));
        } else {
            assert(decimal(n as nat) == seq![digit_char(n as nat)]);
        }
    }
}

fn digit_exec(d: u32) -> (c: char)
    requires
        d < 10,
    ensures
        c == digit_char(d as nat),
{
    let b = (48 + d) as u8;
    b as char
}

/// Whether `v[lo..hi]` equals `k`.
pub fn range_eq(v: &Vec<char>, lo: usize, hi: usize, k: &Vec<char>) -> (b: bool)
    requires
        lo <= hi <= v@.len(),
    ensures
        b == (v@.subrange(lo as int, hi as int) == k@),
{
    if hi - lo != k.len() {
        return false;
    }
    let mut i: usize = 0;
    while i < k.len()
        invariant
            lo <= hi <= v@.len(),
            hi - lo == k@.len(),
            i <= k@.len(),
            forall|m: int| 0 <= m < i ==> v@[lo + m] == k@[m],
        decreases k@.len() - i,
    {
        if v[lo + i] != k[i] {
            assert(v@.subrange(lo as int, hi as int)[i as int] != k@[i as int]);
            return false;
        }
        i = i + 1;
    }
    assert(v@.subrange(lo as int, hi as int) =~= k@);
    true
}

} // verus!
