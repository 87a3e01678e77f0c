//! Front-matter parsing.
//!
//! Articles may optionally begin with a `+++`-fenced block of `key = value`
//! lines:
//!
//! ```text
//! +++
//! slug      = "my-article"
//! author    = "Jane Doe"
//! published = "2026-04-01"
//! +++
//! ```

use vstd::prelude::*;

use crate::text::{
    chars_of, find, find_char_exec, find_char_from, find_exec, lemma_find_char_shift,
    lemma_find_from_bounds, lemma_find_shift, lines, range_eq, skip_char, starts_with, string_of,
    trim_bounds, trim_char_bounds, trim_matches_char, trim_start_char, trim_ws,
};

verus! {

/// The opening fence `+++`.
pub open spec fn fence() -> Seq<char> {
    seq!['+', '+', '+']
}

/// The closing fence, which must start a line: `\n+++`.
pub open spec fn close_fence() -> Seq<char> {
    seq!['\n', '+', '+', '+']
}

/// `(front, body)` of a raw article: leading newlines are ignored; when the
/// text starts with `+++` and a later line starts with `+++`, the front is what
/// lies between (leading newlines dropped) and the body is what follows the
/// closing fence (leading newlines dropped). Otherwise the front is empty and
/// the body is the text without its leading newlines.
pub open spec fn split_spec(raw: Seq<char>) -> (Seq<char>, Seq<char>) {
    let r = trim_start_char(raw, '\n');
    if !starts_with(r, fence()) {
        (seq![], r)
    } else {
        let a = trim_start_char(r.skip(3), '\n');
        match find(a, close_fence()) {
            Some(c) => (a.take(c), trim_start_char(a.skip(c + 4), '\n')),
            None => (seq![], r),
        }
    }
}

/// The value of `key` among front-matter lines: lines are trimmed; a line
/// without `=` (a blank line, a comment) is skipped; the first line whose
/// trimmed text before its first `=` is `key` yields the trimmed text after
/// it, with surrounding `"` removed; `None` when no line names `key`.
pub open spec fn value_in_lines(ls: Seq<Seq<char>>, key: Seq<char>) -> Option<Seq<char>>
    decreases ls.len(),
{
    if ls.len() == 0 {
        None
    } else {
        let line = trim_ws(ls[0]);
        match find_char_from(line, '=', 0) {
            None => value_in_lines(ls.drop_first(), key),
            Some(eq) => if trim_ws(line.take(eq)) == key {
                Some(trim_matches_char(trim_ws(line.skip(eq + 1)), '"'))
            } else {
                value_in_lines(ls.drop_first(), key)
            },
        }
    }
}

pub open spec fn value_spec(front: Seq<char>, key: Seq<char>) -> Option<Seq<char>> {
    value_in_lines(lines(front), key)
}

/// Split `+++…+++` front matter from the body.
///
/// Returns `("", raw)` (without leading newlines) when no fence pair is found.
pub fn split(raw: &str) -> (r: (&str, &str))
    ensures
        (r.0@, r.1@) == split_spec(raw@),
{
    proof {
        reveal_strlit("");
    }
    let v = chars_of(raw);
    let n = v.len();
    let a0 = skip_char(&v, 0, n, '\n');
    proof {
        assert(v@.subrange(0, n as int) =~= raw@);
    }
    let ghost r = v@.subrange(a0 as int, n as int);
    let plus = vec!['+', '+', '+'];
    assert(plus@ =~= fence());
    if !range_starts_with(&v, a0, n, &plus) {
        return ("", raw.substring_char(a0, n));
    }
    let a1 = skip_char(&v, a0 + 3, n, '\n');
    proof {
        assert(r.skip(3) =~= v@.subrange(a0 + 3, n as int));
    }
    let ghost a = v@.subrange(a1 as int, n as int);
    let close = vec!['\n', '+', '+', '+'];
    assert(close@ =~= close_fence());
    let found = find_exec(&v, n, &close, a1);
    proof {
        let s = v@.subrange(0, n as int);
        assert(s =~= v@);
        assert(s.skip(a1 as int) =~= a);
        lemma_find_shift(s, close_fence(), a1 as int, 0);
    }
    match found {
        Some(c) => {
            proof {
                lemma_find_from_bounds(v@.subrange(0, n as int), close_fence(), a1 as int);
            }
            let b = skip_char(&v, c + 4, n, '\n');
            proof {
                assert(find(a, close_fence()) == Some(c - a1));
                assert(a.take(c - a1) =~= v@.subrange(a1 as int, c as int));
                assert(a.skip(c - a1 + 4) =~= v@.subrange(c + 4, n as int));
                assert(split_spec(raw@).0 == v@.subrange(a1 as int, c as int));
            }
            (raw.substring_char(a1, c), raw.substring_char(b, n))
        },
        None => ("", raw.substring_char(a0, n)),
    }
}

/// Whether `v[lo..hi]` starts with `p`.
fn range_starts_with(v: &Vec<char>, lo: usize, hi: usize, p: &Vec<char>) -> (b: bool)
    requires
        lo <= hi <= v@.len(),
    ensures
        b == starts_with(v@.subrange(lo as int, hi as int), p@),
{
    if hi - lo < p.len() {
        return false;
    }
    let r = range_eq(v, lo, lo + p.len(), p);
    assert(v@.subrange(lo as int, hi as int).subrange(0, p@.len() as int) =~= v@.subrange(
        lo as int,
        lo + p@.len(),
    ));
    r
}

/// Extract a single `key = "value"` (or `key = value`) pair from the
/// front-matter block returned by `split`.
///
/// Returns `None` when the key is absent.
pub fn value(front: &str, key: &str) -> (r: Option<String>)
    ensures
        r matches Some(s) ==> value_spec(front@, key@) == Some(s@),
        r is None ==> value_spec(front@, key@) is None,
{
    let v = chars_of(front);
    let k = chars_of(key);
    let n = v.len();
    let mut p: usize = 0;
    proof {
        assert(v@.subrange(0, n as int) =~= front@);
    }
    while p < n
        invariant
            n == v@.len(),
            p <= n,
            v@ == front@,
            k@ == key@,
            value_spec(front@, key@) == value_in_lines(lines(v@.subrange(p as int, n as int)), k@),
        decreases n - p,
    {
        let ghost rest = v@.subrange(p as int, n as int);
        let nl = find_char_exec(&v, n, '\n', p);
        proof {
            assert(v@.subrange(0, n as int) =~= v@);
            assert(v@.skip(p as int) =~= rest);
            lemma_find_char_shift(v@, '\n', p as int, 0);
        }
        let (line_end, next) = match nl {
            Some(i) => {
                let e = if i > p && v[i - 1] == '\r' {
                    i - 1
                } else {
                    i
                };
                proof {
                    assert(rest.take(i - p) =~= v@.subrange(p as int, i as int));
                    assert(rest.skip(i - p + 1) =~= v@.subrange(i + 1, n as int));
                    if i > p && v@[i - 1] == '\r' {
                        assert(v@.subrange(p as int, i as int).drop_last() =~= v@.subrange(
                            p as int,
                            i - 1,
                        ));
                    }
                }
                (e, i + 1)
            },
            None => (n, n),
        };
        let ghost line = v@.subrange(p as int, line_end as int);
        assert(lines(rest) == seq![line] + lines(v@.subrange(next as int, n as int))) by {
            if nl is None {
                assert(v@.subrange(n as int, n as int) =~= Seq::<char>::empty());
            }
        }
        assert((seq![line] + lines(v@.subrange(next as int, n as int))).drop_first() =~= lines(
            v@.subrange(next as int, n as int),
        ));
        let (a, b) = trim_bounds(&v, p, line_end);
        let ghost t = v@.subrange(a as int, b as int);
        let eq = find_char_exec(&v, b, '=', a);
        proof {
            let s = v@.subrange(0, b as int);
            assert(s.skip(a as int) =~= t);
            lemma_find_char_shift(s, '=', a as int, 0);
        }
        match eq {
            None => {},
            Some(e) => {
                let (ka, kb) = trim_bounds(&v, a, e);
                proof {
                    assert(t.take(e - a) =~= v@.subrange(a as int, e as int));
                }
                if range_eq(&v, ka, kb, &k) {
                    let (x, y) = trim_bounds(&v, e + 1, b);
                    let (x2, y2) = trim_char_bounds(&v, x, y, '"');
                    proof {
                        assert(t.skip(e - a + 1) =~= v@.subrange(e + 1, b as int));
                    }
                    return Some(string_of(&v, x2, y2));
                }
            },
        }
        p = next;
    }
    proof {
        assert(v@.subrange(n as int, n as int) =~= Seq::<char>::empty());
    }
    None
}

} // verus!
