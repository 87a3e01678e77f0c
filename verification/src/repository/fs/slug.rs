//! Slug derivation and validation.

use vstd::prelude::*;

use crate::repository::fs::front_matter::{split, split_spec, value, value_spec};
use crate::repository::fs::util::{slugify, slugify_spec, unix_time};
use crate::text::{
    chars_of, decimal, lines, next_line, push_decimal, starts_with, trim_bounds, trim_start_char,
    trim_ws,
};

verus! {

/// The front-matter key holding an article's slug.
pub open spec fn slug_key() -> Seq<char> {
    seq!['s', 'l', 'u', 'g']
}

/// `# ` — the start of a level-one Markdown heading line.
pub open spec fn h1_marker() -> Seq<char> {
    seq!['#', ' ']
}

/// The title of the first line that, once trimmed, starts with `# ` and has a
/// non-empty trimmed rest.
pub open spec fn first_h1_line(ls: Seq<Seq<char>>) -> Option<Seq<char>>
    decreases ls.len(),
{
    if ls.len() == 0 {
        None
    } else {
        let t = trim_ws(ls[0]);
        if starts_with(t, h1_marker()) && trim_ws(t.skip(2)).len() > 0 {
            Some(trim_ws(t.skip(2)))
        } else {
            first_h1_line(ls.drop_first())
        }
    }
}

/// The slug derived from raw article text when the clock reads `secs`:
/// a non-empty front-matter `slug`, else the slug of the first `# ` heading
/// line, else `article-<secs>`.
pub open spec fn derive_spec(raw: Seq<char>, secs: nat) -> Seq<char> {
    let (front, body) = split_spec(trim_start_char(raw, '\n'));
    match value_spec(front, slug_key()) {
        Some(v) if v.len() > 0 => v,
        _ => match first_h1_line(lines(body)) {
            Some(t) => slugify_spec(t),
            None => seq!['a', 'r', 't', 'i', 'c', 'l', 'e', '-'] + decimal(secs),
        },
    }
}

/// Why a slug was refused.
#[derive(Debug, PartialEq, Eq, Structural)]
pub enum SlugError {
    /// The slug is empty.
    Empty,
    /// A character other than `a-z`, `0-9` or `-` occurs.
    InvalidChars,
    /// The slug holds `..`, `/` or `\`.
    PathTraversal,
}

pub open spec fn slug_char_ok(c: char) -> bool {
    ('a' <= c && c <= 'z') || ('0' <= c && c <= '9') || c == '-'
}

/// `..` starts at index `i` of `s`.
pub open spec fn dots_at(s: Seq<char>, i: int) -> bool {
    0 <= i < s.len() - 1 && s[i] == '.' && s[i + 1] == '.'
}

pub open spec fn has_traversal(s: Seq<char>) -> bool {
    (exists|i: int| #[trigger] dots_at(s, i)) || (exists|i: int|
        0 <= i < s.len() && (#[trigger] s[i] == '/' || s[i] == '\\'))
}

pub open spec fn validate_chars_spec(s: Seq<char>) -> Result<(), SlugError> {
    if !(forall|i: int| 0 <= i < s.len() ==> slug_char_ok(#[trigger] s[i])) {
        Err(SlugError::InvalidChars)
    } else if has_traversal(s) {
        Err(SlugError::PathTraversal)
    } else {
        Ok(())
    }
}

pub open spec fn validate_spec(s: Seq<char>) -> Result<(), SlugError> {
    if s.len() == 0 {
        Err(SlugError::Empty)
    } else {
        validate_chars_spec(s)
    }
}

/// Title of the first `# ` heading line of `body`.
fn first_h1_exec(body: &str) -> (r: Option<String>)
    ensures
        r matches Some(t) ==> first_h1_line(lines(body@)) == Some(t@),
        r is None ==> first_h1_line(lines(body@)) is None,
{
    let v = chars_of(body);
    let n = v.len();
    let mut p: usize = 0;
    proof {
        assert(v@.subrange(0, n as int) =~= body@);
    }
    while p < n
        invariant
            n == v@.len(),
            p <= n,
            first_h1_line(lines(body@)) == first_h1_line(lines(v@.subrange(p as int, n as int))),
        decreases n - p,
    {
        let (e, next) = next_line(&v, p, n);
        let ghost rest_lines = lines(v@.subrange(next as int, n as int));
        assert((seq![v@.subrange(p as int, e as int)] + rest_lines).drop_first() =~= rest_lines);
        let (a, b) = trim_bounds(&v, p, e);
        if b - a >= 2 && v[a] == '#' && v[a + 1] == ' ' {
            let (x, y) = trim_bounds(&v, a + 2, b);
            proof {
                let t = v@.subrange(a as int, b as int);
                assert(t.subrange(0, 2) =~= h1_marker());
                assert(t.skip(2) =~= v@.subrange(a + 2, b as int));
            }
            if y > x {
                let mut s = String::new();
                let mut k = x;
                while k < y
                    invariant
                        x <= k <= y <= n,
                        n == v@.len(),
                        s@ == v@.subrange(x as int, k as int),
                    decreases y - k,
                {
                    crate::text::push_char(&mut s, v[k]);
                    k = k + 1;
                    assert(s@ =~= v@.subrange(x as int, k as int));
                }
                return Some(s);
            }
        } else {
            proof {
                let t = v@.subrange(a as int, b as int);
                if b - a >= 2 {
                    assert(t.subrange(0, 2)[0] == v@[a as int]);
                    assert(t.subrange(0, 2)[1] == v@[a + 1]);
                }
            }
        }
        p = next;
    }
    proof {
        assert(v@.subrange(n as int, n as int) =~= Seq::<char>::empty());
    }
    None
}

/// The slug derived from raw article text, with `secs` standing for the
/// clock reading used by the last-resort `article-<secs>` form.
pub fn derive_at(raw: &str, secs: u64) -> (r: String)
    ensures
        r@ == derive_spec(raw@, secs as nat),
{
    proof {
        reveal_strlit("slug");
        assert("slug"@ =~= slug_key());
    }
    let (front, body) = split(raw);
    proof {
        lemma_split_ignores_leading_newlines(raw@);
    }
    if let Some(v) = value(front, "slug") {
        if !v.as_str().is_empty() {
            return v;
        }
    }
    match first_h1_exec(body) {
        Some(t) => slugify(t.as_str()),
        None => {
            let mut s = String::new();
            let prefix = vec!['a', 'r', 't', 'i', 'c', 'l', 'e', '-'];
            let mut k: usize = 0;
            while k < prefix.len()
                invariant
                    k <= prefix@.len(),
                    s@ == prefix@.take(k as int),
                decreases prefix@.len() - k,
            {
                crate::text::push_char(&mut s, prefix[k]);
                k = k + 1;
                assert(s@ =~= prefix@.take(k as int));
            }
            push_decimal(&mut s, secs);
            assert(prefix@.take(8) =~= seq!['a', 'r', 't', 'i', 'c', 'l', 'e', '-']);
            s
        },
    }
}

/// Splitting ignores leading newlines, so trimming them first changes nothing.
pub proof fn lemma_split_ignores_leading_newlines(raw: Seq<char>)
    ensures
        split_spec(trim_start_char(raw, '\n')) == split_spec(raw),
{
    lemma_trim_start_char_idempotent(raw, '\n');
}

pub proof fn lemma_trim_start_char_idempotent(s: Seq<char>, c: char)
    ensures
        trim_start_char(trim_start_char(s, c), c) == trim_start_char(s, c),
    decreases s.len(),
{
    if s.len() > 0 && s[0] == c {
        lemma_trim_start_char_idempotent(s.drop_first(), c);
    }
}

/// Derive the slug from raw article text.
///
/// Priority: front-matter `slug` field → first H1 → `article-<unix seconds>`.
pub fn derive(raw: &str) -> (r: String)
    ensures
        exists|secs: nat| r@ == derive_spec(raw@, secs),
{
    let secs = match unix_time() {
        Some(t) => t.0,
        None => 0,
    };
    derive_at(raw, secs)
}

/// Refuses an empty slug, then checks its characters (`validate_chars`).
pub fn validate(slug: &str) -> (r: Result<(), SlugError>)
    ensures
        r == validate_spec(slug@),
{
    if slug.is_empty() {
        return Err(SlugError::Empty);
    }
    validate_chars(slug)
}

/// Accepts only `a-z`, `0-9` and `-`, and refuses `..`, `/` and `\`.
pub fn validate_chars(slug: &str) -> (r: Result<(), SlugError>)
    ensures
        r == validate_chars_spec(slug@),
{
    let v = chars_of(slug);
    let n = v.len();
    let mut i: usize = 0;
    while i < n
        invariant
            n == v@.len(),
            v@ == slug@,
            i <= n,
            forall|k: int| 0 <= k < i ==> slug_char_ok(#[trigger] v@[k]),
        decreases n - i,
    {
        let c = v[i];
        if !(('a' <= c && c <= 'z') || ('0' <= c && c <= '9') || c == '-') {
            assert(!slug_char_ok(slug@[i as int]));
            return Err(SlugError::InvalidChars);
        }
        i = i + 1;
    }
    let mut j: usize = 0;
    while j < n
        invariant
            n == v@.len(),
            v@ == slug@,
            j <= n,
            forall|k: int| 0 <= k < j ==> v@[k] != '/' && v@[k] != '\\',
            forall|k: int| 0 <= k < j ==> !dots_at(slug@, k),
            forall|k: int| 0 <= k < n ==> slug_char_ok(#[trigger] v@[k]),
        decreases n - j,
    {
        if v[j] == '/' || v[j] == '\\' || (j + 1 < n && v[j] == '.' && v[j + 1] == '.') {
            assert(dots_at(slug@, j as int) || slug@[j as int] == '/' || slug@[j as int] == '\\');
            return Err(SlugError::PathTraversal);
        }
        j = j + 1;
    }
    Ok(())
}

} // verus!
