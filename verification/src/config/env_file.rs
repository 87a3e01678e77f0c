//! `.env` files: `KEY=value` lines read before the configuration is loaded.

use vstd::prelude::*;

use crate::text::{
    chars_of, find_char_from, lines, next_line, starts_with, string_of, trim_bounds,
    trim_char_bounds, trim_matches_char, trim_ws,
};

verus! {

/// The pair a line of an environment file sets: blank lines and `#`
/// comments set none; otherwise the line is split at its first `=`, the key
/// trimmed and the value trimmed and stripped of surrounding `"`. A line
/// without `=` sets none.
pub open spec fn env_line(line: Seq<char>) -> Option<(Seq<char>, Seq<char>)> {
    let t = trim_ws(line);
    if t.len() == 0 || starts_with(t, seq!['#']) {
        None
    } else {
        match find_char_from(t, '=', 0) {
            Some(i) => Some((trim_ws(t.take(i)), trim_matches_char(trim_ws(t.skip(i + 1)), '"'))),
            None => None,
        }
    }
}

pub open spec fn env_pairs(ls: Seq<Seq<char>>) -> Seq<(Seq<char>, Seq<char>)>
    decreases ls.len(),
{
    if ls.len() == 0 {
        seq![]
    } else {
        match env_line(ls[0]) {
            Some(p) => seq![p] + env_pairs(ls.drop_first()),
            None => env_pairs(ls.drop_first()),
        }
    }
}

pub open spec fn string_pairs_model(s: Seq<(String, String)>) -> Seq<(Seq<char>, Seq<char>)> {
    s.map_values(|p: (String, String)| (p.0@, p.1@))
}

proof fn lemma_first_char(s: Seq<char>, c: char, j: int, i: int)
    requires
        0 <= i <= j < s.len(),
        s[j] == c,
        forall|k: int| 0 <= k < j ==> s[k] != c,
    ensures
        find_char_from(s, c, i) == Some(j),
    decreases j - i,
{
    if i < j {
        lemma_first_char(s, c, j, i + 1);
    }
}

proof fn lemma_no_char(s: Seq<char>, c: char, i: int)
    requires
        0 <= i <= s.len(),
        forall|k: int| 0 <= k < s.len() ==> s[k] != c,
    ensures
        find_char_from(s, c, i) is None,
    decreases s.len() - i,
{
    if i < s.len() {
        lemma_no_char(s, c, i + 1);
    }
}

/// The pairs an environment file sets, in file order.
pub fn parse_env_file(contents: &str) -> (r: Vec<(String, String)>)
    ensures
        string_pairs_model(r@) == env_pairs(lines(contents@)),
{
    let v = chars_of(contents);
    let n = v.len();
    let mut out: Vec<(String, String)> = Vec::new();
    let mut p: usize = 0;
    assert(v@.subrange(0, n as int) =~= contents@);
    assert(string_pairs_model(out@) =~= Seq::<(Seq<char>, Seq<char>)>::empty());
    while p < n
        invariant
            n == v@.len(),
            p <= n,
            v@ == contents@,
            env_pairs(lines(contents@)) == string_pairs_model(out@) + env_pairs(
                lines(v@.subrange(p as int, n as int)),
            ),
        decreases n - p,
    {
        let (e, next) = next_line(&v, p, n);
        let ghost ls = lines(v@.subrange(p as int, n as int));
        proof {
            assert(ls[0] == v@.subrange(p as int, e as int));
            assert(ls.drop_first() =~= lines(v@.subrange(next as int, n as int)));
        }
        let (a, b) = trim_bounds(&v, p, e);
        let ghost t = v@.subrange(a as int, b as int);
        if a < b && v[a] != '#' {
            proof {
                assert(t[0] == v@[a as int]);
                assert(t.subrange(0, 1)[0] == t[0]);
                assert(!starts_with(t, seq!['#']));
            }
            let mut k = a;
            while k < b && v[k] != '='
                invariant
                    a <= k <= b <= v@.len(),
                    t == v@.subrange(a as int, b as int),
                    forall|m: int| a <= m < k ==> v@[m] != '=',
                decreases b - k,
            {
                k = k + 1;
            }
            if k < b {
                proof {
                    assert forall|m: int| 0 <= m < k - a implies t[m] != '=' by {
                        assert(t[m] == v@[a + m]);
                    }
                    lemma_first_char(t, '=', k - a, 0);
                    assert(t.take(k - a) =~= v@.subrange(a as int, k as int));
                    assert(t.skip(k - a + 1) =~= v@.subrange(k + 1, b as int));
                }
                let (ka, kb) = trim_bounds(&v, a, k);
                let (va, vb) = trim_bounds(&v, k + 1, b);
                let (qa, qb) = trim_char_bounds(&v, va, vb, '"');
                let ghost before = out@;
                out.push((string_of(&v, ka, kb), string_of(&v, qa, qb)));
                proof {
                    assert(string_pairs_model(out@) =~= string_pairs_model(before).push(
                        (v@.subrange(ka as int, kb as int), v@.subrange(qa as int, qb as int)),
                    ));
                }
            } else {
                proof {
                    assert forall|m: int| 0 <= m < t.len() implies t[m] != '=' by {
                        assert(t[m] == v@[a + m]);
                    }
                    lemma_no_char(t, '=', 0);
                }
            }
        } else {
            proof {
                if a < b {
                    assert(t.subrange(0, 1) =~= seq!['#']);
                }
            }
        }
        proof {
            assert(string_pairs_model(out@) + env_pairs(ls.drop_first()) =~= string_pairs_model(
                out@,
            ) + env_pairs(lines(v@.subrange(next as int, n as int))));
        }
        p = next;
    }
    proof {
        assert(v@.subrange(n as int, n as int) =~= Seq::<char>::empty());
        assert(string_pairs_model(out@) + Seq::<(Seq<char>, Seq<char>)>::empty() =~= string_pairs_model(out@));
    }
    out
}

} // verus!
