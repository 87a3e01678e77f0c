//! Shared utilities of the file-backed store: slugs, random choice, shuffling.

use vstd::prelude::*;

use crate::repository::fs::slug::{dots_at, slug_char_ok, validate_chars_spec, validate_spec};

use crate::text::{chars_of, push_char};

verus! {

// ── Slug model ───────────────────────────────────────────────────────────────

pub open spec fn is_ascii_char(c: char) -> bool {
    (c as u32) < 128
}

pub open spec fn is_ascii_alnum(c: char) -> bool {
    ('a' <= c && c <= 'z') || ('A' <= c && c <= 'Z') || ('0' <= c && c <= '9')
}

pub open spec fn ascii_lower(c: char) -> char {
    if 'A' <= c && c <= 'Z' {
        ((c as u32) + 32) as char
    } else {
        c
    }
}

/// Latin transliteration of a Cyrillic letter; `-` for any other character.
pub open spec fn translit(c: char) -> Seq<char> {
    match c {
        'а' | 'А' => seq!['a'],
        'б' | 'Б' => seq!['b'],
        'в' | 'В' => seq!['v'],
        'г' | 'Г' => seq!['g'],
        'д' | 'Д' => seq!['d'],
        'е' | 'Е' => seq!['e'],
        'ё' | 'Ё' => seq!['y', 'o'],
        'ж' | 'Ж' => seq!['z', 'h'],
        'з' | 'З' => seq!['z'],
        'и' | 'И' => seq!['i'],
        'й' | 'Й' => seq!['y'],
        'к' | 'К' => seq!['k'],
        'л' | 'Л' => seq!['l'],
        'м' | 'М' => seq!['m'],
        'н' | 'Н' => seq!['n'],
        'о' | 'О' => seq!['o'],
        'п' | 'П' => seq!['p'],
        'р' | 'Р' => seq!['r'],
        'с' | 'С' => seq!['s'],
        'т' | 'Т' => seq!['t'],
        'у' | 'У' => seq!['u'],
        'ф' | 'Ф' => seq!['f'],
        'х' | 'Х' => seq!['k', 'h'],
        'ц' | 'Ц' => seq!['t', 's'],
        'ч' | 'Ч' => seq!['c', 'h'],
        'ш' | 'Ш' => seq!['s', 'h'],
        'щ' | 'Щ' => seq!['s', 'c', 'h'],
        'ъ' | 'Ъ' => seq![],
        'ы' | 'Ы' => seq!['y'],
        'ь' | 'Ь' => seq![],
        'э' | 'Э' => seq!['e'],
        'ю' | 'Ю' => seq!['y', 'u'],
        'я' | 'Я' => seq!['y', 'a'],
        _ => seq!['-'],
    }
}

/// What one input character contributes before normalisation.
pub open spec fn piece(c: char) -> Seq<char> {
    if is_ascii_char(c) {
        seq![c]
    } else {
        translit(c)
    }
}

/// Every ASCII letter or digit lower-cased; every other character `-`.
pub open spec fn norm(c: char) -> char {
    if is_ascii_alnum(c) {
        ascii_lower(c)
    } else {
        '-'
    }
}

/// Transliterated and normalised characters of `s`.
pub open spec fn slug_chars(s: Seq<char>) -> Seq<char>
    decreases s.len(),
{
    if s.len() == 0 {
        seq![]
    } else {
        slug_chars(s.drop_last()) + piece(s.last()).map_values(|c: char| norm(c))
    }
}

/// `a` and `b` joined by one `-`, where an empty side contributes nothing.
pub open spec fn dash_join(a: Seq<char>, b: Seq<char>) -> Seq<char> {
    if a.len() == 0 {
        b
    } else if b.len() == 0 {
        a
    } else {
        a + seq!['-'] + b
    }
}

/// The non-empty `-`-separated words of `s`, joined by single `-`.
pub open spec fn collapse_dashes(s: Seq<char>) -> Seq<char>
    decreases s.len(),
{
    if s.len() == 0 {
        seq![]
    } else if s[0] == '-' {
        collapse_dashes(s.drop_first())
    } else {
        let k = word_len(s, 0);
        proof {
            lemma_word_len(s, 1);
        }
        dash_join(s.take(k), collapse_dashes(s.skip(k)))
    }
}

/// Length of the run of non-`-` characters of `s` starting at `i`.
pub open spec fn word_len(s: Seq<char>, i: int) -> int
    decreases s.len() - i,
{
    if i < 0 || i >= s.len() || s[i] == '-' {
        0
    } else {
        1 + word_len(s, i + 1)
    }
}

/// The slug of a text.
pub open spec fn slugify_spec(s: Seq<char>) -> Seq<char> {
    collapse_dashes(slug_chars(s))
}

/// A slug: only ASCII lower-case letters, digits and `-`, with no empty word.
pub open spec fn is_clean_slug(s: Seq<char>) -> bool {
    &&& forall|i: int|
        0 <= i < s.len() ==> (('a' <= #[trigger] s[i] && s[i] <= 'z') || ('0' <= s[i] && s[i]
            <= '9') || s[i] == '-')
    &&& (s.len() > 0 ==> s[0] != '-' && s.last() != '-')
    &&& forall|i: int| 0 <= i < s.len() - 1 ==> !(#[trigger] s[i] == '-' && s[i + 1] == '-')
}

proof fn lemma_norm_ok(c: char)
    ensures
        slug_char_ok(norm(c)),
{
    if 'A' <= c && c <= 'Z' {
        assert(('A' as u32) <= (c as u32) && (c as u32) <= ('Z' as u32));
    }
}

proof fn lemma_slug_chars_ok(s: Seq<char>)
    ensures
        forall|i: int| 0 <= i < slug_chars(s).len() ==> slug_char_ok(#[trigger] slug_chars(s)[i]),
    decreases s.len(),
{
    if s.len() > 0 {
        lemma_slug_chars_ok(s.drop_last());
        let a = slug_chars(s.drop_last());
        let p = piece(s.last()).map_values(|c: char| norm(c));
        assert forall|i: int| 0 <= i < slug_chars(s).len() implies slug_char_ok(
            #[trigger] slug_chars(s)[i],
        ) by {
            if i >= a.len() {
                lemma_norm_ok(piece(s.last())[i - a.len()]);
                assert(slug_chars(s)[i] == p[i - a.len()]);
            } else {
                assert(slug_chars(s)[i] == a[i]);
            }
        }
    }
}

proof fn lemma_collapse_ok(s: Seq<char>)
    requires
        forall|i: int| 0 <= i < s.len() ==> slug_char_ok(#[trigger] s[i]),
    ensures
        forall|i: int|
            0 <= i < collapse_dashes(s).len() ==> slug_char_ok(#[trigger] collapse_dashes(s)[i]),
    decreases s.len(),
{
    if s.len() > 0 {
        if s[0] == '-' {
            assert forall|i: int| 0 <= i < s.drop_first().len() implies slug_char_ok(
                #[trigger] s.drop_first()[i],
            ) by {
                assert(s.drop_first()[i] == s[i + 1]);
            }
            lemma_collapse_ok(s.drop_first());
            assert(collapse_dashes(s) == collapse_dashes(s.drop_first()));
        } else {
            let k = word_len(s, 0);
            lemma_word_len(s, 1);
            lemma_word_len(s, 0);
            let rest = s.skip(k);
            assert forall|i: int| 0 <= i < rest.len() implies slug_char_ok(#[trigger] rest[i]) by {
                assert(rest[i] == s[i + k]);
            }
            lemma_collapse_ok(rest);
            let c = collapse_dashes(rest);
            let w = s.take(k);
            let r = collapse_dashes(s);
            assert(r == dash_join(w, c));
            assert(w.len() == k);
            assert forall|i: int| 0 <= i < r.len() implies slug_char_ok(#[trigger] r[i]) by {
                if i < k {
                    assert(w[i] == s[i]);
                    if c.len() > 0 {
                        assert(r[i] == w[i]);
                    }
                } else if c.len() > 0 && i > k {
                    assert(r[i] == c[i - k - 1]);
                }
            }
        }
    }
}

proof fn lemma_slugify_one_letter(c: char, latin: Seq<char>)
    requires
        !is_ascii_char(c),
        translit(c) == latin,
        forall|i: int| 0 <= i < latin.len() ==> 'a' <= #[trigger] latin[i] && latin[i] <= 'z',
    ensures
        slugify_spec(seq![c]) == latin,
{
    let one = seq![c];
    assert(one.drop_last() =~= Seq::<char>::empty());
    assert(one.last() == c);
    assert(slug_chars(Seq::<char>::empty()) == Seq::<char>::empty());
    assert(piece(c) == latin);
    assert forall|i: int| 0 <= i < latin.len() implies norm(#[trigger] latin[i]) == latin[i] by {
        assert(is_ascii_alnum(latin[i]));
    }
    assert(latin.map_values(|x: char| norm(x)) =~= latin);
    assert(slug_chars(one) == slug_chars(one.drop_last()) + piece(one.last()).map_values(
        |x: char| norm(x),
    ));
    assert(slug_chars(one) =~= latin);
    lemma_collapse_of_clean(latin);
}

/// Every Cyrillic letter, capital or small, becomes its Latin spelling in a
/// slug: а a, б b, в v, г g, д d, е e, ё yo, ж zh, з z, и i, й y, к k, л l,
/// м m, н n, о o, п p, р r, с s, т t, у u, ф f, х kh, ц ts, ч ch, ш sh,
/// щ sch, ы y, э e, ю yu, я ya; the hard and soft signs ъ and ь vanish.
pub proof fn lemma_slugify_cyrillic_letters()
    ensures
        slugify_spec(seq!['а']) == seq!['a'],
        slugify_spec(seq!['А']) == seq!['a'],
        slugify_spec(seq!['б']) == seq!['b'],
        slugify_spec(seq!['Б']) == seq!['b'],
        slugify_spec(seq!['в']) == seq!['v'],
        slugify_spec(seq!['В']) == seq!['v'],
        slugify_spec(seq!['г']) == seq!['g'],
        slugify_spec(seq!['Г']) == seq!['g'],
        slugify_spec(seq!['д']) == seq!['d'],
        slugify_spec(seq!['Д']) == seq!['d'],
        slugify_spec(seq!['е']) == seq!['e'],
        slugify_spec(seq!['Е']) == seq!['e'],
        slugify_spec(seq!['ё']) == seq!['y', 'o'],
        slugify_spec(seq!['Ё']) == seq!['y', 'o'],
        slugify_spec(seq!['ж']) == seq!['z', 'h'],
        slugify_spec(seq!['Ж']) == seq!['z', 'h'],
        slugify_spec(seq!['з']) == seq!['z'],
        slugify_spec(seq!['З']) == seq!['z'],
        slugify_spec(seq!['и']) == seq!['i'],
        slugify_spec(seq!['И']) == seq!['i'],
        slugify_spec(seq!['й']) == seq!['y'],
        slugify_spec(seq!['Й']) == seq!['y'],
        slugify_spec(seq!['к']) == seq!['k'],
        slugify_spec(seq!['К']) == seq!['k'],
        slugify_spec(seq!['л']) == seq!['l'],
        slugify_spec(seq!['Л']) == seq!['l'],
        slugify_spec(seq!['м']) == seq!['m'],
        slugify_spec(seq!['М']) == seq!['m'],
        slugify_spec(seq!['н']) == seq!['n'],
        slugify_spec(seq!['Н']) == seq!['n'],
        slugify_spec(seq!['о']) == seq!['o'],
        slugify_spec(seq!['О']) == seq!['o'],
        slugify_spec(seq!['п']) == seq!['p'],
        slugify_spec(seq!['П']) == seq!['p'],
        slugify_spec(seq!['р']) == seq!['r'],
        slugify_spec(seq!['Р']) == seq!['r'],
        slugify_spec(seq!['с']) == seq!['s'],
        slugify_spec(seq!['С']) == seq!['s'],
        slugify_spec(seq!['т']) == seq!['t'],
        slugify_spec(seq!['Т']) == seq!['t'],
        slugify_spec(seq!['у']) == seq!['u'],
        slugify_spec(seq!['У']) == seq!['u'],
        slugify_spec(seq!['ф']) == seq!['f'],
        slugify_spec(seq!['Ф']) == seq!['f'],
        slugify_spec(seq!['х']) == seq!['k', 'h'],
        slugify_spec(seq!['Х']) == seq!['k', 'h'],
        slugify_spec(seq!['ц']) == seq!['t', 's'],
        slugify_spec(seq!['Ц']) == seq!['t', 's'],
        slugify_spec(seq!['ч']) == seq!['c', 'h'],
        slugify_spec(seq!['Ч']) == seq!['c', 'h'],
        slugify_spec(seq!['ш']) == seq!['s', 'h'],
        slugify_spec(seq!['Ш']) == seq!['s', 'h'],
        slugify_spec(seq!['щ']) == seq!['s', 'c', 'h'],
        slugify_spec(seq!['Щ']) == seq!['s', 'c', 'h'],
        slugify_spec(seq!['ъ']) == Seq::<char>::empty(),
        slugify_spec(seq!['Ъ']) == Seq::<char>::empty(),
        slugify_spec(seq!['ы']) == seq!['y'],
        slugify_spec(seq!['Ы']) == seq!['y'],
        slugify_spec(seq!['ь']) == Seq::<char>::empty(),
        slugify_spec(seq!['Ь']) == Seq::<char>::empty(),
        slugify_spec(seq!['э']) == seq!['e'],
        slugify_spec(seq!['Э']) == seq!['e'],
        slugify_spec(seq!['ю']) == seq!['y', 'u'],
        slugify_spec(seq!['Ю']) == seq!['y', 'u'],
        slugify_spec(seq!['я']) == seq!['y', 'a'],
        slugify_spec(seq!['Я']) == seq!['y', 'a'],
{
    assert(slugify_spec(seq!['а']) == seq!['a']) by {
        lemma_slugify_one_letter('а', seq!['a']);
    }
    assert(slugify_spec(seq!['А']) == seq!['a']) by {
        lemma_slugify_one_letter('А', seq!['a']);
    }
    assert(slugify_spec(seq!['б']) == seq!['b']) by {
        lemma_slugify_one_letter('б', seq!['b']);
    }
    assert(slugify_spec(seq!['Б']) == seq!['b']) by {
        lemma_slugify_one_letter('Б', seq!['b']);
    }
    assert(slugify_spec(seq!['в']) == seq!['v']) by {
        lemma_slugify_one_letter('в', seq!['v']);
    }
    assert(slugify_spec(seq!['В']) == seq!['v']) by {
        lemma_slugify_one_letter('В', seq!['v']);
    }
    assert(slugify_spec(seq!['г']) == seq!['g']) by {
        lemma_slugify_one_letter('г', seq!['g']);
    }
    assert(slugify_spec(seq!['Г']) == seq!['g']) by {
        lemma_slugify_one_letter('Г', seq!['g']);
    }
    assert(slugify_spec(seq!['д']) == seq!['d']) by {
        lemma_slugify_one_letter('д', seq!['d']);
    }
    assert(slugify_spec(seq!['Д']) == seq!['d']) by {
        lemma_slugify_one_letter('Д', seq!['d']);
    }
    assert(slugify_spec(seq!['е']) == seq!['e']) by {
        lemma_slugify_one_letter('е', seq!['e']);
    }
    assert(slugify_spec(seq!['Е']) == seq!['e']) by {
        lemma_slugify_one_letter('Е', seq!['e']);
    }
    assert(slugify_spec(seq!['ё']) == seq!['y', 'o']) by {
        lemma_slugify_one_letter('ё', seq!['y', 'o']);
    }
    assert(slugify_spec(seq!['Ё']) == seq!['y', 'o']) by {
        lemma_slugify_one_letter('Ё', seq!['y', 'o']);
    }
    assert(slugify_spec(seq!['ж']) == seq!['z', 'h']) by {
        lemma_slugify_one_letter('ж', seq!['z', 'h']);
    }
    assert(slugify_spec(seq!['Ж']) == seq!['z', 'h']) by {
        lemma_slugify_one_letter('Ж', seq!['z', 'h']);
    }
    assert(slugify_spec(seq!['з']) == seq!['z']) by {
        lemma_slugify_one_letter('з', seq!['z']);
    }
    assert(slugify_spec(seq!['З']) == seq!['z']) by {
        lemma_slugify_one_letter('З', seq!['z']);
    }
    assert(slugify_spec(seq!['и']) == seq!['i']) by {
        lemma_slugify_one_letter('и', seq!['i']);
    }
    assert(slugify_spec(seq!['И']) == seq!['i']) by {
        lemma_slugify_one_letter('И', seq!['i']);
    }
    assert(slugify_spec(seq!['й']) == seq!['y']) by {
        lemma_slugify_one_letter('й', seq!['y']);
    }
    assert(slugify_spec(seq!['Й']) == seq!['y']) by {
        lemma_slugify_one_letter('Й', seq!['y']);
    }
    assert(slugify_spec(seq!['к']) == seq!['k']) by {
        lemma_slugify_one_letter('к', seq!['k']);
    }
    assert(slugify_spec(seq!['К']) == seq!['k']) by {
        lemma_slugify_one_letter('К', seq!['k']);
    }
    assert(slugify_spec(seq!['л']) == seq!['l']) by {
        lemma_slugify_one_letter('л', seq!['l']);
    }
    assert(slugify_spec(seq!['Л']) == seq!['l']) by {
        lemma_slugify_one_letter('Л', seq!['l']);
    }
    assert(slugify_spec(seq!['м']) == seq!['m']) by {
        lemma_slugify_one_letter('м', seq!['m']);
    }
    assert(slugify_spec(seq!['М']) == seq!['m']) by {
        lemma_slugify_one_letter('М', seq!['m']);
    }
    assert(slugify_spec(seq!['н']) == seq!['n']) by {
        lemma_slugify_one_letter('н', seq!['n']);
    }
    assert(slugify_spec(seq!['Н']) == seq!['n']) by {
        lemma_slugify_one_letter('Н', seq!['n']);
    }
    assert(slugify_spec(seq!['о']) == seq!['o']) by {
        lemma_slugify_one_letter('о', seq!['o']);
    }
    assert(slugify_spec(seq!['О']) == seq!['o']) by {
        lemma_slugify_one_letter('О', seq!['o']);
    }
    assert(slugify_spec(seq!['п']) == seq!['p']) by {
        lemma_slugify_one_letter('п', seq!['p']);
    }
    assert(slugify_spec(seq!['П']) == seq!['p']) by {
        lemma_slugify_one_letter('П', seq!['p']);
    }
    assert(slugify_spec(seq!['р']) == seq!['r']) by {
        lemma_slugify_one_letter('р', seq!['r']);
    }
    assert(slugify_spec(seq!['Р']) == seq!['r']) by {
        lemma_slugify_one_letter('Р', seq!['r']);
    }
    assert(slugify_spec(seq!['с']) == seq!['s']) by {
        lemma_slugify_one_letter('с', seq!['s']);
    }
    assert(slugify_spec(seq!['С']) == seq!['s']) by {
        lemma_slugify_one_letter('С', seq!['s']);
    }
    assert(slugify_spec(seq!['т']) == seq!['t']) by {
        lemma_slugify_one_letter('т', seq!['t']);
    }
    assert(slugify_spec(seq!['Т']) == seq!['t']) by {
        lemma_slugify_one_letter('Т', seq!['t']);
    }
    assert(slugify_spec(seq!['у']) == seq!['u']) by {
        lemma_slugify_one_letter('у', seq!['u']);
    }
    assert(slugify_spec(seq!['У']) == seq!['u']) by {
        lemma_slugify_one_letter('У', seq!['u']);
    }
    assert(slugify_spec(seq!['ф']) == seq!['f']) by {
        lemma_slugify_one_letter('ф', seq!['f']);
    }
    assert(slugify_spec(seq!['Ф']) == seq!['f']) by {
        lemma_slugify_one_letter('Ф', seq!['f']);
    }
    assert(slugify_spec(seq!['х']) == seq!['k', 'h']) by {
        lemma_slugify_one_letter('х', seq!['k', 'h']);
    }
    assert(slugify_spec(seq!['Х']) == seq!['k', 'h']) by {
        lemma_slugify_one_letter('Х', seq!['k', 'h']);
    }
    assert(slugify_spec(seq!['ц']) == seq!['t', 's']) by {
        lemma_slugify_one_letter('ц', seq!['t', 's']);
    }
    assert(slugify_spec(seq!['Ц']) == seq!['t', 's']) by {
        lemma_slugify_one_letter('Ц', seq!['t', 's']);
    }
    assert(slugify_spec(seq!['ч']) == seq!['c', 'h']) by {
        lemma_slugify_one_letter('ч', seq!['c', 'h']);
    }
    assert(slugify_spec(seq!['Ч']) == seq!['c', 'h']) by {
        lemma_slugify_one_letter('Ч', seq!['c', 'h']);
    }
    assert(slugify_spec(seq!['ш']) == seq!['s', 'h']) by {
        lemma_slugify_one_letter('ш', seq!['s', 'h']);
    }
    assert(slugify_spec(seq!['Ш']) == seq!['s', 'h']) by {
        lemma_slugify_one_letter('Ш', seq!['s', 'h']);
    }
    assert(slugify_spec(seq!['щ']) == seq!['s', 'c', 'h']) by {
        lemma_slugify_one_letter('щ', seq!['s', 'c', 'h']);
    }
    assert(slugify_spec(seq!['Щ']) == seq!['s', 'c', 'h']) by {
        lemma_slugify_one_letter('Щ', seq!['s', 'c', 'h']);
    }
    assert(slugify_spec(seq!['ъ']) == Seq::<char>::empty()) by {
        lemma_slugify_one_letter('ъ', Seq::<char>::empty());
    }
    assert(slugify_spec(seq!['Ъ']) == Seq::<char>::empty()) by {
        lemma_slugify_one_letter('Ъ', Seq::<char>::empty());
    }
    assert(slugify_spec(seq!['ы']) == seq!['y']) by {
        lemma_slugify_one_letter('ы', seq!['y']);
    }
    assert(slugify_spec(seq!['Ы']) == seq!['y']) by {
        lemma_slugify_one_letter('Ы', seq!['y']);
    }
    assert(slugify_spec(seq!['ь']) == Seq::<char>::empty()) by {
        lemma_slugify_one_letter('ь', Seq::<char>::empty());
    }
    assert(slugify_spec(seq!['Ь']) == Seq::<char>::empty()) by {
        lemma_slugify_one_letter('Ь', Seq::<char>::empty());
    }
    assert(slugify_spec(seq!['э']) == seq!['e']) by {
        lemma_slugify_one_letter('э', seq!['e']);
    }
    assert(slugify_spec(seq!['Э']) == seq!['e']) by {
        lemma_slugify_one_letter('Э', seq!['e']);
    }
    assert(slugify_spec(seq!['ю']) == seq!['y', 'u']) by {
        lemma_slugify_one_letter('ю', seq!['y', 'u']);
    }
    assert(slugify_spec(seq!['Ю']) == seq!['y', 'u']) by {
        lemma_slugify_one_letter('Ю', seq!['y', 'u']);
    }
    assert(slugify_spec(seq!['я']) == seq!['y', 'a']) by {
        lemma_slugify_one_letter('я', seq!['y', 'a']);
    }
    assert(slugify_spec(seq!['Я']) == seq!['y', 'a']) by {
        lemma_slugify_one_letter('Я', seq!['y', 'a']);
    }
}

/// Slugs pass slug validation: only `a-z`, `0-9` and `-`, so nothing that
/// could leave the content directory.
pub proof fn lemma_slugify_valid(s: Seq<char>)
    ensures
        validate_chars_spec(slugify_spec(s)) is Ok,
        slugify_spec(s).len() > 0 ==> validate_spec(slugify_spec(s)) is Ok,
{
    lemma_slug_chars_ok(s);
    lemma_collapse_ok(slug_chars(s));
    let t = slugify_spec(s);
    assert forall|i: int| !dots_at(t, i) by {
        if 0 <= i < t.len() - 1 {
            assert(slug_char_ok(t[i]));
        }
    }
    assert forall|i: int| !(0 <= i < t.len() && (#[trigger] t[i] == '/' || t[i] == '\\')) by {
        if 0 <= i < t.len() {
            assert(slug_char_ok(t[i]));
        }
    }
}

proof fn lemma_collapse_clean(s: Seq<char>)
    requires
        forall|i: int| 0 <= i < s.len() ==> slug_char_ok(#[trigger] s[i]),
    ensures
        is_clean_slug(collapse_dashes(s)),
    decreases s.len(),
{
    lemma_collapse_ok(s);
    if s.len() > 0 {
        if s[0] == '-' {
            assert forall|i: int| 0 <= i < s.drop_first().len() implies slug_char_ok(
                #[trigger] s.drop_first()[i],
            ) by {
                assert(s.drop_first()[i] == s[i + 1]);
            }
            lemma_collapse_clean(s.drop_first());
            assert(collapse_dashes(s) == collapse_dashes(s.drop_first()));
        } else {
            let k = word_len(s, 0);
            lemma_word_len(s, 1);
            lemma_word_len(s, 0);
            let rest = s.skip(k);
            assert forall|i: int| 0 <= i < rest.len() implies slug_char_ok(#[trigger] rest[i]) by {
                assert(rest[i] == s[i + k]);
            }
            lemma_collapse_clean(rest);
            let c = collapse_dashes(rest);
            let w = s.take(k);
            let r = collapse_dashes(s);
            assert(r == dash_join(w, c));
            assert(w.len() == k);
            assert forall|i: int| 0 <= i < k implies w[i] != '-' by {
                assert(w[i] == s[i]);
            }
            if c.len() > 0 {
                assert(r =~= w + seq!['-'] + c);
                assert(r[0] == w[0]);
                assert(r.last() == c.last());
                assert forall|i: int| 0 <= i < r.len() - 1 implies !(#[trigger] r[i] == '-' && r[i
                    + 1] == '-') by {
                    if i < k - 1 {
                        assert(r[i] == w[i]);
                    } else if i == k - 1 {
                        assert(r[i] == w[i]);
                    } else if i == k {
                        assert(r[i + 1] == c[0]);
                    } else {
                        assert(r[i] == c[i - k - 1]);
                        assert(r[i + 1] == c[i - k]);
                    }
                }
            } else {
                assert(r == w);
            }
        }
    }
}

proof fn lemma_slug_chars_of_slug(t: Seq<char>)
    requires
        forall|i: int| 0 <= i < t.len() ==> slug_char_ok(#[trigger] t[i]),
    ensures
        slug_chars(t) == t,
    decreases t.len(),
{
    if t.len() > 0 {
        assert forall|i: int| 0 <= i < t.drop_last().len() implies slug_char_ok(
            #[trigger] t.drop_last()[i],
        ) by {
            assert(t.drop_last()[i] == t[i]);
        }
        lemma_slug_chars_of_slug(t.drop_last());
        let c = t.last();
        assert(slug_char_ok(t[t.len() - 1]));
        assert(is_ascii_char(c)) by {
            assert(('-' as u32) < 128);
            if 'a' <= c && c <= 'z' {
                assert((c as u32) <= ('z' as u32));
            } else if '0' <= c && c <= '9' {
                assert((c as u32) <= ('9' as u32));
            }
        }
        assert(norm(c) == c);
        assert(piece(c).map_values(|x: char| norm(x)) =~= seq![c]);
        assert(t.drop_last() + seq![c] =~= t);
    }
}

proof fn lemma_collapse_of_clean(t: Seq<char>)
    requires
        is_clean_slug(t),
    ensures
        collapse_dashes(t) == t,
    decreases t.len(),
{
    if t.len() > 0 {
        let k = word_len(t, 0);
        lemma_word_len(t, 1);
        lemma_word_len(t, 0);
        let w = t.take(k);
        let rest = t.skip(k);
        assert(t[0] != '-');
        assert(collapse_dashes(t) == dash_join(w, collapse_dashes(rest)));
        if k == t.len() {
            assert(rest =~= Seq::<char>::empty());
            assert(w =~= t);
        } else {
            assert(t[k] == '-');
            let rest2 = t.skip(k + 1);
            assert(rest.drop_first() =~= rest2);
            assert(k + 1 < t.len()) by {
                assert(t.last() != '-');
            }
            assert(t[k + 1] != '-') by {
                assert(!(t[k] == '-' && t[k + 1] == '-'));
            }
            assert(is_clean_slug(rest2)) by {
                assert forall|i: int| 0 <= i < rest2.len() implies (('a' <= #[trigger] rest2[i]
                    && rest2[i] <= 'z') || ('0' <= rest2[i] && rest2[i] <= '9') || rest2[i]
                    == '-') by {
                    assert(rest2[i] == t[i + k + 1]);
                }
                assert(rest2[0] == t[k + 1]);
                assert(rest2.last() == t.last());
                assert forall|i: int| 0 <= i < rest2.len() - 1 implies !(#[trigger] rest2[i] == '-'
                    && rest2[i + 1] == '-') by {
                    assert(rest2[i] == t[i + k + 1]);
                    assert(rest2[i + 1] == t[i + k + 2]);
                }
            }
            lemma_collapse_of_clean(rest2);
            assert(collapse_dashes(rest) == collapse_dashes(rest2));
            assert(w + seq!['-'] + rest2 =~= t);
        }
    }
}

/// The slug of a slug is itself.
pub proof fn lemma_slugify_idempotent(s: Seq<char>)
    ensures
        slugify_spec(slugify_spec(s)) == slugify_spec(s),
        is_clean_slug(slugify_spec(s)),
{
    lemma_slug_chars_ok(s);
    lemma_collapse_clean(slug_chars(s));
    let t = slugify_spec(s);
    lemma_collapse_ok(slug_chars(s));
    lemma_slug_chars_of_slug(t);
    lemma_collapse_of_clean(t);
}

pub proof fn lemma_word_len(s: Seq<char>, i: int)
    requires
        0 <= i <= s.len(),
    ensures
        0 <= word_len(s, i) <= s.len() - i,
        forall|m: int| i <= m < i + word_len(s, i) ==> s[m] != '-',
        i + word_len(s, i) < s.len() ==> s[i + word_len(s, i)] == '-',
    decreases s.len() - i,
{
    if i < s.len() && s[i] != '-' {
        lemma_word_len(s, i + 1);
    }
}

proof fn lemma_word_len_shift(s: Seq<char>, off: int, i: int)
    requires
        0 <= off <= s.len(),
        0 <= i,
    ensures
        word_len(s, off + i) == word_len(s.skip(off), i),
    decreases s.len() - off - i,
{
    if off + i < s.len() && s[off + i] != '-' {
        lemma_word_len_shift(s, off, i + 1);
    }
}

// ── Slug executable ──────────────────────────────────────────────────────────

fn is_ascii_alnum_exec(c: char) -> (b: bool)
    ensures
        b == is_ascii_alnum(c),
{
    ('a' <= c && c <= 'z') || ('A' <= c && c <= 'Z') || ('0' <= c && c <= '9')
}

fn norm_exec(c: char) -> (r: char)
    ensures
        r == norm(c),
{
    if is_ascii_alnum_exec(c) {
        if 'A' <= c && c <= 'Z' {
            char_from_ascii((c as u32) + 32)
        } else {
            c
        }
    } else {
        '-'
    }
}

pub(crate) fn char_from_ascii(u: u32) -> (c: char)
    requires
        u < 128,
    ensures
        c == u as char,
{
    let b = u as u8;
    b as char
}

/// `c` with an ASCII upper-case letter made lower-case.
pub(crate) fn ascii_lower_exec(c: char) -> (r: char)
    ensures
        r == ascii_lower(c),
{
    if 'A' <= c && c <= 'Z' {
        char_from_ascii((c as u32) + 32)
    } else {
        c
    }
}

/// Transliterate a single Cyrillic character to its ASCII Latin equivalent;
/// any other character becomes `-`.
fn transliterate_char(c: char) -> (r: Vec<char>)
    ensures
        r@ == translit(c),
{
    let r = match c {
        'а' | 'А' => vec!['a'],
        'б' | 'Б' => vec!['b'],
        'в' | 'В' => vec!['v'],
        'г' | 'Г' => vec!['g'],
        'д' | 'Д' => vec!['d'],
        'е' | 'Е' => vec!['e'],
        'ё' | 'Ё' => vec!['y', 'o'],
        'ж' | 'Ж' => vec!['z', 'h'],
        'з' | 'З' => vec!['z'],
        'и' | 'И' => vec!['i'],
        'й' | 'Й' => vec!['y'],
        'к' | 'К' => vec!['k'],
        'л' | 'Л' => vec!['l'],
        'м' | 'М' => vec!['m'],
        'н' | 'Н' => vec!['n'],
        'о' | 'О' => vec!['o'],
        'п' | 'П' => vec!['p'],
        'р' | 'Р' => vec!['r'],
        'с' | 'С' => vec!['s'],
        'т' | 'Т' => vec!['t'],
        'у' | 'У' => vec!['u'],
        'ф' | 'Ф' => vec!['f'],
        'х' | 'Х' => vec!['k', 'h'],
        'ц' | 'Ц' => vec!['t', 's'],
        'ч' | 'Ч' => vec!['c', 'h'],
        'ш' | 'Ш' => vec!['s', 'h'],
        'щ' | 'Щ' => vec!['s', 'c', 'h'],
        'ъ' | 'Ъ' => vec![],
        'ы' | 'Ы' => vec!['y'],
        'ь' | 'Ь' => vec![],
        'э' | 'Э' => vec!['e'],
        'ю' | 'Ю' => vec!['y', 'u'],
        'я' | 'Я' => vec!['y', 'a'],
        _ => vec!['-'],
    };
    assert(r@ =~= translit(c));
    r
}

/// The transliterated, normalised characters of `v[0..hi]`.
fn slug_chars_exec(v: &Vec<char>) -> (out: Vec<char>)
    ensures
        out@ == slug_chars(v@),
{
    let mut out: Vec<char> = Vec::new();
    let mut i: usize = 0;
    while i < v.len()
        invariant
            i <= v@.len(),
            out@ == slug_chars(v@.take(i as int)),
        decreases v@.len() - i,
    {
        let c = v[i];
        let p = if (c as u32) < 128 {
            vec![c]
        } else {
            transliterate_char(c)
        };
        assert(p@ =~= piece(c));
        let ghost before = out@;
        let mut k: usize = 0;
        while k < p.len()
            invariant
                k <= p@.len(),
                p@ == piece(c),
                out@ == before + p@.take(k as int).map_values(|x: char| norm(x)),
            decreases p@.len() - k,
        {
            out.push(norm_exec(p[k]));
            k = k + 1;
            assert(out@ =~= before + p@.take(k as int).map_values(|x: char| norm(x)));
        }
        assert(p@.take(p@.len() as int) =~= p@);
        assert(v@.take(i + 1).drop_last() =~= v@.take(i as int));
        i = i + 1;
    }
    assert(v@.take(v@.len() as int) =~= v@);
    out
}

/// Convert arbitrary text into a URL-safe slug: Cyrillic letters are
/// transliterated, ASCII letters lower-cased, and every run of other
/// characters becomes a single `-` between words.
///
/// `slugify("Hello, World!") == "hello-world"`
pub fn slugify(text: &str) -> (r: String)
    ensures
        r@ == slugify_spec(text@),
{
    let v = chars_of(text);
    let s = slug_chars_exec(&v);
    let n = s.len();
    let mut out = String::new();
    let mut i: usize = 0;
    proof {
        assert(s@.skip(0) =~= s@);
    }
    while i < n
        invariant
            n == s@.len(),
            i <= n,
            collapse_dashes(s@) == dash_join(out@, collapse_dashes(s@.skip(i as int))),
        decreases n - i,
    {
        if s[i] == '-' {
            assert(s@.skip(i as int).drop_first() =~= s@.skip(i + 1));
            i = i + 1;
        } else {
            let ghost rest = s@.skip(i as int);
            let mut j = i;
            while j < n && s[j] != '-'
                invariant
                    i <= j <= n,
                    n == s@.len(),
                    forall|m: int| i <= m < j ==> s@[m] != '-',
                decreases n - j,
            {
                j = j + 1;
            }
            proof {
                lemma_word_len(rest, 0);
                lemma_word_len(s@, i as int);
                lemma_word_len_shift(s@, i as int, 0);
                lemma_word_len_exact(s@, i as int, j as int);
                assert(rest.take(j - i) =~= s@.subrange(i as int, j as int));
                assert(rest.skip(j - i) =~= s@.skip(j as int));
            }
            let ghost w = s@.subrange(i as int, j as int);
            let ghost old_out = out@;
            if !out.as_str().is_empty() {
                push_char(&mut out, '-');
            }
            let mut k = i;
            let ghost mid = out@;
            while k < j
                invariant
                    i <= k <= j <= n,
                    n == s@.len(),
                    out@ == mid + s@.subrange(i as int, k as int),
                decreases j - k,
            {
                push_char(&mut out, s[k]);
                k = k + 1;
                assert(out@ =~= mid + s@.subrange(i as int, k as int));
            }
            proof {
                assert(out@ == dash_join(old_out, w)) by {
                    if old_out.len() > 0 {
                        assert(mid =~= old_out + seq!['-']);
                        assert(out@ =~= old_out + seq!['-'] + w);
                    } else {
                        assert(out@ =~= w);
                    }
                }
                let r = collapse_dashes(s@.skip(j as int));
                assert(dash_join(old_out, dash_join(w, r)) =~= dash_join(dash_join(old_out, w), r));
            }
            i = j;
        }
    }
    proof {
        assert(s@.skip(n as int) =~= Seq::<char>::empty());
        assert(dash_join(out@, Seq::<char>::empty()) =~= out@);
    }
    out
}

proof fn lemma_word_len_exact(s: Seq<char>, i: int, j: int)
    requires
        0 <= i <= j <= s.len(),
        forall|m: int| i <= m < j ==> s[m] != '-',
        j == s.len() || s[j] == '-',
    ensures
        word_len(s, i) == j - i,
    decreases j - i,
{
    if i < j {
        lemma_word_len_exact(s, i + 1, j);
    }
}

// ── Randomness ───────────────────────────────────────────────────────────────

/// Reads the system clock as the time elapsed since the Unix epoch
/// (`SystemTime::now().duration_since(UNIX_EPOCH)`), as whole seconds and the
/// sub-second nanoseconds; `None` when the clock is set before the epoch.
/// The reading depends on the moment of the call; only the documented range
/// of the nanosecond part is stated.
#[verifier::external_body]
pub(crate) fn unix_time() -> (r: Option<(u64, u32)>)
    ensures
        r matches Some(t) ==> t.1 < 1_000_000_000,
{
    std::time::SystemTime::now().duration_since(std::time::UNIX_EPOCH).ok().map(
        |d| (d.as_secs(), d.subsec_nanos()),
    )
}

/// The index that `random_index` picks for a given clock reading.
pub fn index_from_nanos(nanos: u32, len: usize) -> (r: usize)
    requires
        len > 0,
    ensures
        r == (nanos as nat) % (len as nat),
        r < len,
{
    (nanos as usize) % len
}

/// The index picked for a clock reading with `nanos` sub-second nanoseconds.
pub open spec fn clock_index(nanos: u32, len: usize) -> nat {
    (nanos as nat) % (len as nat)
}

/// Return a pseudo-random index in `0..len`, seeded by the sub-second
/// nanoseconds of the clock (0 when the clock is unavailable).
pub fn random_index(len: usize) -> (r: usize)
    requires
        len > 0,
    ensures
        r < len,
        exists|nanos: u32| nanos < 1_000_000_000 && r == #[trigger] clock_index(nanos, len),
{
    let nanos = match unix_time() {
        Some(t) => t.1,
        None => 0,
    };
    let r = index_from_nanos(nanos, len);
    assert(nanos < 1_000_000_000 && r == clock_index(nanos, len));
    r
}

// ── Shuffle ──────────────────────────────────────────────────────────────────

/// One step of the xorshift generator.
pub open spec fn xorshift(s: u64) -> u64 {
    let a = s ^ ((s << 13u64) as u64);
    let b = a ^ (a >> 7u64);
    b ^ ((b << 17u64) as u64)
}

pub open spec fn swap_seq<T>(s: Seq<T>, i: int, j: int) -> Seq<T> {
    s.update(i, s[j]).update(j, s[i])
}

/// Fisher–Yates from position `i` down to 1, driven by xorshift from `state`.
pub open spec fn shuffle_from<T>(s: Seq<T>, i: int, state: u64) -> Seq<T>
    decreases i,
{
    if i < 1 {
        s
    } else {
        let st = xorshift(state);
        let j = ((st as usize) as int) % (i + 1);
        shuffle_from(swap_seq(s, i, j), i - 1, st)
    }
}

pub open spec fn shuffle_spec<T>(s: Seq<T>, seed: u64) -> Seq<T> {
    shuffle_from(s, s.len() - 1, seed)
}

proof fn lemma_swap_multiset<T>(s: Seq<T>, i: int, j: int)
    requires
        0 <= i < s.len(),
        0 <= j < s.len(),
    ensures
        swap_seq(s, i, j).to_multiset() =~= s.to_multiset(),
{
    if i != j {
        let lo = if i < j { i } else { j };
        let hi = if i < j { j } else { i };
        let a = s.take(lo);
        let b = s.subrange(lo + 1, hi);
        let c = s.skip(hi + 1);
        let x = s[lo];
        let y = s[hi];
        assert(s =~= a + (seq![x] + (b + (seq![y] + c))));
        assert(swap_seq(s, i, j) =~= a + (seq![y] + (b + (seq![x] + c))));
        vstd::seq_lib::lemma_multiset_commutative(a, seq![x] + (b + (seq![y] + c)));
        vstd::seq_lib::lemma_multiset_commutative(seq![x], b + (seq![y] + c));
        vstd::seq_lib::lemma_multiset_commutative(b, seq![y] + c);
        vstd::seq_lib::lemma_multiset_commutative(seq![y], c);
        vstd::seq_lib::lemma_multiset_commutative(a, seq![y] + (b + (seq![x] + c)));
        vstd::seq_lib::lemma_multiset_commutative(seq![y], b + (seq![x] + c));
        vstd::seq_lib::lemma_multiset_commutative(b, seq![x] + c);
        vstd::seq_lib::lemma_multiset_commutative(seq![x], c);
    } else {
        assert(swap_seq(s, i, j) =~= s);
    }
}

proof fn lemma_shuffle_from_multiset<T>(s: Seq<T>, i: int, state: u64)
    requires
        i < s.len(),
    ensures
        shuffle_from(s, i, state).to_multiset() =~= s.to_multiset(),
        shuffle_from(s, i, state).len() == s.len(),
    decreases i,
{
    if i >= 1 {
        let st = xorshift(state);
        let j = ((st as usize) as int) % (i + 1);
        lemma_swap_multiset(s, i, j);
        lemma_shuffle_from_multiset(swap_seq(s, i, j), i - 1, st);
    }
}

/// Shuffling is a permutation: every element stays, as often as it occurred.
pub proof fn lemma_shuffle_permutes<T>(s: Seq<T>, seed: u64)
    ensures
        shuffle_spec(s, seed).to_multiset() =~= s.to_multiset(),
        shuffle_spec(s, seed).len() == s.len(),
{
    lemma_shuffle_from_multiset(s, s.len() - 1, seed);
}

fn xorshift_exec(s: u64) -> (r: u64)
    ensures
        r == xorshift(s),
{
    let a = s ^ (s << 13u64);
    let b = a ^ (a >> 7u64);
    b ^ (b << 17u64)
}

/// Exchanges two elements of a vector (`<[T]>::swap`).
#[verifier::external_body]
fn vec_swap<T>(v: &mut Vec<T>, i: usize, j: usize)
    requires
        i < old(v)@.len(),
        j < old(v)@.len(),
    ensures
        final(v)@ == swap_seq(old(v)@, i as int, j as int),
{
    v.swap(i, j);
}

/// Fisher–Yates shuffle driven by a xorshift generator started at `seed`.
pub fn shuffle<T>(slice: &mut Vec<T>, seed: u64)
    ensures
        final(slice)@ == shuffle_spec(old(slice)@, seed),
{
    let n = slice.len();
    if n < 2 {
        return;
    }
    let mut state = seed;
    let mut i = n - 1;
    while i >= 1
        invariant
            n == slice@.len(),
            i < n,
            shuffle_spec(old(slice)@, seed) == shuffle_from(slice@, i as int, state),
        decreases i,
    {
        state = xorshift_exec(state);
        let j = (state as usize) % (i + 1);
        vec_swap(slice, i, j);
        i = i - 1;
    }
}

} // verus!
