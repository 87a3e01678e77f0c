//! Configuration data types and the checks made on a loaded configuration.

use vstd::prelude::*;

use crate::text::{
    chars_of, find, find_char_exec, find_char_from, find_exec, lemma_find_char_shift,
    lemma_find_from_bounds, lemma_find_shift, push_char, starts_with, trim_bounds, trim_ws,
};

verus! {

/// Where static assets come from.
#[derive(Debug)]
pub enum StaticSource {
    /// A local directory.
    Local { source: String },
    /// A GitHub tree URL such as `https://github.com/user/repo/tree/main/static`.
    Github { source: String },
}

impl StaticSource {
    /// The directory of a `Local` source; `None` for `Github`.
    pub fn local_dir(&self) -> (r: Option<&String>)
        ensures
            r matches Some(d) ==> (self matches StaticSource::Local { source } && d == source),
            r is None <==> self is Github,
    {
        match self {
            StaticSource::Local { source } => Some(source),
            StaticSource::Github { .. } => None,
        }
    }

    /// The CDN base URL of a `Github` source; `None` for `Local`.
    pub fn github_raw_base(&self) -> (r: Option<String>)
        ensures
            r matches Some(u) ==> (self matches StaticSource::Github { source } && u@
                == github_tree_to_raw_spec(source@)),
            r is None <==> self is Local,
    {
        match self {
            StaticSource::Github { source } => Some(github_tree_to_raw(source.as_str())),
            StaticSource::Local { .. } => None,
        }
    }
}

// ── GitHub URL rewriting ─────────────────────────────────────────────────────

pub open spec fn github_prefix() -> Seq<char> {
    "https://github.com/"@
}

pub open spec fn raw_prefix() -> Seq<char> {
    "https://raw.githubusercontent.com/"@
}

pub open spec fn cdn_prefix() -> Seq<char> {
    "https://cdn.jsdelivr.net/gh/"@
}

pub open spec fn tree_marker() -> Seq<char> {
    "/tree/"@
}

/// `s` with every leading copy of `p` removed (`str::trim_start_matches`).
pub open spec fn trim_prefix_all(s: Seq<char>, p: Seq<char>) -> Seq<char>
    decreases s.len(),
{
    if p.len() > 0 && starts_with(s, p) {
        trim_prefix_all(s.skip(p.len() as int), p)
    } else {
        s
    }
}

/// `str::replace`: every non-overlapping occurrence of `from`, left to right,
/// replaced by `to`.
pub open spec fn replace_all(s: Seq<char>, from: Seq<char>, to: Seq<char>) -> Seq<char>
    decreases s.len(),
{
    if from.len() == 0 {
        s
    } else {
        match find(s, from) {
            None => s,
            Some(i) => {
                proof {
                    lemma_find_from_bounds(s, from, 0);
                }
                s.take(i) + to + replace_all(s.skip(i + from.len()), from, to)
            },
        }
    }
}

/// The asset base URL for a GitHub tree URL:
/// `https://github.com/user/repo/tree/main/static` becomes
/// `https://cdn.jsdelivr.net/gh/user/repo@main/static`; a URL without a
/// `/tree/<branch>/<path>` part is mapped to `raw.githubusercontent.com` with
/// `/tree/` dropped.
pub open spec fn github_tree_to_raw_spec(url: Seq<char>) -> Seq<char> {
    let without = trim_prefix_all(url, github_prefix());
    match find(without, tree_marker()) {
        Some(i) => {
            let repo = without.take(i);
            let rest = without.skip(i + 6);
            match find_char_from(rest, '/', 0) {
                Some(j) => cdn_prefix() + repo + seq!['@'] + rest.take(j) + seq!['/'] + rest.skip(
                    j + 1,
                ),
                None => fallback_raw(url),
            }
        },
        None => fallback_raw(url),
    }
}

pub open spec fn fallback_raw(url: Seq<char>) -> Seq<char> {
    replace_all(replace_all(url, github_prefix(), raw_prefix()), tree_marker(), seq!['/'])
}

/// Appends `v[lo..hi]` to `out`.
fn push_range(out: &mut String, v: &Vec<char>, lo: usize, hi: usize)
    requires
        lo <= hi <= v@.len(),
    ensures
        final(out)@ == old(out)@ + v@.subrange(lo as int, hi as int),
{
    let mut k = lo;
    while k < hi
        invariant
            lo <= k <= hi <= v@.len(),
            out@ == old(out)@ + v@.subrange(lo as int, k as int),
        decreases hi - k,
    {
        push_char(out, v[k]);
        k = k + 1;
        assert(out@ =~= old(out)@ + v@.subrange(lo as int, k as int));
    }
}

/// `replace_all` on characters.
fn replace_all_exec(v: &Vec<char>, from: &Vec<char>, to: &Vec<char>) -> (r: Vec<char>)
    requires
        from@.len() > 0,
    ensures
        r@ == replace_all(v@, from@, to@),
{
    let n = v.len();
    let mut out: Vec<char> = Vec::new();
    let mut i: usize = 0;
    assert(v@.skip(0) =~= v@);
    while i < n
        invariant
            n == v@.len(),
            i <= n,
            from@.len() > 0,
            replace_all(v@, from@, to@) == out@ + replace_all(v@.skip(i as int), from@, to@),
        decreases n - i,
    {
        let ghost rest = v@.skip(i as int);
        let f = find_exec(v, n, from, i);
        proof {
            assert(v@.subrange(0, n as int) =~= v@);
            lemma_find_shift(v@, from@, i as int, 0);
        }
        match f {
            None => {
                let mut k = i;
                let ghost o = out@;
                while k < n
                    invariant
                        i <= k <= n,
                        n == v@.len(),
                        out@ == o + v@.subrange(i as int, k as int),
                    decreases n - k,
                {
                    out.push(v[k]);
                    k = k + 1;
                    assert(out@ =~= o + v@.subrange(i as int, k as int));
                }
                assert(v@.subrange(i as int, n as int) =~= rest);
                return out;
            },
            Some(j) => {
                proof {
                    lemma_find_from_bounds(v@, from@, i as int);
                }
                let ghost o = out@;
                let mut k = i;
                while k < j
                    invariant
                        i <= k <= j <= n,
                        n == v@.len(),
                        out@ == o + v@.subrange(i as int, k as int),
                    decreases j - k,
                {
                    out.push(v[k]);
                    k = k + 1;
                    assert(out@ =~= o + v@.subrange(i as int, k as int));
                }
                let ghost o2 = out@;
                let mut m: usize = 0;
                while m < to.len()
                    invariant
                        m <= to@.len(),
                        out@ == o2 + to@.take(m as int),
                    decreases to@.len() - m,
                {
                    out.push(to[m]);
                    m = m + 1;
                    assert(out@ =~= o2 + to@.take(m as int));
                }
                proof {
                    assert(to@.take(to@.len() as int) =~= to@);
                    assert(rest.take(j - i) =~= v@.subrange(i as int, j as int));
                    assert(rest.skip(j - i + from@.len()) =~= v@.skip(j + from@.len()));
                    let r2 = replace_all(v@.skip(j + from@.len()), from@, to@);
                    assert(o + (v@.subrange(i as int, j as int) + to@ + r2) =~= out@ + r2);
                }
                i = j + from.len();
            },
        }
    }
    proof {
        assert(v@.skip(n as int) =~= Seq::<char>::empty());
        assert(out@ + Seq::<char>::empty() =~= out@);
    }
    out
}

/// Convert a GitHub tree URL to a jsDelivr CDN base URL.
///
/// `https://github.com/user/repo/tree/main/static`
/// → `https://cdn.jsdelivr.net/gh/user/repo@main/static`
pub fn github_tree_to_raw(tree_url: &str) -> (r: String)
    ensures
        r@ == github_tree_to_raw_spec(tree_url@),
{
    proof {
        reveal_strlit("https://github.com/");
        reveal_strlit("/tree/");
    }
    let v = chars_of(tree_url);
    let n = v.len();
    let gh = chars_of("https://github.com/");
    let mut a: usize = 0;
    proof {
        assert(v@.skip(0) =~= v@);
    }
    while n - a >= gh.len() && crate::text::range_eq(&v, a, a + gh.len(), &gh)
        invariant
            n == v@.len(),
            a <= n,
            gh@ == github_prefix(),
            gh@.len() > 0,
            trim_prefix_all(v@, gh@) == trim_prefix_all(v@.skip(a as int), gh@),
        decreases n - a,
    {
        proof {
            assert(v@.skip(a as int).subrange(0, gh@.len() as int) =~= v@.subrange(
                a as int,
                a + gh@.len(),
            ));
            assert(v@.skip(a as int).skip(gh@.len() as int) =~= v@.skip(a + gh@.len()));
        }
        a = a + gh.len();
    }
    proof {
        if n - a >= gh@.len() {
            assert(v@.skip(a as int).subrange(0, gh@.len() as int) =~= v@.subrange(
                a as int,
                a + gh@.len(),
            ));
        }
        assert(v@.skip(a as int) =~= v@.subrange(a as int, n as int));
        assert(trim_prefix_all(v@.skip(a as int), gh@) == v@.skip(a as int));
    }
    let ghost without = v@.subrange(a as int, n as int);
    let tree = chars_of("/tree/");
    let f = find_exec(&v, n, &tree, a);
    proof {
        reveal_strlit("/tree/");
        assert(v@.subrange(0, n as int) =~= v@);
        lemma_find_shift(v@, tree@, a as int, 0);
        lemma_find_from_bounds(v@, tree@, a as int);
    }
    if let Some(i) = f {
        let rs = i + 6;
        let slash = find_char_exec(&v, n, '/', rs);
        proof {
            lemma_find_char_shift(v@, '/', rs as int, 0);
            assert(without.take(i - a) =~= v@.subrange(a as int, i as int));
            assert(without.skip(i - a + 6) =~= v@.subrange(rs as int, n as int));
            assert(v@.skip(rs as int) =~= v@.subrange(rs as int, n as int));
        }
        if let Some(j) = slash {
            let mut out = String::from_str("https://cdn.jsdelivr.net/gh/");
            push_range(&mut out, &v, a, i);
            push_char(&mut out, '@');
            push_range(&mut out, &v, rs, j);
            push_char(&mut out, '/');
            push_range(&mut out, &v, j + 1, n);
            proof {
                let rest = v@.subrange(rs as int, n as int);
                assert(rest.take(j - rs) =~= v@.subrange(rs as int, j as int));
                assert(rest.skip(j - rs + 1) =~= v@.subrange(j + 1, n as int));
                assert(out@ =~= cdn_prefix() + v@.subrange(a as int, i as int) + seq!['@']
                    + v@.subrange(rs as int, j as int) + seq!['/'] + v@.subrange(j + 1, n as int));
            }
            return out;
        }
    }
    let raw = chars_of("https://raw.githubusercontent.com/");
    let slash_only = vec!['/'];
    assert(slash_only@ =~= seq!['/']);
    let step1 = replace_all_exec(&v, &gh, &raw);
    let step2 = replace_all_exec(&step1, &tree, &slash_only);
    crate::text::string_of_all(&step2)
}

// ── Site ─────────────────────────────────────────────────────────────────────

#[derive(Debug)]
pub struct SiteConfig {
    pub title: String,
    pub page_title: String,
    pub footer_year: u16,
    pub language: String,
    pub footer: FooterConfig,
    pub base_url: String,
}

/// All fields optional — unset means "use the built-in default".
#[derive(Debug)]
pub struct FooterConfig {
    pub text: Option<String>,
    pub copyright: Option<String>,
    pub links: Vec<FooterLink>,
}

impl Default for FooterConfig {
    fn default() -> (r: FooterConfig)
        ensures
            r.text is None,
            r.copyright is None,
            r.links@.len() == 0,
    {
        FooterConfig { text: None, copyright: None, links: Vec::new() }
    }
}

#[derive(Debug)]
pub struct FooterLink {
    pub label: String,
    pub href: String,
}

pub open spec fn opt_str_model(o: Option<String>) -> Option<Seq<char>> {
    match o {
        Some(s) => Some(s@),
        None => None,
    }
}

pub open spec fn links_model(s: Seq<FooterLink>) -> Seq<(Seq<char>, Seq<char>)> {
    s.map_values(|l: FooterLink| (l.label@, l.href@))
}

impl FooterConfig {
    pub open spec fn model(&self) -> (Option<Seq<char>>, Option<Seq<char>>, Seq<(Seq<char>, Seq<char>)>) {
        (opt_str_model(self.text), opt_str_model(self.copyright), links_model(self.links@))
    }
}

fn copy_opt_string(o: &Option<String>) -> (r: Option<String>)
    ensures
        opt_str_model(r) == opt_str_model(*o),
{
    match o {
        Some(s) => Some(s.clone()),
        None => None,
    }
}

/// A copy of a footer configuration.
pub fn copy_footer(f: &FooterConfig) -> (r: FooterConfig)
    ensures
        r.model() == f.model(),
{
    let mut links: Vec<FooterLink> = Vec::new();
    let mut i: usize = 0;
    while i < f.links.len()
        invariant
            i <= f.links@.len(),
            links_model(links@) == links_model(f.links@.take(i as int)),
        decreases f.links@.len() - i,
    {
        let l = &f.links[i];
        let ghost before = links@;
        links.push(FooterLink { label: l.label.clone(), href: l.href.clone() });
        proof {
            assert(f.links@.take(i + 1) =~= f.links@.take(i as int).push(f.links@[i as int]));
            assert(links_model(links@) =~= links_model(before).push((l.label@, l.href@)));
            assert(links_model(f.links@.take(i + 1)) =~= links_model(f.links@.take(i as int)).push(
                (l.label@, l.href@),
            ));
        }
        i = i + 1;
    }
    assert(f.links@.take(f.links@.len() as int) =~= f.links@);
    FooterConfig {
        text: copy_opt_string(&f.text),
        copyright: copy_opt_string(&f.copyright),
        links,
    }
}

#[derive(Debug)]
pub struct ContentConfig {
    /// Directory holding article Markdown files (one file = one article).
    pub dir: String,
}

#[derive(Debug)]
pub struct ThemeConfig {
    /// Active theme name; corresponds to `static/css/theme-{name}.css`.
    pub name: String,
}

#[derive(Debug)]
pub struct AdminConfig {
    pub token: Option<String>,
}

/// Pagination feature. Off by default.
#[derive(Debug)]
pub struct PaginationConfig {
    /// Master switch. When `false`, the other field is ignored.
    pub enabled: bool,
    /// Maximum plain-text symbols per page.
    pub symbol_limit: usize,
}

impl PaginationConfig {
    /// The symbol limit used when the configuration names none.
    pub fn default_limit() -> (r: usize)
        ensures
            r == 10_000,
    {
        10_000
    }
}

impl Default for PaginationConfig {
    fn default() -> (r: PaginationConfig)
        ensures
            !r.enabled,
            r.symbol_limit == 0,
    {
        PaginationConfig { enabled: false, symbol_limit: 0 }
    }
}

// ── Checks on a loaded configuration ─────────────────────────────────────────

/// Why a configuration was refused.
#[derive(Debug, PartialEq, Eq, Structural)]
pub enum ConfigError {
    /// No admin token, or an empty one.
    MissingAdminToken,
    /// The local static directory does not exist or is not a directory.
    StaticDirMissing,
    /// The content directory does not exist or is not a directory.
    ContentDirMissing,
    /// The theme name is empty or only white space.
    EmptyThemeName,
}

pub open spec fn check_config_spec(
    token: Option<Seq<char>>,
    static_dir_ok: Option<bool>,
    content_dir_ok: bool,
    theme_name: Seq<char>,
) -> Result<(), ConfigError> {
    if !(token matches Some(t) && t.len() > 0) {
        Err(ConfigError::MissingAdminToken)
    } else if static_dir_ok == Some(false) {
        Err(ConfigError::StaticDirMissing)
    } else if !content_dir_ok {
        Err(ConfigError::ContentDirMissing)
    } else if trim_ws(theme_name).len() == 0 {
        Err(ConfigError::EmptyThemeName)
    } else {
        Ok(())
    }
}

/// The checks made once a configuration is loaded, in order: the admin token
/// is set and non-empty; a local static directory exists (`static_dir_ok` is
/// `None` for a GitHub source); the content directory exists; the theme name
/// is not blank.
pub fn check_config(
    token: Option<&str>,
    static_dir_ok: Option<bool>,
    content_dir_ok: bool,
    theme_name: &str,
) -> (r: Result<(), ConfigError>)
    ensures
        r == check_config_spec(
            match token {
                Some(t) => Some(t@),
                None => None,
            },
            static_dir_ok,
            content_dir_ok,
            theme_name@,
        ),
{
    match token {
        Some(t) => {
            if t.is_empty() {
                return Err(ConfigError::MissingAdminToken);
            }
        },
        None => {
            return Err(ConfigError::MissingAdminToken);
        },
    }
    if static_dir_ok == Some(false) {
        return Err(ConfigError::StaticDirMissing);
    }
    if !content_dir_ok {
        return Err(ConfigError::ContentDirMissing);
    }
    let v = chars_of(theme_name);
    let (a, b) = trim_bounds(&v, 0, v.len());
    proof {
        assert(v@.subrange(0, v@.len() as int) =~= theme_name@);
    }
    if a == b {
        return Err(ConfigError::EmptyThemeName);
    }
    Ok(())
}

// ── Where the configuration is ───────────────────────────────────────────────

/// The configuration file path, in priority order: the command-line
/// argument, then the `APP_CONFIG` environment variable (`env_value`), then
/// `config.toml`.
pub fn config_path(cli_arg: Option<String>, env_value: Option<String>) -> (r: String)
    ensures
        r@ == match cli_arg {
            Some(p) => p@,
            None => match env_value {
                Some(p) => p@,
                None => "config.toml"@,
            },
        },
{
    match cli_arg {
        Some(p) => p,
        None => match env_value {
            Some(p) => p,
            None => String::from_str("config.toml"),
        },
    }
}

} // verus!
