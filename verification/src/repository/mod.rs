//! Article storage: the repository abstraction and its file-backed logic.
//!
//! All content-loading and content-writing operations go through
//! `ArticleRepository`. The rest of the application depends only on this
//! trait, never on a concrete implementation.

pub mod fs;

use vstd::prelude::*;

use crate::domain::{stories_model, Article, StoryHeader, StoryM};
use crate::repository::fs::loader::FileMeta;
use crate::repository::fs::parser::{parse_article, parse_article_spec, ArticleError};
use crate::repository::fs::slug::{
    derive_spec, validate, validate_chars, validate_chars_spec, validate_spec, SlugError,
};
use crate::repository::fs::util::{lemma_shuffle_permutes, random_index, shuffle, shuffle_spec};
use crate::text::{chars_of, trim_bounds, trim_ws};

verus! {

broadcast use crate::domain::group_model_lemmas;

// ── Shared metadata type ──────────────────────────────────────────────────────

/// Lightweight article descriptor returned by `list()`.
/// Cheap to produce — no body parsing required.
#[derive(Debug)]
pub struct ArticleMeta {
    pub title: String,
    pub slug: String,
    /// First ~120 chars of body text, pre-extracted.
    pub snippet: String,
}

impl ArticleMeta {
    /// The sidebar card this descriptor gives.
    pub open spec fn story(&self) -> StoryM {
        StoryM { title: self.title@, slug: self.slug@, snippet: self.snippet@ }
    }
}

// ── Errors ────────────────────────────────────────────────────────────────────

/// Why a repository operation failed.
#[derive(Debug)]
pub enum RepoError {
    /// The content directory does not exist or is not a directory.
    NotADirectory,
    /// No article has the requested slug.
    NotFound,
    /// The store holds no article.
    NoArticles,
    /// The article text is empty or only white space.
    EmptyContent,
    /// The article text is not a valid article.
    InvalidArticle(ArticleError),
    /// The article's slug is refused.
    InvalidSlug(SlugError),
    /// Reading or writing the store failed; the text says what was done.
    Io(String),
}

// ── The trait ─────────────────────────────────────────────────────────────────

/// Storage-agnostic interface for reading and writing articles.
///
/// Implementations must be `Send + Sync` so they can be shared between
/// request handlers.
pub trait ArticleRepository: Send + Sync {
    /// Return lightweight metadata for every available article.
    /// The returned vec is sorted deterministically (e.g. by slug).
    fn list(&self) -> Result<Vec<ArticleMeta>, RepoError>;

    /// Fully parse and return one article by slug.
    fn get(&self, slug: &str) -> Result<Article, RepoError>;

    /// Return a pseudo-random slug drawn from available articles.
    fn random_slug(&self) -> Result<String, RepoError>;

    /// Persist a raw article (Markdown + front matter).
    /// Returns the slug that was assigned to the article.
    fn save(&self, raw: &str) -> Result<String, RepoError>;

    /// Delete the article identified by `slug`.
    fn delete(&self, slug: &str) -> Result<(), RepoError>;

    /// Return sidebar cards for all articles *except* `exclude_slug`,
    /// shuffled (by a generator started at `seed`) and capped at `limit`.
    ///
    /// A default implementation (the sidebar of what `list` returns, or its
    /// error) is provided; backends can override it with a faster query.
    fn sidebar_stories(&self, exclude_slug: &str, limit: usize, seed: u64) -> (r: Result<
        Vec<StoryHeader>,
        RepoError,
    >)
        default_ensures
            exists|listed: Result<Vec<ArticleMeta>, RepoError>|
                #![trigger call_ensures(Self::list, (self,), listed)]
                call_ensures(Self::list, (self,), listed) && match listed {
                    Ok(metas) => r matches Ok(v) && stories_model(v@) == sidebar_spec(
                        metas@,
                        exclude_slug@,
                        limit,
                        seed,
                    ),
                    Err(e) => r == Err::<Vec<StoryHeader>, RepoError>(e),
                },
    {
        let listed = self.list();
        match listed {
            Ok(metas) => {
                let ghost seen = metas@;
                let v = sidebar_from_metas(metas, exclude_slug, limit, seed);
                assert(stories_model(v@) == sidebar_spec(seen, exclude_slug@, limit, seed));
                Ok(v)
            },
            Err(e) => Err(e),
        }
    }
}

// ── Sidebar selection ─────────────────────────────────────────────────────────

/// The descriptors whose slug is not `exclude`, in order.
pub open spec fn keep_except(s: Seq<ArticleMeta>, exclude: Seq<char>) -> Seq<ArticleMeta>
    decreases s.len(),
{
    if s.len() == 0 {
        s
    } else if s.last().slug@ == exclude {
        keep_except(s.drop_last(), exclude)
    } else {
        keep_except(s.drop_last(), exclude).push(s.last())
    }
}

/// The sidebar: the other articles shuffled, the first `limit` of them.
pub open spec fn sidebar_spec(s: Seq<ArticleMeta>, exclude: Seq<char>, limit: usize, seed: u64) -> Seq<
    StoryM,
> {
    let sh = shuffle_spec(keep_except(s, exclude), seed);
    sh.take(
        if limit < sh.len() {
            limit as int
        } else {
            sh.len() as int
        },
    ).map_values(|m: ArticleMeta| m.story())
}

proof fn lemma_keep_except_members(s: Seq<ArticleMeta>, exclude: Seq<char>, x: ArticleMeta)
    requires
        keep_except(s, exclude).contains(x),
    ensures
        s.contains(x),
        x.slug@ != exclude,
    decreases s.len(),
{
    let k = keep_except(s, exclude);
    if s.len() > 0 {
        let d = keep_except(s.drop_last(), exclude);
        if x == s.last() && s.last().slug@ != exclude {
            assert(s[s.len() - 1] == x);
        } else {
            let i = choose|i: int| 0 <= i < k.len() && k[i] == x;
            if s.last().slug@ != exclude {
                if i == k.len() - 1 {
                    assert(k[i] == s.last());
                } else {
                    assert(d[i] == x);
                }
            } else {
                assert(d[i] == x);
            }
            assert(d.contains(x));
            lemma_keep_except_members(s.drop_last(), exclude, x);
            let j = choose|j: int| 0 <= j < s.drop_last().len() && s.drop_last()[j] == x;
            assert(s[j] == x);
        }
    }
}

/// Sidebar cards never show the excluded article, and each comes from one
/// of the given descriptors.
pub proof fn lemma_sidebar_members(s: Seq<ArticleMeta>, exclude: Seq<char>, limit: usize, seed: u64)
    ensures
        forall|k: int|
            0 <= k < sidebar_spec(s, exclude, limit, seed).len() ==> {
                &&& (#[trigger] sidebar_spec(s, exclude, limit, seed)[k]).slug != exclude
                &&& exists|i: int| 0 <= i < s.len() && s[i].story() == sidebar_spec(s, exclude, limit, seed)[k]
            },
{
    broadcast use vstd::seq_lib::group_to_multiset_ensures;

    let kept = keep_except(s, exclude);
    let sh = shuffle_spec(kept, seed);
    lemma_shuffle_permutes(kept, seed);
    let r = sidebar_spec(s, exclude, limit, seed);
    assert forall|k: int| 0 <= k < r.len() implies {
        &&& (#[trigger] r[k]).slug != exclude
        &&& exists|i: int| 0 <= i < s.len() && s[i].story() == r[k]
    } by {
        let m = sh[k];
        assert(sh.contains(m));
        assert(sh.to_multiset().count(m) > 0);
        assert(kept.contains(m));
        lemma_keep_except_members(s, exclude, m);
        let i = choose|i: int| 0 <= i < s.len() && s[i] == m;
        assert(r[k] == m.story());
        assert(s[i].story() == r[k]);
    }
}

/// The sidebar holds `limit` cards, or every other article when there are
/// fewer.
pub proof fn lemma_sidebar_len(s: Seq<ArticleMeta>, exclude: Seq<char>, limit: usize, seed: u64)
    ensures
        sidebar_spec(s, exclude, limit, seed).len() == if limit < keep_except(s, exclude).len() {
            limit as int
        } else {
            keep_except(s, exclude).len() as int
        },
{
    lemma_shuffle_permutes(keep_except(s, exclude), seed);
}

/// Sidebar cards for every descriptor whose slug is not `exclude_slug`,
/// shuffled by a generator started at `seed`, and capped at `limit`.
pub fn sidebar_from_metas(metas: Vec<ArticleMeta>, exclude_slug: &str, limit: usize, seed: u64) -> (r:
    Vec<StoryHeader>)
    ensures
        stories_model(r@) == sidebar_spec(metas@, exclude_slug@, limit, seed),
{
    let ghost orig = metas@;
    let mut rest = metas;
    let mut kept: Vec<ArticleMeta> = Vec::new();
    let ex = String::from_str(exclude_slug);
    let mut taken: usize = 0;
    let total = rest.len();
    while rest.len() > 0
        invariant
            taken <= orig.len(),
            orig.len() == total,
            rest@ == orig.skip(taken as int),
            kept@ == keep_except(orig.take(taken as int), exclude_slug@),
            ex@ == exclude_slug@,
        decreases rest@.len(),
    {
        let m = rest.remove(0);
        proof {
            assert(orig.take(taken + 1).drop_last() =~= orig.take(taken as int));
            assert(orig.take(taken + 1).last() == m);
            assert(orig.skip(taken as int).drop_first() =~= orig.skip(taken + 1));
        }
        if m.slug != ex {
            kept.push(m);
        }
        taken = taken + 1;
    }
    assert(orig.take(taken as int) =~= orig);
    shuffle(&mut kept, seed);
    let n = if limit < kept.len() {
        limit
    } else {
        kept.len()
    };
    let mut out: Vec<StoryHeader> = Vec::new();
    let mut i: usize = 0;
    while i < n
        invariant
            i <= n <= kept@.len(),
            stories_model(out@) == kept@.take(i as int).map_values(|m: ArticleMeta| m.story()),
        decreases n - i,
    {
        let m = &kept[i];
        out.push(
            StoryHeader { title: m.title.clone(), slug: m.slug.clone(), snippet: m.snippet.clone() },
        );
        proof {
            assert(kept@.take(i + 1).map_values(|m: ArticleMeta| m.story()) =~= kept@.take(
                i as int,
            ).map_values(|m: ArticleMeta| m.story()).push(kept@[i as int].story()));
        }
        i = i + 1;
    }
    out
}

// ── Filesystem-backed store: the decisions ────────────────────────────────────

/// Filesystem-backed article store rooted at a content directory. Reading
/// and writing files is left to the code that drives it; this type holds
/// the decisions made around them.
#[derive(Debug)]
pub struct FsArticleRepository {
    dir: String,
}

/// The outcome of the checks made before an article is written, with
/// `secs` standing for the clock reading that the slug's last-resort form
/// uses.
pub open spec fn save_check_spec(raw: Seq<char>, secs: nat) -> Result<Seq<char>, RepoError> {
    if trim_ws(raw).len() == 0 {
        Err(RepoError::EmptyContent)
    } else {
        match parse_article_spec(raw) {
            Err(e) => Err(RepoError::InvalidArticle(e)),
            Ok(_) => {
                let s = derive_spec(raw, secs);
                match validate_spec(s) {
                    Err(e) => Err(RepoError::InvalidSlug(e)),
                    Ok(_) => Ok(s),
                }
            },
        }
    }
}

/// A slug with no `/`, `\` or `.`: joined to a directory as `<slug>.md`, it
/// names a file directly inside that directory.
pub open spec fn names_file_in_dir(slug: Seq<char>) -> bool {
    forall|i: int| 0 <= i < slug.len() ==> #[trigger] slug[i] != '/' && slug[i] != '\\' && slug[i] != '.'
}

impl FsArticleRepository {
    pub closed spec fn dir_model(&self) -> Seq<char> {
        self.dir@
    }

    /// Create a new repository rooted at `dir`; `is_dir` tells whether `dir`
    /// names an existing directory.
    ///
    /// Returns an error if `dir` does not exist or is not a directory.
    pub fn new(dir: String, is_dir: bool) -> (r: Result<FsArticleRepository, RepoError>)
        ensures
            r is Ok <==> is_dir,
            r matches Ok(repo) ==> repo.dir_model() == dir@,
            r matches Err(e) ==> e is NotADirectory,
    {
        if !is_dir {
            return Err(RepoError::NotADirectory);
        }
        Ok(FsArticleRepository { dir })
    }

    /// The content directory.
    pub fn dir(&self) -> (r: &String)
        ensures
            r@ == self.dir_model(),
    {
        &self.dir
    }

    /// The checks made before an article is written: the text is not blank,
    /// it parses as an article, and its derived slug is valid. Returns that
    /// slug.
    pub fn check_save(raw: &str) -> (r: Result<String, RepoError>)
        ensures
            r matches Ok(s) ==> exists|secs: nat| save_check_spec(raw@, secs) == Ok::<Seq<char>, RepoError>(s@),
            r matches Err(e) ==> exists|secs: nat| save_check_spec(raw@, secs) == Err::<Seq<char>, RepoError>(e),
    {
        let v = chars_of(raw);
        let (a, b) = trim_bounds(&v, 0, v.len());
        assert(v@.subrange(0, v@.len() as int) =~= raw@);
        if a == b {
            assert(save_check_spec(raw@, 0) == Err::<Seq<char>, RepoError>(RepoError::EmptyContent));
            return Err(RepoError::EmptyContent);
        }
        match parse_article(raw) {
            Err(e) => {
                assert(save_check_spec(raw@, 0) == Err::<Seq<char>, RepoError>(RepoError::InvalidArticle(e)));
                return Err(RepoError::InvalidArticle(e));
            },
            Ok(_) => {},
        }
        let s = crate::repository::fs::slug::derive(raw);
        let ghost secs = choose|secs: nat| s@ == derive_spec(raw@, secs);
        match validate(s.as_str()) {
            Err(e) => {
                assert(save_check_spec(raw@, secs) == Err::<Seq<char>, RepoError>(RepoError::InvalidSlug(e)));
                Err(RepoError::InvalidSlug(e))
            },
            Ok(_) => {
                assert(save_check_spec(raw@, secs) == Ok::<Seq<char>, RepoError>(s@));
                Ok(s)
            },
        }
    }

    /// The check made before an article is read by slug: the slug's
    /// characters. A slug it accepts holds no `/`, `\` or `.`, so
    /// `<slug>.md` names a file directly inside the content directory.
    pub fn check_get(slug: &str) -> (r: Result<(), RepoError>)
        ensures
            r is Ok <==> validate_chars_spec(slug@) is Ok,
            r matches Err(e) ==> validate_chars_spec(slug@) == Err::<(), SlugError>(e->InvalidSlug_0),
            r matches Err(e) ==> e is InvalidSlug,
            r is Ok ==> names_file_in_dir(slug@),
    {
        match validate_chars(slug) {
            Ok(()) => Ok(()),
            Err(e) => Err(RepoError::InvalidSlug(e)),
        }
    }

    /// The check made before an article is deleted: the slug's characters,
    /// as for a read.
    pub fn check_delete(slug: &str) -> (r: Result<(), RepoError>)
        ensures
            r is Ok <==> validate_chars_spec(slug@) is Ok,
            r matches Err(e) ==> validate_chars_spec(slug@) == Err::<(), SlugError>(e->InvalidSlug_0),
            r matches Err(e) ==> e is InvalidSlug,
            r is Ok ==> names_file_in_dir(slug@),
    {
        match validate_chars(slug) {
            Ok(()) => Ok(()),
            Err(e) => Err(RepoError::InvalidSlug(e)),
        }
    }

    /// A pseudo-random slug among the scanned articles; `NoArticles` when
    /// there is none.
    pub fn pick_random_slug(metas: &Vec<FileMeta>) -> (r: Result<String, RepoError>)
        ensures
            r is Err <==> metas@.len() == 0,
            r matches Err(e) ==> e is NoArticles,
            r matches Ok(s) ==> exists|i: int| 0 <= i < metas@.len() && s@ == metas@[i].slug@,
    {
        if metas.len() == 0 {
            return Err(RepoError::NoArticles);
        }
        let idx = random_index(metas.len());
        Ok(metas[idx].slug.clone())
    }
}

} // verus!
