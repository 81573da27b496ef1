//! Turning one source document into a stored record and cache entry.

use vstd::prelude::*;
use crate::keyed::lemma_key_index_found;
use crate::article::{row_of, row_view, Article, ArticleWithTags, RowView};
use crate::cache::{compute_hash, needs_render_spec, xxhash64_hex, ContentCache};
use crate::directive::{eval_plugins_reporting, meta_of, scan, scan_failures, DirectiveFailure, MetaView};
use crate::store::{
    articles_wf, src_index, src_keys, upsert_id, upserted, upserted_next, ArticleStore, StoreError,
};
use crate::utils::{
    article_src_file_name_to_title, create_dst_file_name, dst_file_name, file_stem, replace_char,
};

verus! {

/// A source document after its directives ran: the record to store, the
/// text handed to the renderer, the hash of that text, and the directives
/// that were left in place.
#[derive(Debug)]
pub struct ParsedArticle {
    pub article: ArticleWithTags,
    pub text: String,
    pub hash: String,
    pub failures: Vec<DirectiveFailure>,
}

/// The metadata a fresh record starts from before its directives run.
pub open spec fn blank_meta() -> MetaView {
    MetaView {
        title: None,
        modification_date: None,
        summary: None,
        tags: None,
        series: None,
        draft: None,
        special_page: None,
    }
}

/// The row, under identity 0, that parsing the text `raw` of the document
/// at `path` gives.
pub open spec fn parsed_row(path: Seq<char>, flat: bool, raw: Seq<char>) -> RowView {
    let m = scan(raw, 0, blank_meta()).1;
    RowView {
        id: 0,
        src_file_name: path,
        dst_file_name: dst_file_name(path, flat),
        title: match m.title {
            Some(t) => Some(t),
            None => Some(replace_char(file_stem(path), '_', ' ')),
        },
        modification_date: m.modification_date,
        summary: m.summary,
        series: m.series,
        draft: m.draft,
        special_page: m.special_page,
        timeline: None,
        anchorjs: Some(true),
        tocify: Some(true),
        live_updates: Some(true),
    }
}

/// Parses the document at `relative_path` (relative to the input root)
/// whose text is `raw`: runs its directives, hashes the resulting text, and
/// gives the record its output path and, when no title directive set one,
/// a title made from the file name.
pub fn parse_article(relative_path: &str, flat: bool, raw: &str) -> (r: ParsedArticle)
    ensures
        r.article.id == None::<u64>,
        r.article.src_file_name@ == relative_path@,
        r.article.dst_file_name@ == dst_file_name(relative_path@, flat),
        r.article.anchorjs == Some(true),
        r.article.tocify == Some(true),
        r.article.live_updates == Some(true),
        r.article.timeline == None::<bool>,
        r.text@ == scan(raw@, 0, blank_meta()).0,
        r.hash@ == xxhash64_hex(r.text@),
        r.failures@ == scan_failures(raw@, 0, blank_meta()),
        row_view(row_of(r.article, 0)) == parsed_row(relative_path@, flat, raw@),
        ({
            let m = scan(raw@, 0, blank_meta()).1;
            let got = meta_of(r.article);
            &&& got.modification_date == m.modification_date
            &&& got.summary == m.summary
            &&& got.tags == m.tags
            &&& got.series == m.series
            &&& got.draft == m.draft
            &&& got.special_page == m.special_page
            &&& got.title == match m.title {
                Some(t) => Some(t),
                None => Some(replace_char(file_stem(relative_path@), '_', ' ')),
            }
        }),
{
    let src = String::from_str(relative_path);
    let dst = create_dst_file_name(relative_path, flat);
    let mut article = ArticleWithTags::new(src, dst);
    article.anchorjs = Some(true);
    article.tocify = Some(true);
    article.live_updates = Some(true);
    assert(meta_of(article) == blank_meta());
    let mut failures: Vec<DirectiveFailure> = Vec::new();
    let text = eval_plugins_reporting(raw, &mut article, &mut failures);
    assert(failures@ =~= scan_failures(raw@, 0, blank_meta()));
    let hash = compute_hash(text.as_str());
    if article.title.is_none() {
        article.title = Some(article_src_file_name_to_title(relative_path));
    }
    ParsedArticle { article, text, hash, failures }
}

/// Commits a parsed document: stores `rendered` in the cache when the
/// renderer was run for it, then stores the record. Returns the impact set
/// of `ArticleStore::set`.
pub fn commit_document(
    store: &mut ArticleStore,
    cache: &mut ContentCache,
    parsed: &ParsedArticle,
    rendered: Option<String>,
) -> (r: Result<Vec<u64>, StoreError>)
    requires
        old(store).wf(),
        old(cache).wf(),
    ensures
        final(store).wf(),
        final(cache).wf(),
        final(cache)@ == match rendered {
            Some(html) => old(cache)@.insert(parsed.article.src_file_name@, (html@, parsed.hash@)),
            None => old(cache)@,
        },
        r is Ok ==> final(store).articles@ == upserted(old(store).articles@, old(store).next_id, parsed.article),
        r is Err ==> *final(store) == *old(store),
        r is Err ==> r == Err::<Vec<u64>, StoreError>(StoreError::EmptyIdentity) || r == Err::<
            Vec<u64>,
            StoreError,
        >(StoreError::Full),
        (parsed.article.src_file_name@.len() == 0 || parsed.article.dst_file_name@.len() == 0)
            <==> r == Err::<Vec<u64>, StoreError>(StoreError::EmptyIdentity),
        r == Err::<Vec<u64>, StoreError>(StoreError::Full) <==> (parsed.article.src_file_name@.len()
            != 0 && parsed.article.dst_file_name@.len() != 0 && src_index(
            old(store).articles@,
            parsed.article.src_file_name@,
        ) is None && old(store).next_id == u64::MAX),
        r is Ok ==> r.unwrap()@.to_set() == crate::neighbours::impact_of(
            crate::store::before_snapshot(old(store).articles@, parsed.article.src_file_name@),
            crate::neighbours::snapshot_of(
                final(store).articles@,
                row_of(parsed.article, upsert_id(old(store).articles@, old(store).next_id, parsed.article.src_file_name@)),
            ),
        ),
{
    match rendered {
        Some(html) => {
            cache.set_cache(parsed.article.src_file_name.clone(), html, parsed.hash.clone());
        },
        None => {},
    }
    store.set(&parsed.article)
}

/// Applies a settled change of the source path `src`. `parsed` is the
/// parsed document when the source still exists (with `rendered` as for
/// `commit_document`), `None` when it is gone: then its record and cache
/// row are removed, and a path that was never stored changes nothing.
pub fn handle_change(
    store: &mut ArticleStore,
    cache: &mut ContentCache,
    src: &String,
    parsed: Option<&ParsedArticle>,
    rendered: Option<String>,
) -> (r: Result<Vec<u64>, StoreError>)
    requires
        old(store).wf(),
        old(cache).wf(),
        parsed is Some ==> parsed.unwrap().article.src_file_name@ == src@,
    ensures
        final(store).wf(),
        final(cache).wf(),
        match parsed {
            Some(p) => {
                &&& final(cache)@ == match rendered {
                    Some(html) => old(cache)@.insert(src@, (html@, p.hash@)),
                    None => old(cache)@,
                }
                &&& r is Ok ==> final(store).articles@ == upserted(old(store).articles@, old(store).next_id, p.article)
                &&& r is Err ==> *final(store) == *old(store)
                &&& (p.article.src_file_name@.len() == 0 || p.article.dst_file_name@.len() == 0) <==> r
                    == Err::<Vec<u64>, StoreError>(StoreError::EmptyIdentity)
                &&& r is Err ==> r == Err::<Vec<u64>, StoreError>(StoreError::EmptyIdentity) || r == Err::<
                    Vec<u64>,
                    StoreError,
                >(StoreError::Full)
            },
            None => {
                &&& r is Ok
                &&& final(cache)@ == old(cache)@.remove(src@)
                &&& match src_index(old(store).articles@, src@) {
                    Some(i) => final(store).articles@ == old(store).articles@.remove(i)
                        && r.unwrap()@.to_set() == crate::neighbours::impact_of(
                        crate::neighbours::snapshot_of(old(store).articles@, old(store).articles@[i]),
                        crate::neighbours::recent_only_of(final(store).articles@),
                    ).remove(old(store).articles@[i].id),
                    None => *final(store) == *old(store) && r.unwrap()@.len() == 0,
                }
            },
        },
{
    match parsed {
        Some(p) => commit_document(store, cache, p, rendered),
        None => {
            cache.del_cache(src);
            match store.del_by_src_file_name(src) {
                Ok(affected) => Ok(affected),
                Err(_) => Ok(Vec::new()),
            }
        },
    }
}

/// Scanning an unchanged document again changes nothing: both scans parse
/// the same row (see `parsed_row`), the second pass finds the hash in the
/// cache, so the renderer is not called again, and the index keeps exactly
/// one record for the path, with the same identity and the same values.
pub proof fn lemma_rescan_idempotent(
    arts: Seq<Article>,
    next_id: u64,
    a: ArticleWithTags,
    b: ArticleWithTags,
    m: Map<Seq<char>, (Seq<char>, Seq<char>)>,
    html: Seq<char>,
    hash: Seq<char>,
)
    requires
        articles_wf(arts, next_id),
        src_index(arts, a.src_file_name@) is None ==> next_id < u64::MAX,
        row_view(row_of(a, 0)) == row_view(row_of(b, 0)),
    ensures
        ({
            let arts1 = upserted(arts, next_id, a);
            let next1 = upserted_next(arts, next_id, a);
            let arts2 = upserted(arts1, next1, b);
            &&& arts2.len() == arts1.len()
            &&& forall|k: int| 0 <= k < arts1.len() ==> row_view(#[trigger] arts2[k]) == row_view(arts1[k])
            &&& upserted_next(arts1, next1, b) == next1
            &&& src_index(arts1, a.src_file_name@) is Some
            &&& forall|i: int, j: int|
                0 <= i < arts1.len() && 0 <= j < arts1.len() && (#[trigger] arts1[i]).src_file_name@
                    == a.src_file_name@ && (#[trigger] arts1[j]).src_file_name@ == a.src_file_name@
                    ==> i == j
        }),
        !needs_render_spec(m.insert(a.src_file_name@, (html, hash)), a.src_file_name@, hash),
{
    let s = a.src_file_name@;
    let arts1 = upserted(arts, next_id, a);
    let next1 = upserted_next(arts, next_id, a);
    match src_index(arts, s) {
        Some(i) => {
            let id = arts[i].id;
            assert(arts1[i] == row_of(a, id));
            assert forall|x: int, y: int|
                0 <= x < arts1.len() && 0 <= y < arts1.len() && (#[trigger] arts1[x]).src_file_name@
                    == s && (#[trigger] arts1[y]).src_file_name@ == s implies x == y by {
                if x != i {
                    assert(arts[x].src_file_name@ == s);
                    assert(arts[i].src_file_name@ == s);
                }
                if y != i {
                    assert(arts[y].src_file_name@ == s);
                    assert(arts[i].src_file_name@ == s);
                }
            }
            assert(src_index(arts1, s) == Some(i)) by {
                assert(arts1[i].src_file_name@ == s);
                assert forall|x: int, y: int|
                    0 <= x < arts1.len() && 0 <= y < arts1.len() && x != y implies src_keys(arts1)[x]
                        != src_keys(arts1)[y] by {
                    if x != i && y != i {
                        assert(arts[x].src_file_name@ != arts[y].src_file_name@);
                    } else if x == i {
                        assert(arts[y].src_file_name@ != arts[i].src_file_name@);
                    } else {
                        assert(arts[x].src_file_name@ != arts[i].src_file_name@);
                    }
                }
                lemma_key_index_found(src_keys(arts1), i);
            }
            assert(b.src_file_name@ == s);
            assert(row_view(row_of(b, id)) == row_view(row_of(a, id)));
        },
        None => {
            let n = arts.len() as int;
            assert(arts1[n] == row_of(a, next_id));
            assert forall|k: int| 0 <= k < arts.len() implies arts[k].src_file_name@ != s by {
                if arts[k].src_file_name@ == s {
                    assert(src_keys(arts)[k] == s);
                }
            }
            assert forall|x: int, y: int|
                0 <= x < arts1.len() && 0 <= y < arts1.len() && (#[trigger] arts1[x]).src_file_name@
                    == s && (#[trigger] arts1[y]).src_file_name@ == s implies x == y by {
                if x != n {
                    assert(arts[x].src_file_name@ == s);
                }
                if y != n {
                    assert(arts[y].src_file_name@ == s);
                }
            }
            assert(src_index(arts1, s) == Some(n)) by {
                assert(arts1[n].src_file_name@ == s);
                assert forall|k: int| 0 <= k < arts.len() implies arts[k].src_file_name@ != s by {
                    if arts[k].src_file_name@ == s {
                        assert(src_keys(arts)[k] == s);
                    }
                }
                assert forall|x: int, y: int|
                    0 <= x < arts1.len() && 0 <= y < arts1.len() && x != y implies src_keys(arts1)[x]
                        != src_keys(arts1)[y] by {
                    if x != n && y != n {
                        assert(arts[x].src_file_name@ != arts[y].src_file_name@);
                    } else if x == n {
                        assert(arts[y].src_file_name@ != s);
                    } else {
                        assert(arts[x].src_file_name@ != s);
                    }
                }
                lemma_key_index_found(src_keys(arts1), n);
            }
            assert(b.src_file_name@ == s);
            assert(row_view(row_of(b, next_id)) == row_view(row_of(a, next_id)));
        },
    }
}

} // verus!
