//! The metadata index: records, tag rows and their association.

use vstd::prelude::*;
use crate::article::{row_of, Article, ArticleTag, ArticleWithTags, Tag};
use crate::keyed::{distinct_keys, key_index, lemma_key_index_found};
use crate::neighbours::{
    in_view, in_view_exec, is_visible, lemma_precedes_total, lemma_precedes_transitive, precedes,
    precedes_exec, series_key, find_prev_and_next_articles, impact_of, is_most_recent_at, most_recent_index, most_recent_of,
    recent_only_of, snapshot_of,
    AllArticleNeighbours, ArticleNeighbours,
};

verus! {

/// Why the store rejected a mutation.
#[derive(Debug, Clone, Copy, PartialEq, Eq, Structural)]
pub enum StoreError {
    /// The source or the destination path of the record is empty.
    EmptyIdentity,
    /// No record has the given identity or source path.
    NotFound,
    /// Every identity has been handed out.
    Full,
}

/// The set of string views in a sequence of strings.
pub open spec fn names(v: Seq<String>) -> Set<Seq<char>> {
    Set::new(|n: Seq<char>| exists|i: int| 0 <= i < v.len() && (#[trigger] v[i])@ == n)
}

/// The names a record's optional tag list gives it.
pub open spec fn tag_list_names(t: Option<Vec<String>>) -> Set<Seq<char>> {
    match t {
        Some(v) => names(v@),
        None => Set::empty(),
    }
}

/// The source paths of the records, in order.
pub open spec fn src_keys(arts: Seq<Article>) -> Seq<Seq<char>> {
    arts.map_values(|a: Article| a.src_file_name@)
}

/// Index of the record with source path `src`, if any.
pub open spec fn src_index(arts: Seq<Article>, src: Seq<char>) -> Option<int> {
    key_index(src_keys(arts), src)
}

/// Well-formed records have distinct source paths.
pub proof fn lemma_src_keys_distinct(arts: Seq<Article>, next_id: u64)
    requires
        articles_wf(arts, next_id),
    ensures
        distinct_keys(src_keys(arts)),
{
    let ks = src_keys(arts);
    assert forall|i: int, j: int| 0 <= i < ks.len() && 0 <= j < ks.len() && i != j implies ks[i] != ks[j] by {
        assert(arts[i].src_file_name@ != arts[j].src_file_name@);
    }
}

/// Index of the record with identity `id`, if any.
pub open spec fn id_index(arts: Seq<Article>, id: u64) -> Option<int> {
    if exists|i: int| 0 <= i < arts.len() && (#[trigger] arts[i]).id == id {
        Some(choose|i: int| 0 <= i < arts.len() && (#[trigger] arts[i]).id == id)
    } else {
        None
    }
}

/// The records after `a` was stored: an existing record with the same source
/// path is replaced in place under its identity, else `a` is appended under
/// identity `next_id`.
pub open spec fn upserted(arts: Seq<Article>, next_id: u64, a: ArticleWithTags) -> Seq<Article> {
    match src_index(arts, a.src_file_name@) {
        Some(i) => arts.update(i, row_of(a, arts[i].id)),
        None => arts.push(row_of(a, next_id)),
    }
}

/// The in-memory index of document records, tag rows and their association.
pub struct ArticleStore {
    pub articles: Vec<Article>,
    pub tags: Vec<Tag>,
    pub links: Vec<ArticleTag>,
    pub next_id: u64,
}

pub open spec fn articles_wf(arts: Seq<Article>, next_id: u64) -> bool {
    &&& forall|i: int|
        0 <= i < arts.len() ==> (#[trigger] arts[i]).src_file_name@.len() > 0
            && arts[i].dst_file_name@.len() > 0
    &&& forall|i: int| 0 <= i < arts.len() ==> (#[trigger] arts[i]).id < next_id
    &&& forall|i: int, j: int|
        0 <= i < arts.len() && 0 <= j < arts.len() && i != j ==> (#[trigger] arts[i]).id
            != (#[trigger] arts[j]).id
    &&& forall|i: int, j: int|
        0 <= i < arts.len() && 0 <= j < arts.len() && i != j
            ==> (#[trigger] arts[i]).src_file_name@ != (#[trigger] arts[j]).src_file_name@
}

pub open spec fn tags_wf(tags: Seq<Tag>) -> bool {
    &&& forall|t: int| 0 <= t < tags.len() ==> (#[trigger] tags[t]).id == t
    &&& forall|s: int, t: int|
        0 <= s < tags.len() && 0 <= t < tags.len() && s != t ==> (#[trigger] tags[s]).name@
            != (#[trigger] tags[t]).name@
}

pub open spec fn has_id(arts: Seq<Article>, id: u64) -> bool {
    exists|i: int| 0 <= i < arts.len() && (#[trigger] arts[i]).id == id
}

pub open spec fn links_wf(links: Seq<ArticleTag>, arts: Seq<Article>, ntags: int) -> bool {
    &&& links.no_duplicates()
    &&& forall|k: int|
        0 <= k < links.len() ==> (#[trigger] links[k]).tag_id < ntags && has_id(arts, links[k].article_id)
}

/// Names of the tags linked to record `id`.
pub open spec fn linked_names(links: Seq<ArticleTag>, tags: Seq<Tag>, id: u64) -> Set<Seq<char>> {
    Set::new(
        |n: Seq<char>|
            exists|k: int|
                0 <= k < links.len() && (#[trigger] links[k]).article_id == id && links[k].tag_id
                    < tags.len() && tags[links[k].tag_id as int].name@ == n,
    )
}

pub open spec fn tag_names(tags: Seq<Tag>) -> Set<Seq<char>> {
    Set::new(|n: Seq<char>| exists|t: int| 0 <= t < tags.len() && (#[trigger] tags[t]).name@ == n)
}

impl ArticleStore {
    pub open spec fn wf(&self) -> bool {
        &&& articles_wf(self.articles@, self.next_id)
        &&& tags_wf(self.tags@)
        &&& links_wf(self.links@, self.articles@, self.tags@.len() as int)
    }

    /// Names of the tags linked to record `id`.
    pub open spec fn tags_of(&self, id: u64) -> Set<Seq<char>> {
        linked_names(self.links@, self.tags@, id)
    }

    /// An empty store.
    pub fn new() -> (r: ArticleStore)
        ensures
            r.wf(),
            r.articles@.len() == 0,
            r.tags@.len() == 0,
            r.links@.len() == 0,
            r.next_id == 1,
    {
        ArticleStore { articles: Vec::new(), tags: Vec::new(), links: Vec::new(), next_id: 1 }
    }

    /// Index of the record whose source path is `src`.
    pub fn find_src(&self, src: &String) -> (r: Option<usize>)
        requires
            self.wf(),
        ensures
            match r {
                Some(i) => i < self.articles@.len() && self.articles@[i as int].src_file_name@
                    == src@ && src_index(self.articles@, src@) == Some(i as int),
                None => src_index(self.articles@, src@) == None::<int>,
            },
    {
        let mut i: usize = 0;
        while i < self.articles.len()
            invariant
                self.wf(),
                0 <= i <= self.articles@.len(),
                forall|k: int| 0 <= k < i ==> (#[trigger] self.articles@[k]).src_file_name@ != src@,
            decreases self.articles@.len() - i,
        {
            if self.articles[i].src_file_name == *src {
                proof {
                    lemma_src_keys_distinct(self.articles@, self.next_id);
                    lemma_key_index_found(src_keys(self.articles@), i as int);
                }
                return Some(i);
            }
            i = i + 1;
        }
        proof {
            let ks = src_keys(self.articles@);
            assert forall|k: int| 0 <= k < ks.len() implies ks[k] != src@ by {
                assert(self.articles@[k].src_file_name@ != src@);
            }
        }
        None
    }

    /// Index of the record with identity `id`.
    pub fn find_id(&self, id: u64) -> (r: Option<usize>)
        requires
            self.wf(),
        ensures
            match r {
                Some(i) => i < self.articles@.len() && self.articles@[i as int].id == id
                    && id_index(self.articles@, id) == Some(i as int),
                None => id_index(self.articles@, id) == None::<int> && !has_id(self.articles@, id),
            },
    {
        let mut i: usize = 0;
        while i < self.articles.len()
            invariant
                self.wf(),
                0 <= i <= self.articles@.len(),
                forall|k: int| 0 <= k < i ==> (#[trigger] self.articles@[k]).id != id,
            decreases self.articles@.len() - i,
        {
            if self.articles[i].id == id {
                proof {
                    let c = choose|c: int|
                        0 <= c < self.articles@.len() && (#[trigger] self.articles@[c]).id == id;
                    assert(c == i);
                }
                return Some(i);
            }
            i = i + 1;
        }
        None
    }

    /// Index of the tag row named `name`.
    pub fn find_tag(&self, name: &String) -> (r: Option<usize>)
        requires
            self.wf(),
        ensures
            match r {
                Some(t) => t < self.tags@.len() && self.tags@[t as int].name@ == name@,
                None => !tag_names(self.tags@).contains(name@),
            },
    {
        let mut t: usize = 0;
        while t < self.tags.len()
            invariant
                0 <= t <= self.tags@.len(),
                forall|k: int| 0 <= k < t ==> (#[trigger] self.tags@[k]).name@ != name@,
            decreases self.tags@.len() - t,
        {
            if self.tags[t].name == *name {
                return Some(t);
            }
            t = t + 1;
        }
        None
    }
}

proof fn lemma_names_step(v: Seq<String>, j: int)
    requires
        0 <= j < v.len(),
    ensures
        names(v.subrange(0, j + 1)) == names(v.subrange(0, j)).insert(v[j]@),
{
    let a = v.subrange(0, j + 1);
    let b = v.subrange(0, j);
    assert forall|n: Seq<char>| names(a).contains(n) <==> names(b).insert(v[j]@).contains(n) by {
        if names(a).contains(n) {
            let i = choose|i: int| 0 <= i < a.len() && (#[trigger] a[i])@ == n;
            if i < j {
                assert(b[i] == a[i]);
            }
        }
        if names(b).contains(n) {
            let i = choose|i: int| 0 <= i < b.len() && (#[trigger] b[i])@ == n;
            assert(a[i] == b[i]);
        }
        if n == v[j]@ {
            assert(a[j] == v[j]);
        }
    }
    assert(names(a) =~= names(b).insert(v[j]@));
}

proof fn lemma_prefix_step<T>(s: Seq<T>, i: int)
    requires
        0 <= i < s.len(),
    ensures
        forall|m: T| #[trigger]
            s.subrange(0, i + 1).contains(m) <==> s.subrange(0, i).contains(m) || m == s[i],
{
    assert forall|m: T| #[trigger]
        s.subrange(0, i + 1).contains(m) <==> s.subrange(0, i).contains(m) || m == s[i] by {
        if s.subrange(0, i + 1).contains(m) {
            let k = choose|k: int| 0 <= k < i + 1 && #[trigger] s.subrange(0, i + 1)[k] == m;
            if k < i {
                assert(s.subrange(0, i)[k] == m);
            }
        }
        if s.subrange(0, i).contains(m) {
            let k = choose|k: int| 0 <= k < i && #[trigger] s.subrange(0, i)[k] == m;
            assert(s.subrange(0, i + 1)[k] == m);
        }
        if m == s[i] {
            assert(s.subrange(0, i + 1)[i] == m);
        }
    }
}

proof fn lemma_push_contains<T>(s: Seq<T>, x: T)
    ensures
        forall|m: T| #[trigger] s.push(x).contains(m) <==> s.contains(m) || m == x,
{
    assert forall|m: T| #[trigger] s.push(x).contains(m) <==> s.contains(m) || m == x by {
        if s.push(x).contains(m) {
            let k = choose|k: int| 0 <= k < s.len() + 1 && #[trigger] s.push(x)[k] == m;
            if k < s.len() {
                assert(s[k] == m);
            }
        }
        if s.contains(m) {
            let k = choose|k: int| 0 <= k < s.len() && s[k] == m;
            assert(s.push(x)[k] == m);
        }
        if m == x {
            assert(s.push(x)[s.len() as int] == m);
        }
    }
}

/// Whether some string of `v` equals `n`.
pub fn contains_name(v: &Vec<String>, n: &String) -> (r: bool)
    ensures
        r == names(v@).contains(n@),
{
    let mut i: usize = 0;
    while i < v.len()
        invariant
            0 <= i <= v@.len(),
            forall|k: int| 0 <= k < i ==> (#[trigger] v@[k])@ != n@,
        decreases v@.len() - i,
    {
        if v[i] == *n {
            assert(v@[i as int]@ == n@);
            return true;
        }
        i = i + 1;
    }
    false
}

impl ArticleStore {
    /// Index of the tag row named `name`, created when there is none. Rows
    /// that exist are left as they are.
    fn ensure_tag(&mut self, name: &String) -> (t: usize)
        requires
            old(self).wf(),
        ensures
            final(self).wf(),
            final(self).articles == old(self).articles,
            final(self).links == old(self).links,
            final(self).next_id == old(self).next_id,
            old(self).tags@.len() <= final(self).tags@.len(),
            old(self).tags@ == final(self).tags@.subrange(0, old(self).tags@.len() as int),
            forall|k: int|
                old(self).tags@.len() <= k < final(self).tags@.len()
                    ==> (#[trigger] final(self).tags@[k]).name@ == name@,
            tag_names(final(self).tags@) == tag_names(old(self).tags@).insert(name@),
            t < final(self).tags@.len(),
            final(self).tags@[t as int].name@ == name@,
    {
        match self.find_tag(name) {
            Some(t) => {
                assert(self.tags@ == self.tags@.subrange(0, self.tags@.len() as int));
                assert(tag_names(self.tags@) =~= tag_names(self.tags@).insert(name@));
                t
            },
            None => {
                let t = self.tags.len();
                let ghost before = self.tags@;
                self.tags.push(Tag { id: t as u64, name: name.clone() });
                assert(before == self.tags@.subrange(0, before.len() as int));
                assert forall|n: Seq<char>| tag_names(self.tags@).contains(n) <==> tag_names(
                    before,
                ).insert(name@).contains(n) by {
                    if tag_names(self.tags@).contains(n) {
                        let k = choose|k: int|
                            0 <= k < self.tags@.len() && (#[trigger] self.tags@[k]).name@ == n;
                        if k < before.len() {
                            assert(before[k] == self.tags@[k]);
                        }
                    }
                    if tag_names(before).contains(n) {
                        let k = choose|k: int| 0 <= k < before.len() && (#[trigger] before[k]).name@ == n;
                        assert(self.tags@[k] == before[k]);
                    }
                    if n == name@ {
                        assert(self.tags@[t as int].name@ == n);
                    }
                }
                assert(tag_names(self.tags@) =~= tag_names(before).insert(name@));
                t
            },
        }
    }

    /// Adds the association `l` unless it is there.
    fn link(&mut self, l: ArticleTag)
        requires
            old(self).wf(),
            has_id(old(self).articles@, l.article_id),
            l.tag_id < old(self).tags@.len(),
        ensures
            final(self).wf(),
            final(self).articles == old(self).articles,
            final(self).tags == old(self).tags,
            final(self).next_id == old(self).next_id,
            forall|m: ArticleTag| #[trigger]
                final(self).links@.contains(m) <==> old(self).links@.contains(m) || m == l,
    {
        let mut i: usize = 0;
        while i < self.links.len()
            invariant
                self.wf(),
                self == old(self),
                0 <= i <= self.links@.len(),
                forall|k: int| 0 <= k < i ==> self.links@[k] != l,
            decreases self.links@.len() - i,
        {
            if self.links[i] == l {
                return;
            }
            i = i + 1;
        }
        let ghost before = self.links@;
        self.links.push(l);
        assert forall|m: ArticleTag| #[trigger] self.links@.contains(m) <==> before.contains(m) || m == l by {
            if self.links@.contains(m) {
                let k = choose|k: int| 0 <= k < self.links@.len() && self.links@[k] == m;
                if k < before.len() {
                    assert(before[k] == m);
                }
            }
            if before.contains(m) {
                let k = choose|k: int| 0 <= k < before.len() && before[k] == m;
                assert(self.links@[k] == m);
            }
            if m == l {
                assert(self.links@[before.len() as int] == l);
            }
        }
        assert forall|k: int| 0 <= k < self.links@.len() implies (#[trigger] self.links@[k]).tag_id
            < self.tags@.len() && has_id(self.articles@, self.links@[k].article_id) by {
            if k < before.len() {
                assert(self.links@[k] == before[k]);
            }
        }
    }

    /// Keeps the associations of record `id` whose tag is named in `keep`,
    /// and all associations of other records.
    fn retain_links(&mut self, id: u64, keep: &Vec<String>)
        requires
            old(self).wf(),
        ensures
            final(self).wf(),
            final(self).articles == old(self).articles,
            final(self).tags == old(self).tags,
            final(self).next_id == old(self).next_id,
            forall|m: ArticleTag| #[trigger]
                final(self).links@.contains(m) <==> old(self).links@.contains(m) && (m.article_id
                    != id || names(keep@).contains(old(self).tags@[m.tag_id as int].name@)),
    {
        let mut kept: Vec<ArticleTag> = Vec::new();
        let mut i: usize = 0;
        while i < self.links.len()
            invariant
                self.wf(),
                self == old(self),
                0 <= i <= self.links@.len(),
                kept@.no_duplicates(),
                forall|m: ArticleTag| #[trigger]
                    kept@.contains(m) <==> self.links@.subrange(0, i as int).contains(m) && (
                    m.article_id != id || names(keep@).contains(self.tags@[m.tag_id as int].name@)),
            decreases self.links@.len() - i,
        {
            let l = self.links[i];
            proof {
                lemma_prefix_step(self.links@, i as int);
            }
            assert(self.links@[i as int] == l);
            assert(l.tag_id < self.tags@.len());
            let keep_it = if l.article_id != id {
                true
            } else {
                let n = self.tags.len();
                assert(l.tag_id < n);
                let t = l.tag_id as usize;
                contains_name(keep, &self.tags[t].name)
            };
            assert(keep_it == (l.article_id != id || names(keep@).contains(
                self.tags@[l.tag_id as int].name@,
            )));
            let ghost kept_before = kept@;
            if keep_it {
                let ghost before = kept@;
                proof {
                    assert(!self.links@.subrange(0, i as int).contains(l)) by {
                        if self.links@.subrange(0, i as int).contains(l) {
                            let k = choose|k: int|
                                0 <= k < i && #[trigger] self.links@.subrange(0, i as int)[k] == l;
                            assert(self.links@[k] == self.links@[i as int]);
                        }
                    }
                    assert(!before.contains(l));
                }
                kept.push(l);
                proof {
                    lemma_push_contains(before, l);
                    assert forall|a: int, b: int|
                        0 <= a < kept@.len() && 0 <= b < kept@.len() && a != b implies kept@[a]
                        != kept@[b] by {
                        if a < before.len() && b < before.len() {
                            assert(kept@[a] == before[a] && kept@[b] == before[b]);
                        } else if a < before.len() {
                            assert(kept@[a] == before[a]);
                            assert(before.contains(kept@[a]));
                        } else if b < before.len() {
                            assert(kept@[b] == before[b]);
                            assert(before.contains(kept@[b]));
                        }
                    }
                }
            }
            proof {
                if keep_it {
                    lemma_push_contains(kept_before, l);
                }
                assert forall|m: ArticleTag| #[trigger] kept@.contains(m)
                    <==> self.links@.subrange(0, i + 1).contains(m) && (m.article_id != id || names(
                    keep@,
                ).contains(self.tags@[m.tag_id as int].name@)) by {
                    if keep_it {
                        assert(kept@ == kept_before.push(l));
                    }
                }
            }
            i = i + 1;
        }
        proof {
            assert(self.links@.subrange(0, self.links@.len() as int) == self.links@);
            assert forall|k: int| 0 <= k < kept@.len() implies (#[trigger] kept@[k]).tag_id
                < self.tags@.len() && has_id(self.articles@, kept@[k].article_id) by {
                assert(kept@.contains(kept@[k]));
                let j = choose|j: int| 0 <= j < self.links@.len() && self.links@[j] == kept@[k];
            }
        }
        self.links = kept;
    }
}

/// The next fresh identity after `upserted`.
pub open spec fn upserted_next(arts: Seq<Article>, next_id: u64, a: ArticleWithTags) -> u64 {
    match src_index(arts, a.src_file_name@) {
        Some(_) => next_id,
        None => (next_id + 1) as u64,
    }
}

/// Identity under which `upserted` stores a record with source path `src`.
pub open spec fn upsert_id(arts: Seq<Article>, next_id: u64, src: Seq<char>) -> u64 {
    match src_index(arts, src) {
        Some(i) => arts[i].id,
        None => next_id,
    }
}

/// The snapshot taken before storing a record with source path `src`.
pub open spec fn before_snapshot(arts: Seq<Article>, src: Seq<char>) -> AllArticleNeighbours {
    match src_index(arts, src) {
        Some(i) => snapshot_of(arts, arts[i]),
        None => recent_only_of(arts),
    }
}

/// The snapshot around `x` in `arts`.
pub fn snapshot(arts: &Vec<Article>, x: &Article) -> (r: AllArticleNeighbours)
    ensures
        r == snapshot_of(arts@, *x),
{
    let most_recent_article = match most_recent_index(arts) {
        Some(j) => Some(arts[j].id),
        None => None,
    };
    let prev_next_article = find_prev_and_next_articles(arts, x, &None);
    let prev_next_article_series = match &x.series {
        Some(s) => find_prev_and_next_articles(arts, x, &Some(s.clone())),
        None => ArticleNeighbours::new(),
    };
    AllArticleNeighbours { most_recent_article, prev_next_article, prev_next_article_series }
}

/// The snapshot of `arts` when the mutated record is not in it.
pub fn recent_only(arts: &Vec<Article>) -> (r: AllArticleNeighbours)
    ensures
        r == recent_only_of(arts@),
{
    let mut r = AllArticleNeighbours::new();
    r.most_recent_article = match most_recent_index(arts) {
        Some(j) => Some(arts[j].id),
        None => None,
    };
    r
}

/// The row that stores `a` under identity `id`.
pub fn build_row(a: &ArticleWithTags, id: u64) -> (r: Article)
    ensures
        r == row_of(*a, id),
{
    Article {
        id,
        src_file_name: a.src_file_name.clone(),
        dst_file_name: a.dst_file_name.clone(),
        title: crate::article::clone_opt_string(&a.title),
        modification_date: a.modification_date,
        summary: crate::article::clone_opt_string(&a.summary),
        series: crate::article::clone_opt_string(&a.series),
        draft: a.draft,
        special_page: a.special_page,
        timeline: a.timeline,
        anchorjs: a.anchorjs,
        tocify: a.tocify,
        live_updates: a.live_updates,
    }
}

impl ArticleStore {
    /// Links record `id` to a tag row for every name in `new`, creating the
    /// rows that are missing.
    fn add_links(&mut self, id: u64, new: &Vec<String>)
        requires
            old(self).wf(),
            has_id(old(self).articles@, id),
        ensures
            final(self).wf(),
            final(self).articles == old(self).articles,
            final(self).next_id == old(self).next_id,
            old(self).tags@.len() <= final(self).tags@.len(),
            old(self).tags@ == final(self).tags@.subrange(0, old(self).tags@.len() as int),
            tag_names(final(self).tags@) == tag_names(old(self).tags@).union(names(new@)),
            forall|m: ArticleTag| #[trigger]
                final(self).links@.contains(m) <==> old(self).links@.contains(m) || (m.article_id
                    == id && m.tag_id < final(self).tags@.len() && names(new@).contains(
                    final(self).tags@[m.tag_id as int].name@,
                )),
    {
        let mut j: usize = 0;
        assert(names(new@.subrange(0, 0)) =~= Set::<Seq<char>>::empty());
        assert(tag_names(self.tags@) =~= tag_names(old(self).tags@).union(names(new@.subrange(0, 0))));
        while j < new.len()
            invariant
                self.wf(),
                has_id(self.articles@, id),
                0 <= j <= new@.len(),
                self.articles == old(self).articles,
                self.next_id == old(self).next_id,
                old(self).tags@.len() <= self.tags@.len(),
                old(self).tags@ == self.tags@.subrange(0, old(self).tags@.len() as int),
                tag_names(self.tags@) == tag_names(old(self).tags@).union(
                    names(new@.subrange(0, j as int)),
                ),
                forall|m: ArticleTag| #[trigger]
                    self.links@.contains(m) <==> old(self).links@.contains(m) || (m.article_id
                        == id && m.tag_id < self.tags@.len() && names(
                        new@.subrange(0, j as int),
                    ).contains(self.tags@[m.tag_id as int].name@)),
            decreases new@.len() - j,
        {
            let ghost tags0 = self.tags@;
            let ghost links0 = self.links@;
            let t = self.ensure_tag(&new[j]);
            let ghost tags1 = self.tags@;
            proof {
                lemma_names_step(new@, j as int);
                assert(tags0 == tags1.subrange(0, tags0.len() as int));
            }
            self.link(ArticleTag { article_id: id, tag_id: t as u64 });
            proof {
                let sub0 = new@.subrange(0, j as int);
                let sub1 = new@.subrange(0, j + 1);
                assert(old(self).tags@ == self.tags@.subrange(0, old(self).tags@.len() as int)) by {
                    assert forall|k: int| 0 <= k < old(self).tags@.len() implies old(self).tags@[k]
                        == self.tags@[k] by {
                        assert(old(self).tags@[k] == tags0[k]);
                        assert(tags0[k] == tags1.subrange(0, tags0.len() as int)[k]);
                    }
                    assert(old(self).tags@ =~= self.tags@.subrange(0, old(self).tags@.len() as int));
                }
                assert(tag_names(self.tags@) =~= tag_names(old(self).tags@).union(names(sub1)));
                assert forall|m: ArticleTag| #[trigger]
                    self.links@.contains(m) <==> old(self).links@.contains(m) || (m.article_id == id
                        && m.tag_id < self.tags@.len() && names(sub1).contains(
                        self.tags@[m.tag_id as int].name@,
                    )) by {
                    let l = ArticleTag { article_id: id, tag_id: t as u64 };
                    if links0.contains(m) {
                        if !old(self).links@.contains(m) {
                            assert(m.tag_id < tags0.len());
                            assert(tags1[m.tag_id as int] == tags1.subrange(0, tags0.len() as int)[m.tag_id as int]);
                            let n = tags0[m.tag_id as int].name@;
                            assert(names(sub0).contains(n));
                            assert(names(sub1).contains(n));
                        }
                    }
                    if m == l {
                        assert(names(sub1).contains(new@[j as int]@));
                    }
                    if !old(self).links@.contains(m) && m.article_id == id && m.tag_id
                        < self.tags@.len() && names(sub1).contains(self.tags@[m.tag_id as int].name@) {
                        let n = self.tags@[m.tag_id as int].name@;
                        if n == new@[j as int]@ {
                            assert(m.tag_id as int == t as int);
                            assert(m == l);
                        } else {
                            assert(names(sub0).contains(n));
                            if m.tag_id >= tags0.len() {
                                assert(self.tags@[m.tag_id as int].name@ == new@[j as int]@);
                            }
                            assert(m.tag_id < tags0.len());
                            assert(tags1[m.tag_id as int] == tags1.subrange(0, tags0.len() as int)[m.tag_id as int]);
                            assert(links0.contains(m));
                        }
                    }
                }
            }
            j = j + 1;
        }
        assert(new@.subrange(0, new@.len() as int) == new@);
    }

    /// Stores `a`: a record with the same source path is updated in place
    /// under its identity, with its tag associations changed by the minimal
    /// delta; otherwise `a` is inserted under a fresh identity. Returns the
    /// identities whose navigation changed (see `AllArticleNeighbours::diff`).
    pub fn set(&mut self, a: &ArticleWithTags) -> (r: Result<Vec<u64>, StoreError>)
        requires
            old(self).wf(),
        ensures
            final(self).wf(),
            (a.src_file_name@.len() == 0 || a.dst_file_name@.len() == 0) <==> r == Err::<
                Vec<u64>,
                StoreError,
            >(StoreError::EmptyIdentity),
            r == Err::<Vec<u64>, StoreError>(StoreError::Full) <==> (a.src_file_name@.len() != 0
                && a.dst_file_name@.len() != 0 && src_index(old(self).articles@, a.src_file_name@)
                is None && old(self).next_id == u64::MAX),
            r is Err ==> *final(self) == *old(self),
            r is Err ==> r == Err::<Vec<u64>, StoreError>(StoreError::EmptyIdentity) || r == Err::<
                Vec<u64>,
                StoreError,
            >(StoreError::Full),
            r is Ok ==> {
                let rid = upsert_id(old(self).articles@, old(self).next_id, a.src_file_name@);
                &&& final(self).articles@ == upserted(old(self).articles@, old(self).next_id, *a)
                &&& final(self).next_id == upserted_next(old(self).articles@, old(self).next_id, *a)
                &&& old(self).tags@.len() <= final(self).tags@.len()
                &&& old(self).tags@ == final(self).tags@.subrange(0, old(self).tags@.len() as int)
                &&& tag_names(final(self).tags@) == tag_names(old(self).tags@).union(
                    tag_list_names(a.tags),
                )
                &&& links_after_set(
                    old(self).links@,
                    final(self).links@,
                    final(self).tags@,
                    rid,
                    tag_list_names(a.tags),
                )
                &&& r.unwrap()@.no_duplicates()
                &&& r.unwrap()@.to_set() == impact_of(
                    before_snapshot(old(self).articles@, a.src_file_name@),
                    snapshot_of(final(self).articles@, row_of(*a, rid)),
                )
            },
    {
        if a.src_file_name.as_str().is_empty() || a.dst_file_name.as_str().is_empty() {
            return Err(StoreError::EmptyIdentity);
        }
        let empty: Vec<String> = Vec::new();
        let new_tags: &Vec<String> = match &a.tags {
            Some(t) => t,
            None => &empty,
        };
        assert(names(new_tags@) == tag_list_names(a.tags)) by {
            if a.tags is None {
                assert(names(new_tags@) =~= Set::<Seq<char>>::empty());
            }
        }
        match self.find_src(&a.src_file_name) {
            Some(i) => {
                let id = self.articles[i].id;
                let before = snapshot(&self.articles, &self.articles[i]);
                let row = build_row(a, id);
                let ghost arts0 = self.articles@;
                self.articles.set(i, row);
                proof {
                    assert(self.articles@ == arts0.update(i as int, row_of(*a, id)));
                    assert forall|x: u64| has_id(arts0, x) <==> has_id(self.articles@, x) by {
                        if has_id(arts0, x) {
                            let k = choose|k: int| 0 <= k < arts0.len() && (#[trigger] arts0[k]).id == x;
                            assert(self.articles@[k].id == x);
                        }
                        if has_id(self.articles@, x) {
                            let k = choose|k: int|
                                0 <= k < self.articles@.len() && (#[trigger] self.articles@[k]).id == x;
                            assert(arts0[k].id == x);
                        }
                    }
                    assert(has_id(self.articles@, id)) by {
                        assert(self.articles@[i as int].id == id);
                    }
                }
                let after = snapshot(&self.articles, &self.articles[i]);
                let ghost links0 = self.links@;
                let ghost tags0 = self.tags@;
                self.retain_links(id, new_tags);
                let ghost links1 = self.links@;
                self.add_links(id, new_tags);
                proof {
                    assert forall|m: ArticleTag| #[trigger]
                        self.links@.contains(m) <==> (links0.contains(m) && m.article_id != id) || (
                        m.article_id == id && m.tag_id < self.tags@.len() && names(new_tags@).contains(
                            self.tags@[m.tag_id as int].name@,
                        )) by {
                        if links0.contains(m) {
                            let k = choose|k: int| 0 <= k < links0.len() && links0[k] == m;
                            assert(links0[k].tag_id < tags0.len());
                            assert(tags0[m.tag_id as int] == self.tags@.subrange(0, tags0.len() as int)[m.tag_id as int]);
                        }
                    }
                }
                Ok(before.diff(&after))
            },
            None => {
                if self.next_id == u64::MAX {
                    return Err(StoreError::Full);
                }
                let before = recent_only(&self.articles);
                let id = self.next_id;
                let row = build_row(a, id);
                let ghost arts0 = self.articles@;
                self.articles.push(row);
                self.next_id = self.next_id + 1;
                proof {
                    assert forall|k: int| 0 <= k < arts0.len() implies arts0[k].src_file_name@
                        != a.src_file_name@ by {
                        if arts0[k].src_file_name@ == a.src_file_name@ {
                            assert(src_keys(arts0)[k] == a.src_file_name@);
                            assert(src_index(arts0, a.src_file_name@) is Some);
                        }
                    }
                    assert forall|x: u64| has_id(arts0, x) implies has_id(self.articles@, x) by {
                        let k = choose|k: int| 0 <= k < arts0.len() && (#[trigger] arts0[k]).id == x;
                        assert(self.articles@[k].id == x);
                    }
                    assert(self.articles@[arts0.len() as int].id == id);
                    assert(has_id(self.articles@, id));
                    assert forall|k: int| 0 <= k < self.links@.len() implies (#[trigger] self.links@[k]).article_id != id by {
                        let kk = choose|kk: int| 0 <= kk < arts0.len() && (#[trigger] arts0[kk]).id == self.links@[k].article_id;
                    }
                }
                let last = self.articles.len() - 1;
                let after = snapshot(&self.articles, &self.articles[last]);
                let ghost links0 = self.links@;
                self.add_links(id, new_tags);
                proof {
                    assert forall|m: ArticleTag| #[trigger]
                        self.links@.contains(m) <==> (links0.contains(m) && m.article_id != id) || (
                        m.article_id == id && m.tag_id < self.tags@.len() && names(new_tags@).contains(
                            self.tags@[m.tag_id as int].name@,
                        )) by {
                        if links0.contains(m) {
                            let k = choose|k: int| 0 <= k < links0.len() && links0[k] == m;
                            assert(links0[k].article_id != id);
                        }
                    }
                }
                Ok(before.diff(&after))
            },
        }
    }
}

/// Drops `id` from a list of distinct identities.
pub fn remove_id(v: &mut Vec<u64>, id: u64)
    requires
        old(v)@.no_duplicates(),
    ensures
        final(v)@.no_duplicates(),
        final(v)@.to_set() == old(v)@.to_set().remove(id),
{
    let mut i: usize = 0;
    while i < v.len()
        invariant
            0 <= i <= v@.len(),
            v@ == old(v)@,
            v@.no_duplicates(),
            forall|k: int| 0 <= k < i ==> v@[k] != id,
        decreases v@.len() - i,
    {
        if v[i] == id {
            let ghost before = v@;
            v.remove(i);
            proof {
                assert forall|a: u64| #[trigger] v@.contains(a) <==> before.contains(a) && a != id by {
                    if v@.contains(a) {
                        let k = choose|k: int| 0 <= k < v@.len() && v@[k] == a;
                        if k < i {
                            assert(before[k] == a);
                        } else {
                            assert(before[k + 1] == a);
                        }
                    }
                    if before.contains(a) && a != id {
                        let k = choose|k: int| 0 <= k < before.len() && before[k] == a;
                        if k < i {
                            assert(v@[k] == a);
                        } else {
                            assert(k != i);
                            assert(v@[k - 1] == a);
                        }
                    }
                }
                assert(v@.to_set() =~= before.to_set().remove(id));
                assert forall|a: int, b: int|
                    0 <= a < v@.len() && 0 <= b < v@.len() && a != b implies v@[a] != v@[b] by {
                    let a2 = if a < i { a } else { a + 1 };
                    let b2 = if b < i { b } else { b + 1 };
                    assert(v@[a] == before[a2] && v@[b] == before[b2]);
                }
            }
            return;
        }
        i = i + 1;
    }
    assert(v@.to_set() =~= old(v)@.to_set().remove(id));
}

impl ArticleStore {
    /// Removes record `id` and its tag associations. Returns the identities
    /// whose navigation changed, without `id` itself.
    pub fn del_by_id(&mut self, id: u64) -> (r: Result<Vec<u64>, StoreError>)
        requires
            old(self).wf(),
        ensures
            final(self).wf(),
            !has_id(old(self).articles@, id) <==> r == Err::<Vec<u64>, StoreError>(
                StoreError::NotFound,
            ),
            r is Err ==> *final(self) == *old(self),
            has_id(old(self).articles@, id) ==> r is Ok,
            r is Ok ==> {
                let i = id_index(old(self).articles@, id).unwrap();
                &&& final(self).articles@ == old(self).articles@.remove(i)
                &&& final(self).tags == old(self).tags
                &&& final(self).next_id == old(self).next_id
                &&& forall|m: ArticleTag| #[trigger]
                    final(self).links@.contains(m) <==> old(self).links@.contains(m) && m.article_id
                        != id
                &&& r.unwrap()@.no_duplicates()
                &&& r.unwrap()@.to_set() == impact_of(
                    snapshot_of(old(self).articles@, old(self).articles@[i]),
                    recent_only_of(final(self).articles@),
                ).remove(id)
            },
    {
        match self.find_id(id) {
            None => Err(StoreError::NotFound),
            Some(i) => {
                let before = snapshot(&self.articles, &self.articles[i]);
                let none: Vec<String> = Vec::new();
                assert(names(none@) =~= Set::<Seq<char>>::empty());
                self.retain_links(id, &none);
                let ghost arts0 = self.articles@;
                self.articles.remove(i);
                proof {
                    assert forall|x: u64| x != id && has_id(arts0, x) implies has_id(self.articles@, x) by {
                        let k = choose|k: int| 0 <= k < arts0.len() && (#[trigger] arts0[k]).id == x;
                        if k < i {
                            assert(self.articles@[k].id == x);
                        } else {
                            assert(k != i);
                            assert(self.articles@[k - 1].id == x);
                        }
                    }
                    assert forall|k: int| 0 <= k < self.links@.len() implies (#[trigger] self.links@[k]).article_id != id by {
                        assert(self.links@.contains(self.links@[k]));
                    }
                    assert forall|a: int, b: int|
                        0 <= a < self.articles@.len() && 0 <= b < self.articles@.len() && a != b
                        implies (#[trigger] self.articles@[a]).id != (#[trigger] self.articles@[b]).id
                        && self.articles@[a].src_file_name@ != self.articles@[b].src_file_name@ by {
                        let a2 = if a < i { a } else { a + 1 };
                        let b2 = if b < i { b } else { b + 1 };
                        assert(self.articles@[a] == arts0[a2] && self.articles@[b] == arts0[b2]);
                    }
                }
                let after = recent_only(&self.articles);
                let mut affected = before.diff(&after);
                remove_id(&mut affected, id);
                Ok(affected)
            },
        }
    }

    /// Removes the record whose source path is `src`; see `del_by_id`.
    pub fn del_by_src_file_name(&mut self, src: &String) -> (r: Result<Vec<u64>, StoreError>)
        requires
            old(self).wf(),
        ensures
            final(self).wf(),
            src_index(old(self).articles@, src@) is None <==> r == Err::<Vec<u64>, StoreError>(
                StoreError::NotFound,
            ),
            r is Err ==> *final(self) == *old(self),
            src_index(old(self).articles@, src@) is Some ==> r is Ok,
            r is Ok ==> {
                let i = src_index(old(self).articles@, src@).unwrap();
                let id = old(self).articles@[i].id;
                &&& final(self).articles@ == old(self).articles@.remove(i)
                &&& final(self).tags == old(self).tags
                &&& forall|m: ArticleTag| #[trigger]
                    final(self).links@.contains(m) <==> old(self).links@.contains(m) && m.article_id
                        != id
                &&& r.unwrap()@.no_duplicates()
                &&& r.unwrap()@.to_set() == impact_of(
                    snapshot_of(old(self).articles@, old(self).articles@[i]),
                    recent_only_of(final(self).articles@),
                ).remove(id)
            },
    {
        match self.find_src(src) {
            None => Err(StoreError::NotFound),
            Some(i) => {
                let id = self.articles[i].id;
                proof {
                    assert(has_id(self.articles@, id));
                    let c = choose|c: int| 0 <= c < self.articles@.len() && (#[trigger] self.articles@[c]).id == id;
                    assert(c == i);
                }
                self.del_by_id(id)
            },
        }
    }
}

/// `x` presents the stored row `a`.
pub open spec fn shows(x: ArticleWithTags, a: Article) -> bool {
    x.id == Some(a.id) && row_of(x, a.id) == a
}

impl ArticleStore {
    /// `x` presents the stored row `a` together with all its tags.
    pub open spec fn presents(&self, x: ArticleWithTags, a: Article) -> bool {
        shows(x, a) && x.tags is Some && tag_list_names(x.tags) == self.tags_of(a.id)
    }

    /// Names of the tags linked to record `id`.
    pub fn get_tags_for_article(&self, id: u64) -> (r: Vec<String>)
        requires
            self.wf(),
        ensures
            names(r@) == self.tags_of(id),
    {
        let mut r: Vec<String> = Vec::new();
        let mut i: usize = 0;
        assert(names(r@) =~= linked_names(self.links@.subrange(0, 0), self.tags@, id));
        while i < self.links.len()
            invariant
                self.wf(),
                0 <= i <= self.links@.len(),
                names(r@) == linked_names(self.links@.subrange(0, i as int), self.tags@, id),
            decreases self.links@.len() - i,
        {
            let l = self.links[i];
            let ghost r0 = r@;
            let ghost pre = self.links@.subrange(0, i as int);
            let ghost pre1 = self.links@.subrange(0, i + 1);
            assert(self.links@[i as int] == l);
            assert(l.tag_id < self.tags@.len());
            if l.article_id == id {
                let n = self.tags.len();
                assert(l.tag_id < n);
                r.push(self.tags[l.tag_id as usize].name.clone());
            }
            proof {
                assert forall|nm: Seq<char>| names(r@).contains(nm) <==> linked_names(pre1, self.tags@, id).contains(nm) by {
                    if names(r@).contains(nm) {
                        let k = choose|k: int| 0 <= k < r@.len() && (#[trigger] r@[k])@ == nm;
                        if k < r0.len() {
                            assert(r0[k] == r@[k]);
                            assert(names(r0).contains(nm));
                            let q = choose|q: int| 0 <= q < pre.len() && (#[trigger] pre[q]).article_id == id && pre[q].tag_id < self.tags@.len() && self.tags@[pre[q].tag_id as int].name@ == nm;
                            assert(pre1[q] == pre[q]);
                        } else {
                            assert(pre1[i as int] == l);
                        }
                    }
                    if linked_names(pre1, self.tags@, id).contains(nm) {
                        let q = choose|q: int| 0 <= q < pre1.len() && (#[trigger] pre1[q]).article_id == id && pre1[q].tag_id < self.tags@.len() && self.tags@[pre1[q].tag_id as int].name@ == nm;
                        if q < i {
                            assert(pre[q] == pre1[q]);
                            assert(linked_names(pre, self.tags@, id).contains(nm));
                            let k = choose|k: int| 0 <= k < r0.len() && (#[trigger] r0[k])@ == nm;
                            assert(r@[k] == r0[k]);
                        } else {
                            assert(r@[r0.len() as int]@ == nm);
                        }
                    }
                }
                assert(names(r@) =~= linked_names(pre1, self.tags@, id));
            }
            i = i + 1;
        }
        assert(self.links@.subrange(0, self.links@.len() as int) == self.links@);
        r
    }

    /// The row at index `k` together with its tags.
    pub fn article_with_tags_at(&self, k: usize) -> (r: ArticleWithTags)
        requires
            self.wf(),
            k < self.articles@.len(),
        ensures
            self.presents(r, self.articles@[k as int]),
    {
        let tags = self.get_tags_for_article(self.articles[k].id);
        self.articles[k].with_tags(Some(tags))
    }

    /// The record with identity `id`, with its tags.
    pub fn get_article_with_tags_by_id(&self, id: u64) -> (r: Option<ArticleWithTags>)
        requires
            self.wf(),
        ensures
            r is None <==> !has_id(self.articles@, id),
            r is Some ==> self.presents(r.unwrap(), self.articles@[id_index(self.articles@, id).unwrap()]),
    {
        match self.find_id(id) {
            Some(k) => Some(self.article_with_tags_at(k)),
            None => None,
        }
    }

    /// The record whose source path is `src`, with its tags.
    pub fn get_article_with_tags_by_src_file_name(&self, src: &String) -> (r: Option<ArticleWithTags>)
        requires
            self.wf(),
        ensures
            r is None <==> src_index(self.articles@, src@) is None,
            r is Some ==> self.presents(r.unwrap(), self.articles@[src_index(self.articles@, src@).unwrap()]),
    {
        match self.find_src(src) {
            Some(k) => Some(self.article_with_tags_at(k)),
            None => None,
        }
    }

    /// The most recent visible record, with its tags.
    pub fn get_most_recent_article(&self) -> (r: Option<ArticleWithTags>)
        requires
            self.wf(),
        ensures
            r is None <==> most_recent_of(self.articles@) is None,
            r is Some ==> r.unwrap().id == most_recent_of(self.articles@) && exists|k: int|
                is_most_recent_at(self.articles@, k) && self.presents(r.unwrap(), #[trigger] self.articles@[k]),
    {
        match most_recent_index(&self.articles) {
            Some(k) => {
                let r = self.article_with_tags_at(k);
                assert(self.presents(r, self.articles@[k as int]));
                Some(r)
            },
            None => None,
        }
    }

    /// Every record, oldest first (records without a timestamp last), with
    /// its tags.
    pub fn get_all_articles(&self) -> (r: Vec<ArticleWithTags>)
        requires
            self.wf(),
        ensures
            self.is_listing(r@, None, None, Scope::All),
    {
        self.view_records(&None, &None, Scope::All)
    }

    /// The names of all tag rows.
    pub fn get_all_tags(&self) -> (r: Vec<String>)
        requires
            self.wf(),
        ensures
            r@.len() == self.tags@.len(),
            forall|t: int| 0 <= t < r@.len() ==> #[trigger] r@[t] == self.tags@[t].name,
    {
        let mut r: Vec<String> = Vec::new();
        let mut t: usize = 0;
        while t < self.tags.len()
            invariant
                0 <= t <= self.tags@.len(),
                r@.len() == t,
                forall|j: int| 0 <= j < t ==> #[trigger] r@[j] == self.tags@[j].name,
            decreases self.tags@.len() - t,
        {
            r.push(self.tags[t].name.clone());
            t = t + 1;
        }
        r
    }

    /// The global neighbours of record `id`; none when no record has that
    /// identity.
    pub fn get_prev_and_next_article(&self, id: u64) -> (r: Result<ArticleNeighbours, StoreError>)
        requires
            self.wf(),
        ensures
            r is Ok,
            has_id(self.articles@, id) ==> r.unwrap() == crate::neighbours::neighbours_of(
                self.articles@,
                None,
                self.articles@[id_index(self.articles@, id).unwrap()],
            ),
            !has_id(self.articles@, id) ==> r.unwrap() == (ArticleNeighbours { prev: None, next: None }),
    {
        match self.find_id(id) {
            Some(k) => Ok(find_prev_and_next_articles(&self.articles, &self.articles[k], &None)),
            None => Ok(ArticleNeighbours::new()),
        }
    }

    /// The neighbours of record `id` among the visible records of its series;
    /// none when it has no series or no record has that identity.
    pub fn get_prev_and_next_article_for_series(&self, id: u64) -> (r: Result<ArticleNeighbours, StoreError>)
        requires
            self.wf(),
        ensures
            r is Ok,
            has_id(self.articles@, id) ==> r.unwrap() == crate::neighbours::series_neighbours_of(
                self.articles@,
                self.articles@[id_index(self.articles@, id).unwrap()],
            ),
            !has_id(self.articles@, id) ==> r.unwrap() == (ArticleNeighbours { prev: None, next: None }),
    {
        match self.find_id(id) {
            Some(k) => {
                let x = &self.articles[k];
                match &x.series {
                    Some(s) => Ok(find_prev_and_next_articles(&self.articles, x, &Some(s.clone()))),
                    None => Ok(ArticleNeighbours::new()),
                }
            },
            None => Ok(ArticleNeighbours::new()),
        }
    }
}

/// The row that `x` presents.
pub open spec fn row_at(x: ArticleWithTags) -> Article {
    row_of(
        x,
        match x.id {
            Some(i) => i,
            None => 0,
        },
    )
}

/// Which records a listing query takes.
#[derive(Debug, Clone, Copy, PartialEq, Eq, Structural)]
pub enum Scope {
    /// An ordering view (all visible records, or one series), or the
    /// records of one tag that are not drafts.
    Listing,
    /// The drafts.
    Drafts,
    /// The special pages.
    SpecialPages,
    /// Every record.
    All,
    /// The records that are not drafts and belong to a series.
    WithSeries,
}

/// Listings are oldest first, records without a timestamp last, except the
/// ordering views, which are newest first.
pub open spec fn ascending(scope: Scope) -> bool {
    scope != Scope::Listing
}

impl ArticleStore {
    /// Row `a` is listed by a query of scope `scope`; for `Scope::Listing`,
    /// with a `tag`, every record that is not a draft and carries that tag,
    /// otherwise the view `key`.
    pub open spec fn selected(
        &self,
        a: Article,
        key: Option<Seq<char>>,
        tag: Option<Seq<char>>,
        scope: Scope,
    ) -> bool {
        match scope {
            Scope::Drafts => a.draft == Some(true),
            Scope::SpecialPages => a.special_page == Some(true),
            Scope::All => true,
            Scope::WithSeries => a.draft != Some(true) && a.series is Some,
            Scope::Listing => match tag {
                Some(t) => a.draft != Some(true) && self.tags_of(a.id).contains(t),
                None => in_view(a, key),
            },
        }
    }

    /// Indices of the selected rows (see `selected`), in the order of the
    /// scope (see `ascending`).
    pub fn ordered_view(&self, key: &Option<String>, tag: &Option<String>, scope: Scope) -> (r: Vec<usize>)
        requires
            self.wf(),
        ensures
            forall|p: int|
                0 <= p < r@.len() ==> r@[p] < self.articles@.len() && self.selected(
                    self.articles@[#[trigger] r@[p] as int],
                    series_key(*key),
                    series_key(*tag),
                    scope,
                ),
            forall|k: int|
                0 <= k < self.articles@.len() && self.selected(
                    #[trigger] self.articles@[k],
                    series_key(*key),
                    series_key(*tag),
                    scope,
                ) ==> r@.contains(k as usize),
            forall|p: int, q: int|
                0 <= p < q < r@.len() ==> precedes(
                    self.articles@[#[trigger] r@[p] as int],
                    self.articles@[#[trigger] r@[q] as int],
                    ascending(scope),
                ),
    {
        let ghost kk = series_key(*key);
        let ghost tt = series_key(*tag);
        let asc = match scope {
            Scope::Listing => false,
            _ => true,
        };
        let mut r: Vec<usize> = Vec::new();
        let mut k: usize = 0;
        while k < self.articles.len()
            invariant
                self.wf(),
                kk == series_key(*key),
                tt == series_key(*tag),
                asc == ascending(scope),
                0 <= k <= self.articles@.len(),
                forall|p: int|
                    0 <= p < r@.len() ==> r@[p] < k && self.selected(
                        self.articles@[#[trigger] r@[p] as int],
                        kk,
                        tt,
                        scope,
                    ),
                forall|j: int|
                    0 <= j < k && self.selected(#[trigger] self.articles@[j], kk, tt, scope) ==> r@.contains(
                        j as usize,
                    ),
                forall|p: int, q: int|
                    0 <= p < q < r@.len() ==> precedes(
                        self.articles@[#[trigger] r@[p] as int],
                        self.articles@[#[trigger] r@[q] as int],
                        asc,
                    ),
            decreases self.articles@.len() - k,
        {
            let a = &self.articles[k];
            let sel = match scope {
                Scope::Drafts => a.draft == Some(true),
                Scope::SpecialPages => a.special_page == Some(true),
                Scope::All => true,
                Scope::WithSeries => a.draft != Some(true) && a.series.is_some(),
                Scope::Listing => match tag {
                    Some(t) => if a.draft != Some(true) {
                        let names_k = self.get_tags_for_article(a.id);
                        contains_name(&names_k, t)
                    } else {
                        false
                    },
                    None => in_view_exec(a, key),
                },
            };
            if sel {
                let mut p: usize = 0;
                let mut stop = false;
                while !stop && p < r.len()
                    invariant
                        self.wf(),
                        0 <= p <= r@.len(),
                        stop ==> p < r@.len() && precedes(
                            self.articles@[k as int],
                            self.articles@[r@[p as int] as int], asc,
                        ),
                        k < self.articles@.len(),
                        forall|q: int| 0 <= q < r@.len() ==> #[trigger] r@[q] < k,
                        forall|q: int|
                            0 <= q < p ==> !precedes(
                                self.articles@[k as int],
                                self.articles@[#[trigger] r@[q] as int], asc,
                            ),
                    decreases r@.len() - p + (if stop { 0int } else { 1int }),
                {
                    if precedes_exec(&self.articles[k], &self.articles[r[p]], asc) {
                        stop = true;
                    } else {
                        p = p + 1;
                    }
                }
                let ghost r0 = r@;
                r.insert(p, k);
                proof {
                    assert(r@ == r0.insert(p as int, k));
                    assert forall|q: int| 0 <= q < p implies precedes(
                        self.articles@[r0[q] as int],
                        self.articles@[k as int], asc,
                    ) by {
                        let x = self.articles@[r0[q] as int];
                        let y = self.articles@[k as int];
                        assert(r0[q] < k);
                        if !precedes(x, y, asc) {
                            lemma_precedes_total(x, y, asc);
                        }
                    }
                    assert forall|q: int| p <= q < r0.len() implies precedes(
                        self.articles@[k as int],
                        self.articles@[r0[q] as int], asc,
                    ) by {
                        if q > p {
                            lemma_precedes_transitive(
                                self.articles@[k as int],
                                self.articles@[r0[p as int] as int],
                                self.articles@[r0[q] as int],
                                asc,
                            );
                        }
                    }
                    assert forall|a: int, b: int| 0 <= a < b < r@.len() implies precedes(
                        self.articles@[#[trigger] r@[a] as int],
                        self.articles@[#[trigger] r@[b] as int], asc,
                    ) by {
                        if a < p && b < p {
                            assert(r@[a] == r0[a] && r@[b] == r0[b]);
                        } else if a < p && b == p {
                        } else if a < p {
                            assert(r@[a] == r0[a] && r@[b] == r0[b - 1]);
                            lemma_precedes_transitive(
                                self.articles@[r0[a] as int],
                                self.articles@[k as int],
                                self.articles@[r0[b - 1] as int],
                                asc,
                            );
                        } else if a == p {
                            assert(r@[b] == r0[b - 1]);
                        } else {
                            assert(r@[a] == r0[a - 1] && r@[b] == r0[b - 1]);
                        }
                    }
                    assert forall|q: int| 0 <= q < r@.len() implies #[trigger] r@[q] < k + 1
                        && self.selected(self.articles@[r@[q] as int], kk, tt, scope) by {
                        if q < p {
                            assert(r@[q] == r0[q]);
                        } else if q > p {
                            assert(r@[q] == r0[q - 1]);
                        }
                    }
                    assert forall|j: int| 0 <= j < k + 1 && self.selected(
                        #[trigger] self.articles@[j],
                        kk,
                        tt,
                        scope,
                    ) implies r@.contains(j as usize) by {
                        if j < k {
                            assert(r0.contains(j as usize));
                            let q = choose|q: int| 0 <= q < r0.len() && r0[q] == j as usize;
                            if q < p {
                                assert(r@[q] == r0[q]);
                            } else {
                                assert(r@[q + 1] == r0[q]);
                            }
                        } else {
                            assert(r@[p as int] == k);
                        }
                    }
                }
            }
            k = k + 1;
        }
        r
    }

    /// The selected records (see `selected`), newest first, with their tags.
    fn view_records(&self, key: &Option<String>, tag: &Option<String>, scope: Scope) -> (r: Vec<ArticleWithTags>)
        requires
            self.wf(),
        ensures
            self.is_listing(r@, series_key(*key), series_key(*tag), scope),
    {
        let order = self.ordered_view(key, tag, scope);
        let n = self.articles.len();
        let mut r: Vec<ArticleWithTags> = Vec::new();
        let mut i: usize = 0;
        while i < order.len()
            invariant
                self.wf(),
                n == self.articles@.len(),
                0 <= i <= order@.len(),
                r@.len() == i,
                forall|p: int|
                    0 <= p < order@.len() ==> order@[p] < self.articles@.len() && self.selected(
                        self.articles@[#[trigger] order@[p] as int],
                        series_key(*key),
                        series_key(*tag),
                        scope,
                    ),
                forall|p: int| 0 <= p < i ==> self.presents(#[trigger] r@[p], self.articles@[order@[p] as int]),
            decreases order@.len() - i,
        {
            r.push(self.article_with_tags_at(order[i]));
            i = i + 1;
        }
        proof {
            assert forall|p: int| 0 <= p < r@.len() implies self.listed(
                #[trigger] r@[p],
                series_key(*key),
                series_key(*tag),
                scope,
            ) by {
                let k = order@[p] as int;
                assert(self.presents(r@[p], self.articles@[k]));
                assert(self.selected(self.articles@[k], series_key(*key), series_key(*tag), scope));
            }
            assert forall|k: int|
                0 <= k < self.articles@.len() && self.selected(
                    #[trigger] self.articles@[k],
                    series_key(*key),
                    series_key(*tag),
                    scope,
                ) implies includes(r@, self.articles@[k].id) by {
                assert(order@.contains(k as usize));
                let p = choose|p: int| 0 <= p < order@.len() && order@[p] == k as usize;
                assert(self.presents(r@[p], self.articles@[order@[p] as int]));
                assert(r@[p].id == Some(self.articles@[k].id));
            }
            assert forall|p: int, q: int| 0 <= p < q < r@.len() implies precedes(
                row_at(#[trigger] r@[p]),
                row_at(#[trigger] r@[q]), ascending(scope),
            ) by {
                assert(self.presents(r@[p], self.articles@[order@[p] as int]));
                assert(self.presents(r@[q], self.articles@[order@[q] as int]));
                assert(precedes(self.articles@[order@[p] as int], self.articles@[order@[q] as int], ascending(scope)));
            }
        }
        r
    }

    /// The visible records, newest first, records without a timestamp last,
    /// with their tags.
    pub fn get_visible_articles(&self) -> (r: Vec<ArticleWithTags>)
        requires
            self.wf(),
        ensures
            self.is_listing(r@, None, None, Scope::Listing),
    {
        self.view_records(&None, &None, Scope::Listing)
    }

    /// The draft records, oldest first (records without a timestamp last),
    /// with their tags.
    pub fn get_drafts(&self) -> (r: Vec<ArticleWithTags>)
        requires
            self.wf(),
        ensures
            self.is_listing(r@, None, None, Scope::Drafts),
    {
        self.view_records(&None, &None, Scope::Drafts)
    }

    /// The special pages, oldest first (records without a timestamp last),
    /// with their tags.
    pub fn get_special_pages(&self) -> (r: Vec<ArticleWithTags>)
        requires
            self.wf(),
        ensures
            self.is_listing(r@, None, None, Scope::SpecialPages),
    {
        self.view_records(&None, &None, Scope::SpecialPages)
    }

    /// The visible records of series `series`, newest first, with their tags.
    pub fn get_visible_articles_by_series(&self, series: &String) -> (r: Vec<ArticleWithTags>)
        requires
            self.wf(),
        ensures
            self.is_listing(r@, Some(series@), None, Scope::Listing),
    {
        self.view_records(&Some(series.clone()), &None, Scope::Listing)
    }

    /// The records tagged `tag` that are not drafts, newest first, with
    /// their tags.
    pub fn get_visible_articles_by_tag(&self, tag: &String) -> (r: Vec<ArticleWithTags>)
        requires
            self.wf(),
        ensures
            self.is_listing(r@, None, Some(tag@), Scope::Listing),
    {
        self.view_records(&None, &Some(tag.clone()), Scope::Listing)
    }

    /// `x` presents, with its tags, a row selected by `key` and `tag`.
    pub open spec fn listed(&self, x: ArticleWithTags, key: Option<Seq<char>>, tag: Option<Seq<char>>, scope: Scope) -> bool {
        exists|k: int|
            0 <= k < self.articles@.len() && self.selected(#[trigger] self.articles@[k], key, tag, scope)
                && self.presents(x, self.articles@[k])
    }

    /// `out` lists exactly the rows selected by `key` and `tag`, each with
    /// its tags, newest first.
    pub open spec fn is_listing(&self, out: Seq<ArticleWithTags>, key: Option<Seq<char>>, tag: Option<Seq<char>>, scope: Scope) -> bool {
        &&& forall|p: int| 0 <= p < out.len() ==> self.listed(#[trigger] out[p], key, tag, scope)
        &&& forall|k: int|
            0 <= k < self.articles@.len() && self.selected(#[trigger] self.articles@[k], key, tag, scope)
                ==> includes(out, self.articles@[k].id)
        &&& forall|p: int, q: int|
            0 <= p < q < out.len() ==> precedes(row_at(#[trigger] out[p]), row_at(#[trigger] out[q]), ascending(scope))
    }
}

/// Some record of `out` has identity `id`.
pub open spec fn includes(out: Seq<ArticleWithTags>, id: u64) -> bool {
    exists|p: int| 0 <= p < out.len() && (#[trigger] out[p]).id == Some(id)
}

/// The associations after record `rid` was stored with the tag names
/// `names`: those of other records are as before, and `rid` is linked to
/// exactly the tag rows that carry one of `names`.
pub open spec fn links_after_set(
    old_links: Seq<ArticleTag>,
    new_links: Seq<ArticleTag>,
    new_tags: Seq<Tag>,
    rid: u64,
    names: Set<Seq<char>>,
) -> bool {
    forall|m: ArticleTag| #[trigger]
        new_links.contains(m) <==> (old_links.contains(m) && m.article_id != rid) || (m.article_id
            == rid && m.tag_id < new_tags.len() && names.contains(new_tags[m.tag_id as int].name@))
}

/// Changing the tags of a record from {a, b} to {b, c} removes only the
/// association with a and adds only one with c; the association with b, and
/// the tag row behind it, stay as they were.
pub proof fn lemma_tag_delta_minimal(
    old_links: Seq<ArticleTag>,
    new_links: Seq<ArticleTag>,
    old_tags: Seq<Tag>,
    new_tags: Seq<Tag>,
    rid: u64,
    ta: Seq<char>,
    tb: Seq<char>,
    tc: Seq<char>,
)
    requires
        ta != tb && tb != tc && ta != tc,
        tags_wf(new_tags),
        old_tags.len() <= new_tags.len(),
        old_tags == new_tags.subrange(0, old_tags.len() as int),
        forall|k: int| 0 <= k < old_links.len() ==> (#[trigger] old_links[k]).tag_id < old_tags.len(),
        linked_names(old_links, old_tags, rid) == set![ta, tb],
        tag_names(new_tags).contains(tc),
        links_after_set(old_links, new_links, new_tags, rid, set![tb, tc]),
    ensures
        forall|l: ArticleTag|
            old_links.contains(l) && l.article_id == rid && old_tags[l.tag_id as int].name@ == tb
                ==> #[trigger] new_links.contains(l) && new_tags[l.tag_id as int] == old_tags[l.tag_id as int],
        forall|l: ArticleTag|
            old_links.contains(l) && l.article_id == rid && old_tags[l.tag_id as int].name@ == ta
                ==> !#[trigger] new_links.contains(l),
        forall|l: ArticleTag|
            #[trigger] old_links.contains(l) && !new_links.contains(l) ==> l.article_id == rid
                && old_tags[l.tag_id as int].name@ == ta,
        forall|l: ArticleTag|
            #[trigger] new_links.contains(l) && !old_links.contains(l) ==> l.article_id == rid
                && new_tags[l.tag_id as int].name@ == tc,
        linked_names(new_links, new_tags, rid) == set![tb, tc],
{
    let n0 = old_tags.len() as int;
    assert forall|t: int| 0 <= t < n0 implies #[trigger] new_tags[t] == old_tags[t] by {
        assert(old_tags[t] == new_tags.subrange(0, n0)[t]);
    }
    assert forall|l: ArticleTag| #[trigger] old_links.contains(l) implies l.tag_id < n0 by {
        let k = choose|k: int| 0 <= k < old_links.len() && old_links[k] == l;
    }
    assert forall|l: ArticleTag| #[trigger] old_links.contains(l) && l.article_id == rid implies (
    old_tags[l.tag_id as int].name@ == ta || old_tags[l.tag_id as int].name@ == tb) by {
        let k = choose|k: int| 0 <= k < old_links.len() && old_links[k] == l;
        assert(linked_names(old_links, old_tags, rid).contains(old_tags[l.tag_id as int].name@));
    }
    assert forall|l: ArticleTag|
        #[trigger] new_links.contains(l) && !old_links.contains(l) implies l.article_id == rid
            && new_tags[l.tag_id as int].name@ == tc by {
        if new_tags[l.tag_id as int].name@ == tb {
            assert(linked_names(old_links, old_tags, rid).contains(tb));
            let k = choose|k: int|
                0 <= k < old_links.len() && (#[trigger] old_links[k]).article_id == rid
                    && old_links[k].tag_id < old_tags.len() && old_tags[old_links[k].tag_id as int].name@ == tb;
            let l2 = old_links[k];
            assert(old_links.contains(l2));
            assert(new_tags[l2.tag_id as int] == old_tags[l2.tag_id as int]);
            assert(l2.tag_id == l.tag_id);
            assert(l2 == l);
        }
    }
    let target = set![tb, tc];
    assert forall|nm: Seq<char>| linked_names(new_links, new_tags, rid).contains(nm) <==> #[trigger] target.contains(nm) by {
        if linked_names(new_links, new_tags, rid).contains(nm) {
            let k = choose|k: int|
                0 <= k < new_links.len() && (#[trigger] new_links[k]).article_id == rid
                    && new_links[k].tag_id < new_tags.len() && new_tags[new_links[k].tag_id as int].name@ == nm;
            assert(new_links.contains(new_links[k]));
        }
        if nm == tb {
            assert(linked_names(old_links, old_tags, rid).contains(tb));
            let k = choose|k: int|
                0 <= k < old_links.len() && (#[trigger] old_links[k]).article_id == rid
                    && old_links[k].tag_id < old_tags.len() && old_tags[old_links[k].tag_id as int].name@ == tb;
            let l2 = old_links[k];
            assert(old_links.contains(l2));
            assert(new_links.contains(l2));
            let j = choose|j: int| 0 <= j < new_links.len() && new_links[j] == l2;
            assert(new_links[j].article_id == rid);
        }
        if nm == tc {
            let t = choose|t: int| 0 <= t < new_tags.len() && (#[trigger] new_tags[t]).name@ == tc;
            let l2 = ArticleTag { article_id: rid, tag_id: t as u64 };
            assert(new_tags[t].id == t);
            assert(new_links.contains(l2));
            let j = choose|j: int| 0 <= j < new_links.len() && new_links[j] == l2;
            assert(new_links[j].article_id == rid);
        }
    }
    assert(linked_names(new_links, new_tags, rid) =~= target);
}

impl ArticleStore {
    /// The series name of every record that is not a draft and belongs to a
    /// series, one entry per record, oldest first (records without a
    /// timestamp last).
    pub fn get_all_series_from_visible_articles(&self) -> (r: Vec<String>)
        requires
            self.wf(),
        ensures
            exists|out: Seq<ArticleWithTags>|
                #![trigger self.is_listing(out, None, None, Scope::WithSeries)]
                self.is_listing(out, None, None, Scope::WithSeries) && r@.len() == out.len()
                    && forall|p: int|
                    0 <= p < out.len() ==> out[p].series == Some(#[trigger] r@[p]),
    {
        let listed = self.view_records(&None, &None, Scope::WithSeries);
        let mut r: Vec<String> = Vec::new();
        let mut p: usize = 0;
        while p < listed.len()
            invariant
                self.is_listing(listed@, None, None, Scope::WithSeries),
                0 <= p <= listed@.len(),
                r@.len() == p,
                forall|q: int| 0 <= q < p ==> listed@[q].series == Some(#[trigger] r@[q]),
            decreases listed@.len() - p,
        {
            proof {
                assert(self.listed(listed@[p as int], None, None, Scope::WithSeries));
            }
            match &listed[p].series {
                Some(s) => r.push(s.clone()),
                None => {
                    proof {
                        let k = choose|k: int|
                            0 <= k < self.articles@.len() && self.selected(
                                #[trigger] self.articles@[k],
                                None,
                                None,
                                Scope::WithSeries,
                            ) && self.presents(listed@[p as int], self.articles@[k]);
                    }
                    r.push(String::new());
                },
            }
            p = p + 1;
        }
        r
    }
}

} // verus!
