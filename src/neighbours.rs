//! The newest-first ordering views, neighbour links and impact sets.

use vstd::prelude::*;
use crate::article::Article;

verus! {

/// A record is visible when it is neither a draft nor a special page.
pub open spec fn is_visible(a: Article) -> bool {
    a.draft != Some(true) && a.special_page != Some(true)
}

/// Membership in an ordering view: the visible records, further filtered by
/// series name when `series` is given.
pub open spec fn in_view(a: Article, series: Option<Seq<char>>) -> bool {
    is_visible(a) && match series {
        None => true,
        Some(s) => match a.series {
            Some(t) => t@ == s,
            None => false,
        },
    }
}

pub open spec fn series_key(s: Option<String>) -> Option<Seq<char>> {
    match s {
        Some(t) => Some(t@),
        None => None,
    }
}

/// `a` comes before `b` in the newest-first ordering: later timestamps first,
/// records without a timestamp last, and equal keys by ascending identity.
pub open spec fn newer(a: Article, b: Article) -> bool {
    match (a.modification_date, b.modification_date) {
        (Some(x), Some(y)) => x > y || (x == y && a.id < b.id),
        (Some(_), None) => true,
        (None, Some(_)) => false,
        (None, None) => a.id < b.id,
    }
}

/// `a` comes before `b` in the oldest-first ordering: earlier timestamps
/// first, records without a timestamp last, and equal keys by ascending
/// identity.
pub open spec fn older(a: Article, b: Article) -> bool {
    match (a.modification_date, b.modification_date) {
        (Some(x), Some(y)) => x < y || (x == y && a.id < b.id),
        (Some(_), None) => true,
        (None, Some(_)) => false,
        (None, None) => a.id < b.id,
    }
}

/// `a` comes before `b`: oldest first when `ascending`, else newest first.
pub open spec fn precedes(a: Article, b: Article, ascending: bool) -> bool {
    if ascending {
        older(a, b)
    } else {
        newer(a, b)
    }
}

pub proof fn lemma_precedes_transitive(a: Article, b: Article, c: Article, ascending: bool)
    requires
        precedes(a, b, ascending),
        precedes(b, c, ascending),
    ensures
        precedes(a, c, ascending),
{
}

pub proof fn lemma_precedes_total(a: Article, b: Article, ascending: bool)
    requires
        !precedes(a, b, ascending),
        !precedes(b, a, ascending),
    ensures
        a.id == b.id,
{
}

pub proof fn lemma_newer_transitive(a: Article, b: Article, c: Article)
    requires
        newer(a, b),
        newer(b, c),
    ensures
        newer(a, c),
{
}

pub proof fn lemma_newer_total(a: Article, b: Article)
    requires
        !newer(a, b),
        !newer(b, a),
    ensures
        a.id == b.id,
{
}

/// Index `j` holds the record right before `x` in the view.
pub open spec fn is_prev_at(arts: Seq<Article>, key: Option<Seq<char>>, x: Article, j: int) -> bool {
    &&& 0 <= j < arts.len()
    &&& in_view(arts[j], key)
    &&& newer(arts[j], x)
    &&& forall|k: int|
        0 <= k < arts.len() && in_view(#[trigger] arts[k], key) && newer(arts[k], x) ==> !newer(
            arts[j],
            arts[k],
        )
}

/// Index `j` holds the record right after `x` in the view.
pub open spec fn is_next_at(arts: Seq<Article>, key: Option<Seq<char>>, x: Article, j: int) -> bool {
    &&& 0 <= j < arts.len()
    &&& in_view(arts[j], key)
    &&& newer(x, arts[j])
    &&& forall|k: int|
        0 <= k < arts.len() && in_view(#[trigger] arts[k], key) && newer(x, arts[k]) ==> !newer(
            arts[k],
            arts[j],
        )
}

/// Index `j` holds the first record of the visible ordering.
pub open spec fn is_most_recent_at(arts: Seq<Article>, j: int) -> bool {
    &&& 0 <= j < arts.len()
    &&& is_visible(arts[j])
    &&& forall|k: int| 0 <= k < arts.len() && is_visible(#[trigger] arts[k]) ==> !newer(arts[k], arts[j])
}

/// Identity of the record right before `x` in the view, if `x` is in it.
pub open spec fn prev_of(arts: Seq<Article>, key: Option<Seq<char>>, x: Article) -> Option<u64> {
    if in_view(x, key) && exists|j: int| is_prev_at(arts, key, x, j) {
        Some(arts[choose|j: int| is_prev_at(arts, key, x, j)].id)
    } else {
        None
    }
}

/// Identity of the record right after `x` in the view, if `x` is in it.
pub open spec fn next_of(arts: Seq<Article>, key: Option<Seq<char>>, x: Article) -> Option<u64> {
    if in_view(x, key) && exists|j: int| is_next_at(arts, key, x, j) {
        Some(arts[choose|j: int| is_next_at(arts, key, x, j)].id)
    } else {
        None
    }
}

/// Identity of the most recent visible record.
pub open spec fn most_recent_of(arts: Seq<Article>) -> Option<u64> {
    if exists|j: int| is_most_recent_at(arts, j) {
        Some(arts[choose|j: int| is_most_recent_at(arts, j)].id)
    } else {
        None
    }
}

/// The records right before and after a record in one ordering view.
#[derive(Debug, Clone, Copy, PartialEq, Eq, Structural)]
pub struct ArticleNeighbours {
    pub prev: Option<u64>,
    pub next: Option<u64>,
}

/// What a mutation may change in the navigation of other pages: the most
/// recent record and the neighbours in the global and the series ordering.
#[derive(Debug, Clone, Copy, PartialEq, Eq, Structural)]
pub struct AllArticleNeighbours {
    pub most_recent_article: Option<u64>,
    pub prev_next_article: ArticleNeighbours,
    pub prev_next_article_series: ArticleNeighbours,
}

pub open spec fn neighbours_of(arts: Seq<Article>, key: Option<Seq<char>>, x: Article) -> ArticleNeighbours {
    ArticleNeighbours { prev: prev_of(arts, key, x), next: next_of(arts, key, x) }
}

/// The neighbours of `x` in the series ordering; none when `x` has no series.
pub open spec fn series_neighbours_of(arts: Seq<Article>, x: Article) -> ArticleNeighbours {
    match x.series {
        Some(s) => neighbours_of(arts, Some(s@), x),
        None => ArticleNeighbours { prev: None, next: None },
    }
}

/// The snapshot taken around a record `x` of `arts`.
pub open spec fn snapshot_of(arts: Seq<Article>, x: Article) -> AllArticleNeighbours {
    AllArticleNeighbours {
        most_recent_article: most_recent_of(arts),
        prev_next_article: neighbours_of(arts, None, x),
        prev_next_article_series: series_neighbours_of(arts, x),
    }
}

/// The snapshot of a state in which the mutated record does not exist.
pub open spec fn recent_only_of(arts: Seq<Article>) -> AllArticleNeighbours {
    AllArticleNeighbours {
        most_recent_article: most_recent_of(arts),
        prev_next_article: ArticleNeighbours { prev: None, next: None },
        prev_next_article_series: ArticleNeighbours { prev: None, next: None },
    }
}

pub open spec fn opt_set(o: Option<u64>) -> Set<u64> {
    match o {
        Some(id) => set![id],
        None => Set::empty(),
    }
}

/// The identities a changed slot contributes: the old and the new occupant.
pub open spec fn slot_impact(before: Option<u64>, after: Option<u64>) -> Set<u64> {
    if before == after {
        Set::empty()
    } else {
        opt_set(before).union(opt_set(after))
    }
}

pub open spec fn neighbours_impact(before: ArticleNeighbours, after: ArticleNeighbours) -> Set<u64> {
    slot_impact(before.prev, after.prev).union(slot_impact(before.next, after.next))
}

/// The identities whose navigation differs between two snapshots.
pub open spec fn impact_of(before: AllArticleNeighbours, after: AllArticleNeighbours) -> Set<u64> {
    slot_impact(before.most_recent_article, after.most_recent_article).union(
        neighbours_impact(before.prev_next_article, after.prev_next_article),
    ).union(neighbours_impact(before.prev_next_article_series, after.prev_next_article_series))
}

/// Adds `id` to a list of distinct identities.
pub fn add_id(v: &mut Vec<u64>, id: u64)
    requires
        old(v)@.no_duplicates(),
    ensures
        final(v)@.no_duplicates(),
        final(v)@.to_set() == old(v)@.to_set().insert(id),
{
    let mut i: usize = 0;
    while i < v.len()
        invariant
            0 <= i <= v@.len(),
            v@ == old(v)@,
            v@.no_duplicates(),
            forall|k: int| 0 <= k < i ==> v@[k] != id,
        decreases v@.len() - i,
    {
        if v[i] == id {
            assert(v@.to_set().insert(id) =~= v@.to_set());
            return;
        }
        i = i + 1;
    }
    let ghost before = v@;
    v.push(id);
    assert(v@ == before.push(id));
    assert forall|a: u64| #[trigger] v@.contains(a) <==> before.contains(a) || a == id by {
        if v@.contains(a) {
            let k = choose|k: int| 0 <= k < v@.len() && v@[k] == a;
            if k < before.len() {
                assert(before[k] == a);
            }
        }
        if a == id {
            assert(v@[before.len() as int] == id);
        }
        if before.contains(a) {
            let k = choose|k: int| 0 <= k < before.len() && before[k] == a;
            assert(v@[k] == a);
        }
    }
    assert(v@.to_set() =~= before.to_set().insert(id));
}

pub fn add_opt_id(v: &mut Vec<u64>, id: Option<u64>)
    requires
        old(v)@.no_duplicates(),
    ensures
        final(v)@.no_duplicates(),
        final(v)@.to_set() == old(v)@.to_set().union(opt_set(id)),
{
    match id {
        Some(i) => {
            add_id(v, i);
            assert(v@.to_set() =~= old(v)@.to_set().union(opt_set(id)));
        },
        None => {
            assert(v@.to_set() =~= old(v)@.to_set().union(opt_set(id)));
        },
    }
}

fn add_slot(v: &mut Vec<u64>, before: Option<u64>, after: Option<u64>)
    requires
        old(v)@.no_duplicates(),
    ensures
        final(v)@.no_duplicates(),
        final(v)@.to_set() == old(v)@.to_set().union(slot_impact(before, after)),
{
    if before != after {
        add_opt_id(v, before);
        add_opt_id(v, after);
        assert(v@.to_set() =~= old(v)@.to_set().union(slot_impact(before, after)));
    } else {
        assert(v@.to_set() =~= old(v)@.to_set().union(slot_impact(before, after)));
    }
}

impl ArticleNeighbours {
    pub fn new() -> (r: ArticleNeighbours)
        ensures
            r.prev == None::<u64>,
            r.next == None::<u64>,
    {
        ArticleNeighbours { prev: None, next: None }
    }

    /// The identities of the neighbours that differ between `self` and
    /// `other`, old and new occupant both, each once.
    pub fn diff(&self, other: &ArticleNeighbours) -> (r: Vec<u64>)
        ensures
            r@.no_duplicates(),
            r@.to_set() == neighbours_impact(*self, *other),
    {
        let mut r: Vec<u64> = Vec::new();
        assert(r@.to_set() =~= Set::<u64>::empty());
        add_slot(&mut r, self.prev, other.prev);
        add_slot(&mut r, self.next, other.next);
        assert(r@.to_set() =~= neighbours_impact(*self, *other));
        r
    }
}

impl AllArticleNeighbours {
    pub fn new() -> (r: AllArticleNeighbours)
        ensures
            r.most_recent_article == None::<u64>,
            r.prev_next_article == (ArticleNeighbours { prev: None, next: None }),
            r.prev_next_article_series == (ArticleNeighbours { prev: None, next: None }),
    {
        AllArticleNeighbours {
            most_recent_article: None,
            prev_next_article: ArticleNeighbours::new(),
            prev_next_article_series: ArticleNeighbours::new(),
        }
    }

    /// The impact set between the snapshot `self` taken before a mutation
    /// and `other` taken after it: a changed most recent record contributes
    /// its old and new identity, a changed neighbour its old and new
    /// identity.
    pub fn diff(&self, other: &AllArticleNeighbours) -> (r: Vec<u64>)
        ensures
            r@.no_duplicates(),
            r@.to_set() == impact_of(*self, *other),
    {
        let mut r: Vec<u64> = Vec::new();
        assert(r@.to_set() =~= Set::<u64>::empty());
        add_slot(&mut r, self.most_recent_article, other.most_recent_article);
        add_slot(&mut r, self.prev_next_article.prev, other.prev_next_article.prev);
        add_slot(&mut r, self.prev_next_article.next, other.prev_next_article.next);
        add_slot(&mut r, self.prev_next_article_series.prev, other.prev_next_article_series.prev);
        add_slot(&mut r, self.prev_next_article_series.next, other.prev_next_article_series.next);
        assert(r@.to_set() =~= impact_of(*self, *other));
        r
    }
}

pub fn is_visible_exec(a: &Article) -> (r: bool)
    ensures
        r == is_visible(*a),
{
    a.draft != Some(true) && a.special_page != Some(true)
}

pub fn in_view_exec(a: &Article, key: &Option<String>) -> (r: bool)
    ensures
        r == in_view(*a, series_key(*key)),
{
    if !is_visible_exec(a) {
        return false;
    }
    match key {
        None => true,
        Some(k) => match &a.series {
            Some(t) => *t == *k,
            None => false,
        },
    }
}

pub fn precedes_exec(a: &Article, b: &Article, ascending: bool) -> (r: bool)
    ensures
        r == precedes(*a, *b, ascending),
{
    if !ascending {
        return newer_exec(a, b);
    }
    match (a.modification_date, b.modification_date) {
        (Some(x), Some(y)) => x < y || (x == y && a.id < b.id),
        (Some(_), None) => true,
        (None, Some(_)) => false,
        (None, None) => a.id < b.id,
    }
}

pub fn newer_exec(a: &Article, b: &Article) -> (r: bool)
    ensures
        r == newer(*a, *b),
{
    match (a.modification_date, b.modification_date) {
        (Some(x), Some(y)) => x > y || (x == y && a.id < b.id),
        (Some(_), None) => true,
        (None, Some(_)) => false,
        (None, None) => a.id < b.id,
    }
}

proof fn lemma_prev_unique(arts: Seq<Article>, key: Option<Seq<char>>, x: Article, j: int, k: int)
    requires
        is_prev_at(arts, key, x, j),
        is_prev_at(arts, key, x, k),
    ensures
        arts[j].id == arts[k].id,
{
    assert(!newer(arts[j], arts[k]));
    assert(!newer(arts[k], arts[j]));
    lemma_newer_total(arts[j], arts[k]);
}

proof fn lemma_next_unique(arts: Seq<Article>, key: Option<Seq<char>>, x: Article, j: int, k: int)
    requires
        is_next_at(arts, key, x, j),
        is_next_at(arts, key, x, k),
    ensures
        arts[j].id == arts[k].id,
{
    assert(!newer(arts[j], arts[k]));
    assert(!newer(arts[k], arts[j]));
    lemma_newer_total(arts[j], arts[k]);
}

proof fn lemma_most_recent_unique(arts: Seq<Article>, j: int, k: int)
    requires
        is_most_recent_at(arts, j),
        is_most_recent_at(arts, k),
    ensures
        arts[j].id == arts[k].id,
{
    assert(!newer(arts[j], arts[k]));
    assert(!newer(arts[k], arts[j]));
    lemma_newer_total(arts[j], arts[k]);
}

/// The records right before and after `x` in the view of `arts` selected by
/// `key` (all visible records, or those of one series).
pub fn find_prev_and_next_articles(arts: &Vec<Article>, x: &Article, key: &Option<String>) -> (r:
    ArticleNeighbours)
    ensures
        r == neighbours_of(arts@, series_key(*key), *x),
{
    let ghost k = series_key(*key);
    if !in_view_exec(x, key) {
        return ArticleNeighbours::new();
    }
    let mut prev: Option<usize> = None;
    let mut next: Option<usize> = None;
    let mut i: usize = 0;
    while i < arts.len()
        invariant
            0 <= i <= arts@.len(),
            k == series_key(*key),
            match prev {
                Some(j) => j < i && in_view(arts@[j as int], k) && newer(arts@[j as int], *x)
                    && forall|m: int|
                    0 <= m < i && in_view(#[trigger] arts@[m], k) && newer(arts@[m], *x)
                        ==> !newer(arts@[j as int], arts@[m]),
                None => forall|m: int|
                    0 <= m < i && in_view(#[trigger] arts@[m], k) ==> !newer(arts@[m], *x),
            },
            match next {
                Some(j) => j < i && in_view(arts@[j as int], k) && newer(*x, arts@[j as int])
                    && forall|m: int|
                    0 <= m < i && in_view(#[trigger] arts@[m], k) && newer(*x, arts@[m])
                        ==> !newer(arts@[m], arts@[j as int]),
                None => forall|m: int|
                    0 <= m < i && in_view(#[trigger] arts@[m], k) ==> !newer(*x, arts@[m]),
            },
        decreases arts@.len() - i,
    {
        let a = &arts[i];
        if in_view_exec(a, key) {
            if newer_exec(a, x) {
                match prev {
                    None => {
                        prev = Some(i);
                    },
                    Some(j) => {
                        if newer_exec(&arts[j], a) {
                            proof {
                                assert forall|m: int|
                                    0 <= m < i + 1 && in_view(#[trigger] arts@[m], k) && newer(
                                        arts@[m],
                                        *x,
                                    ) implies !newer(arts@[i as int], arts@[m]) by {
                                    if m < i && newer(arts@[i as int], arts@[m]) {
                                        lemma_newer_transitive(
                                            arts@[j as int],
                                            arts@[i as int],
                                            arts@[m],
                                        );
                                    }
                                }
                            }
                            prev = Some(i);
                        }
                    },
                }
            }
            if newer_exec(x, a) {
                match next {
                    None => {
                        next = Some(i);
                    },
                    Some(j) => {
                        if newer_exec(a, &arts[j]) {
                            proof {
                                assert forall|m: int|
                                    0 <= m < i + 1 && in_view(#[trigger] arts@[m], k) && newer(
                                        *x,
                                        arts@[m],
                                    ) implies !newer(arts@[m], arts@[i as int]) by {
                                    if m < i && newer(arts@[m], arts@[i as int]) {
                                        lemma_newer_transitive(
                                            arts@[m],
                                            arts@[i as int],
                                            arts@[j as int],
                                        );
                                    }
                                }
                            }
                            next = Some(i);
                        }
                    },
                }
            }
        }
        i = i + 1;
    }
    let p = match prev {
        Some(j) => {
            proof {
                assert(is_prev_at(arts@, k, *x, j as int));
                let c = choose|c: int| is_prev_at(arts@, k, *x, c);
                lemma_prev_unique(arts@, k, *x, j as int, c);
            }
            Some(arts[j].id)
        },
        None => {
            proof {
                assert forall|c: int| !is_prev_at(arts@, k, *x, c) by {
                    if 0 <= c < arts@.len() && in_view(arts@[c], k) {
                    }
                }
            }
            None
        },
    };
    let n = match next {
        Some(j) => {
            proof {
                assert(is_next_at(arts@, k, *x, j as int));
                let c = choose|c: int| is_next_at(arts@, k, *x, c);
                lemma_next_unique(arts@, k, *x, j as int, c);
            }
            Some(arts[j].id)
        },
        None => {
            proof {
                assert forall|c: int| !is_next_at(arts@, k, *x, c) by {
                    if 0 <= c < arts@.len() && in_view(arts@[c], k) {
                    }
                }
            }
            None
        },
    };
    ArticleNeighbours { prev: p, next: n }
}

/// Index of the most recent visible record of `arts`, if there is one.
pub fn most_recent_index(arts: &Vec<Article>) -> (r: Option<usize>)
    ensures
        match r {
            Some(j) => is_most_recent_at(arts@, j as int) && most_recent_of(arts@) == Some(
                arts@[j as int].id,
            ),
            None => most_recent_of(arts@) == None::<u64> && forall|m: int|
                0 <= m < arts@.len() ==> !is_visible(#[trigger] arts@[m]),
        },
{
    let mut best: Option<usize> = None;
    let mut i: usize = 0;
    while i < arts.len()
        invariant
            0 <= i <= arts@.len(),
            match best {
                Some(j) => j < i && is_visible(arts@[j as int]) && forall|m: int|
                    0 <= m < i && is_visible(#[trigger] arts@[m]) ==> !newer(
                        arts@[m],
                        arts@[j as int],
                    ),
                None => forall|m: int| 0 <= m < i ==> !is_visible(#[trigger] arts@[m]),
            },
        decreases arts@.len() - i,
    {
        if is_visible_exec(&arts[i]) {
            match best {
                None => {
                    best = Some(i);
                },
                Some(j) => {
                    if newer_exec(&arts[i], &arts[j]) {
                        proof {
                            assert forall|m: int|
                                0 <= m < i + 1 && is_visible(#[trigger] arts@[m]) implies !newer(
                                arts@[m],
                                arts@[i as int],
                            ) by {
                                if m < i && newer(arts@[m], arts@[i as int]) {
                                    lemma_newer_transitive(
                                        arts@[m],
                                        arts@[i as int],
                                        arts@[j as int],
                                    );
                                }
                            }
                        }
                        best = Some(i);
                    }
                },
            }
        }
        i = i + 1;
    }
    proof {
        match best {
            Some(j) => {
                assert(is_most_recent_at(arts@, j as int));
                let c = choose|c: int| is_most_recent_at(arts@, c);
                lemma_most_recent_unique(arts@, j as int, c);
            },
            None => {
                assert forall|c: int| !is_most_recent_at(arts@, c) by {
                    if 0 <= c < arts@.len() {
                        assert(!is_visible(arts@[c]));
                    }
                }
            },
        }
    }
    best
}

/// Deleting the oldest of three visible records that belong to no series
/// impacts exactly one other record: the one right before it; the most
/// recent record stays the same.
pub proof fn lemma_delete_oldest_of_three(arts: Seq<Article>, k: int)
    requires
        arts.len() == 3,
        0 <= k < 3,
        forall|i: int| 0 <= i < 3 ==> is_visible(#[trigger] arts[i]) && arts[i].series is None,
        forall|i: int, j: int| 0 <= i < 3 && 0 <= j < 3 && i != j ==> (#[trigger] arts[i]).id != (#[trigger] arts[j]).id,
        forall|j: int| 0 <= j < 3 && j != k ==> newer(#[trigger] arts[j], arts[k]),
    ensures
        prev_of(arts, None, arts[k]) is Some,
        next_of(arts, None, arts[k]) is None,
        impact_of(snapshot_of(arts, arts[k]), recent_only_of(arts.remove(k))).remove(arts[k].id)
            == set![prev_of(arts, None, arts[k]).unwrap()],
{
    let x = arts[k];
    let a: int = if k == 0 { 1 } else { 0 };
    let b: int = if k == 2 { 1 } else { 2 };
    assert(arts[a].id != arts[b].id);
    let (top, mid) = if newer(arts[a], arts[b]) { (a, b) } else { (b, a) };
    if !newer(arts[a], arts[b]) {
        if !newer(arts[b], arts[a]) {
            lemma_newer_total(arts[a], arts[b]);
        }
    }
    assert(newer(arts[top], arts[mid]));
    // The most recent record, before and after.
    assert(is_most_recent_at(arts, top)) by {
        assert forall|j: int| 0 <= j < arts.len() && is_visible(#[trigger] arts[j]) implies !newer(
            arts[j],
            arts[top],
        ) by {
            if j == k {
                assert(newer(arts[top], arts[k]));
            }
        }
    }
    let c = choose|c: int| is_most_recent_at(arts, c);
    lemma_most_recent_unique(arts, top, c);
    assert(most_recent_of(arts) == Some(arts[top].id));
    let rest = arts.remove(k);
    assert(rest.len() == 2);
    assert(rest[0] == arts[a] && rest[1] == arts[b]);
    let rtop: int = if top == a { 0 } else { 1 };
    assert(rest[rtop] == arts[top]);
    assert(is_most_recent_at(rest, rtop)) by {
        assert forall|j: int| 0 <= j < rest.len() && is_visible(#[trigger] rest[j]) implies !newer(
            rest[j],
            rest[rtop],
        ) by {
            if j == 0 {
                assert(rest[0] == arts[a]);
            } else {
                assert(rest[1] == arts[b]);
            }
        }
    }
    let c2 = choose|c2: int| is_most_recent_at(rest, c2);
    lemma_most_recent_unique(rest, rtop, c2);
    assert(most_recent_of(rest) == Some(arts[top].id));
    // The neighbours of the deleted record.
    assert(is_prev_at(arts, None, x, mid)) by {
        assert forall|j: int|
            0 <= j < arts.len() && in_view(#[trigger] arts[j], None) && newer(arts[j], x) implies !newer(
            arts[mid],
            arts[j],
        ) by {
            if j == top {
                assert(newer(arts[top], arts[mid]));
            }
        }
    }
    let p = choose|p: int| is_prev_at(arts, None, x, p);
    lemma_prev_unique(arts, None, x, mid, p);
    assert(prev_of(arts, None, x) == Some(arts[mid].id));
    assert forall|j: int| !is_next_at(arts, None, x, j) by {
        if 0 <= j < 3 && j != k {
            assert(newer(arts[j], x));
        }
    }
    assert(next_of(arts, None, x) is None);
    let before = snapshot_of(arts, x);
    let after = recent_only_of(rest);
    assert(before.most_recent_article == after.most_recent_article);
    assert(arts[mid].id != x.id);
    assert(impact_of(before, after).remove(x.id) =~= set![arts[mid].id]);
}

/// Neighbour links are mutual: when `y` comes right before `x` in a view,
/// `x` comes right after `y` in that view.
pub proof fn lemma_neighbour_symmetry(arts: Seq<Article>, key: Option<Seq<char>>, i: int, j: int)
    requires
        0 <= i < arts.len(),
        0 <= j < arts.len(),
        forall|a: int, b: int|
            0 <= a < arts.len() && 0 <= b < arts.len() && a != b ==> (#[trigger] arts[a]).id
                != (#[trigger] arts[b]).id,
        prev_of(arts, key, arts[i]) == Some(arts[j].id),
    ensures
        next_of(arts, key, arts[j]) == Some(arts[i].id),
{
    let x = arts[i];
    let c = choose|c: int| is_prev_at(arts, key, x, c);
    assert(arts[c].id == arts[j].id);
    assert(c == j);
    assert(is_next_at(arts, key, arts[j], i)) by {
        assert forall|k: int|
            0 <= k < arts.len() && in_view(#[trigger] arts[k], key) && newer(arts[j], arts[k]) implies !newer(
            arts[k],
            x,
        ) by {
            if newer(arts[k], x) {
                assert(!newer(arts[j], arts[k]));
            }
        }
    }
    let d = choose|d: int| is_next_at(arts, key, arts[j], d);
    lemma_next_unique(arts, key, arts[j], i, d);
}

} // verus!
