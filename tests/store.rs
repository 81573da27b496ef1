use pankat::article::ArticleWithTags;
use pankat::store::{ArticleStore, StoreError};
use std::collections::HashSet;

#[allow(clippy::too_many_arguments)]
fn rec(
    src: &str,
    dst: &str,
    title: &str,
    date: Option<&str>,
    tags: &[&str],
    series: &str,
    draft: Option<bool>,
    special_page: Option<bool>,
) -> ArticleWithTags {
    let mut a = ArticleWithTags::new(src.to_string(), dst.to_string());
    a.title = Some(title.to_string());
    a.summary = Some(title.to_string());
    a.modification_date = date.map(|d| {
        chrono::NaiveDateTime::parse_from_str(d, "%Y-%m-%d %H:%M").unwrap().and_utc().timestamp()
    });
    a.tags = Some(tags.iter().map(|t| t.to_string()).collect());
    a.series = Some(series.to_string());
    a.draft = draft;
    a.special_page = special_page;
    a
}

fn ids(v: Vec<u64>) -> HashSet<u64> {
    v.into_iter().collect()
}

fn set_of(v: &[u64]) -> HashSet<u64> {
    v.iter().copied().collect()
}

fn visible_ids(store: &ArticleStore) -> Vec<u64> {
    store.get_visible_articles().iter().map(|a| a.id.unwrap()).collect()
}

#[test]
fn test_db_set() {
    let mut store = ArticleStore::new();
    let a1 = rec("foo/bartest_db_set1.mdwn", "test_db_set1.html", "Test", None, &["test1 test2 test3"], "Test", None, None);
    assert_eq!(ids(store.set(&a1).unwrap()), set_of(&[1]));
    let a2 = rec("foo/bartest_db_set2.mdwn", "test_db_set2.html", "Test2", None, &["test2", "test3"], "Test2", None, None);
    store.set(&a2).unwrap();
    assert_eq!(store.get_all_articles().len(), 2);
}

#[test]
fn test_db_set_update() {
    let mut store = ArticleStore::new();
    let a1 = rec("foo/bartest_db_set1.mdwn", "test_db_set1.html", "Test", None, &["test1", "test2"], "Test", None, None);
    assert_eq!(ids(store.set(&a1).unwrap()), set_of(&[1]));
    let new_tags = vec!["test2".to_string(), "test3".to_string()];
    let mut a2 = rec("foo/bartest_db_set1.mdwn", "test_db_set1.html", "Test1", None, &["test2", "test3"], "Test", None, None);
    a2.summary = Some("Test2".to_string());
    // The only record keeps its identity, position and series: no other
    // page's navigation changes.
    assert_eq!(ids(store.set(&a2).unwrap()), set_of(&[]));
    let all = store.get_all_articles();
    assert_eq!(all.len(), 1);
    let got: HashSet<String> = all[0].tags.clone().unwrap().into_iter().collect();
    let want: HashSet<String> = new_tags.into_iter().collect();
    assert_eq!(got, want);
    assert_eq!(all[0].title, Some("Test1".to_string()));
}

#[test]
fn test_db_set_empty_src_file_name() {
    let mut store = ArticleStore::new();
    let a1 = rec("", "test_db_set1.html", "Test", None, &["test1", "test2"], "Test", None, None);
    let ret = store.set(&a1);
    assert_eq!(ret, Err(StoreError::EmptyIdentity));
    assert_eq!(store.get_all_articles().len(), 0);
}

#[test]
fn test_db_set_empty_dst_file_name() {
    let mut store = ArticleStore::new();
    let a1 = rec("test_db_set1.mdwn", "test_db_set1.html", "Test", None, &["test1", "test2"], "Test", None, None);
    assert!(store.set(&a1).is_ok());
    assert_eq!(store.get_all_articles().len(), 1);
    let tags = store.get_tags_for_article(1);
    assert_eq!(tags.len(), 2);
    let a2 = rec("test_db_set2.mdwn", "", "Test", None, &["test1"], "Test", None, None);
    assert_eq!(store.set(&a2), Err(StoreError::EmptyIdentity));
    assert_eq!(store.get_all_articles().len(), 1);
}

#[test]
fn test_db_set_middle() {
    let mut store = ArticleStore::new();
    store.set(&rec("foo/bartest_db_set1.mdwn", "test_db_set1.html", "Test", None, &["test1", "test2", "test3"], "Test2", None, None)).unwrap();
    store.set(&rec("foo/bartest_db_set2.mdwn", "test_db_set2.html", "Test2", None, &["test2", "test3"], "Test2", None, None)).unwrap();
    store.set(&rec("foo/bartest_db_set3.mdwn", "test_db_set3.html", "Test2", None, &["test2", "test3"], "Test2", None, None)).unwrap();
    store.set(&rec("foo/bartest_db_set4.mdwn", "test_db_set4.html", "Test2", None, &["test2", "test3"], "Test2", None, None)).unwrap();
    let update = rec("foo/bartest_db_set3.mdwn", "test_db_set3.html", "Test2", None, &["test2", "test3"], "Test3", Some(true), None);
    assert_eq!(ids(store.set(&update).unwrap()), set_of(&[4, 2]));
}

#[test]
fn test_db_del_by_id() {
    let mut store = ArticleStore::new();
    store.set(&rec("foo/bartest_db_set1.mdwn", "test_db_set1.html", "Test", None, &["test1", "test2", "test3"], "Test", None, None)).unwrap();
    store.set(&rec("foo/bartest_db_set2.mdwn", "test_db_set2.html", "Test2", None, &["test2", "test3"], "Test2", None, None)).unwrap();
    store.set(&rec("foo/bartest_db_set3.mdwn", "test_db_set3.html", "Test2", None, &["test2", "test3"], "Test2", Some(true), None)).unwrap();
    let ret = store.del_by_id(1);
    assert!(ret.is_ok());
    assert_eq!(ids(ret.unwrap()), set_of(&[2]));
    let visible = store.get_visible_articles();
    assert_eq!(visible.len(), 1);
    assert_eq!(visible[0].id, Some(2));
}

#[test]
fn test_db_del_by_id_series() {
    let mut store = ArticleStore::new();
    store.set(&rec("foo/bartest_db_set1.mdwn", "test_db_set1.html", "Test", None, &["test1", "test2", "test3"], "Test2", None, None)).unwrap();
    store.set(&rec("foo/bartest_db_set2.mdwn", "test_db_set2.html", "Test2", None, &["test2", "test3"], "Test2", None, None)).unwrap();
    store.set(&rec("foo/bartest_db_set3.mdwn", "test_db_set3.html", "Test2", None, &["test2", "test3"], "Test2", None, None)).unwrap();
    store.set(&rec("foo/bartest_db_set4.mdwn", "test_db_set4.html", "Test2", Some("2024-07-19 14:33"), &["test2", "test3"], "Test2", None, None)).unwrap();
    let ret = store.del_by_id(2);
    assert!(ret.is_ok());
    assert_eq!(ids(ret.unwrap()), set_of(&[1, 3]));
    let visible = store.get_visible_articles();
    assert_eq!(visible.len(), 3);
    assert_eq!(visible[0].id, Some(4));
    assert_eq!(visible[1].id, Some(1));
    assert_eq!(visible[2].id, Some(3));
}

#[test]
fn del_unknown_id_is_not_found() {
    let mut store = ArticleStore::new();
    assert_eq!(store.del_by_id(7), Err(StoreError::NotFound));
    assert_eq!(store.del_by_src_file_name(&"nope.mdwn".to_string()), Err(StoreError::NotFound));
}

#[test]
fn test_db_get_all_tags() {
    let mut store = ArticleStore::new();
    assert!(store.set(&rec("foo/bartest_db_set1.mdwn", "test_db_set1.html", "Test", None, &["test1 test2 test3"], "Test", None, None)).is_ok());
    assert_eq!(store.get_drafts().len(), 0);
    assert!(store.set(&rec("foo/bartest_db_set2.mdwn", "test_db_set2.html", "Test2", None, &["test2 test3"], "Test2", Some(true), None)).is_ok());
    assert_eq!(store.get_drafts().len(), 1);
    assert_eq!(store.get_all_tags(), vec!["test1 test2 test3".to_string(), "test2 test3".to_string()]);
}

#[test]
fn test_db_get_drafts() {
    let mut store = ArticleStore::new();
    assert!(store.set(&rec("foo/bartest_db_set1.mdwn", "test_db_set1.html", "Test", None, &["test1 test2 test3"], "Test", None, None)).is_ok());
    assert_eq!(store.get_drafts().len(), 0);
    store.set(&rec("foo/bartest_db_set2.mdwn", "test_db_set2.html", "Test2", None, &["test2", " test3"], "Test2", Some(true), None)).unwrap();
    assert_eq!(store.get_drafts().len(), 1);
    store.set(&rec("foo/bartest_db_set3.mdwn", "test_db_set3.html", "Test3", None, &["test3"], "Test3", Some(true), None)).unwrap();
    assert_eq!(store.get_drafts().len(), 2);
}

fn five_records(store: &mut ArticleStore) {
    assert!(store.set(&rec("foo/bartest_db_set1.mdwn", "test_db_set1.html", "Test", Some("2001-01-01 01:01"), &["test1 test2 test3"], "Test", None, None)).is_ok());
    assert_eq!(store.get_visible_articles().len(), 1);
    assert!(store.set(&rec("foo/bartest_db_set2.mdwn", "test_db_set2.html", "Test2", Some("2003-01-01 01:01"), &["test2", "test3"], "Test2", None, None)).is_ok());
    assert_eq!(store.get_visible_articles().len(), 2);
    assert!(store.set(&rec("foo/bartest_db_set3.mdwn", "test_db_set3.html", "Test3", Some("2002-01-01 01:01"), &["test3"], "Test3", None, None)).is_ok());
    assert!(store.set(&rec("foo/bartest_db_set4.mdwn", "test_db_set4.html", "Test4", Some("2002-02-02 02:02"), &["test4"], "Test4", Some(true), None)).is_ok());
}

#[test]
fn test_db_get_prev_and_next_article() {
    let mut store = ArticleStore::new();
    five_records(&mut store);
    assert!(store.set(&rec("foo/bartest_db_set5.mdwn", "test_db_set5.html", "Test5", Some("2002-02-02 02:02"), &["test5"], "Test5", None, Some(true))).is_ok());
    // Newest first: 2 (2003), 3 (2002), 1 (2001).
    assert_eq!(visible_ids(&store), vec![2, 3, 1]);
    let n = store.get_prev_and_next_article(1).unwrap();
    assert_eq!(n.prev, Some(3));
    assert_eq!(n.next, None);
    let n = store.get_prev_and_next_article(3).unwrap();
    assert_eq!(n.prev, Some(2));
    assert_eq!(n.next, Some(1));
    let n = store.get_prev_and_next_article(2).unwrap();
    assert_eq!(n.prev, None);
    assert_eq!(n.next, Some(3));
    let n = store.get_prev_and_next_article(99).unwrap();
    assert_eq!((n.prev, n.next), (None, None));
}

#[test]
fn test_db_get_special_pages() {
    let mut store = ArticleStore::new();
    five_records(&mut store);
    assert!(store.set(&rec("foo/bartest_db_set5.mdwn", "test_db_set5.html", "Test5", Some("2002-02-02 02:02"), &["test5"], "Test5", Some(true), Some(true))).is_ok());
    assert!(store.set(&rec("foo/bartest_db_set9.mdwn", "test_db_set9.html", "Test9", Some("2002-03-03 03:03"), &["test9"], "Test9", Some(true), Some(true))).is_ok());
    let special = store.get_special_pages();
    assert_eq!(special.len(), 2);
    assert_eq!(special[0].id.unwrap(), 5);
    assert_eq!(special[1].id.unwrap(), 6);
    let n = store.get_prev_and_next_article(5).unwrap();
    assert_eq!(n.prev, None);
    assert_eq!(n.next, None);
    let n = store.get_prev_and_next_article(6).unwrap();
    assert_eq!(n.prev, None);
    assert_eq!(n.next, None);
}

#[test]
fn test_db_get_visible_articles() {
    let mut store = ArticleStore::new();
    store.set(&rec("foo/bartest_db_set1.mdwn", "test_db_set1.html", "Test", None, &["test1", "test2", "test3"], "Test", None, None)).unwrap();
    store.set(&rec("foo/bartest_db_set2.mdwn", "test_db_set2.html", "Test2", None, &["test2", "test3"], "Test2", None, Some(true))).unwrap();
    store.set(&rec("foo/bartest_db_set3.mdwn", "test_db_set3.html", "Test2", None, &["test2", "test3"], "Test2", Some(true), None)).unwrap();
    assert_eq!(store.get_visible_articles().len(), 1);
}

#[test]
fn test_db_get_visible_articles_by_series_some() {
    let mut store = ArticleStore::new();
    store.set(&rec("foo/bartest_db_set1.mdwn", "test_db_set1.html", "Test", None, &["test1 test2 test3"], "Test", None, None)).unwrap();
    assert_eq!(store.get_visible_articles_by_series(&"Test".to_string()).len(), 1);
}

#[test]
fn test_db_get_visible_articles_by_series_none() {
    let mut store = ArticleStore::new();
    store.set(&rec("foo/bartest_db_set1.mdwn", "test_db_set1.html", "Test", None, &["test1 test2 test3"], "Test", None, None)).unwrap();
    assert_eq!(store.get_visible_articles_by_series(&"asdfasdfasdf".to_string()).len(), 0);
}

#[test]
fn test_db_get_visible_articles_by_tag() {
    let mut store = ArticleStore::new();
    store.set(&rec("foo/bartest_db_set1.mdwn", "test_db_set1.html", "T", None, &["test2", "test3"], "S", None, None)).unwrap();
    store.set(&rec("foo/bartest_db_set2.mdwn", "test_db_set2.html", "T", None, &["test2"], "S", None, None)).unwrap();
    store.set(&rec("foo/bartest_db_set3.mdwn", "test_db_set3.html", "T", None, &["test2", "test55"], "S", Some(true), None)).unwrap();
    store.set(&rec("foo/bartest_db_set4.mdwn", "test_db_set4.html", "T", None, &["test2", "test55"], "S", None, Some(true))).unwrap();
    assert_eq!(store.get_visible_articles_by_tag(&"test2".to_string()).len(), 3);
    assert_eq!(store.get_visible_articles_by_tag(&"test3".to_string()).len(), 1);
    assert_eq!(store.get_visible_articles_by_tag(&"test55".to_string()).len(), 1);
}

#[test]
fn neighbour_symmetry_newest_first() {
    let mut store = ArticleStore::new();
    let mut a = rec("a.mdwn", "a.html", "A", None, &[], "", None, None);
    a.modification_date = Some(1);
    a.series = None;
    let mut b = rec("b.mdwn", "b.html", "B", None, &[], "", None, None);
    b.modification_date = Some(3);
    b.series = None;
    let mut c = rec("c.mdwn", "c.html", "C", None, &[], "", None, None);
    c.modification_date = Some(2);
    c.series = None;
    store.set(&a).unwrap();
    store.set(&b).unwrap();
    store.set(&c).unwrap();
    assert_eq!(visible_ids(&store), vec![2, 3, 1]);
    let n = store.get_prev_and_next_article(3).unwrap();
    assert_eq!(n.prev, Some(2));
    assert_eq!(n.next, Some(1));
    assert_eq!(store.get_most_recent_article().unwrap().id, Some(2));
}

#[test]
fn deleting_oldest_of_three_impacts_only_its_neighbour() {
    let mut store = ArticleStore::new();
    for (src, t) in [("a.mdwn", 1), ("b.mdwn", 3), ("c.mdwn", 2)] {
        let mut r = rec(src, "x.html", "T", None, &[], "", None, None);
        r.modification_date = Some(t);
        r.series = None;
        store.set(&r).unwrap();
    }
    let impact = store.del_by_src_file_name(&"a.mdwn".to_string()).unwrap();
    assert_eq!(ids(impact), set_of(&[3]));
}

#[test]
fn tag_delta_keeps_the_shared_association() {
    let mut store = ArticleStore::new();
    let mut r = rec("a.mdwn", "a.html", "T", None, &["a", "b"], "", None, None);
    store.set(&r).unwrap();
    let b_link = store.links.iter().copied().find(|l| store.tags[l.tag_id as usize].name == "b").unwrap();
    let tags_before: Vec<String> = store.get_all_tags();
    r.tags = Some(vec!["b".to_string(), "c".to_string()]);
    store.set(&r).unwrap();
    assert!(store.links.contains(&b_link));
    assert_eq!(store.links.len(), 2);
    let all = store.get_all_tags();
    assert_eq!(&all[..2], &tags_before[..]);
    assert_eq!(all[2], "c");
    let mut names = store.get_tags_for_article(1);
    names.sort();
    assert_eq!(names, vec!["b".to_string(), "c".to_string()]);
}

#[test]
fn inserting_between_two_records_impacts_both_and_most_recent_change() {
    let mut store = ArticleStore::new();
    let mut a = rec("a.mdwn", "a.html", "A", None, &[], "", None, None);
    a.modification_date = Some(10);
    a.series = None;
    let mut b = rec("b.mdwn", "b.html", "B", None, &[], "", None, None);
    b.modification_date = Some(30);
    b.series = None;
    assert_eq!(ids(store.set(&a).unwrap()), set_of(&[1]));
    assert_eq!(ids(store.set(&b).unwrap()), set_of(&[1, 2]));
    let mut c = rec("c.mdwn", "c.html", "C", None, &[], "", None, None);
    c.modification_date = Some(20);
    c.series = None;
    assert_eq!(ids(store.set(&c).unwrap()), set_of(&[1, 2]));
    let mut d = rec("d.mdwn", "d.html", "D", None, &[], "", Some(true), None);
    d.series = None;
    assert_eq!(ids(store.set(&d).unwrap()), set_of(&[]));
}

#[test]
fn rescanning_keeps_one_record() {
    let mut store = ArticleStore::new();
    let r = rec("a.mdwn", "a.html", "T", Some("2001-01-01 01:01"), &["x"], "S", None, None);
    store.set(&r).unwrap();
    let before = store.get_all_articles();
    assert_eq!(ids(store.set(&r).unwrap()), set_of(&[]));
    assert_eq!(store.get_all_articles(), before);
    assert_eq!(store.get_article_with_tags_by_src_file_name(&"a.mdwn".to_string()).unwrap().id, Some(1));
    assert!(store.get_article_with_tags_by_id(2).is_none());
}

#[test]
fn series_names_of_non_drafts() {
    let mut store = ArticleStore::new();
    store.set(&rec("a.mdwn", "a.html", "A", None, &[], "nix", None, None)).unwrap();
    store.set(&rec("b.mdwn", "b.html", "B", None, &[], "rust", Some(true), None)).unwrap();
    store.set(&rec("c.mdwn", "c.html", "C", None, &[], "nix", None, None)).unwrap();
    store.set(&rec("d.mdwn", "d.html", "D", None, &[], "go", None, Some(true))).unwrap();
    assert_eq!(
        store.get_all_series_from_visible_articles(),
        vec!["nix".to_string(), "nix".to_string(), "go".to_string()]
    );
}

#[test]
fn series_neighbours_follow_the_series_only() {
    let mut store = ArticleStore::new();
    for (src, t, s) in [("a.mdwn", 1, "x"), ("b.mdwn", 2, "y"), ("c.mdwn", 3, "x"), ("d.mdwn", 4, "x")] {
        let mut r = rec(src, "o.html", "T", None, &[], s, None, None);
        r.modification_date = Some(t);
        store.set(&r).unwrap();
    }
    // Series x, newest first: d (4), c (3), a (1).
    let n = store.get_prev_and_next_article_for_series(3).unwrap();
    assert_eq!((n.prev, n.next), (Some(4), Some(1)));
    let n = store.get_prev_and_next_article_for_series(2).unwrap();
    assert_eq!((n.prev, n.next), (None, None));
    let mut no_series = rec("e.mdwn", "e.html", "T", None, &[], "", None, None);
    no_series.series = None;
    store.set(&no_series).unwrap();
    let n = store.get_prev_and_next_article_for_series(5).unwrap();
    assert_eq!((n.prev, n.next), (None, None));
    let n = store.get_prev_and_next_article_for_series(42).unwrap();
    assert_eq!((n.prev, n.next), (None, None));
}

#[test]
fn drafts_are_listed_oldest_first() {
    let mut store = ArticleStore::new();
    store.set(&rec("a.mdwn", "a.html", "A", Some("2001-01-01 01:01"), &[], "S", Some(true), None)).unwrap();
    store.set(&rec("b.mdwn", "b.html", "B", None, &[], "S", Some(true), None)).unwrap();
    store.set(&rec("c.mdwn", "c.html", "C", Some("2003-01-01 01:01"), &[], "S", Some(true), None)).unwrap();
    store.set(&rec("d.mdwn", "d.html", "D", Some("2004-01-01 01:01"), &[], "S", None, None)).unwrap();
    let ids: Vec<u64> = store.get_drafts().iter().map(|a| a.id.unwrap()).collect();
    // Oldest first, the draft without a timestamp last.
    assert_eq!(ids, vec![1, 3, 2]);
    let all: Vec<u64> = store.get_all_articles().iter().map(|a| a.id.unwrap()).collect();
    assert_eq!(all, vec![1, 3, 4, 2]);
}
