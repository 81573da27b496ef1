use pankat::pipeline::{handle_change, parse_article};
use pankat::cache::ContentCache;
use pankat::debounce::{DebounceAction, Debouncer};
use pankat::gc::{garbage_outputs, output_folder_check, sentinel_name, stale_articles, stale_cache_rows, FolderCheck, GcError};
use pankat::store::ArticleStore;
use pankat::article::ArticleWithTags;

#[test]
fn cache_set_then_get_round_trip() {
    let mut cache = ContentCache::new();
    cache.set_cache("a.mdwn".to_string(), "<p>a</p>".to_string(), "h1".to_string());
    let e = cache.get_cache(&"a.mdwn".to_string()).unwrap();
    assert_eq!(e.html, "<p>a</p>");
    assert_eq!(e.hash, "h1");
    cache.set_cache("a.mdwn".to_string(), "<p>b</p>".to_string(), "h2".to_string());
    assert_eq!(cache.rows.len(), 1);
    let e = cache.get_cache(&"a.mdwn".to_string()).unwrap();
    assert_eq!((e.html.as_str(), e.hash.as_str()), ("<p>b</p>", "h2"));
    assert!(cache.get_cache(&"b.mdwn".to_string()).is_none());
}

#[test]
fn cache_decides_when_to_render() {
    let mut cache = ContentCache::new();
    assert!(cache.needs_render(&"a".to_string(), &"h".to_string()));
    cache.set_cache("a".to_string(), "x".to_string(), "h".to_string());
    assert!(!cache.needs_render(&"a".to_string(), &"h".to_string()));
    assert!(cache.needs_render(&"a".to_string(), &"g".to_string()));
    assert!(cache.del_cache(&"a".to_string()));
    assert!(!cache.del_cache(&"a".to_string()));
    assert!(cache.needs_render(&"a".to_string(), &"h".to_string()));
}

#[test]
fn debounce_collapses_a_burst() {
    let mut d = Debouncer::new(50);
    for t in [0u64, 10, 20, 49] {
        d.register_event("a.mdwn".to_string(), t);
    }
    assert_eq!(d.pending.len(), 1);
    match d.next_action(10) {
        DebounceAction::Sleep(ms) => assert_eq!(ms, 40),
        other => panic!("unexpected {:?}", other),
    }
    match d.next_action(50) {
        DebounceAction::Fire(p) => assert_eq!(p, "a.mdwn"),
        other => panic!("unexpected {:?}", other),
    }
    assert!(matches!(d.next_action(100), DebounceAction::Idle));
}

#[test]
fn debounce_fires_earliest_first() {
    let mut d = Debouncer::new(50);
    d.register_event("late".to_string(), 30);
    d.register_event("early".to_string(), 0);
    d.register_event("early".to_string(), 40);
    match d.next_action(100) {
        DebounceAction::Fire(p) => assert_eq!(p, "early"),
        other => panic!("unexpected {:?}", other),
    }
    match d.next_action(100) {
        DebounceAction::Fire(p) => assert_eq!(p, "late"),
        other => panic!("unexpected {:?}", other),
    }
    let mut e = Debouncer::new(10);
    e.register_event("x".to_string(), u64::MAX - 1);
    assert_eq!(e.pending[0].deadline, u64::MAX);
}

#[test]
fn output_folder_is_checked() {
    assert_eq!(output_folder_check(true, false), Ok(FolderCheck::Managed));
    assert_eq!(output_folder_check(false, true), Ok(FolderCheck::CreateSentinel));
    assert_eq!(output_folder_check(false, false), Err(GcError::UnmanagedOutput));
}

fn store_with(dsts: &[(&str, &str)]) -> ArticleStore {
    let mut s = ArticleStore::new();
    for (src, dst) in dsts {
        s.set(&ArticleWithTags::new(src.to_string(), dst.to_string())).unwrap();
    }
    s
}

#[test]
fn gc_without_sentinel_deletes_nothing() {
    let store = store_with(&[("a.mdwn", "a.html")]);
    let entries = vec!["a.html".to_string(), "unknown.txt".to_string(), "notes.html".to_string()];
    assert!(garbage_outputs(&store, &entries, false).is_empty());
}

#[test]
fn gc_with_sentinel_deletes_unknown_files() {
    let store = store_with(&[("a.mdwn", "a.html"), ("b.mdwn", "b.html")]);
    let entries = vec![sentinel_name(), "a.html".to_string(), "old.html".to_string(), "b.html".to_string(), "x".to_string()];
    assert_eq!(garbage_outputs(&store, &entries, true), vec!["old.html".to_string(), "x".to_string()]);
    assert_eq!(sentinel_name(), ".pankat_maintained_output_folder");
}

#[test]
fn gc_finds_stale_rows() {
    let store = store_with(&[("a.mdwn", "a.html"), ("b.mdwn", "b.html"), ("c.mdwn", "c.html")]);
    assert_eq!(stale_articles(&store, &vec![true, false, true]), vec![2]);
    let mut cache = ContentCache::new();
    cache.set_cache("a.mdwn".to_string(), "x".to_string(), "h".to_string());
    cache.set_cache("gone.mdwn".to_string(), "y".to_string(), "k".to_string());
    assert_eq!(stale_cache_rows(&cache, &vec![true, false]), vec!["gone.mdwn".to_string()]);
}

#[test]
fn cache_lists_its_paths() {
    let mut cache = ContentCache::new();
    cache.set_cache("b".to_string(), "x".to_string(), "h".to_string());
    cache.set_cache("a".to_string(), "y".to_string(), "k".to_string());
    cache.set_cache("b".to_string(), "z".to_string(), "m".to_string());
    assert_eq!(cache.get_cache_src_file_names(), vec!["b".to_string(), "a".to_string()]);
}

#[test]
fn change_of_a_removed_source_drops_record_and_cache_row() {
    let mut store = ArticleStore::new();
    let mut cache = ContentCache::new();
    let src = "a.mdwn".to_string();
    let parsed = parse_article("a.mdwn", true, "[[!title A]] body");
    assert_eq!(handle_change(&mut store, &mut cache, &src, Some(&parsed), Some("<p>body</p>".to_string())).unwrap(), vec![1]);
    assert_eq!(store.articles.len(), 1);
    assert!(!cache.needs_render(&src, &parsed.hash));
    assert_eq!(handle_change(&mut store, &mut cache, &src, None, None).unwrap(), Vec::<u64>::new());
    assert_eq!(store.articles.len(), 0);
    assert!(cache.get_cache(&src).is_none());
    assert_eq!(handle_change(&mut store, &mut cache, &src, None, None).unwrap(), Vec::<u64>::new());
}
