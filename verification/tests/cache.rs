use ssgen::cache::{CacheEntry, MetadataCache};
use ssgen::generate::Metadata;
use ssgen::types::Timestamp;

fn ts(secs: i64) -> Timestamp {
    Timestamp::new(secs, 0).unwrap()
}

fn entry(title: &str, mtime: i64) -> CacheEntry {
    CacheEntry {
        mtime: ts(mtime),
        metadata: Metadata { title: title.to_string(), subtitle: None, tags: None, draft: false, date: None },
    }
}

#[test]
fn a_new_cache_is_empty() {
    let cache = MetadataCache::new();
    assert!(cache.get_entry("index.html").is_none());
    assert!(cache.into_entries().is_empty());
}

#[test]
fn cache_gives_back_what_was_recorded() {
    let mut cache = MetadataCache::new();
    cache.insert("a.html", entry("A", 10));
    cache.insert("b.html", entry("B", 20));
    assert_eq!(cache.get_entry("a.html").unwrap().metadata.title, "A");
    assert_eq!(cache.get_entry("b.html").unwrap().mtime, ts(20));
    assert!(cache.get_entry("c.html").is_none());
}

#[test]
fn recording_a_path_again_replaces_its_entry() {
    let mut cache = MetadataCache::new();
    cache.insert("a.html", entry("A", 10));
    cache.insert("b.html", entry("B", 20));
    cache.insert("a.html", entry("A2", 30));
    assert_eq!(cache.get_entry("a.html").unwrap().metadata.title, "A2");
    assert_eq!(cache.get_entry("b.html").unwrap().metadata.title, "B");
    assert_eq!(cache.into_entries().len(), 2);
}

#[test]
fn fresh_metadata_needs_an_entry_not_older_than_the_source() {
    let mut cache = MetadataCache::new();
    cache.insert("a.html", entry("A", 10));
    assert_eq!(cache.fresh_metadata("a.html", &ts(10)).unwrap().title, "A");
    assert_eq!(cache.fresh_metadata("a.html", &ts(5)).unwrap().title, "A");
    assert!(cache.fresh_metadata("a.html", &ts(11)).is_none());
    assert!(cache.fresh_metadata("b.html", &ts(1)).is_none());
}

#[test]
fn retain_paths_drops_every_other_path() {
    let mut cache = MetadataCache::new();
    cache.insert("a.html", entry("A", 1));
    cache.insert("b.html", entry("B", 2));
    cache.insert("c.html", entry("C", 3));
    cache.retain_paths(&vec!["c.html".to_string(), "a.html".to_string(), "z.html".to_string()]);
    assert!(cache.get_entry("a.html").is_some());
    assert!(cache.get_entry("b.html").is_none());
    assert!(cache.get_entry("c.html").is_some());
    assert!(cache.get_entry("z.html").is_none());
}

#[test]
fn entries_round_trip_through_a_list() {
    let mut cache = MetadataCache::new();
    cache.insert("a.html", entry("A", 1));
    cache.insert("b.html", entry("B", 2));
    let list = cache.into_entries();
    let again = MetadataCache::from_entries(list);
    assert_eq!(again.get_entry("a.html").unwrap().metadata.title, "A");
    assert_eq!(again.get_entry("b.html").unwrap().metadata.title, "B");
}

#[test]
fn a_later_listed_entry_wins() {
    let cache = MetadataCache::from_entries(vec![
        ("a.html".to_string(), entry("first", 1)),
        ("a.html".to_string(), entry("second", 2)),
    ]);
    assert_eq!(cache.get_entry("a.html").unwrap().metadata.title, "second");
}

#[test]
fn paths_lists_every_recorded_path() {
    let mut cache = MetadataCache::new();
    cache.insert("b.html", entry("B", 1));
    cache.insert("a.html", entry("A", 2));
    cache.insert("b.html", entry("B2", 3));
    let mut paths = cache.paths();
    paths.sort();
    assert_eq!(paths, vec!["a.html".to_string(), "b.html".to_string()]);
}
