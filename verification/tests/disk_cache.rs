use gif_bridge::disk_cache::prune_oldest;
use gif_bridge::disk_cache::scanned_bytes;
use gif_bridge::disk_cache::DiskCache;
use gif_bridge::disk_cache::ScannedFile;
use gif_bridge::disk_cache::UrlLookup;
use gif_bridge::disk_cache::UrlStore;
use gif_bridge::disk_cache::MAX_URL_RECORDS;
use gif_bridge::giphy::GifUrls;

const PID: u32 = 4711;

/// A directory of files, each with its bytes and the time it was written.
struct Directory {
    files: Vec<(String, Vec<u8>, i128)>,
    clock: i128,
}

impl Directory {
    fn new() -> Directory {
        Directory {
            files: vec![],
            clock: 0,
        }
    }

    fn read(&self, name: &str) -> Option<Vec<u8>> {
        self.files
            .iter()
            .find(|f| f.0 == name)
            .map(|f| f.1.clone())
    }

    fn holds(&self, name: &str) -> bool {
        self.read(name).is_some()
    }

    fn write(&mut self, name: &str, bytes: &[u8]) {
        self.remove(name);
        self.clock += 1;
        self.files.push((name.to_string(), bytes.to_vec(), self.clock));
    }

    fn rename(&mut self, from: &str, to: &str) {
        self.remove(to);
        for file in self.files.iter_mut() {
            if file.0 == from {
                file.0 = to.to_string();
            }
        }
    }

    fn remove(&mut self, name: &str) {
        self.files.retain(|f| f.0 != name);
    }

    fn scan(&self) -> Vec<ScannedFile> {
        // The listing of a directory is in no order.
        self.files
            .iter()
            .rev()
            .map(|f| ScannedFile {
                is_file: true,
                name: Some(f.0.clone()),
                size: f.1.len() as u64,
                modified: Some(f.2),
            })
            .collect()
    }
}

fn open(dir: &mut Directory, max_bytes: u64) -> DiskCache {
    let (cache, doomed) = DiskCache::open(&dir.scan(), max_bytes);
    for name in doomed {
        dir.remove(&name);
    }
    cache
}

fn insert(dir: &mut Directory, cache: &mut DiskCache, key: &str, bytes: &[u8]) {
    let tmp = cache.temp_path(PID);
    dir.write(&tmp, bytes);
    dir.rename(&tmp, key);
    for name in cache.commit(key, bytes.len() as u64) {
        dir.remove(&name);
    }
}

fn read_entry(dir: &Directory, cache: &mut DiskCache, key: &str) -> Option<Vec<u8>> {
    let size = cache.get(key)?;
    match dir.read(key) {
        Some(bytes) => {
            assert_eq!(bytes.len() as u64, size);
            Some(bytes)
        }
        None => {
            cache.forget(key);
            None
        }
    }
}

fn file(name: &str, size: u64, modified: Option<i128>) -> ScannedFile {
    ScannedFile {
        is_file: true,
        name: Some(name.to_string()),
        size,
        modified,
    }
}

#[test]
fn insert_get_roundtrip() {
    let mut dir = Directory::new();
    let mut cache = open(&mut dir, 1024);

    insert(&mut dir, &mut cache, "abc.full", b"gif bytes");
    assert_eq!(read_entry(&dir, &mut cache, "abc.full").unwrap(), b"gif bytes");
    assert!(cache.get("missing.full").is_none());
}

#[test]
fn evicts_least_recently_used_over_byte_cap() {
    let mut dir = Directory::new();
    let mut cache = open(&mut dir, 100);

    insert(&mut dir, &mut cache, "a", &[0u8; 40]);
    insert(&mut dir, &mut cache, "b", &[0u8; 40]);
    // Promote a, so b is the victim when c pushes the total to 120.
    assert!(cache.get("a").is_some());
    insert(&mut dir, &mut cache, "c", &[0u8; 40]);

    assert!(cache.get("a").is_some());
    assert!(cache.get("b").is_none());
    assert!(cache.get("c").is_some());
    assert!(!dir.holds("b"));
}

#[test]
fn overwriting_a_key_does_not_double_count() {
    let mut dir = Directory::new();
    let mut cache = open(&mut dir, 100);

    insert(&mut dir, &mut cache, "a", &[0u8; 60]);
    insert(&mut dir, &mut cache, "a", &[0u8; 60]);
    // 60 live bytes, not 120: nothing should have been evicted.
    assert!(cache.get("a").is_some());
    assert_eq!(cache.total_bytes(), 60);
}

#[test]
fn index_survives_restart() {
    let mut dir = Directory::new();
    {
        let mut cache = open(&mut dir, 1024);
        insert(&mut dir, &mut cache, "abc.full", b"persisted");
    }
    let mut cache = open(&mut dir, 1024);
    assert_eq!(read_entry(&dir, &mut cache, "abc.full").unwrap(), b"persisted");
}

#[test]
fn restart_scan_evicts_oldest_when_over_cap() {
    let mut dir = Directory::new();
    {
        let mut cache = open(&mut dir, 1024);
        insert(&mut dir, &mut cache, "old", &[0u8; 40]);
        insert(&mut dir, &mut cache, "new", &[0u8; 40]);
    }
    let mut cache = open(&mut dir, 50);
    assert!(cache.get("old").is_none());
    assert!(cache.get("new").is_some());
    assert!(!dir.holds("old"));
}

#[test]
fn cleans_up_leftover_temp_files() {
    let mut dir = Directory::new();
    dir.write("123-0.tmp", b"partial download");

    let mut cache = open(&mut dir, 1024);
    assert!(!dir.holds("123-0.tmp"));
    assert!(cache.get("123-0.tmp").is_none());
}

#[test]
fn url_store_roundtrip_and_restart() {
    let urls = GifUrls {
        full: "https://media.giphy.com/media/abc/giphy.gif".to_string(),
        thumb: "https://media.giphy.com/media/abc/200w.gif".to_string(),
    };
    // What the files of the store hold, by name.
    let mut records: Vec<(String, GifUrls)> = vec![];
    {
        let (mut store, doomed) = UrlStore::open(&vec![]);
        assert!(doomed.is_empty());
        let write = store.put("abc", false, PID).unwrap();
        assert_eq!(write.tmp, "4711-0.tmp");
        records.push((write.path, urls.clone()));
        match store.get("abc", Some(urls.clone())) {
            UrlLookup::Found(found) => assert_eq!(found.thumb, urls.thumb),
            _ => panic!("it is in memory"),
        }
    }
    let (store, doomed) = UrlStore::open(&vec![file("abc.json", 200, Some(1))]);
    assert!(doomed.is_empty());
    let name = match store.get("abc", None) {
        UrlLookup::Read(name) => name,
        _ => panic!("it is not in memory"),
    };
    let content = records.iter().find(|r| r.0 == name).map(|r| r.1.clone());
    let read_back = match store.read(content) {
        UrlLookup::Hold(urls) => urls,
        _ => panic!("it was recorded"),
    };
    assert_eq!(read_back.full, urls.full);
    assert_eq!(read_back.thumb, urls.thumb);
    let name = match store.get("unknown", None) {
        UrlLookup::Read(name) => name,
        _ => panic!("it is not in memory"),
    };
    let content = records.iter().find(|r| r.0 == name).map(|r| r.1.clone());
    assert!(matches!(store.read(content), UrlLookup::Unknown));
}

#[test]
fn entries_that_fit_exactly_stay() {
    let mut dir = Directory::new();
    let mut cache = open(&mut dir, 100);
    insert(&mut dir, &mut cache, "a", &[0u8; 60]);
    insert(&mut dir, &mut cache, "b", &[0u8; 40]);
    assert_eq!(cache.total_bytes(), 100);
    assert!(cache.get("a").is_some());
    insert(&mut dir, &mut cache, "c", &[0u8; 1]);
    assert!(cache.get("b").is_none());
    assert_eq!(cache.total_bytes(), 61);
}

#[test]
fn file_larger_than_the_cache_is_not_kept() {
    let mut dir = Directory::new();
    let mut cache = open(&mut dir, 100);
    insert(&mut dir, &mut cache, "a", &[0u8; 10]);
    let doomed = cache.commit("big", 101);
    assert_eq!(doomed, vec!["a", "big"]);
    assert_eq!(cache.total_bytes(), 0);
    assert!(cache.get("big").is_none());
}

#[test]
fn victims_come_least_recently_used_first() {
    let (mut cache, _) = DiskCache::open(&vec![], 100);
    for key in ["a", "b", "c", "d"] {
        assert!(cache.commit(key, 25).is_empty());
    }
    assert_eq!(cache.get("b"), Some(25));
    assert_eq!(cache.commit("e", 60), vec!["a", "c", "d"]);
    assert_eq!(cache.get("b"), Some(25));
    assert_eq!(cache.get("e"), Some(60));
}

#[test]
fn looking_up_a_missing_key_changes_nothing() {
    let (mut cache, _) = DiskCache::open(&vec![], 50);
    assert!(cache.commit("a", 25).is_empty());
    assert!(cache.commit("b", 25).is_empty());
    assert_eq!(cache.get("zzz"), None);
    assert_eq!(cache.commit("c", 25), vec!["a"]);
}

#[test]
fn entry_whose_file_vanished_is_forgotten() {
    let mut dir = Directory::new();
    let mut cache = open(&mut dir, 100);
    insert(&mut dir, &mut cache, "a", &[0u8; 30]);
    insert(&mut dir, &mut cache, "b", &[0u8; 30]);
    dir.remove("a");
    assert!(read_entry(&dir, &mut cache, "a").is_none());
    assert_eq!(cache.total_bytes(), 30);
    assert_eq!(cache.get("a"), None);
    assert_eq!(cache.get("b"), Some(30));
    cache.forget("a");
    assert_eq!(cache.total_bytes(), 30);
}

#[test]
fn temporary_names_are_numbered() {
    let (mut cache, _) = DiskCache::open(&vec![], 100);
    assert_eq!(cache.temp_path(1), "1-0.tmp");
    assert_eq!(cache.temp_path(1), "1-1.tmp");
    assert_eq!(cache.temp_path(4294967295), "4294967295-2.tmp");
}

#[test]
fn only_named_files_are_entries() {
    let files = vec![
        ScannedFile {
            is_file: false,
            name: Some("dir".to_string()),
            size: 4096,
            modified: Some(1),
        },
        ScannedFile {
            is_file: true,
            name: None,
            size: 10,
            modified: Some(1),
        },
        ScannedFile {
            is_file: false,
            name: Some("dir.tmp".to_string()),
            size: 0,
            modified: Some(1),
        },
        file("a", 7, None),
        file(".tmp", 7, None),
    ];
    let (mut cache, doomed) = DiskCache::open(&files, 100);
    assert_eq!(doomed, vec![".tmp"]);
    assert_eq!(cache.total_bytes(), 7);
    assert_eq!(cache.get("a"), Some(7));
    assert_eq!(cache.get("dir"), None);
}

#[test]
fn unknown_time_counts_as_the_start_of_1970() {
    let files = vec![
        file("late", 10, Some(5)),
        file("unknown", 10, None),
        file("early", 10, Some(-5)),
    ];
    let (_, doomed) = DiskCache::open(&files, 10);
    assert_eq!(doomed, vec!["early", "unknown"]);
}

#[test]
fn equally_old_entries_keep_the_order_of_the_listing() {
    let files = vec![
        file("x", 10, Some(3)),
        file("a", 10, Some(3)),
        file("m", 10, Some(3)),
    ];
    let (_, doomed) = DiskCache::open(&files, 0);
    assert_eq!(doomed, vec!["x", "a", "m"]);
}

#[test]
fn leftovers_are_removed_before_victims() {
    let files = vec![
        file("old", 60, Some(1)),
        file("9-1.tmp", 1000, Some(2)),
        file("new", 60, Some(3)),
        file("9-0.tmp", 1000, Some(4)),
    ];
    let (cache, doomed) = DiskCache::open(&files, 100);
    assert_eq!(doomed, vec!["9-1.tmp", "9-0.tmp", "old"]);
    assert_eq!(cache.total_bytes(), 60);
}

#[test]
fn pruning_removes_the_oldest() {
    let mut files = vec![
        file("c.json", 1, Some(30)),
        file("a.json", 1, Some(10)),
        file("d.json", 1, None),
        file("b.json", 1, Some(20)),
    ];
    files.push(ScannedFile {
        is_file: false,
        name: Some("dir".to_string()),
        size: 0,
        modified: Some(1),
    });
    files.push(ScannedFile {
        is_file: true,
        name: None,
        size: 0,
        modified: Some(15),
    });
    assert!(prune_oldest(&files, 5).is_empty());
    assert!(prune_oldest(&files, 9).is_empty());
    assert_eq!(prune_oldest(&files, 4), vec![2]);
    assert_eq!(prune_oldest(&files, 2), vec![2, 1, 5]);
    assert_eq!(prune_oldest(&files, 0), vec![2, 1, 5, 3, 0]);
}

#[test]
fn opening_the_store_prunes_what_is_over_its_bound() {
    assert_eq!(MAX_URL_RECORDS, 100_000);
    let files: Vec<ScannedFile> = (0..100_002)
        .map(|i| file(&format!("{i}.json"), 200, Some(-i)))
        .collect();
    let (_, doomed) = UrlStore::open(&files);
    assert_eq!(doomed, vec![100_001, 100_000]);
}

#[test]
fn record_in_memory_is_not_written_again() {
    let (mut store, _) = UrlStore::open(&vec![]);
    assert!(store.put("abc", true, PID).is_none());
    let write = store.put("abc", false, PID).unwrap();
    assert_eq!(write.tmp, "4711-0.tmp");
    assert_eq!(write.path, "abc.json");
    assert!(store.put("abc", true, PID).is_none());
    let write = store.put("def", false, PID).unwrap();
    assert_eq!(write.tmp, "4711-1.tmp");
    assert_eq!(write.path, "def.json");
    assert_eq!(store.record_path("x_y"), "x_y.json");
}

#[test]
fn entries_are_counted() {
    let (mut cache, _) = DiskCache::open(&vec![], 100);
    assert_eq!(cache.len(), 0);
    let _ = cache.commit("a", 40);
    let _ = cache.commit("b", 40);
    let _ = cache.commit("a", 50);
    assert_eq!(cache.len(), 2);
    assert_eq!(cache.total_bytes(), 90);
    let _ = cache.commit("c", 100);
    assert_eq!(cache.len(), 1);
}

#[test]
fn sizes_of_a_listing_are_added_up() {
    let mut files = vec![
        file("a", 7, None),
        file("b.tmp", 1000, None),
        file("c", u64::MAX - 7, None),
    ];
    assert_eq!(scanned_bytes(&files), Some(u64::MAX));
    files.push(file("d", 0, None));
    assert_eq!(scanned_bytes(&files), Some(u64::MAX));
    files.push(file("e", 1, None));
    assert_eq!(scanned_bytes(&files), None);
    assert_eq!(scanned_bytes(&vec![]), Some(0));
}
