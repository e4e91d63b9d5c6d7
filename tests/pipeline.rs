use std::collections::BTreeMap;

use minio_dashboard::backup::{is_null_or_empty, BackupAction, BackupRun, Failure};
use minio_dashboard::keymap::{child_object_key, join_path, key_to_path, path_to_key};
use minio_dashboard::resp::{bucket_names, object_hex, object_names, ListBucketResp, ListObjectResp};
use minio_dashboard::restore::{CreateOutcome, DirEntry, RestoreAction, RestoreRun};

type Store = BTreeMap<String, BTreeMap<String, Vec<u8>>>;
type Files = BTreeMap<String, Vec<u8>>;

fn store_of(buckets: &[(&str, &[(&str, &[u8])])]) -> Store {
    let mut s = Store::new();
    for (b, objs) in buckets {
        let mut m = BTreeMap::new();
        for (k, v) in objs.iter() {
            m.insert(k.to_string(), v.to_vec());
        }
        s.insert(b.to_string(), m);
    }
    s
}

fn failure_pairs(fs: &[Failure]) -> Vec<(String, String)> {
    fs.iter().map(|f| (f.subject.clone(), f.error.clone())).collect()
}

struct BackupOutcome {
    result: Result<(), String>,
    failures: Vec<(String, String)>,
    listed: Vec<String>,
}

fn run_backup(store: &Store, files: &mut Files, root: &str, filter: &str, broken: &[&str]) -> BackupOutcome {
    let (mut run, mut action) = BackupRun::start(root.to_string(), filter.to_string(), '/');
    let mut listed = Vec::new();
    loop {
        action = match action {
            BackupAction::ListBuckets => {
                let names: Vec<String> = store.keys().cloned().collect();
                run.buckets_listed(Ok(names))
            }
            BackupAction::ListObjects(b) => {
                listed.push(b.clone());
                match store.get(&b) {
                    Some(objs) => run.objects_listed(Ok(objs.keys().cloned().collect())),
                    None => run.objects_listed(Err(format!("no bucket {}", b))),
                }
            }
            BackupAction::Fetch(ts) => {
                let mut outcomes = Vec::new();
                for t in ts {
                    if broken.contains(&t.key.as_str()) {
                        outcomes.push(Err("transient".to_string()));
                    } else {
                        let data = store[&t.bucket][&t.key].clone();
                        files.insert(t.path, data);
                        outcomes.push(Ok(()));
                    }
                }
                run.batch_done(outcomes)
            }
            BackupAction::Finish(r) => {
                return BackupOutcome { result: r, failures: failure_pairs(&run.failures), listed };
            }
        };
    }
}

fn list_dir(files: &Files, dir: &str) -> Result<Vec<DirEntry>, String> {
    let prefix = format!("{}/", dir);
    let mut seen: BTreeMap<String, bool> = BTreeMap::new();
    for path in files.keys() {
        if let Some(rest) = path.strip_prefix(&prefix) {
            match rest.find('/') {
                Some(i) => {
                    seen.insert(rest[..i].to_string(), true);
                }
                None => {
                    seen.entry(rest.to_string()).or_insert(false);
                }
            }
        }
    }
    if seen.is_empty() {
        return Err(format!("cannot read {}", dir));
    }
    Ok(seen.into_iter().map(|(name, is_dir)| DirEntry { name, is_dir }).collect())
}

fn run_restore(files: &Files, store: &mut Store, root: &str, unreadable: &[&str], refused: &[&str]) -> (Result<(), String>, Vec<(String, String)>) {
    let mut run = RestoreRun::start(root.to_string(), '/');
    let mut action = run.root_listed(list_dir(files, root));
    loop {
        action = match action {
            RestoreAction::CreateBucket(b) => {
                if refused.contains(&b.as_str()) {
                    run.bucket_created(CreateOutcome::Failed("access denied".to_string()))
                } else if store.contains_key(&b) {
                    run.bucket_created(CreateOutcome::AlreadyExists)
                } else {
                    store.insert(b, BTreeMap::new());
                    run.bucket_created(CreateOutcome::Created)
                }
            }
            RestoreAction::ListDir(p) => {
                if unreadable.contains(&p.as_str()) {
                    run.dir_listed(Err("permission denied".to_string()))
                } else {
                    run.dir_listed(list_dir(files, &p))
                }
            }
            RestoreAction::Upload(us) => {
                let mut outcomes = Vec::new();
                for u in us {
                    let data = files[&u.path].clone();
                    store.get_mut(&u.bucket).unwrap().insert(u.key, data);
                    outcomes.push(Ok(()));
                }
                run.uploads_done(outcomes)
            }
            RestoreAction::Finish(r) => return (r, failure_pairs(&run.failures)),
        };
    }
}

fn abc_store() -> Store {
    store_of(&[("bucket", &[("a", b"one"), ("b/c", b"two"), ("b/d", b"three")])])
}

#[test]
fn key_to_path_joins_segments_with_separator() {
    assert_eq!(key_to_path("/data", "b/c/d", '/'), "/data/b/c/d");
    assert_eq!(key_to_path("C:\\data", "b/c", '\\'), "C:\\data\\b\\c");
    assert_eq!(key_to_path("r", "a//b", '\\'), "r\\a\\\\b");
}

#[test]
fn path_to_key_reads_key_below_root() {
    assert_eq!(path_to_key("/data", "/data/b/c", '/'), Some("b/c".to_string()));
    assert_eq!(path_to_key("C:\\data", "C:\\data\\b\\c", '\\'), Some("b/c".to_string()));
    assert_eq!(path_to_key("/data", "/other/b", '/'), None);
    assert_eq!(path_to_key("/data", "/data", '/'), None);
    assert_eq!(path_to_key("/data", "/database", '/'), None);
}

#[test]
fn key_path_round_trip() {
    for key in ["a", "b/c", "x/y/z.txt", "a//b"] {
        for sep in ['/', '\\'] {
            let p = key_to_path("root", key, sep);
            assert_eq!(path_to_key("root", &p, sep), Some(key.to_string()));
        }
    }
}

#[test]
fn child_key_top_level_and_nested() {
    assert_eq!(child_object_key("", "a"), "a");
    assert_eq!(child_object_key("b", "c"), "b/c");
    assert_eq!(child_object_key("b/c", "d"), "b/c/d");
    assert_eq!(join_path("/r", "x", '/'), "/r/x");
}

#[test]
fn object_hex_encodes_each_byte() {
    assert_eq!(object_hex(&vec![0x00, 0xab, 0x1f, 0xff]), "00ab1fff");
    assert_eq!(object_hex(&vec![]), "");
    assert_eq!(object_hex(&b"Hi".to_vec()), "4869");
}

#[test]
fn listing_names_in_order() {
    let bs = vec![
        ListBucketResp { bucket_name: "x".to_string() },
        ListBucketResp { bucket_name: "y".to_string() },
    ];
    assert_eq!(bucket_names(&bs), vec!["x".to_string(), "y".to_string()]);
    let os = vec![ListObjectResp { object_name: "b/c".to_string() }];
    assert_eq!(object_names(&os), vec!["b/c".to_string()]);
}

#[test]
fn filter_all_buckets() {
    assert!(is_null_or_empty(""));
    assert!(is_null_or_empty("null"));
    assert!(!is_null_or_empty("nul"));
    assert!(!is_null_or_empty("x"));
    assert!(!is_null_or_empty("NULL"));
}

#[test]
fn backup_completeness() {
    let store = abc_store();
    let mut files = Files::new();
    let out = run_backup(&store, &mut files, "/root", "bucket", &[]);
    assert_eq!(out.result, Ok(()));
    let expected: Files = [
        ("/root/bucket/a".to_string(), b"one".to_vec()),
        ("/root/bucket/b/c".to_string(), b"two".to_vec()),
        ("/root/bucket/b/d".to_string(), b"three".to_vec()),
    ]
    .into_iter()
    .collect();
    assert_eq!(files, expected);
}

#[test]
fn backup_twice_gives_same_files() {
    let store = abc_store();
    let mut files = Files::new();
    run_backup(&store, &mut files, "/root", "bucket", &[]);
    let once = files.clone();
    let out = run_backup(&store, &mut files, "/root", "bucket", &[]);
    assert_eq!(out.result, Ok(()));
    assert_eq!(files, once);
}

#[test]
fn backup_fault_isolation() {
    let store = abc_store();
    let mut files = Files::new();
    let out = run_backup(&store, &mut files, "/root", "bucket", &["b/c"]);
    assert_eq!(out.result, Ok(()));
    assert_eq!(out.failures, vec![("/root/bucket/b/c".to_string(), "transient".to_string())]);
    assert_eq!(files.get("/root/bucket/a"), Some(&b"one".to_vec()));
    assert_eq!(files.get("/root/bucket/b/d"), Some(&b"three".to_vec()));
    assert_eq!(files.get("/root/bucket/b/c"), None);
}

fn xy_store() -> Store {
    store_of(&[("x", &[("k1", b"1")]), ("y", &[("k2", b"2")])])
}

#[test]
fn backup_bucket_filter() {
    let store = xy_store();
    let mut files = Files::new();
    let out = run_backup(&store, &mut files, "/root", "x", &[]);
    assert_eq!(out.result, Ok(()));
    assert_eq!(out.listed, vec!["x".to_string()]);
    assert_eq!(files.keys().cloned().collect::<Vec<_>>(), vec!["/root/x/k1".to_string()]);
}

#[test]
fn backup_all_buckets() {
    for filter in ["", "null"] {
        let store = xy_store();
        let mut files = Files::new();
        let out = run_backup(&store, &mut files, "/root", filter, &[]);
        assert_eq!(out.result, Ok(()));
        assert_eq!(out.listed, vec!["x".to_string(), "y".to_string()]);
        assert_eq!(
            files.keys().cloned().collect::<Vec<_>>(),
            vec!["/root/x/k1".to_string(), "/root/y/k2".to_string()]
        );
    }
}

#[test]
fn backup_listing_error_ends_run() {
    let store = xy_store();
    let mut files = Files::new();
    let out = run_backup(&store, &mut files, "/root", "missing", &[]);
    assert_eq!(out.result, Err("no bucket missing".to_string()));
    assert!(files.is_empty());

    let (mut run, _) = BackupRun::start("/root".to_string(), "null".to_string(), '/');
    match run.buckets_listed(Err("offline".to_string())) {
        BackupAction::Finish(r) => assert_eq!(r, Err("offline".to_string())),
        _ => panic!("a listing error ends the run"),
    }
}

#[test]
fn backup_empty_bucket_moves_on() {
    let store = store_of(&[("e", &[]), ("x", &[("k", b"v")])]);
    let mut files = Files::new();
    let out = run_backup(&store, &mut files, "/root", "", &[]);
    assert_eq!(out.result, Ok(()));
    assert_eq!(files.len(), 1);
    assert_eq!(files.get("/root/x/k"), Some(&b"v".to_vec()));
}

fn abc_tree() -> Files {
    [
        ("/root/bucket/a".to_string(), b"one".to_vec()),
        ("/root/bucket/b/c".to_string(), b"two".to_vec()),
        ("/root/bucket/b/d".to_string(), b"three".to_vec()),
    ]
    .into_iter()
    .collect()
}

#[test]
fn restore_completeness() {
    let files = abc_tree();
    let mut store = Store::new();
    let (r, failures) = run_restore(&files, &mut store, "/root", &[], &[]);
    assert_eq!(r, Ok(()));
    assert!(failures.is_empty());
    assert_eq!(store, abc_store());
}

#[test]
fn restore_then_backup_round_trip() {
    let files = abc_tree();
    let mut store = Store::new();
    run_restore(&files, &mut store, "/root", &[], &[]);
    let mut back = Files::new();
    run_backup(&store, &mut back, "/root", "", &[]);
    assert_eq!(back, files);
}

#[test]
fn restore_bucket_already_exists() {
    let files = abc_tree();
    let mut store = store_of(&[("bucket", &[("old", b"kept")])]);
    let (r, failures) = run_restore(&files, &mut store, "/root", &[], &[]);
    assert_eq!(r, Ok(()));
    assert!(failures.is_empty());
    let keys: Vec<String> = store["bucket"].keys().cloned().collect();
    assert_eq!(keys, vec!["a", "b/c", "b/d", "old"]);
}

#[test]
fn restore_skips_bucket_that_cannot_be_created() {
    let mut files = abc_tree();
    files.insert("/root/other/k".to_string(), b"v".to_vec());
    let mut store = Store::new();
    let (r, failures) = run_restore(&files, &mut store, "/root", &[], &["bucket"]);
    assert_eq!(r, Ok(()));
    assert_eq!(failures, vec![("/root/bucket".to_string(), "access denied".to_string())]);
    assert!(!store.contains_key("bucket"));
    assert_eq!(store["other"]["k"], b"v".to_vec());
}

#[test]
fn restore_unreadable_directory_is_recorded() {
    let files = abc_tree();
    let mut store = Store::new();
    let (r, failures) = run_restore(&files, &mut store, "/root", &["/root/bucket/b"], &[]);
    assert_eq!(r, Ok(()));
    assert_eq!(failures, vec![("/root/bucket/b".to_string(), "permission denied".to_string())]);
    let keys: Vec<String> = store["bucket"].keys().cloned().collect();
    assert_eq!(keys, vec!["a"]);
}

#[test]
fn restore_root_listing_error_ends_run() {
    let mut run = RestoreRun::start("/nowhere".to_string(), '/');
    match run.root_listed(Err("not found".to_string())) {
        RestoreAction::Finish(r) => assert_eq!(r, Err("not found".to_string())),
        _ => panic!("a root listing error ends the run"),
    }
}

#[test]
fn restore_failed_upload_is_recorded() {
    let mut run = RestoreRun::start("/root".to_string(), '/');
    let entries = vec![DirEntry { name: "bucket".to_string(), is_dir: true }];
    assert!(matches!(run.root_listed(Ok(entries)), RestoreAction::CreateBucket(ref b) if b == "bucket"));
    assert!(matches!(run.bucket_created(CreateOutcome::Created), RestoreAction::ListDir(ref p) if p == "/root/bucket"));
    let listing = vec![
        DirEntry { name: "a".to_string(), is_dir: false },
        DirEntry { name: "z".to_string(), is_dir: false },
    ];
    match run.dir_listed(Ok(listing)) {
        RestoreAction::Upload(us) => {
            let keys: Vec<&str> = us.iter().map(|u| u.key.as_str()).collect();
            assert_eq!(keys, vec!["a", "z"]);
        }
        _ => panic!("files are uploaded"),
    }
    match run.uploads_done(vec![Err("timeout".to_string()), Ok(())]) {
        RestoreAction::Finish(r) => assert_eq!(r, Ok(())),
        _ => panic!("the run ends"),
    }
    assert_eq!(failure_pairs(&run.failures), vec![("/root/bucket/a".to_string(), "timeout".to_string())]);
}

#[test]
fn backup_failures_tell_buckets_apart() {
    let store = store_of(&[("x", &[("k", b"1")]), ("y", &[("k", b"2")])]);
    let mut files = Files::new();
    let out = run_backup(&store, &mut files, "/root", "", &["k"]);
    assert_eq!(out.result, Ok(()));
    assert_eq!(
        out.failures,
        vec![
            ("/root/x/k".to_string(), "transient".to_string()),
            ("/root/y/k".to_string(), "transient".to_string()),
        ]
    );
}

#[test]
fn restore_deep_file_gets_relative_key() {
    let files: Files = [
        ("/root/b/x/y/z.txt".to_string(), b"deep".to_vec()),
        ("/root/b/top".to_string(), b"top".to_vec()),
    ]
    .into_iter()
    .collect();
    let mut store = Store::new();
    let (r, failures) = run_restore(&files, &mut store, "/root", &[], &[]);
    assert_eq!(r, Ok(()));
    assert!(failures.is_empty());
    assert_eq!(store, store_of(&[("b", &[("top", b"top"), ("x/y/z.txt", b"deep")])]));
}

fn upload_keys(a: &RestoreAction) -> Vec<String> {
    match a {
        RestoreAction::Upload(us) => us.iter().map(|u| u.key.clone()).collect(),
        _ => panic!("expected an upload batch"),
    }
}

fn listed_dir(a: &RestoreAction) -> String {
    match a {
        RestoreAction::ListDir(p) => p.clone(),
        _ => panic!("expected a directory listing"),
    }
}

#[test]
fn restore_walks_depth_first_in_listing_order() {
    let mut run = RestoreRun::start("/root".to_string(), '/');
    let top = vec![DirEntry { name: "b".to_string(), is_dir: true }];
    assert!(matches!(run.root_listed(Ok(top)), RestoreAction::CreateBucket(_)));
    assert_eq!(listed_dir(&run.bucket_created(CreateOutcome::Created)), "/root/b");
    let listing = vec![
        DirEntry { name: "d".to_string(), is_dir: true },
        DirEntry { name: "f".to_string(), is_dir: false },
        DirEntry { name: "g".to_string(), is_dir: true },
        DirEntry { name: "h".to_string(), is_dir: false },
    ];
    assert_eq!(listed_dir(&run.dir_listed(Ok(listing))), "/root/b/d");
    let inner = vec![
        DirEntry { name: "x".to_string(), is_dir: false },
        DirEntry { name: "y".to_string(), is_dir: false },
    ];
    let a = run.dir_listed(Ok(inner));
    assert_eq!(upload_keys(&a), vec!["d/x", "d/y"]);
    let a = run.uploads_done(vec![Ok(()), Ok(())]);
    assert_eq!(upload_keys(&a), vec!["f"]);
    let a = run.uploads_done(vec![Ok(())]);
    assert_eq!(listed_dir(&a), "/root/b/g");
    let a = run.dir_listed(Ok(vec![]));
    assert_eq!(upload_keys(&a), vec!["h"]);
    match run.uploads_done(vec![Ok(())]) {
        RestoreAction::Finish(r) => assert_eq!(r, Ok(())),
        _ => panic!("the run ends"),
    }
}
