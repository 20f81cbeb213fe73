use pathsync_config::codec::{encode_syncfile, manifest_from_json, read_syncfile, ManifestError};
use pathsync_config::json::Json;
use pathsync_config::hello::HelloRust;
use pathsync_config::manifest::{init_syncfile, Syncfile};
use pathsync_config::store::write_syncfile;

fn s(x: &str) -> String {
    x.to_string()
}

fn with_pairs(pairs: &[(&str, &str)]) -> Syncfile {
    let mut sf = init_syncfile();
    for (k, v) in pairs {
        sf.insert_pair(s(k), s(v));
    }
    sf
}

#[test]
fn init_is_empty() {
    let sf = init_syncfile();
    assert!(sf.st_pairs.is_empty());
    assert!(sf.cache_dirs.is_empty());
    assert!(sf.ignore.is_empty());
}

#[test]
fn insert_pair_replaces_existing_id() {
    let mut sf = with_pairs(&[("a", "/x"), ("b", "/y")]);
    sf.insert_pair(s("a"), s("/z"));
    assert_eq!(sf.st_pairs, vec![(s("a"), s("/z")), (s("b"), s("/y"))]);
}

#[test]
fn backfill_fills_every_pair() {
    let mut sf = with_pairs(&[("a", "/src/a"), ("b", "/src/b/")]);
    sf.backfill_cache_dirs();
    assert_eq!(
        sf.cache_dirs,
        vec![(s("a"), s("/src/a/cache")), (s("b"), s("/src/b//cache"))]
    );
}

#[test]
fn backfill_keeps_existing_cache_dir() {
    let mut sf = with_pairs(&[("a", "/src/a"), ("b", "/src/b")]);
    sf.cache_dirs.push((s("a"), s("/elsewhere")));
    sf.cache_dirs.push((s("orphan"), s("/orphan")));
    sf.backfill_cache_dirs();
    assert_eq!(
        sf.cache_dirs,
        vec![
            (s("a"), s("/elsewhere")),
            (s("orphan"), s("/orphan")),
            (s("b"), s("/src/b/cache")),
        ]
    );
}

#[test]
fn backfill_twice_changes_nothing_more() {
    let mut sf = with_pairs(&[("a", "/src/a")]);
    sf.backfill_cache_dirs();
    let once = sf.cache_dirs.clone();
    sf.backfill_cache_dirs();
    assert_eq!(sf.cache_dirs, once);
}

#[test]
fn encode_exact_document() {
    let mut sf = with_pairs(&[("p", "/a"), ("q", "/b")]);
    sf.cache_dirs.push((s("p"), s("/c")));
    sf.ignore.push(s("*.o"));
    sf.ignore.push(s("tmp"));
    let text = encode_syncfile(&sf).unwrap();
    assert_eq!(
        text,
        "{\"st_pairs\":{\"p\":\"/a\",\"q\":\"/b\"},\"cache_dirs\":{\"p\":\"/c\"},\"ignore\":[\"*.o\",\"tmp\"]}"
    );
}

#[test]
fn encode_empty_document() {
    let text = encode_syncfile(&init_syncfile()).unwrap();
    assert_eq!(text, "{\"st_pairs\":{},\"cache_dirs\":{},\"ignore\":[]}");
}

#[test]
fn encode_escapes_strings() {
    let sf = with_pairs(&[("we\"ird", "C:\\dir\n")]);
    let text = encode_syncfile(&sf).unwrap();
    assert_eq!(
        text,
        "{\"st_pairs\":{\"we\\\"ird\":\"C:\\\\dir\\n\"},\"cache_dirs\":{},\"ignore\":[]}"
    );
}

#[test]
fn save_then_load_round_trip() {
    let mut sf = with_pairs(&[("proj", "/tmp/src"), ("we\"ird", "/x y/\u{e9}")]);
    sf.cache_dirs.push((s("other"), s("/cache/other")));
    sf.ignore.push(s("*.tmp"));
    sf.ignore.push(s("build"));
    let plan = write_syncfile(&mut sf).unwrap();
    let back = read_syncfile(&plan.document).unwrap();
    let mut want_pairs = back.st_pairs.clone();
    let mut got_pairs = sf.st_pairs.clone();
    want_pairs.sort();
    got_pairs.sort();
    assert_eq!(want_pairs, got_pairs);
    let mut want_cache = back.cache_dirs.clone();
    let mut got_cache = sf.cache_dirs.clone();
    want_cache.sort();
    got_cache.sort();
    assert_eq!(want_cache, got_cache);
    assert_eq!(back.ignore, sf.ignore);
}

#[test]
fn load_empty_document_is_init() {
    let sf = read_syncfile("{\"st_pairs\":{},\"cache_dirs\":{},\"ignore\":[]}").unwrap();
    assert_eq!(sf, init_syncfile());
}

#[test]
fn load_reads_all_fields() {
    let sf = read_syncfile(
        " {\"ignore\":[\"a\",\"b\"], \"cache_dirs\":{\"k\":\"/c\"}, \"st_pairs\":{\"k\":\"/s\"}, \"extra\":1}",
    )
    .unwrap();
    assert_eq!(sf.st_pairs, vec![(s("k"), s("/s"))]);
    assert_eq!(sf.cache_dirs, vec![(s("k"), s("/c"))]);
    assert_eq!(sf.ignore, vec![s("a"), s("b")]);
}

#[test]
fn load_truncated_fails() {
    assert_eq!(
        read_syncfile("{\"st_pairs\":{},\"cache_dirs\":{"),
        Err(ManifestError::Decode)
    );
}

#[test]
fn load_missing_st_pairs_fails() {
    assert_eq!(
        read_syncfile("{\"cache_dirs\":{},\"ignore\":[]}"),
        Err(ManifestError::Decode)
    );
}

#[test]
fn load_missing_ignore_fails() {
    assert_eq!(
        read_syncfile("{\"st_pairs\":{},\"cache_dirs\":{}}"),
        Err(ManifestError::Decode)
    );
}

#[test]
fn load_wrong_shapes_fail() {
    assert_eq!(read_syncfile("[]"), Err(ManifestError::Decode));
    assert_eq!(
        read_syncfile("{\"st_pairs\":{\"a\":1},\"cache_dirs\":{},\"ignore\":[]}"),
        Err(ManifestError::Decode)
    );
    assert_eq!(
        read_syncfile("{\"st_pairs\":{},\"cache_dirs\":[],\"ignore\":[]}"),
        Err(ManifestError::Decode)
    );
    assert_eq!(
        read_syncfile("{\"st_pairs\":{},\"cache_dirs\":{},\"ignore\":[3]}"),
        Err(ManifestError::Decode)
    );
}

#[test]
fn save_single_pair_scenario() {
    let mut sf = read_syncfile("{\"st_pairs\":{\"proj\":\"/tmp/src\"},\"cache_dirs\":{},\"ignore\":[\"*.tmp\"]}")
        .unwrap();
    let plan = write_syncfile(&mut sf).unwrap();
    assert_eq!(sf.cache_dirs, vec![(s("proj"), s("/tmp/src/cache"))]);
    assert_eq!(plan.source_dirs, vec![s("/tmp/src")]);
    assert_eq!(plan.cache_files, vec![s("/tmp/src/cache")]);
    assert_eq!(plan.placeholder, "{}");
    assert_eq!(
        plan.document,
        "{\"st_pairs\":{\"proj\":\"/tmp/src\"},\"cache_dirs\":{\"proj\":\"/tmp/src/cache\"},\"ignore\":[\"*.tmp\"]}"
    );
}

#[test]
fn save_lists_orphan_cache_dirs() {
    let mut sf = with_pairs(&[("a", "/s/a")]);
    sf.cache_dirs.push((s("gone"), s("/c/gone")));
    let plan = write_syncfile(&mut sf).unwrap();
    assert_eq!(plan.source_dirs, vec![s("/s/a")]);
    assert_eq!(plan.cache_files, vec![s("/c/gone"), s("/s/a/cache")]);
}

#[test]
fn hello_greets() {
    assert_eq!(HelloRust::default().greeting(), "Hello world!");
}

#[test]
fn encode_escapes_control_characters() {
    let sf = with_pairs(&[("a\u{1}", "\t\u{8}\u{c}\r\u{1f}")]);
    let text = encode_syncfile(&sf).unwrap();
    assert_eq!(
        text,
        "{\"st_pairs\":{\"a\\u0001\":\"\\t\\b\\f\\r\\u001f\"},\"cache_dirs\":{},\"ignore\":[]}"
    );
}

#[test]
fn load_keeps_ignore_order_and_duplicates() {
    let sf = read_syncfile("{\"st_pairs\":{},\"cache_dirs\":{},\"ignore\":[\"b\",\"a\",\"b\"]}").unwrap();
    assert_eq!(sf.ignore, vec![s("b"), s("a"), s("b")]);
}

#[test]
fn load_accepts_cache_dir_without_pair() {
    let sf = read_syncfile("{\"st_pairs\":{},\"cache_dirs\":{\"x\":\"/c\"},\"ignore\":[]}").unwrap();
    assert!(sf.st_pairs.is_empty());
    assert_eq!(sf.cache_dirs, vec![(s("x"), s("/c"))]);
}

#[test]
fn load_does_not_backfill() {
    let sf = read_syncfile("{\"st_pairs\":{\"p\":\"/s\"},\"cache_dirs\":{},\"ignore\":[]}").unwrap();
    assert_eq!(sf.st_pairs, vec![(s("p"), s("/s"))]);
    assert!(sf.cache_dirs.is_empty());
    assert!(sf.ignore.is_empty());
}

#[test]
fn save_twice_gives_same_document() {
    let mut sf = with_pairs(&[("a", "/s/a")]);
    let first = write_syncfile(&mut sf).unwrap();
    let cache_after_first = sf.cache_dirs.clone();
    let second = write_syncfile(&mut sf).unwrap();
    assert_eq!(sf.cache_dirs, cache_after_first);
    assert_eq!(first.document, second.document);
    let back = read_syncfile(&second.document).unwrap();
    assert_eq!(back.cache_dirs, cache_after_first);
}

#[test]
fn manifest_from_parsed_document() {
    let doc = Json::Object(vec![
        (s("extra"), Json::Other),
        (
            s("st_pairs"),
            Json::Object(vec![(s("p"), Json::Str(s("/s"))), (s("q"), Json::Str(s("/t")))]),
        ),
        (s("cache_dirs"), Json::Object(vec![(s("p"), Json::Str(s("/c")))])),
        (s("ignore"), Json::Array(vec![Json::Str(s("x")), Json::Str(s("x"))])),
    ]);
    let sf = manifest_from_json(&doc).unwrap();
    assert_eq!(sf.st_pairs, vec![(s("p"), s("/s")), (s("q"), s("/t"))]);
    assert_eq!(sf.cache_dirs, vec![(s("p"), s("/c"))]);
    assert_eq!(sf.ignore, vec![s("x"), s("x")]);
}

#[test]
fn manifest_from_parsed_document_rejects_shapes() {
    let good_tables = || {
        vec![
            (s("st_pairs"), Json::Object(vec![])),
            (s("cache_dirs"), Json::Object(vec![])),
        ]
    };
    assert_eq!(manifest_from_json(&Json::Other), Err(ManifestError::Decode));
    assert_eq!(manifest_from_json(&Json::Object(good_tables())), Err(ManifestError::Decode));
    let mut bad_item = good_tables();
    bad_item.push((s("ignore"), Json::Array(vec![Json::Other])));
    assert_eq!(manifest_from_json(&Json::Object(bad_item)), Err(ManifestError::Decode));
    let mut ok = good_tables();
    ok.push((s("ignore"), Json::Array(vec![])));
    assert_eq!(manifest_from_json(&Json::Object(ok)), Ok(init_syncfile()));
    let bad_pair = vec![
        (s("st_pairs"), Json::Object(vec![(s("p"), Json::Array(vec![]))])),
        (s("cache_dirs"), Json::Object(vec![])),
        (s("ignore"), Json::Array(vec![])),
    ];
    assert_eq!(manifest_from_json(&Json::Object(bad_pair)), Err(ManifestError::Decode));
}
