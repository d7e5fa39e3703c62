use quickcopy::change_detector::{ChangeDetector, TargetListing};
use quickcopy::configuration::{ProgramOptions, RuntimeType};
use quickcopy::paths::{ActionType, FileInfoParser};

fn options(source: &str, target: &str) -> ProgramOptions {
    ProgramOptions {
        runtime: RuntimeType::Batch,
        source_directory: String::from(source),
        target_directories: vec![String::from(target)],
        check_time: 20000,
        enable_deletes: false,
        skip_folders: Vec::new(),
        extensions: Vec::new(),
        use_config_file: false,
        update_compare_modified: false,
        update_compare_size: false,
        update_compare_md5: false,
    }
}

fn record(path: &str, base: &str, is_file: bool, size: u64, modified: u64) -> FileInfoParser {
    FileInfoParser::new(&String::from(path), &String::from(base), is_file, size, modified, None)
}

#[test]
fn empty_target_yields_creates_directory_then_file() {
    let mut o = options("src", "dst");
    o.update_compare_size = true;
    let detector = ChangeDetector::new(o);
    let source_items = vec![
        record("src/a", "src", false, 0, 0),
        record("src/a/b.txt", "src", true, 10, 0),
    ];
    let targets = vec![TargetListing { directory: String::from("dst"), items: Vec::new() }];
    let lists = detector.three_way_merge(&source_items, &targets);
    assert_eq!(lists.len(), 1);
    let list = &lists[0];
    assert_eq!(list.source_directory, String::from("src"));
    assert_eq!(list.target_directory, String::from("dst"));
    assert_eq!(list.actions.len(), 2);
    assert!(list.actions.iter().all(|a| a.action_type == ActionType::Create));
    let paths: Vec<String> = list
        .actions
        .iter()
        .map(|a| a.source.as_ref().unwrap().get_path())
        .collect();
    assert_eq!(paths, vec![String::from("src/a"), String::from("src/a/b.txt")]);
}

#[test]
fn equal_size_different_modified_is_unchanged_with_size_only() {
    let mut o = options("src", "dst");
    o.update_compare_size = true;
    o.update_compare_modified = false;
    let detector = ChangeDetector::new(o);
    let source_items = vec![
        record("src/a", "src", false, 0, 5),
        record("src/a/b.txt", "src", true, 10, 5),
    ];
    let targets = vec![TargetListing {
        directory: String::from("dst"),
        items: vec![
            record("dst/a", "dst", false, 0, 9),
            record("dst/a/b.txt", "dst", true, 10, 9),
        ],
    }];
    let lists = detector.three_way_merge(&source_items, &targets);
    assert_eq!(lists.len(), 1);
    assert_eq!(lists[0].actions.len(), 0);
}

#[test]
fn modified_mismatch_flags_update_when_enabled() {
    let mut o = options("src", "dst");
    o.update_compare_modified = true;
    let detector = ChangeDetector::new(o);
    let source_items = vec![record("src/a.txt", "src", true, 10, 5)];
    let targets = vec![TargetListing {
        directory: String::from("dst"),
        items: vec![record("dst/a.txt", "dst", true, 10, 9)],
    }];
    let lists = detector.three_way_merge(&source_items, &targets);
    assert_eq!(lists[0].actions.len(), 1);
    assert_eq!(lists[0].actions[0].action_type, ActionType::Update);
    assert_eq!(
        lists[0].actions[0].destination.as_ref().unwrap().get_path(),
        String::from("dst/a.txt")
    );
}

#[test]
fn extra_target_file_is_classified_delete() {
    let detector = ChangeDetector::new(options("src", "dst"));
    let source_items = vec![record("src/keep.txt", "src", true, 1, 0)];
    let targets = vec![TargetListing {
        directory: String::from("dst"),
        items: vec![
            record("dst/keep.txt", "dst", true, 1, 0),
            record("dst/old.log", "dst", true, 7, 0),
        ],
    }];
    let lists = detector.three_way_merge(&source_items, &targets);
    assert_eq!(lists[0].actions.len(), 1);
    let delete = &lists[0].actions[0];
    assert_eq!(delete.action_type, ActionType::Delete);
    assert_eq!(delete.destination.as_ref().unwrap().get_path(), String::from("dst/old.log"));
    assert!(delete.source.is_none());
}

#[test]
fn identical_roots_produce_no_list() {
    let detector = ChangeDetector::new(options("data", "DATA"));
    let source_items = vec![record("data/x.txt", "data", true, 1, 0)];
    let targets = vec![TargetListing { directory: String::from("DATA"), items: Vec::new() }];
    let lists = detector.three_way_merge(&source_items, &targets);
    assert_eq!(lists.len(), 0);
    assert!(!detector.changed(&source_items, &targets));
}

#[test]
fn extension_filter_drops_unlisted_files_but_not_directories() {
    let mut o = options("src", "dst");
    o.extensions = vec![String::from("txt")];
    let detector = ChangeDetector::new(o);
    let source_items = vec![
        record("src/pics", "src", false, 0, 0),
        record("src/notes.txt", "src", true, 3, 0),
        record("src/image.png", "src", true, 3, 0),
    ];
    let targets = vec![TargetListing { directory: String::from("dst"), items: Vec::new() }];
    let lists = detector.three_way_merge(&source_items, &targets);
    let paths: Vec<String> = lists[0]
        .actions
        .iter()
        .map(|a| a.source.as_ref().unwrap().get_path())
        .collect();
    assert_eq!(paths, vec![String::from("src/pics"), String::from("src/notes.txt")]);
}

#[test]
fn skip_folder_drops_creates_but_keeps_deletes() {
    let mut o = options("src", "dst");
    o.skip_folders = vec![String::from("skipme")];
    let detector = ChangeDetector::new(o);
    let source_items = vec![
        record("src/skipme", "src", false, 0, 0),
        record("src/skipme/f.txt", "src", true, 2, 0),
        record("src/keep.txt", "src", true, 2, 0),
    ];
    let targets = vec![TargetListing {
        directory: String::from("dst"),
        items: vec![record("dst/skipme/old.txt", "dst", true, 2, 0)],
    }];
    let lists = detector.three_way_merge(&source_items, &targets);
    let actions = &lists[0].actions;
    assert_eq!(actions.len(), 2);
    assert_eq!(actions[0].action_type, ActionType::Create);
    assert_eq!(actions[0].source.as_ref().unwrap().get_path(), String::from("src/keep.txt"));
    assert_eq!(actions[1].action_type, ActionType::Delete);
    assert_eq!(
        actions[1].destination.as_ref().unwrap().get_path(),
        String::from("dst/skipme/old.txt")
    );
}

#[test]
fn creates_of_one_direction_match_deletes_of_the_other() {
    let detector_fwd = ChangeDetector::new(options("one", "two"));
    let detector_rev = ChangeDetector::new(options("two", "one"));
    let one_items = vec![
        record("one/only_here.txt", "one", true, 1, 0),
        record("one/shared.txt", "one", true, 1, 0),
    ];
    let two_items = vec![
        record("two/shared.txt", "two", true, 1, 0),
        record("two/only_there.txt", "two", true, 1, 0),
    ];
    let fwd = detector_fwd.three_way_merge(
        &one_items,
        &vec![TargetListing { directory: String::from("two"), items: two_items.clone() }],
    );
    let rev = detector_rev.three_way_merge(
        &two_items,
        &vec![TargetListing { directory: String::from("one"), items: one_items.clone() }],
    );
    let fwd_creates: Vec<String> = fwd[0]
        .actions
        .iter()
        .filter(|a| a.action_type == ActionType::Create)
        .map(|a| a.source.as_ref().unwrap().get_path())
        .collect();
    let rev_deletes: Vec<String> = rev[0]
        .actions
        .iter()
        .filter(|a| a.action_type == ActionType::Delete)
        .map(|a| a.destination.as_ref().unwrap().get_path())
        .collect();
    assert_eq!(fwd_creates, rev_deletes);
    assert_eq!(fwd_creates, vec![String::from("one/only_here.txt")]);
}

#[test]
fn converged_snapshots_yield_no_actions() {
    let mut o = options("src", "dst");
    o.update_compare_size = true;
    o.update_compare_modified = true;
    let detector = ChangeDetector::new(o);
    let source_items = vec![
        record("src/a", "src", false, 0, 3),
        record("src/a/b.txt", "src", true, 10, 3),
    ];
    let targets = vec![TargetListing {
        directory: String::from("dst"),
        items: vec![
            record("dst/a", "dst", false, 0, 3),
            record("dst/a/b.txt", "dst", true, 10, 3),
        ],
    }];
    let lists = detector.incremental_changes(&source_items, &targets);
    assert_eq!(lists.len(), 1);
    assert_eq!(lists[0].actions.len(), 0);
}

#[test]
fn hash_strategy_compares_content_hashes() {
    let mut o = options("src", "dst");
    o.update_compare_md5 = true;
    let detector = ChangeDetector::new(o);
    let mk = |base: &str, hash: &str| {
        FileInfoParser::new(
            &format!("{}/f.bin", base),
            &String::from(base),
            true,
            4,
            0,
            Some(String::from(hash)),
        )
    };
    let source_items = vec![mk("src", "123")];
    let targets = vec![TargetListing {
        directory: String::from("dst"),
        items: vec![mk("dst", "456")],
    }];
    let lists = detector.three_way_merge(&source_items, &targets);
    assert_eq!(lists[0].actions.len(), 1);
    assert_eq!(lists[0].actions[0].action_type, ActionType::Update);

    let source_same = vec![mk("src", "123")];
    let targets_same = vec![TargetListing {
        directory: String::from("dst"),
        items: vec![mk("dst", "123")],
    }];
    let lists_same = detector.three_way_merge(&source_same, &targets_same);
    assert_eq!(lists_same[0].actions.len(), 0);
}

#[test]
fn file_hash_matches_direct_digest() {
    let data: Vec<u8> = b"hello world".to_vec();
    let expected = xxhash_rust::xxh3::xxh3_64(b"hello world").to_string();
    assert_eq!(quickcopy::change_detector::build_file_comparative_hash(&data), expected);
}

#[test]
fn file_hash_concatenates_chunk_digests() {
    let data: Vec<u8> = vec![7u8; 6000];
    let first = xxhash_rust::xxh3::xxh3_64(&data[0..5192]).to_string();
    let rest = xxhash_rust::xxh3::xxh3_64(&data[5192..6000]).to_string();
    let expected = format!("{}{}", first, rest);
    assert_eq!(quickcopy::change_detector::build_file_comparative_hash(&data), expected);
}

#[test]
fn chunking_appends_empty_tail_on_exact_multiple() {
    let data: Vec<u8> = vec![1u8; 5192];
    let chunks = quickcopy::change_detector::split_into_chunks(&data);
    assert_eq!(chunks.len(), 2);
    assert_eq!(chunks[0].len(), 5192);
    assert_eq!(chunks[1].len(), 0);
}

#[test]
fn join_key_is_case_insensitive_across_separators() {
    let mut o = options("src", "dst");
    o.update_compare_size = true;
    let detector = ChangeDetector::new(o);
    let source_items = vec![
        record("src/Sub", "src", false, 0, 0),
        record("src/Sub/File.TXT", "src", true, 4, 0),
    ];
    let targets = vec![TargetListing {
        directory: String::from("dst"),
        items: vec![
            record("dst\\sub", "dst", false, 0, 0),
            record("dst\\sub\\file.txt", "dst", true, 4, 0),
        ],
    }];
    let lists = detector.three_way_merge(&source_items, &targets);
    assert_eq!(lists[0].actions.len(), 0);
}

#[test]
fn later_target_record_shadows_earlier_one_with_equal_key() {
    let mut o = options("src", "dst");
    o.update_compare_size = true;
    let detector = ChangeDetector::new(o);
    let source_items = vec![record("src/a.txt", "src", true, 4, 0)];
    let targets = vec![TargetListing {
        directory: String::from("dst"),
        items: vec![
            record("dst/a.txt", "dst", true, 4, 0),
            record("dst/A.TXT", "dst", true, 9, 0),
        ],
    }];
    let lists = detector.three_way_merge(&source_items, &targets);
    assert_eq!(lists[0].actions.len(), 1);
    assert_eq!(lists[0].actions[0].action_type, ActionType::Update);
    assert_eq!(
        lists[0].actions[0].destination.as_ref().unwrap().get_path(),
        String::from("dst/A.TXT")
    );
}
