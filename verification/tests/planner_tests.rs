use quickcopy::change_detector::{ChangeDetector, TargetListing};
use quickcopy::configuration::{ProgramOptions, RuntimeType};
use quickcopy::copier::{Copier, FsOperation};
use quickcopy::paths::{ActionType, FileInfoParser, FileInfoParserAction, FileInfoParserActionList};

fn options(enable_deletes: bool) -> ProgramOptions {
    ProgramOptions {
        runtime: RuntimeType::Batch,
        source_directory: String::from("src"),
        target_directories: vec![String::from("dst")],
        check_time: 20000,
        enable_deletes,
        skip_folders: Vec::new(),
        extensions: Vec::new(),
        use_config_file: false,
        update_compare_modified: false,
        update_compare_size: true,
        update_compare_md5: false,
    }
}

fn record(path: &str, base: &str, is_file: bool, size: u64) -> FileInfoParser {
    FileInfoParser::new(&String::from(path), &String::from(base), is_file, size, 0, None)
}

fn list_of(actions: Vec<FileInfoParserAction>) -> FileInfoParserActionList {
    FileInfoParserActionList {
        source_directory: String::from("src"),
        target_directory: String::from("dst"),
        actions,
    }
}

#[test]
fn plan_orders_creates_directory_before_file() {
    let detector = ChangeDetector::new(options(false));
    let source_items = vec![
        record("src/a/b.txt", "src", true, 10),
        record("src/a", "src", false, 0),
    ];
    let targets = vec![TargetListing { directory: String::from("dst"), items: Vec::new() }];
    let lists = detector.three_way_merge(&source_items, &targets);
    let copier = Copier::new(options(false));
    let plans = copier.incremental_copy(lists);
    assert_eq!(plans.len(), 1);
    let ops = &plans[0].operations;
    assert_eq!(ops.len(), 2);
    match &ops[0] {
        FsOperation::MakeDir { destination } => assert_eq!(destination, "dst/a"),
        _ => panic!("expected the directory first"),
    }
    match &ops[1] {
        FsOperation::CopyFile { source, destination } => {
            assert_eq!(source, "src/a/b.txt");
            assert_eq!(destination, "dst/a/b.txt");
        },
        _ => panic!("expected the file copy second"),
    }
}

#[test]
fn plan_orders_creates_by_depth_from_scrambled_input() {
    let actions = vec![
        FileInfoParserAction::new_source(
            record("src/a/b/c.txt", "src", true, 1),
            ActionType::Create,
        ),
        FileInfoParserAction::new_source(record("src/a", "src", false, 0), ActionType::Create),
        FileInfoParserAction::new_source(record("src/a/b", "src", false, 0), ActionType::Create),
    ];
    let copier = Copier::new(options(false));
    let plans = copier.incremental_copy(vec![list_of(actions)]);
    let depths: Vec<usize> = plans[0].ordered_creates.iter().map(|a| a.get_depth()).collect();
    assert_eq!(depths, vec![1, 2, 3]);
}

#[test]
fn plan_orders_deletes_deepest_first_after_creates() {
    let actions = vec![
        FileInfoParserAction::new_destination(record("dst/a", "dst", false, 0), ActionType::Delete),
        FileInfoParserAction::new_destination(
            record("dst/a/b/c.txt", "dst", true, 1),
            ActionType::Delete,
        ),
        FileInfoParserAction::new_destination(record("dst/a/b", "dst", false, 0), ActionType::Delete),
        FileInfoParserAction::new_source(record("src/new", "src", false, 0), ActionType::Create),
    ];
    let copier = Copier::new(options(true));
    let plans = copier.incremental_copy(vec![list_of(actions)]);
    let plan = &plans[0];
    assert_eq!(plan.suppressed_deletes, 0);
    assert_eq!(plan.operations.len(), 4);
    match &plan.operations[0] {
        FsOperation::MakeDir { destination } => assert_eq!(destination, "dst/new"),
        _ => panic!("expected the create first"),
    }
    match &plan.operations[1] {
        FsOperation::RemoveFile { destination } => assert_eq!(destination, "dst/a/b/c.txt"),
        _ => panic!("expected the deepest delete first"),
    }
    match &plan.operations[2] {
        FsOperation::RemoveDir { destination } => assert_eq!(destination, "dst/a/b"),
        _ => panic!("expected the middle directory next"),
    }
    match &plan.operations[3] {
        FsOperation::RemoveDir { destination } => assert_eq!(destination, "dst/a"),
        _ => panic!("expected the shallow directory last"),
    }
}

#[test]
fn disabled_deletes_are_suppressed_not_performed() {
    let detector = ChangeDetector::new(options(false));
    let source_items: Vec<FileInfoParser> = Vec::new();
    let targets = vec![TargetListing {
        directory: String::from("dst"),
        items: vec![record("dst/old.log", "dst", true, 7)],
    }];
    let lists = detector.three_way_merge(&source_items, &targets);
    assert_eq!(lists[0].actions.len(), 1);
    assert_eq!(lists[0].actions[0].action_type, ActionType::Delete);
    let copier = Copier::new(options(false));
    let plans = copier.incremental_copy(lists);
    let plan = &plans[0];
    assert_eq!(plan.operations.len(), 0);
    assert_eq!(plan.suppressed_deletes, 1);
    assert_eq!(plan.ordered_deletes.len(), 1);
}

#[test]
fn update_copies_over_known_destination() {
    let actions = vec![FileInfoParserAction::new(
        record("src/a.txt", "src", true, 10),
        record("dst/a.txt", "dst", true, 12),
        ActionType::Update,
    )];
    let copier = Copier::new(options(false));
    let plans = copier.incremental_copy(vec![list_of(actions)]);
    match &plans[0].operations[0] {
        FsOperation::CopyFile { source, destination } => {
            assert_eq!(source, "src/a.txt");
            assert_eq!(destination, "dst/a.txt");
        },
        _ => panic!("expected a copy"),
    }
}

#[test]
fn detect_execute_detect_converges() {
    let detector = ChangeDetector::new(options(true));
    let source_items = vec![
        record("src/a", "src", false, 0),
        record("src/a/b.txt", "src", true, 10),
    ];
    let targets = vec![TargetListing { directory: String::from("dst"), items: Vec::new() }];
    let lists = detector.three_way_merge(&source_items, &targets);
    let copier = Copier::new(options(true));
    let plans = copier.incremental_copy(lists);

    // Apply the plan to an in-memory target snapshot: a made directory is an
    // entry of size zero, a copied file keeps the source file's size.
    let mut new_target: Vec<FileInfoParser> = Vec::new();
    for op in &plans[0].operations {
        match op {
            FsOperation::MakeDir { destination } => {
                new_target.push(record(destination, "dst", false, 0));
            },
            FsOperation::CopyFile { source, destination } => {
                let size = if source == "src/a/b.txt" { 10 } else { 0 };
                new_target.push(record(destination, "dst", true, size));
            },
            _ => panic!("no removals were planned"),
        }
    }

    let second = detector.three_way_merge(
        &source_items,
        &vec![TargetListing { directory: String::from("dst"), items: new_target }],
    );
    assert_eq!(second.len(), 1);
    assert_eq!(second[0].actions.len(), 0);
}

#[test]
fn with_deletes_disabled_only_stale_deletes_remain() {
    let detector = ChangeDetector::new(options(false));
    let source_items = vec![record("src/a.txt", "src", true, 10)];
    let targets = vec![TargetListing {
        directory: String::from("dst"),
        items: vec![
            record("dst/a.txt", "dst", true, 10),
            record("dst/stale.log", "dst", true, 3),
        ],
    }];
    let lists = detector.three_way_merge(&source_items, &targets);
    assert!(lists[0].actions.iter().all(|a| a.action_type == ActionType::Delete));
    assert_eq!(lists[0].actions.len(), 1);
    let copier = Copier::new(options(false));
    let plans = copier.incremental_copy(lists);
    assert_eq!(plans[0].operations.len(), 0);
    assert_eq!(plans[0].suppressed_deletes, 1);
}
