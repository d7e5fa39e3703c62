use quickcopy::paths::{FileInfoParser, PathParser};

#[test]
fn test_append_path() {
    let path1 = "C:\\Users";
    let path2 = "jfast\\Desktop";
    let full_path = "C:\\Users\\jfast\\Desktop";
    let pp1 = PathParser::new(&String::from(path1));
    let pp2 = pp1.append_segment(&String::from(path2));
    let result = pp2.get_segment().get_default_segment_string();
    let comparator = PathParser::new(&String::from(full_path))
        .get_segment()
        .get_default_segment_string();
    assert_eq!(result, comparator);
}

#[test]
fn test_path_comparison() {
    let path1 = "C:\\Users\\jfast\\Desktop";
    let path2 = "C:\\Users\\jfast\\Desktop";
    let pp1 = PathParser::new(&String::from(path1));
    let pp2 = PathParser::new(&String::from(path2));
    let pp1_segment = pp1.get_segment();
    let pp2_segment = pp2.get_segment();
    let contains = pp1_segment.contains_all_of_segment(&pp2_segment);
    assert_eq!(contains, true);
}

#[test]
fn decompose_drops_empty_components() {
    let pp = PathParser::new(&String::from("a//b\\c/"));
    let seg = pp.get_segment();
    assert_eq!(seg.get_segments(), vec![
        String::from("a"),
        String::from("b"),
        String::from("c")
    ]);
    assert_eq!(seg.get_segment_length(), 3);
}

#[test]
fn segment_string_joins_with_separator() {
    let pp = PathParser::new(&String::from("x/y/z"));
    let seg = pp.get_segment();
    assert_eq!(seg.get_segment_string('|'), String::from("x|y|z"));
    assert_eq!(seg.get_default_segment_string(), String::from("x/y/z"));
}

#[test]
fn identical_is_case_insensitive_and_length_sensitive() {
    let a = PathParser::new(&String::from("C:/USERS/Jon"));
    let b = PathParser::new(&String::from("c:\\users\\jon"));
    let c = PathParser::new(&String::from("c:/users"));
    assert!(a.get_segment().identical(&b.get_segment()));
    assert!(!a.get_segment().identical(&c.get_segment()));
}

#[test]
fn contains_requires_contiguous_run() {
    let path = PathParser::new(&String::from("users/jon/projects/sub"));
    let contiguous = PathParser::new(&String::from("JON/Projects"));
    let gap = PathParser::new(&String::from("users/projects"));
    assert!(path.get_segment().contains_all_of_segment(&contiguous.get_segment()));
    assert!(!path.get_segment().contains_all_of_segment(&gap.get_segment()));
}

#[test]
fn differing_segment_is_the_relative_suffix() {
    let base = PathParser::new(&String::from("C:/data"));
    let full = PathParser::new(&String::from("C:/data/a/b.txt"));
    let suffix = base.get_differing_segment(full).unwrap();
    assert_eq!(suffix.get_default_segment_string(), String::from("a/b.txt"));

    let base2 = PathParser::new(&String::from("C:/data"));
    let same = PathParser::new(&String::from("c:/DATA"));
    assert!(base2.get_differing_segment(same).is_none());
}

#[test]
fn remaining_segments_are_the_suffixes() {
    let pp = PathParser::new(&String::from("a/b/c"));
    let seg = pp.get_segment();
    let rest = seg.get_remaining_segments();
    assert_eq!(rest.len(), 3);
    assert_eq!(rest[0].get_default_segment_string(), String::from("a/b/c"));
    assert_eq!(rest[1].get_default_segment_string(), String::from("b/c"));
    assert_eq!(rest[2].get_default_segment_string(), String::from("c"));
}

#[test]
fn file_record_extension_and_filename() {
    let f = FileInfoParser::new(
        &String::from("root/a/b.txt"),
        &String::from("root"),
        true,
        10,
        0,
        None,
    );
    assert_eq!(f.extension, Some(String::from("txt")));
    assert_eq!(f.filename, Some(String::from("b.txt")));
    assert_eq!(f.get_segment().get_default_segment_string(), String::from("a/b.txt"));
    assert_eq!(f.get_path(), String::from("root/a/b.txt"));

    let dotfile = FileInfoParser::new(
        &String::from("root/.gitignore"),
        &String::from("root"),
        true,
        1,
        0,
        None,
    );
    assert_eq!(dotfile.extension, Some(String::from("gitignore")));
    assert_eq!(dotfile.filename, None);

    let bare = FileInfoParser::new(
        &String::from("root/Makefile"),
        &String::from("root"),
        true,
        1,
        0,
        None,
    );
    assert_eq!(bare.extension, None);
    assert_eq!(bare.filename, Some(String::from("Makefile")));
}

#[test]
fn match_extension_allows_directories_and_listed_files() {
    let dir = FileInfoParser::new(
        &String::from("root/pics"),
        &String::from("root"),
        false,
        0,
        0,
        None,
    );
    let txt = FileInfoParser::new(
        &String::from("root/notes.txt"),
        &String::from("root"),
        true,
        3,
        0,
        None,
    );
    let png = FileInfoParser::new(
        &String::from("root/image.png"),
        &String::from("root"),
        true,
        3,
        0,
        None,
    );
    let allow = vec![String::from("txt")];
    assert!(dir.match_extension(allow.clone()));
    assert!(txt.match_extension(allow.clone()));
    assert!(!png.match_extension(allow.clone()));
    assert!(png.match_extension(Vec::new()));
}

#[test]
fn destination_is_target_root_plus_suffix() {
    let f = FileInfoParser::new(
        &String::from("src/a/b.txt"),
        &String::from("src"),
        true,
        10,
        0,
        None,
    );
    let action = quickcopy::paths::FileInfoParserAction::new_source(
        f,
        quickcopy::paths::ActionType::Create,
    );
    let dst = action.get_destination_from_segment(&String::from("dst"));
    assert_eq!(dst, String::from("dst/a/b.txt"));
    assert_eq!(action.get_source_length(), 11);
}
