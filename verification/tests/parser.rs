//! Behaviour of the traversal core: ordering, skipping, fail-fast errors.

use cli_helper::{
    FileParser, FileType, Module, ParseFileErrorKind, ParseFrom, SourceData, SourceEntry,
};

/// Identity pass-through capability: the module's contents are the raw text.
struct Raw(String);

impl ParseFrom<String, ()> for Raw {
    type Error = String;

    fn parse(source: String, _state: &mut ()) -> Result<Self, Self::Error> {
        Ok(Raw(source))
    }
}

/// A capability that rejects any text containing `bad`, and records every
/// text it sees in its state, in call order.
struct Picky(String);

impl ParseFrom<String, Vec<String>> for Picky {
    type Error = String;

    fn parse(source: String, state: &mut Vec<String>) -> Result<Self, Self::Error> {
        state.push(source.clone());
        if source.contains("bad") {
            Err(format!("rejected: {source}"))
        } else {
            Ok(Picky(source))
        }
    }
}

fn file(path: &str, text: &str) -> SourceEntry {
    SourceEntry::FileEntry { path: path.to_string(), text: Ok(text.to_string()) }
}

fn names<T>(parser: &FileParser<T>) -> Vec<&str> {
    parser.modules.iter().map(|m| m.name.as_str()).collect()
}

fn sources<T>(parser: &FileParser<T>) -> Vec<&str> {
    parser.modules.iter().map(|m| m.source.as_str()).collect()
}

#[test]
fn single_file() {
    let data = SourceData::SingleFile { text: Ok("fn x(){}".to_string()) };
    let parser: FileParser<Raw> = FileParser::parse("dir/widget.rs", data, &mut ()).unwrap();
    assert_eq!(sources(&parser), ["dir/widget.rs"]);
    assert_eq!(names(&parser), ["widget"]);
    assert_eq!(parser.modules[0].contents.0, "fn x(){}");
}

#[test]
fn directory_sorted_by_file_name() {
    // listed out of order: the collection must come back sorted by file name
    let data = SourceData::DirListing {
        entries: Ok(vec![
            file("d/b.txt", "1"),
            file("d/a.txt", "2"),
            file("d/c.txt", "3"),
        ]),
    };
    let parser: FileParser<Raw> = FileParser::parse("d", data, &mut ()).unwrap();
    assert_eq!(sources(&parser), ["d/a.txt", "d/b.txt", "d/c.txt"]);
}

#[test]
fn sort_uses_file_name_not_full_path() {
    let data = SourceData::DirListing {
        entries: Ok(vec![file("z/b.txt", "1"), file("a/c.txt", "2"), file("m/a.txt", "3")]),
    };
    let parser: FileParser<Raw> = FileParser::parse("d", data, &mut ()).unwrap();
    assert_eq!(sources(&parser), ["m/a.txt", "z/b.txt", "a/c.txt"]);
}

#[test]
fn scenario_two_files() {
    // {"foo-1.rs": "fn a(){}", "Bar.rs": "fn b(){}"} with a pass-through
    // capability: names ["bar", "foo_1"], sorted by file name
    let data = SourceData::DirListing {
        entries: Ok(vec![file("in/foo-1.rs", "fn a(){}"), file("in/Bar.rs", "fn b(){}")]),
    };
    let parser: FileParser<Raw> = FileParser::parse("in", data, &mut ()).unwrap();
    assert_eq!(names(&parser), ["bar", "foo_1"]);
    assert_eq!(sources(&parser), ["in/Bar.rs", "in/foo-1.rs"]);
    assert_eq!(parser.modules[0].contents.0, "fn b(){}");
    assert_eq!(parser.modules[1].contents.0, "fn a(){}");
}

#[test]
fn non_files_are_skipped() {
    // a subdirectory entry is excluded, not an error
    let data = SourceData::DirListing {
        entries: Ok(vec![
            file("d/a.txt", "1"),
            SourceEntry::OtherEntry { path: "d/sub".to_string(), kind: FileType::Directory },
            SourceEntry::OtherEntry { path: "d/link".to_string(), kind: FileType::Symlink },
            file("d/b.txt", "2"),
        ]),
    };
    let parser: FileParser<Raw> = FileParser::parse("d", data, &mut ()).unwrap();
    assert_eq!(sources(&parser), ["d/a.txt", "d/b.txt"]);
}

#[test]
fn rejected_contents_fail_the_whole_traversal() {
    let data = SourceData::DirListing {
        entries: Ok(vec![
            file("d/a.txt", "fine"),
            file("d/b.txt", "bad stuff"),
            file("d/c.txt", "fine too"),
        ]),
    };
    let mut seen: Vec<String> = Vec::new();
    let r: Result<FileParser<Picky>, _> = FileParser::parse("d", data, &mut seen);
    let e = r.err().expect("must fail");
    match e.kind {
        ParseFileErrorKind::ParseContents { ref source, ref path, .. } => {
            assert_eq!(path, "d/b.txt");
            assert_eq!(source, "rejected: bad stuff");
        }
        ref other => panic!("wrong error kind: {other:?}"),
    }
    // fail-fast: the capability saw the files up to and including the bad
    // one, in listing order, and nothing after it
    assert_eq!(seen, ["fine", "bad stuff"]);
}

#[test]
fn state_threads_in_listing_order() {
    let data = SourceData::DirListing {
        entries: Ok(vec![file("d/z.txt", "one"), file("d/a.txt", "two")]),
    };
    let mut seen: Vec<String> = Vec::new();
    let parser: FileParser<Picky> = FileParser::parse("d", data, &mut seen).unwrap();
    // state mutation follows listing order, the collection is sorted
    assert_eq!(seen, ["one", "two"]);
    assert_eq!(sources(&parser), ["d/a.txt", "d/z.txt"]);
}

#[test]
fn stat_failure() {
    let data = SourceData::StatFailed { message: "permission denied".to_string() };
    let r: Result<FileParser<Raw>, _> = FileParser::parse("p", data, &mut ());
    match r.err().expect("must fail").kind {
        ParseFileErrorKind::ReadSourceMetadata { ref message, ref path, .. } => {
            assert_eq!(message, "permission denied");
            assert_eq!(path, "p");
        }
        ref other => panic!("wrong error kind: {other:?}"),
    }
}

#[test]
fn unsupported_source_kind() {
    let data = SourceData::OtherKind { kind: FileType::Symlink };
    let r: Result<FileParser<Raw>, _> = FileParser::parse("p", data, &mut ());
    match r.err().expect("must fail").kind {
        ParseFileErrorKind::UnsupportedFileType { file_type, ref path, .. } => {
            assert_eq!(file_type, FileType::Symlink);
            assert_eq!(path, "p");
        }
        ref other => panic!("wrong error kind: {other:?}"),
    }
}

#[test]
fn directory_listing_failure() {
    let data = SourceData::DirListing { entries: Err("not readable".to_string()) };
    let r: Result<FileParser<Raw>, _> = FileParser::parse("d", data, &mut ());
    match r.err().expect("must fail").kind {
        ParseFileErrorKind::ReadDirectory { ref message, ref path, .. } => {
            assert_eq!(message, "not readable");
            assert_eq!(path, "d");
        }
        ref other => panic!("wrong error kind: {other:?}"),
    }
}

#[test]
fn file_read_failure() {
    let data = SourceData::DirListing {
        entries: Ok(vec![
            file("d/a.txt", "ok"),
            SourceEntry::FileEntry {
                path: "d/b.txt".to_string(),
                text: Err("io failure".to_string()),
            },
        ]),
    };
    let r: Result<FileParser<Raw>, _> = FileParser::parse("d", data, &mut ());
    match r.err().expect("must fail").kind {
        ParseFileErrorKind::ReadFile { ref message, ref path, .. } => {
            assert_eq!(message, "io failure");
            assert_eq!(path, "d/b.txt");
        }
        ref other => panic!("wrong error kind: {other:?}"),
    }
}

#[test]
fn single_file_read_failure() {
    let data = SourceData::SingleFile { text: Err("gone".to_string()) };
    let r: Result<FileParser<Raw>, _> = FileParser::parse("f.rs", data, &mut ());
    match r.err().expect("must fail").kind {
        ParseFileErrorKind::ReadFile { ref message, ref path, .. } => {
            assert_eq!(message, "gone");
            assert_eq!(path, "f.rs");
        }
        ref other => panic!("wrong error kind: {other:?}"),
    }
}

#[test]
fn empty_directory_gives_empty_collection() {
    let data = SourceData::DirListing { entries: Ok(vec![]) };
    let parser: FileParser<Raw> = FileParser::parse("d", data, &mut ()).unwrap();
    assert!(parser.modules.is_empty());
    assert!(!parser.duplicate_names());
}

#[test]
fn classify_table() {
    assert_eq!(FileType::classify(true, false, false), FileType::Directory);
    assert_eq!(FileType::classify(false, true, false), FileType::File);
    assert_eq!(FileType::classify(false, false, true), FileType::Symlink);
    assert_eq!(FileType::classify(false, false, false), FileType::Unknown);
    // the directory flag wins: it is checked before the others
    assert_eq!(FileType::classify(true, true, true), FileType::Directory);
}

#[test]
fn duplicate_normalized_names_are_kept_and_flagged() {
    // distinct file names that normalize to the same identifier: both stay,
    // in file-name order, and the collision is detectable
    let data = SourceData::DirListing {
        entries: Ok(vec![file("d/a_b.rs", "1"), file("d/a-b.rs", "2")]),
    };
    let parser: FileParser<Raw> = FileParser::parse("d", data, &mut ()).unwrap();
    assert_eq!(sources(&parser), ["d/a-b.rs", "d/a_b.rs"]);
    assert_eq!(names(&parser), ["a_b", "a_b"]);
    assert!(parser.duplicate_names());

    let data = SourceData::DirListing {
        entries: Ok(vec![file("d/a.rs", "1"), file("d/b.rs", "2")]),
    };
    let parser: FileParser<Raw> = FileParser::parse("d", data, &mut ()).unwrap();
    assert!(!parser.duplicate_names());
}

#[test]
fn module_parse_names() {
    let m: Module<Raw> =
        Module::parse("some/dir/My-File.v2.rs", Ok("text".to_string()), &mut ()).unwrap();
    assert_eq!(m.source, "some/dir/My-File.v2.rs");
    // stem is the file name up to the last dot; the stem is then normalized
    assert_eq!(m.name, "my_file_v_2");
}
