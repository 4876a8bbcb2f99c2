//! Behaviour of the emission stage: rendering, ordered assembly, the gather
//! barrier, and the target guard.

use cli_helper::file_parser::write::{assemble, check_target, gather_in_order};
use cli_helper::{
    FileParser, FileType, ParseFrom, Render, SourceData, SourceEntry, WriteErrorKind,
};

struct Raw(String);

impl ParseFrom<String, ()> for Raw {
    type Error = String;

    fn parse(source: String, _state: &mut ()) -> Result<Self, Self::Error> {
        Ok(Raw(source))
    }
}

impl Render for Raw {
    fn render(&self) -> String {
        self.0.clone()
    }
}

fn collection(entries: Vec<SourceEntry>) -> FileParser<Raw> {
    FileParser::parse("d", SourceData::DirListing { entries: Ok(entries) }, &mut ()).unwrap()
}

fn file(path: &str, text: &str) -> SourceEntry {
    SourceEntry::FileEntry { path: path.to_string(), text: Ok(text.to_string()) }
}

#[test]
fn renders_wrap_and_concatenate_in_order() {
    let parser = collection(vec![file("d/b.rs", "fn b(){}"), file("d/a.rs", "fn a(){}")]);
    let parts = parser.render_parts();
    assert_eq!(parts, vec![
        "pub mod a {\nfn a(){}\n}\n".to_string(),
        "pub mod b {\nfn b(){}\n}\n".to_string(),
    ]);
    assert_eq!(parser.render(), "pub mod a {\nfn a(){}\n}\npub mod b {\nfn b(){}\n}\n");
    assert_eq!(parser.render(), assemble(&parts));
}

#[test]
fn empty_collection_renders_empty() {
    let parser = collection(vec![]);
    assert_eq!(parser.render_parts(), Vec::<String>::new());
    assert_eq!(parser.render(), "");
    assert_eq!(gather_in_order(0, vec![]), Some(vec![]));
}

#[test]
fn gather_restores_module_order() {
    // results arrive in completion order, not module order
    let results = vec![
        (2usize, "two".to_string()),
        (0usize, "zero".to_string()),
        (1usize, "one".to_string()),
    ];
    let parts = gather_in_order(3, results).expect("complete");
    assert_eq!(parts, vec!["zero".to_string(), "one".to_string(), "two".to_string()]);
}

#[test]
fn parallel_and_blocking_emission_agree() {
    // the same deterministic render and a pass-through formatter: formatting
    // each part concurrently and gathering must give the blocking bytes
    let parser = collection(vec![
        file("d/c.rs", "3"),
        file("d/a.rs", "1"),
        file("d/b.rs", "2"),
    ]);
    let blocking = parser.render();

    let format = |text: &str| -> String { text.to_string() };
    let parts = parser.render_parts();
    // simulate out-of-order completion of the per-module formatter runs
    let mut results: Vec<(usize, String)> = parts
        .iter()
        .enumerate()
        .map(|(i, p)| (i, format(p)))
        .collect();
    results.reverse();
    let gathered = gather_in_order(parts.len(), results).expect("complete");
    let parallel = assemble(&gathered);
    assert_eq!(parallel, blocking);
}

#[test]
fn gather_rejects_duplicates() {
    let results = vec![(0usize, "a".to_string()), (0usize, "b".to_string())];
    assert!(gather_in_order(2, results).is_none());
}

#[test]
fn gather_rejects_missing_and_out_of_range() {
    let missing = vec![(0usize, "a".to_string())];
    assert!(gather_in_order(2, missing).is_none());
    let out_of_range = vec![(0usize, "a".to_string()), (2usize, "b".to_string())];
    assert!(gather_in_order(2, out_of_range).is_none());
}

#[test]
fn target_guard_refuses_a_directory() {
    let r = check_target("out", true, FileType::Directory);
    match r.err().expect("must fail").kind {
        WriteErrorKind::UnsupportedFileType { file_type, ref path, .. } => {
            assert_eq!(file_type, FileType::Directory);
            assert_eq!(path, "out");
        }
        ref other => panic!("wrong error kind: {other:?}"),
    }
}

#[test]
fn target_guard_accepts_files_and_absent_targets() {
    assert!(check_target("out", false, FileType::Unknown).is_ok());
    assert!(check_target("out", true, FileType::File).is_ok());
    assert!(check_target("out", true, FileType::Symlink).is_err());
    assert!(check_target("out", true, FileType::Unknown).is_err());
}
