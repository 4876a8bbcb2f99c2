//! The exact text of messages, reports and action lines.

use cli_helper::action::{Action, ActionResult, State};
use cli_helper::error_report::{decimal_string, Report};
use cli_helper::file_parser::module::{ParseModuleError, ParseModuleErrorKind};
use cli_helper::file_parser::write::check_target;
use cli_helper::{error_line, fail_line, success_line, warning_line, FileType, ParseFileErrorKind,
    SourceData};

const BOLD: &str = "\x1b[1m";
const RESET: &str = "\x1b[0m";
const RED: &str = "\x1b[91m";
const GREEN: &str = "\x1b[92m";
const YELLOW: &str = "\x1b[93m";
const CYAN: &str = "\x1b[96m";

#[test]
fn log_lines() {
    assert_eq!(error_line("boom"), format!("{BOLD}{RED}error{RESET}{BOLD}:{RESET} boom"));
    assert_eq!(warning_line("careful"), format!("{BOLD}{YELLOW}warning{RESET}{BOLD}:{RESET} careful"));
    assert_eq!(success_line("done"), format!("{BOLD}{GREEN}Success{RESET}{BOLD}:{RESET} done"));
    assert_eq!(fail_line("lost"), format!("{BOLD}{RED}Fail{RESET}{BOLD}:{RESET} lost"));
}

#[test]
fn decimal_strings() {
    assert_eq!(decimal_string(0), "0");
    assert_eq!(decimal_string(7), "7");
    assert_eq!(decimal_string(10), "10");
    assert_eq!(decimal_string(409), "409");
    assert_eq!(decimal_string(usize::MAX), usize::MAX.to_string());
}

#[test]
fn report_rendering() {
    let report = Report::new(vec![
        "failed to write output".to_string(),
        "failed to run rustfmt on the output".to_string(),
    ]);
    let expected = format!(
        "`tool` exited unsuccessfully\n  {BOLD}{RED}1{RESET}{BOLD}:{RESET} failed to write output\n  {BOLD}{RED}2{RESET}{BOLD}:{RESET} failed to run rustfmt on the output\n"
    );
    assert_eq!(report.render("tool"), expected);
}

#[test]
fn empty_report_is_just_the_header() {
    let report = Report::new(vec![]);
    assert_eq!(report.render("tool"), "`tool` exited unsuccessfully\n");
}

#[test]
fn module_error_messages() {
    let r: Result<cli_helper::Module<NoParse>, ParseModuleError<String>> =
        cli_helper::Module::parse("d/a.rs", Err("gone".to_string()), &mut ());
    let e = r.err().expect("must fail");
    assert_eq!(e.message(), "failed to parse module d/a.rs");
    assert_eq!(e.kind.message(), "failed to read module file");
    assert!(matches!(e.kind, ParseModuleErrorKind::ReadFile { .. }));

    let r: Result<cli_helper::Module<NoParse>, ParseModuleError<String>> =
        cli_helper::Module::parse("d/a.rs", Ok("text".to_string()), &mut ());
    let e = r.err().expect("must fail");
    assert_eq!(e.kind.message(), "failed to parse module contents");
    assert!(matches!(e.kind, ParseModuleErrorKind::ParseContents { .. }));
}

#[test]
fn file_error_messages() {
    let data: SourceData = SourceData::OtherKind { kind: FileType::Symlink };
    let r: Result<cli_helper::FileParser<NoParse>, _> =
        cli_helper::FileParser::parse("in", data, &mut ());
    let e = r.err().expect("must fail");
    assert_eq!(e.message(), "error while parsing the source file/directory");
    assert_eq!(e.kind.message(), "source file type `Symlink` is unsupported `in`");
    assert!(e.kind.cause_message().is_none());

    let data = SourceData::StatFailed { message: "denied".to_string() };
    let r: Result<cli_helper::FileParser<NoParse>, _> =
        cli_helper::FileParser::parse("in", data, &mut ());
    let e = r.err().expect("must fail");
    assert_eq!(e.kind.message(), "failed reading the metadata for `in`");
    assert_eq!(e.kind.cause_message().map(String::as_str), Some("denied"));

    let data = SourceData::DirListing { entries: Err("closed".to_string()) };
    let r: Result<cli_helper::FileParser<NoParse>, _> =
        cli_helper::FileParser::parse("in", data, &mut ());
    let e = r.err().expect("must fail");
    assert_eq!(e.kind.message(), "failed reading the directory `in`");

    let data = SourceData::SingleFile { text: Err("gone".to_string()) };
    let r: Result<cli_helper::FileParser<NoParse>, _> =
        cli_helper::FileParser::parse("in/a.rs", data, &mut ());
    let e = r.err().expect("must fail");
    assert_eq!(e.kind.message(), "failed reading the file `in/a.rs`");

    let data = SourceData::SingleFile { text: Ok("anything".to_string()) };
    let r: Result<cli_helper::FileParser<NoParse>, _> =
        cli_helper::FileParser::parse("in/a.rs", data, &mut ());
    let e = r.err().expect("must fail");
    assert_eq!(e.kind.message(), "failed to parse the contents of `in/a.rs`");
    match e.kind {
        ParseFileErrorKind::ParseContents { ref source, .. } => assert_eq!(source, "no"),
        ref other => panic!("wrong error kind: {other:?}"),
    }
}

/// A capability that rejects everything.
struct NoParse;

impl cli_helper::ParseFrom<String, ()> for NoParse {
    type Error = String;

    fn parse(_source: String, _state: &mut ()) -> Result<Self, Self::Error> {
        Err("no".to_string())
    }
}

#[test]
fn write_error_messages() {
    let e = check_target("out", true, FileType::Directory).err().expect("must fail");
    assert_eq!(e.message(), "failed to write output");
    assert_eq!(e.kind.message(), "out exists with unsupported file type Directory");
    assert!(e.kind.cause_message().is_none());
}

#[test]
fn file_type_names() {
    assert_eq!(FileType::File.name(), "File");
    assert_eq!(FileType::Directory.name(), "Directory");
    assert_eq!(FileType::Symlink.name(), "Symlink");
    assert_eq!(FileType::Unknown.name(), "Unknown");
}

#[test]
fn action_messages() {
    let mut action = Action::new(
        "Parsing".to_string(),
        "Parsed".to_string(),
        "src/".to_string(),
        2,
    );
    assert_eq!(action.state, State::InProgress);
    assert!(!action.should_overwrite);
    assert_eq!(
        action.message_string(State::InProgress),
        format!("  {CYAN}{BOLD}Parsing{RESET} src/"),
    );
    assert_eq!(
        action.message_string(State::Success),
        format!("  {GREEN}{BOLD}Parsed{RESET} src/"),
    );
    assert_eq!(
        action.message_string(State::Error),
        format!("  {RED}{BOLD}Parsing{RESET} src/ {RED}{BOLD}failed{RESET}"),
    );
    action.set_state(State::Success);
    assert_eq!(action.state, State::Success);
    action.mark_printed();
    assert!(action.should_overwrite);
    action.dont_overwrite();
    assert!(!action.should_overwrite);
}

#[test]
fn action_result_bindings() {
    let mut action = Action::new("A".to_string(), "B".to_string(), "c".to_string(), 0);
    let r: Result<u8, u8> = Ok(1).bind_result(&mut action);
    assert_eq!(r, Ok(1));
    assert_eq!(action.state, State::Success);
    let r: Result<u8, u8> = Err(2).bind_result(&mut action);
    assert_eq!(r, Err(2));
    assert_eq!(action.state, State::Error);

    action.set_state(State::InProgress);
    let r: Result<u8, u8> = Ok(1).bind_error(&mut action);
    assert_eq!(r, Ok(1));
    assert_eq!(action.state, State::InProgress);
    let r: Result<u8, u8> = Err(2).bind_error(&mut action);
    assert_eq!(r, Err(2));
    assert_eq!(action.state, State::Error);

    action.set_state(State::InProgress);
    let o: Option<u8> = Some(1).bind_result(&mut action);
    assert_eq!(o, Some(1));
    assert_eq!(action.state, State::Success);
    let o: Option<u8> = None.bind_result(&mut action);
    assert_eq!(o, None);
    assert_eq!(action.state, State::Error);

    action.set_state(State::InProgress);
    let o: Option<u8> = Some(1).bind_error(&mut action);
    assert_eq!(o, Some(1));
    assert_eq!(action.state, State::InProgress);
    let o: Option<u8> = None.bind_error(&mut action);
    assert_eq!(o, None);
    assert_eq!(action.state, State::Error);
}
