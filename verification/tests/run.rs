use fretwire::error::{exit_code, ClapFailure, Error};
use fretwire::format::error::Error as FormatError;
use fretwire::into_io_failed::IntoIOFailed;
use fretwire::locale::Locale;
use fretwire::moved_lines::MovedLines;
use fretwire::run::{run, run_with_settings, Action};
use fretwire::settings::Settings;
use std::io::{Error as IoError, ErrorKind};

fn settings(path: Option<&str>) -> Settings {
    Settings {
        path: path.map(String::from),
        locale: Locale::try_new("").unwrap(),
        move_marker: ":>".to_owned(),
        allow_deletions: true,
        allow_external_writes: true,
        skip_disk_sync: false,
    }
}

#[test]
fn run_exit_codes() {
    let io = || IoError::new(ErrorKind::Other, "failure");
    let help = Error::ClapFailed(ClapFailure { display_request: true, message: "help".into() });
    let bad = Error::ClapFailed(ClapFailure { display_request: false, message: "bad".into() });
    assert_eq!(exit_code(&help), 0);
    assert_eq!(exit_code(&bad), 1);
    let read = Error::FormatFailed { error: FormatError::ReadFailed(io()), path: None };
    assert_eq!(exit_code(&read), 2);
    let write = Error::FormatFailed { error: FormatError::WriteFailed(io()), path: None };
    assert_eq!(exit_code(&write), 3);
    assert_eq!(exit_code(&Error::IOFailed { error: Some(io()), path: "f".into() }), 4);
    let refused = Error::FormatFailed {
        error: FormatError::DeletionForbidden { line: "x :>".into() },
        path: Some("f".into()),
    };
    assert_eq!(exit_code(&refused), 5);
    assert_eq!(exit_code(&Error::LockFailed("f".into())), 6);
}

#[test]
fn run_into_io_failed() {
    assert!(matches!(Some(3).path("file"), Ok(3)));
    match None::<u8>.path("file") {
        Err(Error::IOFailed { error: None, path }) => assert_eq!(path, "file"),
        other => panic!("unexpected: {:?}", other),
    }
    let failed: Result<u8, IoError> = Err(IoError::new(ErrorKind::NotFound, "gone"));
    match failed.path("other") {
        Err(Error::IOFailed { error: Some(e), path }) => {
            assert_eq!(path, "other");
            assert_eq!(e.kind(), ErrorKind::NotFound);
        }
        other => panic!("unexpected: {:?}", other),
    }
}

#[test]
fn run_settings_move_policy() {
    let s = settings(None);
    let policy = s.move_policy();
    assert_eq!(policy.marker, ":>");
    assert!(policy.allow_deletions);
    assert!(policy.allow_external_writes);
}

#[test]
fn run_failed_parse_finishes() {
    let failure = ClapFailure { display_request: false, message: "unknown flag".into() };
    let (session, action) = run(Err(failure));
    assert!(!session.expects_format_result());
    assert!(!session.expects_close_result());
    match action {
        Action::Finish(Err(Error::ClapFailed(f))) => assert_eq!(f.message, "unknown flag"),
        _ => panic!("expected the run to finish"),
    }
}

#[test]
fn run_stdio_without_moves_finishes() {
    let (mut session, action) = run(Ok(settings(None)));
    assert!(matches!(action, Action::FormatStdio));
    assert!(session.expects_format_result());
    match session.formatted(Ok(MovedLines::new())) {
        Action::Finish(Ok(())) => {}
        _ => panic!("expected success"),
    }
}

#[test]
fn run_file_with_moves_commits_each_file() {
    let (mut session, action) = run_with_settings(&settings(Some("main.txt")));
    match action {
        Action::FormatFile { path, prepend_lines, allow_creation } => {
            assert_eq!(path, "main.txt");
            assert!(prepend_lines.is_empty());
            assert!(!allow_creation);
        }
        _ => panic!("expected the main file"),
    }
    let mut moved = MovedLines::new();
    moved.add("b.txt".into(), "first".into());
    moved.add("a.txt".into(), "second".into());
    moved.add("b.txt".into(), "third".into());
    match session.formatted(Ok(moved)) {
        Action::FormatFile { path, prepend_lines, allow_creation } => {
            assert_eq!(path, "b.txt");
            assert_eq!(prepend_lines, vec!["first", "third"]);
            assert!(allow_creation);
        }
        _ => panic!("expected the first destination"),
    }
    match session.formatted(Ok(MovedLines::new())) {
        Action::FormatFile { path, prepend_lines, .. } => {
            assert_eq!(path, "a.txt");
            assert_eq!(prepend_lines, vec!["second"]);
        }
        _ => panic!("expected the second destination"),
    }
    let mut committed = Vec::new();
    let mut action = session.formatted(Ok(MovedLines::new()));
    loop {
        match action {
            Action::Commit { index, path, skip_disk_sync } => {
                assert!(!skip_disk_sync);
                committed.push((index, path));
                action = session.closed(Ok(()));
            }
            Action::Finish(result) => {
                assert!(result.is_ok());
                break;
            }
            _ => panic!("unexpected action"),
        }
    }
    assert_eq!(
        committed,
        vec![(0, "main.txt".to_owned()), (1, "b.txt".to_owned()), (2, "a.txt".to_owned())]
    );
}

#[test]
fn run_failed_destination_rolls_back() {
    let (mut session, _) = run_with_settings(&settings(Some("main.txt")));
    let mut moved = MovedLines::new();
    moved.add("b.txt".into(), "line".into());
    session.formatted(Ok(moved));
    let failure = Error::LockFailed("b.txt".into());
    let mut rolled_back = Vec::new();
    let mut action = session.formatted(Err(failure));
    loop {
        match action {
            Action::Rollback { index } => {
                rolled_back.push(index);
                action = session.closed(Ok(()));
            }
            Action::Finish(Err(Error::LockFailed(path))) => {
                assert_eq!(path, "b.txt");
                break;
            }
            _ => panic!("unexpected action"),
        }
    }
    assert_eq!(rolled_back, vec![0]);
}

#[test]
fn run_failed_commit_rolls_back_the_rest() {
    let (mut session, _) = run_with_settings(&settings(Some("main.txt")));
    let mut moved = MovedLines::new();
    moved.add("b.txt".into(), "line".into());
    session.formatted(Ok(moved));
    let action = session.formatted(Ok(MovedLines::new()));
    assert!(matches!(action, Action::Commit { index: 0, .. }));
    assert!(session.expects_close_result());
    let action = session.closed(Err(IoError::new(ErrorKind::Other, "disk full")));
    assert!(matches!(action, Action::Rollback { index: 1 }));
    match session.closed(Ok(())) {
        Action::Finish(Err(Error::IOFailed { error: Some(_), path })) => {
            assert_eq!(path, "main.txt")
        }
        _ => panic!("expected the commit failure"),
    }
}

#[test]
fn run_failed_main_stream_finishes_at_once() {
    let (mut session, _) = run_with_settings(&settings(None));
    let error = Error::FormatFailed {
        error: FormatError::ExternalWriteForbidden { line: "x :> y".into(), path: "y".into() },
        path: None,
    };
    match session.formatted(Err(error)) {
        Action::Finish(Err(Error::FormatFailed { path: None, .. })) => {}
        _ => panic!("expected the failure"),
    }
}

#[test]
fn moved_lines_group_by_destination() {
    let mut moved = MovedLines::new();
    assert!(moved.is_empty());
    moved.add("x".into(), "1".into());
    moved.add("y".into(), "2".into());
    moved.add("x".into(), "3".into());
    assert_eq!(moved.len(), 2);
    assert_eq!(
        moved.into_entries(),
        vec![
            ("x".to_owned(), vec!["1".to_owned(), "3".to_owned()]),
            ("y".to_owned(), vec!["2".to_owned()]),
        ]
    );
}
