use conmon_log::error::{ConfigError, IoKind, LogError};
use conmon_log::pipe::Pipe;

#[test]
fn pipe_names() {
    assert_eq!(Pipe::StdOut.name(), "stdout");
    assert_eq!(Pipe::StdErr.name(), "stderr");
}

#[test]
fn uninitialized_message() {
    assert_eq!(LogError::Uninitialized.message(), "logger not initialized");
}

#[test]
fn io_message_names_the_operation_the_path_and_the_cause() {
    let error = LogError::Io {
        path: "/var/log/ctr.log".to_string(),
        kind: IoKind::Open,
        cause: "Permission denied (os error 13)".to_string(),
    };
    assert_eq!(
        error.message(),
        "open log file path '/var/log/ctr.log': Permission denied (os error 13)"
    );
    let error =
        LogError::Io { path: "x".to_string(), kind: IoKind::Sync, cause: "gone".to_string() };
    assert_eq!(error.message(), "sync log file path 'x': gone");
}

#[test]
fn io_kind_words() {
    assert_eq!(IoKind::Open.word(), "open");
    assert_eq!(IoKind::Read.word(), "read");
    assert_eq!(IoKind::Write.word(), "write");
    assert_eq!(IoKind::Sync.word(), "sync");
    assert_eq!(IoKind::Flush.word(), "flush");
}

#[test]
fn unknown_type_message_names_the_number() {
    assert_eq!(ConfigError::UnknownType(0).message(), "unknown log driver type 0");
    assert_eq!(ConfigError::UnknownType(7).message(), "unknown log driver type 7");
    assert_eq!(ConfigError::UnknownType(10).message(), "unknown log driver type 10");
    assert_eq!(ConfigError::UnknownType(405).message(), "unknown log driver type 405");
    assert_eq!(ConfigError::UnknownType(65535).message(), "unknown log driver type 65535");
}

#[test]
fn malformed_path_message() {
    assert_eq!(ConfigError::MalformedPath.message(), "malformed log driver path");
}
