use markdown_fs::{read_file, write_file, ErrorKind, FsError};

#[test]
fn content_that_was_read_is_handed_on_unchanged() {
    assert_eq!(read_file(Ok("# Title\n\nbody\n".to_string())), Ok("# Title\n\nbody\n".to_string()));
    assert_eq!(read_file(Ok(String::new())), Ok(String::new()));
    assert_eq!(read_file(Ok("ünï😀".to_string())), Ok("ünï😀".to_string()));
}

#[test]
fn a_failed_read_is_a_read_failure() {
    let result = read_file(Err("No such file or directory (os error 2)".to_string()));
    assert_eq!(
        result,
        Err(FsError {
            kind: ErrorKind::ReadFailed,
            message: "Failed to read file: No such file or directory (os error 2)".to_string(),
        })
    );
}

#[test]
fn a_read_of_bytes_that_are_no_text_is_a_read_failure() {
    let err = read_file(Err("stream did not contain valid UTF-8".to_string())).unwrap_err();
    assert_eq!(err.kind, ErrorKind::ReadFailed);
    assert_eq!(err.message, "Failed to read file: stream did not contain valid UTF-8");
}

#[test]
fn a_write_that_succeeded_succeeds() {
    assert_eq!(write_file(Ok(())), Ok(()));
}

#[test]
fn a_failed_write_is_a_write_failure() {
    let result = write_file(Err("Permission denied (os error 13)".to_string()));
    assert_eq!(
        result,
        Err(FsError {
            kind: ErrorKind::WriteFailed,
            message: "Failed to write file: Permission denied (os error 13)".to_string(),
        })
    );
}

#[test]
fn a_failure_without_a_reason_keeps_its_summary() {
    assert_eq!(read_file(Err(String::new())).unwrap_err().message, "Failed to read file: ");
    assert_eq!(write_file(Err(String::new())).unwrap_err().message, "Failed to write file: ");
}

#[test]
fn failures_are_built_from_kind_and_message() {
    let plain = FsError::new(ErrorKind::InvalidRoot, "Path does not exist");
    assert_eq!(plain.kind, ErrorKind::InvalidRoot);
    assert_eq!(plain.message, "Path does not exist");
    let detailed = FsError::with_detail(ErrorKind::WatchSetupFailed, "Failed: ", "why");
    assert_eq!(detailed.kind, ErrorKind::WatchSetupFailed);
    assert_eq!(detailed.message, "Failed: why");
}
