use file_system_worker::action::FileSystemAction;
use file_system_worker::fs_model::{FileSystem, PathKind};
use file_system_worker::job::{JobResult, JobStatus, MessageError};
use file_system_worker::message::{process, FileSystemParameters};

#[test]
fn remove_test_ok() {
    let mut fs = FileSystem::new();
    fs.add_file("/tmp/file_1.tmp", b"ABCDEF1234567890".to_vec());
    assert_eq!(fs.kind_of("/tmp/file_1.tmp"), PathKind::File);
    fs.add_file("/tmp/file_2.tmp", b"ABCDEF1234567890".to_vec());
    assert_eq!(fs.kind_of("/tmp/file_2.tmp"), PathKind::File);

    let parameters = FileSystemParameters {
        source_paths: vec!["/tmp/file_1.tmp".to_string(), "/tmp/file_2.tmp".to_string()],
        action: FileSystemAction::Remove,
        output_directory: None,
    };
    let job_result = JobResult::new(123);
    let result = process(parameters, job_result, &mut fs);

    assert!(result.is_ok());
    assert_eq!(
        fs.kind_of("/tmp/file_1.tmp"),
        PathKind::Missing,
        "{:?} still exists",
        "/tmp/file_1.tmp"
    );
    assert_eq!(
        fs.kind_of("/tmp/file_2.tmp"),
        PathKind::Missing,
        "{:?} still exists",
        "/tmp/file_2.tmp"
    );
}

#[test]
fn remove_test_error() {
    let mut fs = FileSystem::new();
    fs.add_file("/tmp/file_3.tmp", b"ABCDEF1234567890".to_vec());
    assert_eq!(fs.kind_of("/tmp/file_3.tmp"), PathKind::File);

    let parameters = FileSystemParameters {
        source_paths: vec!["/tmp/file_3.tmp".to_string(), "/tmp/file_4.tmp".to_string()],
        action: FileSystemAction::Remove,
        output_directory: None,
    };
    let job_result = JobResult::new(124);
    let result = process(parameters, job_result, &mut fs);

    let expected = JobResult::new(124)
        .with_status(JobStatus::Error)
        .with_message("IO Error: No such a file or directory: \"/tmp/file_4.tmp\"");
    assert_eq!(result, Err(MessageError::ProcessingError(expected)));
    assert_eq!(
        fs.kind_of("/tmp/file_3.tmp"),
        PathKind::Missing,
        "{:?} still exists",
        "/tmp/file_3.tmp"
    );
}

#[test]
fn copy_test_ok() {
    let mut fs = FileSystem::new();
    fs.add_file("/tmp/file_5.tmp", b"ABCDEF1234567890".to_vec());
    assert_eq!(fs.kind_of("/tmp/file_5.tmp"), PathKind::File);
    fs.add_file("/tmp/file_6.tmp", b"ABCDEF1234567890".to_vec());
    assert_eq!(fs.kind_of("/tmp/file_6.tmp"), PathKind::File);

    let parameters = FileSystemParameters {
        source_paths: vec!["/tmp/file_5.tmp".to_string(), "/tmp/file_6.tmp".to_string()],
        action: FileSystemAction::Copy,
        output_directory: Some("./examples".to_string()),
    };
    let job_result = JobResult::new(123);
    let result = process(parameters, job_result, &mut fs);

    assert!(result.is_ok());
    assert_eq!(
        fs.kind_of("./examples/file_5.tmp"),
        PathKind::File,
        "{:?} copy failed",
        "./examples/file_5.tmp"
    );
    assert_eq!(
        fs.kind_of("./examples/file_6.tmp"),
        PathKind::File,
        "{:?} copy failed",
        "./examples/file_6.tmp"
    );
    assert_eq!(
        fs.file_content("./examples/file_5.tmp"),
        Some(&b"ABCDEF1234567890".to_vec())
    );
    assert_eq!(
        fs.file_content("./examples/file_6.tmp"),
        Some(&b"ABCDEF1234567890".to_vec())
    );
    let job = result.unwrap();
    assert_eq!(
        job.get_destination_paths(),
        &vec![
            "./examples/file_5.tmp".to_string(),
            "./examples/file_6.tmp".to_string()
        ]
    );
}

#[test]
fn copy_test_error() {
    let mut fs = FileSystem::new();
    fs.add_file("/tmp/file_3.tmp", b"ABCDEF1234567890".to_vec());
    assert_eq!(fs.kind_of("/tmp/file_3.tmp"), PathKind::File);

    let parameters = FileSystemParameters {
        source_paths: vec!["/tmp/file_3.tmp".to_string()],
        action: FileSystemAction::Copy,
        output_directory: None,
    };
    let job_result = JobResult::new(124);
    let result = process(parameters, job_result, &mut fs);

    let expected = JobResult::new(124)
        .with_status(JobStatus::Error)
        .with_message("IO Error: Could not copy files without output directory.");
    assert_eq!(result, Err(MessageError::ProcessingError(expected)));
    assert_eq!(fs.kind_of("/tmp/file_3.tmp"), PathKind::File);
}

#[test]
fn list_directory() {
    let mut fs = FileSystem::new();
    fs.add_directory("./");
    fs.add_file("./Cargo.toml", b"[package]".to_vec());

    let parameters = FileSystemParameters {
        source_paths: vec!["./".to_string()],
        action: FileSystemAction::List,
        output_directory: None,
    };
    let job_result = JobResult::new(123);
    let result = process(parameters, job_result, &mut fs);

    assert!(result.is_ok());
    let job_result = result.unwrap();
    assert!(job_result
        .get_destination_paths()
        .contains(&"./Cargo.toml".to_string()));
}
