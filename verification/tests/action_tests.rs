use file_system_worker::action::{parse_action, Action, FileSystemAction};
use file_system_worker::copy::{copy_destination, CopyAction};
use file_system_worker::errors::ErrorKind;
use file_system_worker::fs_model::{FileSystem, PathKind};
use file_system_worker::job::{JobResult, JobStatus, MessageError};
use file_system_worker::list::ListAction;
use file_system_worker::message::{process, FileSystemParameters};
use file_system_worker::remove::RemoveAction;

#[test]
fn parse_action_known_selectors() {
    assert_eq!(parse_action("copy"), Ok(FileSystemAction::Copy));
    assert_eq!(parse_action("list"), Ok(FileSystemAction::List));
    assert_eq!(parse_action("remove"), Ok(FileSystemAction::Remove));
}

#[test]
fn parse_action_unknown_selector() {
    let error = parse_action("archive").unwrap_err();
    assert_eq!(error.kind, ErrorKind::UnknownAction);
    assert_eq!(error.message.as_str(), "Unknown action named archive");

    let error = parse_action("bad_action").unwrap_err();
    assert_eq!(error.kind, ErrorKind::UnknownAction);
    assert_eq!(error.message.as_str(), "Unknown action named bad_action");
}

#[test]
fn remove_missing_path_reports_path_not_found() {
    let mut fs = FileSystem::new();
    let action = RemoveAction::new(vec!["/tmp/absent.tmp".to_string()]);
    let error = action.execute(&mut fs).unwrap_err();
    assert_eq!(error.kind, ErrorKind::PathNotFound);
    assert_eq!(
        error.message.as_str(),
        "No such a file or directory: \"/tmp/absent.tmp\""
    );
}

#[test]
fn remove_directory_removes_its_tree() {
    let mut fs = FileSystem::new();
    fs.add_directory("/tmp/d");
    fs.add_file("/tmp/d/x.tmp", b"x".to_vec());
    fs.add_file("/tmp/d/y.tmp", b"y".to_vec());
    fs.add_file("/tmp/other.tmp", b"z".to_vec());

    let action = RemoveAction::new(vec!["/tmp/d".to_string()]);
    let result = action.execute(&mut fs);
    assert_eq!(result, Ok(None));
    assert_eq!(fs.kind_of("/tmp/d"), PathKind::Missing);
    assert_eq!(fs.kind_of("/tmp/d/x.tmp"), PathKind::Missing);
    assert_eq!(fs.kind_of("/tmp/d/y.tmp"), PathKind::Missing);
    assert_eq!(fs.kind_of("/tmp/other.tmp"), PathKind::File);
}

#[test]
fn copy_missing_source_reports_io_failure() {
    let mut fs = FileSystem::new();
    fs.add_directory("./out");
    let action = CopyAction::new(vec!["/tmp/absent.tmp".to_string()], "./out".to_string());
    let error = action.execute(&mut fs).unwrap_err();
    assert_eq!(error.kind, ErrorKind::IoFailure);
    assert_eq!(
        error.message.as_str(),
        "Could not copy path \"/tmp/absent.tmp\""
    );
}

#[test]
fn copy_over_file_output_directory_fails() {
    let mut fs = FileSystem::new();
    fs.add_file("/tmp/src.tmp", b"abc".to_vec());
    fs.add_file("./out", b"not a directory".to_vec());
    let action = CopyAction::new(vec!["/tmp/src.tmp".to_string()], "./out".to_string());
    let error = action.execute(&mut fs).unwrap_err();
    assert_eq!(error.kind, ErrorKind::IoFailure);
    assert_eq!(error.message.as_str(), "Could not create directory \"./out\"");
}

#[test]
fn copy_is_idempotent() {
    let mut fs = FileSystem::new();
    fs.add_file("/tmp/x.tmp", b"payload".to_vec());
    fs.add_directory("./out");

    let action = CopyAction::new(vec!["/tmp/x.tmp".to_string()], "./out".to_string());
    let first = action.execute(&mut fs);
    assert_eq!(
        first,
        Ok(Some(vec!["./out/x.tmp".to_string()]))
    );
    assert_eq!(fs.file_content("./out/x.tmp"), Some(&b"payload".to_vec()));

    let again = CopyAction::new(vec!["/tmp/x.tmp".to_string()], "./out".to_string());
    let second = again.execute(&mut fs);
    assert_eq!(
        second,
        Ok(Some(vec!["./out/x.tmp".to_string()]))
    );
    assert_eq!(fs.file_content("./out/x.tmp"), Some(&b"payload".to_vec()));
}

#[test]
fn copy_creates_missing_output_directory() {
    let mut fs = FileSystem::new();
    fs.add_file("/tmp/x.tmp", b"abc".to_vec());
    let action = CopyAction::new(vec!["/tmp/x.tmp".to_string()], "./fresh".to_string());
    let result = action.execute(&mut fs);
    assert_eq!(result, Ok(Some(vec!["./fresh/x.tmp".to_string()])));
    assert_eq!(fs.kind_of("./fresh"), PathKind::Directory);
}

#[test]
fn copy_destination_joins_file_name() {
    assert_eq!(
        copy_destination("./out", "/tmp/x.tmp"),
        Ok("./out/x.tmp".to_string())
    );
    assert_eq!(copy_destination("dir/", "a/b"), Ok("dir/b".to_string()));
    assert_eq!(copy_destination("", "name"), Ok("name".to_string()));
    let error = copy_destination("./out", "/tmp/trailing/").unwrap_err();
    assert_eq!(error.kind, ErrorKind::IoFailure);
    assert_eq!(
        error.message.as_str(),
        "Could not copy path \"/tmp/trailing/\""
    );
}

#[test]
fn list_skips_non_directory() {
    let mut fs = FileSystem::new();
    fs.add_file("/tmp/plain.tmp", b"abc".to_vec());
    let action = ListAction::new(vec!["/tmp/plain.tmp".to_string()]);
    let result = action.execute(&mut fs);
    assert_eq!(result, Ok(Some(vec![])));
}

#[test]
fn list_reports_each_direct_child_once() {
    let mut fs = FileSystem::new();
    fs.add_directory("/data");
    fs.add_file("/data/a.txt", b"a".to_vec());
    fs.add_file("/data/b.txt", b"b".to_vec());
    fs.add_directory("/data/sub");
    fs.add_file("/data/sub/deep.txt", b"d".to_vec());
    fs.add_file("/elsewhere.txt", b"e".to_vec());

    let action = ListAction::new(vec!["/data".to_string()]);
    let result = action.execute(&mut fs).unwrap().unwrap();
    assert_eq!(
        result,
        vec![
            "/data/a.txt".to_string(),
            "/data/b.txt".to_string(),
            "/data/sub".to_string()
        ]
    );
}

#[test]
fn copy_scenario_end_to_end() {
    let mut fs = FileSystem::new();
    fs.add_file("/tmp/x.tmp", b"ABCDEF1234567890".to_vec());

    let parameters = FileSystemParameters {
        source_paths: vec!["/tmp/x.tmp".to_string()],
        action: FileSystemAction::Copy,
        output_directory: Some("./out".to_string()),
    };
    let job_result = JobResult::new(7);
    let result = process(parameters, job_result, &mut fs).unwrap();
    assert_eq!(result.get_status(), JobStatus::Completed);
    assert_eq!(
        result.get_destination_paths(),
        &vec!["./out/x.tmp".to_string()]
    );
    assert_eq!(
        fs.file_content("./out/x.tmp"),
        Some(&b"ABCDEF1234567890".to_vec())
    );
}

#[test]
fn remove_scenario_fail_fast_keeps_earlier_removals() {
    let mut fs = FileSystem::new();
    fs.add_file("/tmp/a.tmp", b"a".to_vec());

    let parameters = FileSystemParameters {
        source_paths: vec!["/tmp/a.tmp".to_string(), "/tmp/missing.tmp".to_string()],
        action: FileSystemAction::Remove,
        output_directory: None,
    };
    let job_result = JobResult::new(8);
    let result = process(parameters, job_result, &mut fs);
    match result {
        Err(MessageError::ProcessingError(job)) => {
            assert_eq!(job.get_status(), JobStatus::Error);
            assert!(job.get_message().contains("/tmp/missing.tmp"));
        }
        other => panic!("expected a processing error, got {:?}", other),
    }
    assert_eq!(fs.kind_of("/tmp/a.tmp"), PathKind::Missing);
}

#[test]
fn remove_empty_batch_succeeds() {
    let mut fs = FileSystem::new();
    fs.add_file("/tmp/keep.tmp", b"k".to_vec());
    let action = RemoveAction::new(vec![]);
    assert_eq!(action.execute(&mut fs), Ok(None));
    assert_eq!(fs.kind_of("/tmp/keep.tmp"), PathKind::File);
}

#[test]
fn list_empty_batch_reports_empty() {
    let mut fs = FileSystem::new();
    let action = ListAction::new(vec![]);
    assert_eq!(action.execute(&mut fs), Ok(Some(vec![])));
}

#[test]
fn remove_duplicate_path_fails_on_second_visit() {
    let mut fs = FileSystem::new();
    fs.add_file("/tmp/once.tmp", b"o".to_vec());
    let action = RemoveAction::new(vec!["/tmp/once.tmp".to_string(), "/tmp/once.tmp".to_string()]);
    let error = action.execute(&mut fs).unwrap_err();
    assert_eq!(error.kind, ErrorKind::PathNotFound);
    assert_eq!(
        error.message.as_str(),
        "No such a file or directory: \"/tmp/once.tmp\""
    );
    assert_eq!(fs.kind_of("/tmp/once.tmp"), PathKind::Missing);
}

#[test]
fn copy_creates_parent_directory_chain() {
    let mut fs = FileSystem::new();
    fs.add_file("/tmp/x.tmp", b"abc".to_vec());
    let action = CopyAction::new(vec!["/tmp/x.tmp".to_string()], "./a/b".to_string());
    let result = action.execute(&mut fs);
    assert_eq!(result, Ok(Some(vec!["./a/b/x.tmp".to_string()])));
    assert_eq!(fs.kind_of("."), PathKind::Directory);
    assert_eq!(fs.kind_of("./a"), PathKind::Directory);
    assert_eq!(fs.kind_of("./a/b"), PathKind::Directory);
    assert_eq!(fs.file_content("./a/b/x.tmp"), Some(&b"abc".to_vec()));
}

#[test]
fn copy_fails_when_ancestor_is_a_file() {
    let mut fs = FileSystem::new();
    fs.add_file("/tmp/x.tmp", b"abc".to_vec());
    fs.add_file("base", b"not a directory".to_vec());
    let action = CopyAction::new(vec!["/tmp/x.tmp".to_string()], "base/out".to_string());
    let error = action.execute(&mut fs).unwrap_err();
    assert_eq!(error.kind, ErrorKind::IoFailure);
    assert_eq!(error.message.as_str(), "Could not create directory \"base/out\"");
    assert_eq!(fs.kind_of("base"), PathKind::File);
    assert_eq!(fs.kind_of("base/out"), PathKind::Missing);
}
