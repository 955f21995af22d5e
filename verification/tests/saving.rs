use kimi_config::saving::{check_write_lock, next_step, no_directory, no_file_name, temporary_name};
use kimi_config::saving::{write_failure, WriteStep};
use kimi_config::{write_kimi_config_source, write_prepared_config, AppError};
use std::path::PathBuf;

fn message(e: AppError) -> String {
    match e {
        AppError::Message(text) => text,
        other => panic!("{:?}", other),
    }
}

fn run(outcomes: &[bool]) -> Vec<WriteStep> {
    let mut step = WriteStep::CreateDirectory;
    let mut steps = vec![step];
    for outcome in outcomes {
        step = next_step(step, *outcome);
        steps.push(step);
    }
    steps
}

#[test]
fn a_source_is_written_to_the_configuration_file() {
    let dir = PathBuf::from("d");
    let write = write_kimi_config_source(&dir, "x = 1\n");
    assert_eq!(write.path, PathBuf::from("d").join("config.toml"));
    assert_eq!(write.content, "x = 1\n");
    assert_eq!(write.mode, 0o644);
    let write = write_prepared_config(false, &dir, "y = 2\n").unwrap();
    assert_eq!(write.path, PathBuf::from("d").join("config.toml"));
    assert_eq!(write.content, "y = 2\n");
    assert_eq!(write.mode, 0o644);
}

#[test]
fn a_poisoned_lock_stops_a_write() {
    let e = write_prepared_config(true, &PathBuf::from("d"), "").unwrap_err();
    assert_eq!(message(e), "Kimi write lock poisoned");
    assert_eq!(message(check_write_lock(true).unwrap_err()), "Kimi write lock poisoned");
    assert!(check_write_lock(false).is_ok());
}

#[test]
fn a_write_goes_through_its_steps() {
    assert_eq!(
        run(&[true; 7]),
        vec![
            WriteStep::CreateDirectory,
            WriteStep::OpenTemporary,
            WriteStep::SetMode,
            WriteStep::WriteContent,
            WriteStep::Flush,
            WriteStep::Rename,
            WriteStep::Finished,
            WriteStep::Finished,
        ]
    );
}

#[test]
fn a_step_that_fails_ends_the_write() {
    for n in 0..5 {
        let mut outcomes = vec![true; n];
        outcomes.push(false);
        assert_eq!(run(&outcomes)[n + 1], WriteStep::Failed);
        assert_eq!(next_step(WriteStep::Failed, true), WriteStep::Failed);
    }
    let steps = run(&[true, true, true, true, true, false, true]);
    assert_eq!(steps[6], WriteStep::DiscardTemporary);
    assert_eq!(steps[7], WriteStep::Failed);
    assert_eq!(next_step(WriteStep::DiscardTemporary, false), WriteStep::Failed);
}

#[test]
fn a_failure_names_the_path() {
    let text = |step| message(write_failure(step, "/d", "/d/.t", "/d/f", "why"));
    assert_eq!(text(WriteStep::CreateDirectory), "创建目录失败: /d");
    assert_eq!(text(WriteStep::OpenTemporary), "创建临时文件失败: /d/.t");
    assert_eq!(text(WriteStep::SetMode), "why");
    assert_eq!(text(WriteStep::WriteContent), "why");
    assert_eq!(text(WriteStep::Flush), "why");
    assert_eq!(text(WriteStep::Rename), "重命名临时文件到目标文件失败: /d/f");
    assert_eq!(message(no_directory("/")), "无效的路径: /");
    assert_eq!(message(no_file_name("..")), "无效的文件名: ..");
}

#[test]
fn the_temporary_file_is_named_after_the_file_and_the_time() {
    assert_eq!(temporary_name("config.toml", 0), ".config.toml.tmp.0");
    assert_eq!(temporary_name("mcp.json", 1700000000123456789), ".mcp.json.tmp.1700000000123456789");
    assert_eq!(
        temporary_name("", u128::MAX),
        "..tmp.340282366920938463463374607431768211455"
    );
}
