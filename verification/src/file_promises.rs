//! What is promised of where the files are, and of how they are written.

use crate::choice_promises::goes_to_config;
use crate::error::AppError;
use crate::paths::{get_kimi_agents_md_path, get_kimi_config_dir, get_kimi_config_path};
use crate::paths::{get_kimi_mcp_path, get_kimi_skills_dir, joined_names, path_names, takes_names};
use crate::paths::KIMI_HOME_ENV;
use crate::saving::{check_write_lock, next_step, no_directory, no_file_name, write_failure};
use crate::saving::{write_kimi_config_source, write_prepared_config, FileWrite, WriteStep};
use std::path::PathBuf;
use vstd::prelude::*;

verus! {

/// The directory that was chosen is taken, whatever the environment and the home directory are;
/// without one, the directory that the environment names, unless it is empty, whatever the home
/// directory is; and only then ".kimi-code", joined to the home directory where there is one.
/// The variable of the environment that names it is "KIMI_CODE_HOME".
pub proof fn law_directory_is_the_first_given(
    chosen: Option<PathBuf>,
    named: Option<PathBuf>,
    home: Option<PathBuf>,
    r: PathBuf,
)
    requires
        call_ensures(get_kimi_config_dir, (chosen, named, home), r),
    ensures
        chosen matches Some(dir) ==> r == dir,
        chosen is None ==> (named matches Some(dir) ==> (path_names(dir).len() > 0 ==> r == dir)),
        chosen is None && (named matches Some(dir) ==> path_names(dir).len() == 0) ==> match home {
            Some(dir) => path_names(r) == joined_names(dir, ".kimi-code"@) && (takes_names(dir)
                ==> path_names(r) == path_names(dir).push(".kimi-code"@)),
            None => path_names(r) == seq![".kimi-code"@],
        },
        KIMI_HOME_ENV@ == "KIMI_CODE_HOME"@,
{
}

/// The configuration file is "config.toml", the file of the MCP servers "mcp.json", the
/// directory of the skills "skills" and the file of the instructions "AGENTS.md", each joined
/// to the directory of the settings.
pub proof fn law_files_have_their_names(
    dir: &PathBuf,
    config: PathBuf,
    mcp: PathBuf,
    skills: PathBuf,
    instructions: PathBuf,
)
    requires
        call_ensures(get_kimi_config_path, (dir,), config),
        call_ensures(get_kimi_mcp_path, (dir,), mcp),
        call_ensures(get_kimi_skills_dir, (dir,), skills),
        call_ensures(get_kimi_agents_md_path, (dir,), instructions),
    ensures
        path_names(config) == joined_names(*dir, "config.toml"@),
        path_names(mcp) == joined_names(*dir, "mcp.json"@),
        path_names(skills) == joined_names(*dir, "skills"@),
        path_names(instructions) == joined_names(*dir, "AGENTS.md"@),
        takes_names(*dir) ==> path_names(config) == path_names(*dir).push("config.toml"@),
        takes_names(*dir) ==> path_names(mcp) == path_names(*dir).push("mcp.json"@),
        takes_names(*dir) ==> path_names(skills) == path_names(*dir).push("skills"@),
        takes_names(*dir) ==> path_names(instructions) == path_names(*dir).push("AGENTS.md"@),
{
}

/// A text is written to the configuration file as it is.
pub proof fn law_source_is_written(dir: &PathBuf, source: &str, w: FileWrite)
    requires
        call_ensures(write_kimi_config_source, (dir, source), w),
    ensures
        goes_to_config(w, *dir),
        w.content@ == source@,
{
}

/// A prepared text is written to the configuration file as it is, and nothing is where the lock
/// is poisoned, which is what is then said; the lock is asked in the same way by itself.
pub proof fn law_lock_decides(
    poisoned: bool,
    dir: &PathBuf,
    content: &str,
    r: Result<FileWrite, AppError>,
    lock: Result<(), AppError>,
)
    requires
        call_ensures(write_prepared_config, (poisoned, dir, content), r),
        call_ensures(check_write_lock, (poisoned,), lock),
    ensures
        !poisoned ==> (r matches Ok(w) && goes_to_config(w, *dir) && w.content@ == content@),
        poisoned ==> (r matches Err(AppError::Message(s)) && s@ == "Kimi write lock poisoned"@),
        !poisoned ==> lock is Ok,
        poisoned ==> (lock matches Err(AppError::Message(s)) && s@ == "Kimi write lock poisoned"@),
{
}

/// The steps of a write that goes well, in their order.
pub open spec fn steps_in_order() -> Seq<WriteStep> {
    seq![
        WriteStep::CreateDirectory,
        WriteStep::OpenTemporary,
        WriteStep::SetMode,
        WriteStep::WriteContent,
        WriteStep::Flush,
        WriteStep::Rename,
        WriteStep::Finished,
    ]
}

/// A step that succeeds is followed by the next in the order. One that fails ends the write,
/// but for the renaming, after which the temporary file is discarded first. A write that has
/// ended stays so.
pub proof fn law_steps_follow_each_other(step: WriteStep, succeeded: bool, r: WriteStep, i: int)
    requires
        call_ensures(next_step, (step, succeeded), r),
    ensures
        succeeded && 0 <= i < 6 && step == steps_in_order()[i] ==> r == steps_in_order()[i + 1],
        !succeeded && 0 <= i < 5 && step == steps_in_order()[i] ==> r == WriteStep::Failed,
        !succeeded && step == WriteStep::Rename ==> r == WriteStep::DiscardTemporary,
        step == WriteStep::DiscardTemporary ==> r == WriteStep::Failed,
        step == WriteStep::Finished || step == WriteStep::Failed ==> r == step,
{
}

/// What is said of a step that failed: the path that it is about, or, for a step on the open
/// temporary file, the reason; and what is said of a path without a directory or a name.
pub proof fn law_failures_name_their_path(
    step: WriteStep,
    directory: &str,
    temporary: &str,
    path: &str,
    reason: &str,
    r: AppError,
    homeless: AppError,
    nameless: AppError,
)
    requires
        call_ensures(write_failure, (step, directory, temporary, path, reason), r),
        call_ensures(no_directory, (path,), homeless),
        call_ensures(no_file_name, (path,), nameless),
    ensures
        step == WriteStep::CreateDirectory ==> (r matches AppError::Message(s) && s@
            == "创建目录失败: "@ + directory@),
        step == WriteStep::OpenTemporary ==> (r matches AppError::Message(s) && s@
            == "创建临时文件失败: "@ + temporary@),
        step == WriteStep::Rename ==> (r matches AppError::Message(s) && s@
            == "重命名临时文件到目标文件失败: "@ + path@),
        step == WriteStep::SetMode || step == WriteStep::WriteContent || step == WriteStep::Flush
            ==> (r matches AppError::Message(s) && s@ == reason@),
        homeless matches AppError::Message(s) && s@ == "无效的路径: "@ + path@,
        nameless matches AppError::Message(s) && s@ == "无效的文件名: "@ + path@,
{
}

} // verus!
