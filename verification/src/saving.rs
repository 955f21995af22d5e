//! Writing a file as a whole, or not at all.

use crate::error::{AppError, Failure};
use crate::paths::{get_kimi_config_path, is_joined, KIMI_CONFIG_FILE};
use crate::text::{decimal, joined, number_text};
use std::path::PathBuf;
use vstd::prelude::*;

verus! {

/// The permissions of the files of the settings: the owner writes, and all read.
pub const FILE_MODE: u32 = 0o644;

/// A file to be written.
#[derive(Debug)]
pub struct FileWrite {
    pub path: PathBuf,
    pub content: String,
    pub mode: u32,
}

/// The write of a text to the configuration file in `dir`.
pub fn write_kimi_config_source(dir: &PathBuf, source: &str) -> (r: FileWrite)
    ensures
        is_joined(r.path, *dir, KIMI_CONFIG_FILE@),
        r.content@ == source@,
        r.mode == FILE_MODE,
{
    FileWrite { path: get_kimi_config_path(dir), content: source.to_owned(), mode: FILE_MODE }
}

/// What is said when the lock that writes are made under is poisoned.
pub open spec fn lock_failure() -> Failure {
    Failure::Message("Kimi write lock poisoned"@)
}

/// Lets a write go on, unless the lock that writes are made under is poisoned.
pub fn check_write_lock(poisoned: bool) -> (r: Result<(), AppError>)
    ensures
        match r {
            Ok(_) => !poisoned,
            Err(e) => poisoned && e@ == lock_failure(),
        },
{
    if poisoned {
        Err(AppError::Message("Kimi write lock poisoned".to_owned()))
    } else {
        Ok(())
    }
}

/// The write of a prepared text to the configuration file in `dir`, under the lock.
pub fn write_prepared_config(poisoned: bool, dir: &PathBuf, content: &str) -> (r: Result<
    FileWrite,
    AppError,
>)
    ensures
        match r {
            Ok(w) => {
                &&& !poisoned
                &&& is_joined(w.path, *dir, KIMI_CONFIG_FILE@)
                &&& w.content@ == content@
                &&& w.mode == FILE_MODE
            },
            Err(e) => poisoned && e@ == lock_failure(),
        },
{
    match check_write_lock(poisoned) {
        Ok(_) => Ok(write_kimi_config_source(dir, content)),
        Err(e) => Err(e),
    }
}

// ---------------------------------------------------------------------------
// The steps of a write
// ---------------------------------------------------------------------------

/// A step of the write of a file: what is to be done next.
#[derive(Clone, Copy, Debug, PartialEq, Eq, Structural)]
pub enum WriteStep {
    /// Create the directory of the file, and those above it.
    CreateDirectory,
    /// Create the temporary file beside the file.
    OpenTemporary,
    /// Set its permissions.
    SetMode,
    /// Write the content to it.
    WriteContent,
    /// Have it brought to the disk.
    Flush,
    /// Rename it to the file.
    Rename,
    /// Remove it: it could not be renamed.
    DiscardTemporary,
    /// Nothing: the file is written.
    Finished,
    /// Nothing: the file is as it was.
    Failed,
}

/// The step after one that succeeded, or did not.
pub open spec fn step_after(step: WriteStep, succeeded: bool) -> WriteStep {
    match step {
        WriteStep::CreateDirectory => if succeeded {
            WriteStep::OpenTemporary
        } else {
            WriteStep::Failed
        },
        WriteStep::OpenTemporary => if succeeded {
            WriteStep::SetMode
        } else {
            WriteStep::Failed
        },
        WriteStep::SetMode => if succeeded {
            WriteStep::WriteContent
        } else {
            WriteStep::Failed
        },
        WriteStep::WriteContent => if succeeded {
            WriteStep::Flush
        } else {
            WriteStep::Failed
        },
        WriteStep::Flush => if succeeded {
            WriteStep::Rename
        } else {
            WriteStep::Failed
        },
        WriteStep::Rename => if succeeded {
            WriteStep::Finished
        } else {
            WriteStep::DiscardTemporary
        },
        WriteStep::DiscardTemporary => WriteStep::Failed,
        WriteStep::Finished => WriteStep::Finished,
        WriteStep::Failed => WriteStep::Failed,
    }
}

/// The step after one that succeeded, or did not.
pub fn next_step(step: WriteStep, succeeded: bool) -> (r: WriteStep)
    ensures
        r == step_after(step, succeeded),
{
    match step {
        WriteStep::DiscardTemporary => WriteStep::Failed,
        WriteStep::Finished => WriteStep::Finished,
        WriteStep::Failed => WriteStep::Failed,
        WriteStep::Rename => if succeeded {
            WriteStep::Finished
        } else {
            WriteStep::DiscardTemporary
        },
        _ if !succeeded => WriteStep::Failed,
        WriteStep::CreateDirectory => WriteStep::OpenTemporary,
        WriteStep::OpenTemporary => WriteStep::SetMode,
        WriteStep::SetMode => WriteStep::WriteContent,
        WriteStep::WriteContent => WriteStep::Flush,
        WriteStep::Flush => WriteStep::Rename,
    }
}

/// The step that a write is at, after steps with these outcomes.
pub open spec fn step_at(outcomes: Seq<bool>) -> WriteStep
    decreases outcomes.len(),
{
    if outcomes.len() == 0 {
        WriteStep::CreateDirectory
    } else {
        step_after(step_at(outcomes.drop_last()), outcomes.last())
    }
}

/// What is said when a step fails: which path could not be dealt with, or, where the step is
/// on the open temporary file, the reason itself.
pub open spec fn step_failure(
    step: WriteStep,
    directory: Seq<char>,
    temporary: Seq<char>,
    path: Seq<char>,
    reason: Seq<char>,
) -> Failure {
    Failure::Message(
        match step {
            WriteStep::CreateDirectory => "创建目录失败: "@ + directory,
            WriteStep::OpenTemporary => "创建临时文件失败: "@ + temporary,
            WriteStep::Rename => "重命名临时文件到目标文件失败: "@ + path,
            _ => reason,
        },
    )
}

/// The error of a step that failed, given the paths and the reason in words.
pub fn write_failure(
    step: WriteStep,
    directory: &str,
    temporary: &str,
    path: &str,
    reason: &str,
) -> (r: AppError)
    ensures
        r@ == step_failure(step, directory@, temporary@, path@, reason@),
{
    AppError::Message(
        match step {
            WriteStep::CreateDirectory => joined("创建目录失败: ", directory),
            WriteStep::OpenTemporary => joined("创建临时文件失败: ", temporary),
            WriteStep::Rename => joined("重命名临时文件到目标文件失败: ", path),
            _ => reason.to_owned(),
        },
    )
}

/// What is said of a path that has no directory to write to.
pub fn no_directory(path: &str) -> (r: AppError)
    ensures
        r@ == Failure::Message("无效的路径: "@ + path@),
{
    AppError::Message(joined("无效的路径: ", path))
}

/// What is said of a path that does not end in the name of a file.
pub fn no_file_name(path: &str) -> (r: AppError)
    ensures
        r@ == Failure::Message("无效的文件名: "@ + path@),
{
    AppError::Message(joined("无效的文件名: ", path))
}

/// The name of the temporary file for a file, at a time in nanoseconds.
pub fn temporary_name(file_name: &str, nanoseconds: u128) -> (r: String)
    ensures
        r@ == "."@ + file_name@ + ".tmp."@ + decimal(nanoseconds as nat),
{
    let mut name = joined(".", file_name);
    name.append(".tmp.");
    name.append(number_text(nanoseconds).as_str());
    name
}

/// A write reaches its end where all its steps succeed, from the directory to the renaming,
/// in this order, and there alone.
pub proof fn law_finished_when_whole(outcomes: Seq<bool>)
    ensures
        step_at(outcomes) == WriteStep::Finished <==> outcomes.len() >= 6 && forall|i: int|
            0 <= i < 6 ==> #[trigger] outcomes[i],
    decreases outcomes.len(),
{
    if outcomes.len() < 6 {
        lemma_not_finished(outcomes);
    } else {
        let front = outcomes.drop_last();
        if step_at(front) == WriteStep::Rename {
            law_renamed_only_when_flushed(front);
            assert forall|i: int| 0 <= i < 5 implies #[trigger] outcomes[i] by {
                assert(front[i]);
            }
            assert(outcomes.last() == outcomes[5]);
        } else if outcomes.len() == 6 {
            lemma_not_finished(front);
            if forall|i: int| 0 <= i < 6 ==> #[trigger] outcomes[i] {
                assert forall|i: int| 0 <= i < 5 implies #[trigger] front[i] by {
                    assert(outcomes[i]);
                }
                lemma_flushed(front);
            }
        } else {
            law_finished_when_whole(front);
            assert(forall|i: int| 0 <= i < 6 ==> #[trigger] front[i] == outcomes[i]);
            assert(forall|i: int| 0 <= i < 6 ==> #[trigger] outcomes[i] == front[i]);
        }
    }
}

/// A write is at the renaming after the steps before it succeeded.
proof fn lemma_flushed(outcomes: Seq<bool>)
    requires
        outcomes.len() == 5,
        forall|i: int| 0 <= i < 5 ==> #[trigger] outcomes[i],
    ensures
        step_at(outcomes) == WriteStep::Rename,
{
    let a = outcomes.drop_last();
    let b = a.drop_last();
    let c = b.drop_last();
    let d = c.drop_last();
    let e = d.drop_last();
    assert(outcomes[0] && outcomes[1] && outcomes[2] && outcomes[3] && outcomes[4]);
    assert(step_at(e) == WriteStep::CreateDirectory);
    assert(step_at(d) == WriteStep::OpenTemporary);
    assert(step_at(c) == WriteStep::SetMode);
    assert(step_at(b) == WriteStep::WriteContent);
    assert(step_at(a) == WriteStep::Flush);
}

/// No write is at its end after fewer than all its steps.
proof fn lemma_not_finished(outcomes: Seq<bool>)
    requires
        outcomes.len() < 6,
    ensures
        step_at(outcomes) != WriteStep::Finished,
    decreases outcomes.len(),
{
    if outcomes.len() > 0 {
        let front = outcomes.drop_last();
        lemma_not_finished(front);
        if step_at(front) == WriteStep::Rename {
            law_renamed_only_when_flushed(front);
        }
    }
}

/// A write that did not reach its end has not renamed anything to the file, which is as it
/// was.
pub proof fn law_failed_leaves_the_file(outcomes: Seq<bool>, i: int)
    requires
        step_at(outcomes) != WriteStep::Finished,
        0 <= i < outcomes.len(),
        step_at(outcomes.take(i)) == WriteStep::Rename,
    ensures
        !outcomes[i],
    decreases outcomes.len(),
{
    let front = outcomes.drop_last();
    if i == front.len() {
        assert(outcomes.take(i) =~= front);
    } else {
        assert(front.take(i) =~= outcomes.take(i));
        law_failed_leaves_the_file(front, i);
    }
}

/// The file is touched only when the temporary file is there, has its permissions and its
/// whole content, and is on the disk.
pub proof fn law_renamed_only_when_flushed(outcomes: Seq<bool>)
    requires
        step_at(outcomes) == WriteStep::Rename,
    ensures
        outcomes == seq![true, true, true, true, true],
{
    reveal_with_fuel(step_at, 7);
    let a = outcomes.drop_last();
    let b = a.drop_last();
    let c = b.drop_last();
    let d = c.drop_last();
    assert(step_at(a) == WriteStep::Flush && outcomes.last());
    assert(step_at(b) == WriteStep::WriteContent && a.last());
    assert(step_at(c) == WriteStep::SetMode && b.last());
    assert(step_at(d) == WriteStep::OpenTemporary && c.last());
    let e = d.drop_last();
    assert(step_at(e) == WriteStep::CreateDirectory && d.last());
    assert(e.len() == 0);
    assert(outcomes =~= seq![true, true, true, true, true]);
}

/// The temporary file is discarded where it could not be renamed, and there alone.
pub proof fn law_discarded_when_not_renamed(outcomes: Seq<bool>)
    ensures
        step_at(outcomes) == WriteStep::DiscardTemporary <==> outcomes.len() > 0
            && !outcomes.last() && step_at(outcomes.drop_last()) == WriteStep::Rename,
{
}

} // verus!
