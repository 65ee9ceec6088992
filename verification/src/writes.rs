//! The order in which the commands that write check, save and write.

use vstd::prelude::*;

use crate::backup::{sync_backup_file_names, synced_files};
use crate::sqlite::DB_FILE_BASENAME;
use crate::text::texts;
use crate::workspace::{GLOBAL_STATE_BACKUP_FILE_BASENAME, GLOBAL_STATE_FILE_BASENAME};

verus! {

/// A command that writes.
#[derive(Clone, Copy)]
pub enum WriteCommand {
    Sync { forced: bool },
    Switch,
    Repair { sync: bool },
    RemoveAuth,
    Token,
    Relay,
}

/// What is written.
#[derive(Clone, Copy)]
pub enum WriteTarget {
    Config,
    Auth,
    Sessions,
    Index,
    Roots,
}

/// One step of a command that writes. A command ends with the first step that
/// fails.
#[derive(Clone, Copy)]
pub enum WriteStep {
    /// To make sure that no process of Codex runs.
    CheckProcesses,
    /// To read what is there and to work out what is to be written.
    Read,
    /// To make sure that the thread index can be locked.
    CheckIndex,
    /// To save the files.
    Backup,
    Write(WriteTarget),
    /// To sync the sessions, as a command of its own.
    Sync,
}

/// The steps of a sync after the processes are checked.
pub open spec fn sync_steps() -> Seq<WriteStep> {
    seq![
        WriteStep::Read,
        WriteStep::CheckIndex,
        WriteStep::Backup,
        WriteStep::Write(WriteTarget::Sessions),
        WriteStep::Write(WriteTarget::Index),
        WriteStep::Write(WriteTarget::Roots),
    ]
}

/// The steps of a change of the configuration.
pub open spec fn config_steps() -> Seq<WriteStep> {
    seq![
        WriteStep::CheckProcesses,
        WriteStep::Read,
        WriteStep::Backup,
        WriteStep::Write(WriteTarget::Config),
    ]
}

/// The steps of a command, in order.
pub open spec fn steps_of(command: WriteCommand) -> Seq<WriteStep> {
    match command {
        WriteCommand::Sync { forced } => if forced {
            sync_steps()
        } else {
            seq![WriteStep::CheckProcesses] + sync_steps()
        },
        WriteCommand::Switch => config_steps().push(WriteStep::Sync),
        WriteCommand::Repair { sync } => if sync {
            config_steps().push(WriteStep::Sync)
        } else {
            config_steps()
        },
        WriteCommand::RemoveAuth => seq![
            WriteStep::CheckProcesses,
            WriteStep::Backup,
            WriteStep::Write(WriteTarget::Auth),
        ],
        WriteCommand::Token => config_steps(),
        WriteCommand::Relay => config_steps(),
    }
}

/// The steps of a command, in order.
pub fn write_steps(command: WriteCommand) -> (r: Vec<WriteStep>)
    ensures
        r@ == steps_of(command),
{
    let mut steps: Vec<WriteStep> = Vec::new();
    match command {
        WriteCommand::Sync { forced } => {
            if !forced {
                steps.push(WriteStep::CheckProcesses);
            }
            steps.push(WriteStep::Read);
            steps.push(WriteStep::CheckIndex);
            steps.push(WriteStep::Backup);
            steps.push(WriteStep::Write(WriteTarget::Sessions));
            steps.push(WriteStep::Write(WriteTarget::Index));
            steps.push(WriteStep::Write(WriteTarget::Roots));
        },
        WriteCommand::RemoveAuth => {
            steps.push(WriteStep::CheckProcesses);
            steps.push(WriteStep::Backup);
            steps.push(WriteStep::Write(WriteTarget::Auth));
        },
        WriteCommand::Switch | WriteCommand::Repair { .. } | WriteCommand::Token | WriteCommand::Relay => {
            steps.push(WriteStep::CheckProcesses);
            steps.push(WriteStep::Read);
            steps.push(WriteStep::Backup);
            steps.push(WriteStep::Write(WriteTarget::Config));
            let syncs = match command {
                WriteCommand::Switch => true,
                WriteCommand::Repair { sync } => sync,
                _ => false,
            };
            if syncs {
                steps.push(WriteStep::Sync);
            }
        },
    }
    assert(steps@ =~= steps_of(command));
    steps
}

/// The steps before the files are saved.
pub open spec fn before_backup(steps: Seq<WriteStep>) -> Seq<WriteStep>
    decreases steps.len(),
{
    if steps.len() == 0 || steps[0] is Backup {
        Seq::empty()
    } else {
        seq![steps[0]] + before_backup(steps.drop_first())
    }
}

/// The steps that a command takes where `found` things are there to be
/// written: where there is nothing, it ends before files are saved.
pub open spec fn taken_steps(command: WriteCommand, found: nat) -> Seq<WriteStep> {
    if found == 0 {
        before_backup(steps_of(command))
    } else {
        steps_of(command)
    }
}

proof fn lemma_before_backup(steps: Seq<WriteStep>, k: int)
    requires
        0 <= k <= steps.len(),
        forall|j: int| 0 <= j < k ==> !(#[trigger] steps[j] is Backup),
    ensures
        before_backup(steps) == steps.take(k) + before_backup(steps.skip(k)),
    decreases k,
{
    if k > 0 {
        let rest = steps.drop_first();
        assert forall|j: int| 0 <= j < k - 1 implies !(#[trigger] rest[j] is Backup) by {
            assert(rest[j] == steps[j + 1]);
        }
        lemma_before_backup(rest, k - 1);
        assert(!(steps[0] is Backup));
        assert(rest.skip(k - 1) =~= steps.skip(k));
        assert(seq![steps[0]] + rest.take(k - 1) =~= steps.take(k));
        assert(before_backup(steps) =~= steps.take(k) + before_backup(steps.skip(k)));
    } else {
        assert(steps.skip(0) =~= steps);
        assert(steps.take(0) + before_backup(steps) =~= before_backup(steps));
    }
}

/// The step after the first `done`, if there is one. What there is to be
/// written, `found` things, need not be known before it is read: the lines to
/// switch, or whether there is a login.
pub fn next_step(command: WriteCommand, done: usize, found: usize) -> (r: Option<WriteStep>)
    ensures
        r == (if done < taken_steps(command, found as nat).len() {
            Some(taken_steps(command, found as nat)[done as int])
        } else {
            None
        }),
{
    let steps = write_steps(command);
    if found == 0 {
        for i in 0..steps.len()
            invariant
                steps@ == steps_of(command),
                found == 0,
                i <= done,
                forall|j: int| 0 <= j < i ==> !(#[trigger] steps@[j] is Backup),
        {
            if let WriteStep::Backup = steps[i] {
                proof {
                    lemma_before_backup(steps@, i as int);
                    assert(steps@.skip(i as int)[0] is Backup);
                    assert(taken_steps(command, 0) =~= steps@.take(i as int));
                }
                return None;
            }
            if i == done {
                proof {
                    lemma_before_backup(steps@, i + 1);
                    assert(taken_steps(command, 0)[done as int] == steps@[done as int]);
                }
                return Some(steps[i]);
            }
        }
        proof {
            lemma_before_backup(steps@, steps@.len() as int);
            assert(steps@.skip(steps@.len() as int).len() == 0);
        }
        return None;
    }
    if done < steps.len() {
        Some(steps[done])
    } else {
        None
    }
}

/// Where there is nothing to be written, nothing is saved or written.
pub proof fn law_nothing_found_writes_nothing(command: WriteCommand, i: int)
    requires
        0 <= i < taken_steps(command, 0).len(),
    ensures
        !(taken_steps(command, 0)[i] is Write),
        !(taken_steps(command, 0)[i] is Backup),
{
    let steps = steps_of(command);
    let k: int = match command {
        WriteCommand::Sync { forced } => if forced {
            2
        } else {
            3
        },
        WriteCommand::RemoveAuth => 1,
        _ => 2,
    };
    assert(steps[k] is Backup);
    assert forall|j: int| 0 <= j < k implies !(#[trigger] steps[j] is Backup) && !(steps[j] is Write) by {}
    lemma_before_backup(steps, k);
    assert(steps.skip(k)[0] is Backup);
    assert(taken_steps(command, 0) =~= steps.take(k));
}

/// What a command is called where it is refused.
pub open spec fn action_of(command: WriteCommand) -> Seq<char> {
    match command {
        WriteCommand::Sync { .. } => "同步历史会话 metadata"@,
        WriteCommand::Switch => "切换 provider 并同步历史会话"@,
        WriteCommand::Repair { .. } => "重命名 provider 并同步历史会话"@,
        WriteCommand::RemoveAuth => "备份并移除 auth.json"@,
        WriteCommand::Token => "写入 experimental_bearer_token"@,
        WriteCommand::Relay => "切换中转配置注释状态"@,
    }
}

/// What a command is called where it is refused.
pub fn write_action(command: WriteCommand) -> (r: String)
    ensures
        r@ == action_of(command),
{
    match command {
        WriteCommand::Sync { .. } => "同步历史会话 metadata".to_owned(),
        WriteCommand::Switch => "切换 provider 并同步历史会话".to_owned(),
        WriteCommand::Repair { .. } => "重命名 provider 并同步历史会话".to_owned(),
        WriteCommand::RemoveAuth => "备份并移除 auth.json".to_owned(),
        WriteCommand::Token => "写入 experimental_bearer_token".to_owned(),
        WriteCommand::Relay => "切换中转配置注释状态".to_owned(),
    }
}

/// Why the files of a command are saved.
pub open spec fn reason_of(command: WriteCommand) -> Seq<char> {
    match command {
        WriteCommand::Sync { .. } => "native-provider-sync"@,
        WriteCommand::Switch => "switch-root-provider"@,
        WriteCommand::Repair { .. } => "repair-provider-name"@,
        WriteCommand::RemoveAuth => "backup-and-remove-auth-json"@,
        WriteCommand::Token => "apply-experimental-bearer-token"@,
        WriteCommand::Relay => "toggle-relay-config-lines"@,
    }
}

/// Why the files of a command are saved.
pub fn backup_reason(command: WriteCommand) -> (r: String)
    ensures
        r@ == reason_of(command),
{
    match command {
        WriteCommand::Sync { .. } => "native-provider-sync".to_owned(),
        WriteCommand::Switch => "switch-root-provider".to_owned(),
        WriteCommand::Repair { .. } => "repair-provider-name".to_owned(),
        WriteCommand::RemoveAuth => "backup-and-remove-auth-json".to_owned(),
        WriteCommand::Token => "apply-experimental-bearer-token".to_owned(),
        WriteCommand::Relay => "toggle-relay-config-lines".to_owned(),
    }
}

/// The names of the files that a command saves before it writes.
pub open spec fn saved_files(command: WriteCommand) -> Seq<Seq<char>> {
    match command {
        WriteCommand::Sync { .. } => synced_files(),
        WriteCommand::RemoveAuth => seq!["auth.json"@],
        _ => seq!["config.toml"@],
    }
}

/// The names of the files that a command saves before it writes.
pub fn backup_file_names(command: WriteCommand) -> (r: Vec<String>)
    ensures
        texts(r@) == saved_files(command),
{
    match command {
        WriteCommand::Sync { .. } => sync_backup_file_names(),
        WriteCommand::RemoveAuth => {
            let names = vec!["auth.json".to_owned()];
            assert(texts(names@) =~= saved_files(command));
            names
        },
        _ => {
            let names = vec!["config.toml".to_owned()];
            assert(texts(names@) =~= saved_files(command));
            names
        },
    }
}

/// The names of the files that are written. The files of sessions have no
/// fixed names; of each, the record of a sync keeps the first line.
pub open spec fn target_files(target: WriteTarget) -> Seq<Seq<char>> {
    match target {
        WriteTarget::Config => seq!["config.toml"@],
        WriteTarget::Auth => seq!["auth.json"@],
        WriteTarget::Sessions => seq![],
        WriteTarget::Index => seq![DB_FILE_BASENAME@],
        WriteTarget::Roots => seq![GLOBAL_STATE_FILE_BASENAME@, GLOBAL_STATE_BACKUP_FILE_BASENAME@],
    }
}

/// Whether a step comes before another in the steps of a command.
pub open spec fn comes_before(command: WriteCommand, step: WriteStep, i: int) -> bool {
    exists|j: int| 0 <= j < i && #[trigger] steps_of(command)[j] == step
}

/// Nothing is written before the processes are checked, but by a forced sync,
/// nor before the files are saved. A sync first makes sure that the thread
/// index can be locked.
pub proof fn law_writes_are_guarded(command: WriteCommand, i: int)
    requires
        0 <= i < steps_of(command).len(),
        steps_of(command)[i] is Write,
    ensures
        command == (WriteCommand::Sync { forced: true }) || comes_before(command, WriteStep::CheckProcesses, i),
        comes_before(command, WriteStep::Backup, i),
        command is Sync ==> comes_before(command, WriteStep::CheckIndex, i),
{
    let steps = steps_of(command);
    match command {
        WriteCommand::Sync { forced } => {
            if forced {
                assert(steps[1] == WriteStep::CheckIndex);
                assert(steps[2] == WriteStep::Backup);
            } else {
                assert(steps[0] == WriteStep::CheckProcesses);
                assert(steps[2] == WriteStep::CheckIndex);
                assert(steps[3] == WriteStep::Backup);
            }
        },
        WriteCommand::RemoveAuth => {
            assert(steps[0] == WriteStep::CheckProcesses);
            assert(steps[1] == WriteStep::Backup);
        },
        _ => {
            assert(steps[0] == WriteStep::CheckProcesses);
            assert(steps[2] == WriteStep::Backup);
        },
    }
}

/// Every file with a fixed name that a command writes is among those that it
/// saves.
pub proof fn law_written_files_are_saved(command: WriteCommand, target: WriteTarget, name: Seq<char>)
    requires
        steps_of(command).contains(WriteStep::Write(target)),
        target_files(target).contains(name),
    ensures
        saved_files(command).contains(name),
{
    let saved = saved_files(command);
    match target {
        WriteTarget::Config | WriteTarget::Auth => {
            assert(saved[0] == name);
        },
        WriteTarget::Sessions => {},
        WriteTarget::Index => {
            assert(saved[1] == name);
        },
        WriteTarget::Roots => {
            assert(saved[4] == GLOBAL_STATE_FILE_BASENAME@ && saved[5] == GLOBAL_STATE_BACKUP_FILE_BASENAME@);
        },
    }
}

} // verus!
