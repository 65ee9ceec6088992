//! Which command is run on what, what is written in which order, and what is
//! told of it.

use vstd::prelude::*;

use crate::backup::{
    backup_manifest, backup_record, change_record, change_records, file_record, file_records,
    sync_backup_manifest, sync_record, timestamp_for_path, BackupFile,
};
use crate::cli::{flag, opt_number, option_of, option_usize, option_value, usize_option_of};
use crate::config::{
    opt_str, parse_provider_sections, parse_root_provider, provider_sections, root_provider, section_models,
    ConfigView, ProviderSection, ProviderView,
};
use crate::counts::{count_entry, counts_line, format_counts, law_tally, tally, Counts};
use crate::inspect::{
    current_provider, first_eight, inspect, inspect_lines, inspect_text, is_selected, later_first,
    newest_first, running_lines, selected_from, selected_lines, InspectFacts, InspectState,
};
use crate::json::{field, number_of, Json, JsonModel};
use crate::law_process::lemma_decimal_value;
use crate::listing::{list_options, ListOptions};
use crate::order::{
    ascending, is_ascending, is_order, law_ascending_exists, law_sorted, law_text_le_total,
    law_text_le_transitive, sorted_by, text_le,
};
use crate::provider::{
    dashed, id_or_reason, is_alphanumeric, is_kept, is_sanitized, name_or_default, provider_id_from_lower,
    result_text, sanitize_provider_id,
};
use crate::report::{
    backup_remove_auth, current_provider_from_config, elapsed, is_choice, key_providers, native_shell_result,
    opt_counts, plan_provider_sync, provider_choices, provider_command, provider_in_use, resolve_sync_target,
    section_ids, sync_target, AuthRemoveResult, ProviderCommand, ProviderPlan, ShellResult,
};
use crate::rollout::RolloutChange;
use crate::text::{
    decimal, is_blank, is_white_space, joined, lemma_index_where_is, lemma_kept_len_is, lemma_lead_len_is,
    lemma_trimmed_between, only, opt_text, texts, trimmed,
};
use crate::writes::{
    backup_file_names, before_backup, law_nothing_found_writes_nothing, law_writes_are_guarded, next_step,
    saved_files, steps_of, taken_steps, write_steps, WriteCommand, WriteStep, WriteTarget,
};

verus! {

/// A command on providers is run under its own name, the status where none is
/// given, and any other word is refused.
pub proof fn law_provider_plan(command: Option<String>, target: &str, force: bool, r: ProviderPlan)
    requires
        call_ensures(plan_provider_sync, (command, target, force), r),
    ensures
        command is None ==> (r matches ProviderPlan::Run(ProviderCommand::Status, _)),
        command matches Some(word) ==> {
            &&& word@ == "status"@ <==> (r matches ProviderPlan::Run(ProviderCommand::Status, _))
            &&& word@ == "sync"@ <==> (r matches ProviderPlan::Run(ProviderCommand::Sync, _))
            &&& word@ == "switch"@ <==> (r matches ProviderPlan::Run(ProviderCommand::Switch, _))
            &&& word@ != "status"@ && word@ != "sync"@ && word@ != "switch"@ <==> r is Refuse
        },
{
    reveal_strlit("status");
    assert("status"@.len() == 6);
    reveal_strlit("sync");
    assert("sync"@.len() == 4);
    reveal_strlit("switch");
    assert("switch"@.len() == 6);
    assert("status"@[1] != "switch"@[1]);
    assert(r is Run == provider_command(opt_text(command)) is Some);
}

/// A sync goes to the provider that is named, and else to the one in use; where
/// no configuration names one it is that of Codex.
pub proof fn law_sync_target(
    provider_id: Option<String>,
    config_text: Option<&str>,
    text: &str,
    in_use: String,
    current: String,
    r: String,
)
    requires
        config_text matches Some(own) ==> text@ == own@,
        call_ensures(parse_root_provider, (text,), in_use),
        call_ensures(current_provider_from_config, (config_text,), current),
        call_ensures(resolve_sync_target, (provider_id, config_text), r),
    ensures
        provider_id matches Some(name) ==> trimmed(name@).len() > 0 ==> r@ == trimmed(name@),
        provider_id is None ==> r@ == current@,
        provider_id matches Some(name) ==> trimmed(name@).len() == 0 ==> r@ == current@,
        config_text is None ==> current@ == "openai"@,
        config_text is Some && trimmed(in_use@).len() > 0 ==> current@ == in_use@,
        config_text is Some && trimmed(in_use@).len() == 0 ==> current@ == "openai"@,
{
    assert(in_use@ == root_provider(text@));
    assert(current@ == provider_in_use(opt_str(config_text)));
    assert(r@ == sync_target(opt_text(provider_id), opt_str(config_text)));
}

/// The providers to choose from are, once each and in order, that of Codex, the
/// one in use, and every one that has a section.
pub proof fn law_choices(
    text: &str,
    rollout_counts: Counts,
    in_use: String,
    sections: Vec<ProviderSection>,
    r: Vec<String>,
    i: int,
)
    requires
        call_ensures(parse_root_provider, (text,), in_use),
        call_ensures(parse_provider_sections, (text,), sections),
        call_ensures(provider_choices, (Some(text), &rollout_counts, None), r),
    ensures
        is_ascending(texts(r@)),
        texts(r@).contains("openai"@),
        trimmed(in_use@).len() > 0 ==> texts(r@).contains(in_use@),
        0 <= i < sections@.len() && trimmed(sections@[i].id@).len() > 0 ==> texts(r@).contains(sections@[i].id@),
        0 <= i < r@.len() ==> trimmed(r@[i]@).len() > 0,
{
    assert(in_use@ == root_provider(text@));
    let models = provider_sections(text@);
    assert(section_models(sections@) == models);
    reveal_strlit("openai");
    assert(!is_blank("openai"@)) by {
        assert(!is_white_space('o') && !is_white_space('i'));
        lemma_trimmed_between("openai"@, 0, 6);
    }
    assert(is_choice("openai"@, Some(text@), rollout_counts@, None));
    if trimmed(in_use@).len() > 0 {
        assert(is_choice(in_use@, Some(text@), rollout_counts@, None));
    }
    if 0 <= i < sections@.len() && trimmed(sections@[i].id@).len() > 0 {
        let id = sections@[i].id@;
        assert(models[i] == sections@[i]@);
        assert(section_ids(models)[i] == id);
        assert(is_choice(id, Some(text@), rollout_counts@, None));
    }
    if 0 <= i < r@.len() {
        assert(texts(r@)[i] == r@[i]@);
        assert(texts(r@).contains(r@[i]@));
        assert(is_choice(r@[i]@, Some(text@), rollout_counts@, None));
    }
}

/// A provider of a session or of the index is one to choose, unless it is
/// missing.
pub proof fn law_choices_of_sessions(
    config_text: Option<&str>,
    rollout_counts: Counts,
    r: Vec<String>,
    dir: Seq<char>,
    provider: Seq<char>,
)
    requires
        call_ensures(provider_choices, (config_text, &rollout_counts, None), r),
        !dir.contains('/'),
        provider != "(missing)"@,
        trimmed(provider).len() > 0,
        rollout_counts@.dom().finite(),
        rollout_counts@.dom().contains(dir + seq!['/'] + provider),
    ensures
        texts(r@).contains(provider),
{
    let key = dir + seq!['/'] + provider;
    let keys = ascending(rollout_counts@.dom());
    law_ascending_exists(rollout_counts@.dom());
    assert(keys.to_set().contains(key));
    assert(keys.contains(key));
    lemma_key_provider(keys, dir, provider);
    assert(is_choice(provider, opt_str(config_text), rollout_counts@, None));
}

proof fn lemma_key_provider(keys: Seq<Seq<char>>, dir: Seq<char>, provider: Seq<char>)
    requires
        keys.contains(dir + seq!['/'] + provider),
        !dir.contains('/'),
        provider != "(missing)"@,
    ensures
        key_providers(keys).contains(provider),
    decreases keys.len(),
{
    let key = dir + seq!['/'] + provider;
    let all = key_providers(keys);
    let before = key_providers(keys.drop_last());
    if keys.last() == key {
        let n = dir.len() as int;
        assert forall|j: int| 0 <= j < n implies !only('/')(#[trigger] key[j]) by {
            assert(key[j] == dir[j]);
            assert(dir.contains(dir[j]));
        }
        assert(key[n] == '/');
        lemma_index_where_is(key, only('/'), n);
        assert(key.skip(n + 1) =~= provider);
        assert(all[all.len() - 1] == provider);
    } else {
        let i = choose|i: int| 0 <= i < keys.len() && keys[i] == key;
        assert(keys.drop_last()[i] == key);
        lemma_key_provider(keys.drop_last(), dir, provider);
        let k = choose|k: int| 0 <= k < before.len() && before[k] == provider;
        assert(all[k] == provider);
    }
}

/// Whether one of the steps before the step `i` is `step`.
pub open spec fn is_done_before(steps: Seq<WriteStep>, step: WriteStep, i: int) -> bool {
    exists|j: int| 0 <= j < i && #[trigger] steps[j] == step
}

/// Nothing is written before it is certain that Codex does not run, unless a
/// sync is forced, and before the files are saved; a sync locks the index first.
/// Every command writes what it is for.
pub proof fn law_steps(command: WriteCommand, r: Vec<WriteStep>, i: int)
    requires
        call_ensures(write_steps, (command,), r),
    ensures
        0 <= i < r@.len() && r@[i] is Write ==> {
            &&& command == (WriteCommand::Sync { forced: true }) || is_done_before(r@, WriteStep::CheckProcesses, i)
            &&& is_done_before(r@, WriteStep::Backup, i)
            &&& command is Sync ==> is_done_before(r@, WriteStep::CheckIndex, i)
        },
        command is Sync ==> r@.contains(WriteStep::Write(WriteTarget::Sessions)) && r@.contains(
            WriteStep::Write(WriteTarget::Index),
        ) && r@.contains(WriteStep::Write(WriteTarget::Roots)),
        command is Switch || command is Token || command is Relay || command is Repair ==> r@.contains(
            WriteStep::Write(WriteTarget::Config),
        ),
        command is RemoveAuth ==> r@.contains(WriteStep::Write(WriteTarget::Auth)),
        command is Switch ==> r@.last() == WriteStep::Sync,
        command matches WriteCommand::Repair { sync } ==> (sync <==> r@.contains(WriteStep::Sync)),
{
    let steps = steps_of(command);
    assert(r@ == steps);
    if 0 <= i < r@.len() && r@[i] is Write {
        law_writes_are_guarded(command, i);
        if !(command == (WriteCommand::Sync { forced: true })) {
            let j = choose|j: int| 0 <= j < i && #[trigger] steps_of(command)[j] == WriteStep::CheckProcesses;
            assert(r@[j] == WriteStep::CheckProcesses);
        }
        let b = choose|j: int| 0 <= j < i && #[trigger] steps_of(command)[j] == WriteStep::Backup;
        assert(r@[b] == WriteStep::Backup);
        if command is Sync {
            let c = choose|j: int| 0 <= j < i && #[trigger] steps_of(command)[j] == WriteStep::CheckIndex;
            assert(r@[c] == WriteStep::CheckIndex);
        }
    }
    match command {
        WriteCommand::Sync { forced } => {
            let k = if forced {
                0int
            } else {
                1int
            };
            assert(steps[k + 3] == WriteStep::Write(WriteTarget::Sessions));
            assert(steps[k + 4] == WriteStep::Write(WriteTarget::Index));
            assert(steps[k + 5] == WriteStep::Write(WriteTarget::Roots));
        },
        WriteCommand::RemoveAuth => {
            assert(steps[2] == WriteStep::Write(WriteTarget::Auth));
        },
        WriteCommand::Repair { sync } => {
            assert(steps[3] == WriteStep::Write(WriteTarget::Config));
            if sync {
                assert(steps[4] == WriteStep::Sync);
            }
        },
        _ => {
            assert(steps[3] == WriteStep::Write(WriteTarget::Config));
        },
    }
}

/// Every file that a command writes is among those that it saves first.
pub proof fn law_saved_files(command: WriteCommand, r: Vec<String>)
    requires
        call_ensures(backup_file_names, (command,), r),
    ensures
        command is Sync ==> texts(r@).contains("config.toml"@) && texts(r@).contains("state_5.sqlite"@) && texts(
            r@,
        ).contains("state_5.sqlite-wal"@) && texts(r@).contains("state_5.sqlite-shm"@) && texts(r@).contains(
            ".codex-global-state.json"@,
        ) && texts(r@).contains(".codex-global-state.json.bak"@),
        command is RemoveAuth ==> texts(r@).contains("auth.json"@),
        command is Switch || command is Repair || command is Token || command is Relay ==> texts(r@).contains(
            "config.toml"@,
        ),
{
    let names = saved_files(command);
    assert(texts(r@) == names);
    match command {
        WriteCommand::Sync { .. } => {
            reveal_strlit("state_5.sqlite");
            reveal_strlit("-shm");
            reveal_strlit("-wal");
            reveal_strlit("state_5.sqlite-shm");
            reveal_strlit("state_5.sqlite-wal");
            assert("state_5.sqlite-shm"@ =~= "state_5.sqlite"@ + "-shm"@);
            assert("state_5.sqlite-wal"@ =~= "state_5.sqlite"@ + "-wal"@);
            assert(names[0] == "config.toml"@);
            assert(names[1] == "state_5.sqlite"@);
            assert(names[2] == "state_5.sqlite-shm"@);
            assert(names[3] == "state_5.sqlite-wal"@);
            assert(names[4] == ".codex-global-state.json"@);
            assert(names[5] == ".codex-global-state.json.bak"@);
        },
        WriteCommand::RemoveAuth => {
            assert(names[0] == "auth.json"@);
        },
        _ => {
            assert(names[0] == "config.toml"@);
        },
    }
}

/// A name becomes an id of small letters, digits, dots, underscores and single
/// dashes that begins with a letter or digit; an id that is one already stays.
pub proof fn law_provider_ids(value: Option<String>, name: Seq<char>, r: Result<String, String>)
    requires
        name == (match value {
            Some(given) => given@,
            None => "simplaj"@,
        }),
        call_ensures(sanitize_provider_id, (value,), r),
    ensures
        r matches Ok(id) ==> {
            &&& id@.len() > 0
            &&& 'a' <= id@[0] <= 'z' || '0' <= id@[0] <= '9'
            &&& id@.last() != '-'
            &&& forall|i: int|
                0 <= i < id@.len() ==> ('a' <= #[trigger] id@[i] <= 'z' || '0' <= id@[i] <= '9' || id@[i] == '.'
                    || id@[i] == '_' || id@[i] == '-')
            &&& forall|i: int, j: int|
                0 <= i && j == i + 1 && j < id@.len() && #[trigger] id@[i] == '-' ==> #[trigger] id@[j] != '-'
        },
        name.len() > 0 && (forall|i: int| 0 <= i < name.len() ==> 'a' <= #[trigger] name[i] <= 'z' || '0' <= name[i]
            <= '9') ==> (r matches Ok(id) && id@ == name),
{
    assert(name == name_or_default(opt_text(value)));
    match r {
        Ok(id) => {
            assert(is_sanitized(id@));
            assert forall|i: int| 0 <= i < id@.len() implies ('a' <= #[trigger] id@[i] <= 'z' || '0' <= id@[i] <= '9'
                || id@[i] == '.' || id@[i] == '_' || id@[i] == '-') by {
                assert(is_kept(id@[i]) || id@[i] == '-');
                assert(!('A' <= id@[i] <= 'Z'));
            }
        },
        Err(_) => {},
    }
    if name.len() > 0 && (forall|i: int| 0 <= i < name.len() ==> 'a' <= #[trigger] name[i] <= 'z' || '0' <= name[i]
        <= '9') {
        assert(is_sanitized(name)) by {
            assert('a' <= name[name.len() - 1] <= 'z' || '0' <= name[name.len() - 1] <= '9');
            assert('a' <= name[0] <= 'z' || '0' <= name[0] <= '9');
        }
        assert(result_text(r) == Ok::<Seq<char>, Seq<char>>(name));
    }
}

/// Codex counts as running where that cannot be found out, and else exactly
/// when a process of it is there; the files are told as they are.
pub proof fn law_inspect(facts: InspectFacts, r: InspectState)
    requires
        call_ensures(inspect, (facts,), r),
    ensures
        r.codex_running <==> (facts.processes is Err || (facts.processes matches Ok(processes) && processes@.len() > 0)),
        facts.processes matches Ok(processes) ==> r.codex_processes == processes && r.codex_process_detection_error is None,
        facts.processes matches Err(error) ==> r.codex_process_detection_error == Some(error),
        r.config_exists <==> facts.config_text is Some,
        r.config is Some <==> facts.config_text is Some,
        r.auth_exists == facts.auth_exists,
        r.codex_home == facts.codex_home,
        r.config_path == facts.config_path,
        r.auth_path == facts.auth_path,
        r.backup_root == facts.backup_root,
        r.backup_dirs@.len() <= 8,
        facts.backup_dirs@.len() <= 8 ==> r.backup_dirs@.len() == facts.backup_dirs@.len(),
{
    let sorted = sorted_by(facts.backup_dirs@, later_first());
    lemma_later_first_is_order();
    law_sorted(facts.backup_dirs@, later_first());
    assert(texts(r.backup_dirs@) == texts(first_eight(sorted)));
    assert(texts(r.backup_dirs@).len() == r.backup_dirs@.len());
}

proof fn lemma_later_first_is_order()
    ensures
        is_order(later_first()),
{
    let le = later_first();
    assert forall|a: String, b: String| #[trigger] le(a, b) || le(b, a) by {
        law_text_le_total(a@, b@);
    }
    assert forall|a: String, b: String, c: String| #[trigger] le(a, b) && #[trigger] le(b, c) implies le(a, c) by {
        law_text_le_transitive(c@, b@, a@);
    }
}

/// The newest backups come first, and none is lost.
pub proof fn law_newest_backups(dirs: Vec<String>, r: Vec<String>, i: int, j: int)
    requires
        call_ensures(newest_first, (dirs,), r),
        0 <= i <= j < r@.len(),
    ensures
        r@.to_multiset() == dirs@.to_multiset(),
        text_le(r@[j]@, r@[i]@),
{
    assert(r@ == sorted_by(dirs@, later_first()));
    lemma_later_first_is_order();
    law_sorted(dirs@, later_first());
    assert(later_first()(r@[i], r@[j]));
}

/// The provider in use is the first that goes by its id or name.
pub proof fn law_current(config: ConfigView, r: Option<&ProviderView>)
    requires
        call_ensures(current_provider, (&config,), r),
    ensures
        r matches Some(p) ==> p.id@ == config.root_provider@ || p.name@ == config.root_provider@,
        r is None <==> forall|i: int|
            0 <= i < config.providers@.len() ==> (#[trigger] config.providers@[i]).id@ != config.root_provider@
                && config.providers@[i].name@ != config.root_provider@,
{
    lemma_selected_from(config, 0);
    assert(r is None == selected_from(config, 0) is None);
}

proof fn lemma_selected_from(config: ConfigView, i: int)
    requires
        0 <= i <= config.providers@.len(),
    ensures
        selected_from(config, i) matches Some(p) ==> is_selected(p, config),
        selected_from(config, i) is None <==> forall|j: int|
            i <= j < config.providers@.len() ==> !is_selected(#[trigger] config.providers@[j], config),
    decreases config.providers@.len() - i,
{
    if i < config.providers@.len() {
        lemma_selected_from(config, i + 1);
        if selected_from(config, i) is None {
            assert(!is_selected(config.providers@[i], config));
        }
    }
}

/// Every key that is counted is counted as often as it comes.
pub proof fn law_counted(keys: Vec<String>, r: Counts, key: Seq<char>)
    requires
        call_ensures(Counts::tally_of, (&keys,), r),
    ensures
        r@.dom().contains(key) <==> texts(keys@).contains(key),
        r@.dom().contains(key) ==> r@[key] == texts(keys@).filter(|k: Seq<char>| k == key).len(),
{
    assert(r@ == tally(texts(keys@)));
    law_tally(texts(keys@), key);
}

/// A backup says where each file came from and where it went, and why and when
/// it was made.
pub proof fn law_backup_manifest(reason: &str, millis: u128, codex_home: &str, files: Vec<BackupFile>, j: Json, i: int)
    requires
        call_ensures(backup_manifest, (reason, millis, codex_home, &files), j),
        0 <= i < files@.len(),
    ensures
        field(j@, "reason"@) == Some(JsonModel::Text(reason@)),
        field(j@, "codexHome"@) == Some(JsonModel::Text(codex_home@)),
        field(j@, "createdAtUnixMs"@) == Some(JsonModel::Text(decimal(millis as nat))),
        field(j@, "files"@) matches Some(JsonModel::Array(told)) && told.len() == files@.len() && field(
            told[i],
            "source"@,
        ) == Some(JsonModel::Text(files@[i].source@)) && field(told[i], "backup"@) == Some(
            JsonModel::Text(files@[i].backup@),
        ),
{
    reveal_strlit("tool");
    assert("tool"@.len() == 4);
    reveal_strlit("reason");
    assert("reason"@.len() == 6);
    reveal_strlit("createdAtUnixMs");
    assert("createdAtUnixMs"@.len() == 15);
    reveal_strlit("codexHome");
    assert("codexHome"@.len() == 9);
    reveal_strlit("files");
    assert("files"@.len() == 5);
    reveal_strlit("source");
    assert("source"@.len() == 6);
    reveal_strlit("backup");
    assert("backup"@.len() == 6);
    assert("source"@[0] != "backup"@[0]);
    assert(j@ == backup_record(reason@, millis as nat, codex_home@, files@));
    assert(file_records(files@)[i] == file_record(files@[i]));
}

/// The backup of a sync keeps of every session what is needed to undo its move.
pub proof fn law_sync_manifest(changes: Vec<RolloutChange>, target: &str, millis: u128, j: Json, i: int)
    requires
        call_ensures(sync_backup_manifest, (&changes, target, millis), j),
        0 <= i < changes@.len(),
    ensures
        field(j@, "targetProvider"@) == Some(JsonModel::Text(target@)),
        field(j@, "changedSessionFiles"@) == Some(JsonModel::Number(number_of(changes@.len() as int))),
        field(j@, "files"@) matches Some(JsonModel::Array(told)) && told.len() == changes@.len() && {
            let c = changes@[i];
            &&& field(told[i], "path"@) == Some(JsonModel::Text(c.path@))
            &&& field(told[i], "originalFirstLine"@) == Some(JsonModel::Text(c.original_first_line@))
            &&& field(told[i], "originalSeparator"@) == Some(JsonModel::Text(c.original_separator@))
            &&& field(told[i], "originalOffset"@) == Some(JsonModel::Number(number_of(c.original_offset as int)))
            &&& field(told[i], "originalSize"@) == Some(JsonModel::Number(number_of(c.original_size as int)))
            &&& field(told[i], "hasUserEvent"@) == Some(JsonModel::Bool(c.has_user_event))
            &&& c.thread_id matches Some(id) ==> field(told[i], "threadId"@) == Some(JsonModel::Text(id@))
            &&& c.cwd matches Some(cwd) ==> field(told[i], "cwd"@) == Some(JsonModel::Text(cwd@))
            &&& field(told[i], "originalMtimeUnixSeconds"@) == Some(
                JsonModel::Number(number_of(c.original_mtime_seconds as int)),
            )
            &&& field(told[i], "originalMtimeNanoseconds"@) == Some(
                JsonModel::Number(number_of(c.original_mtime_nanos as int)),
            )
        },
{
    reveal_strlit("version");
    assert("version"@.len() == 7);
    reveal_strlit("tool");
    assert("tool"@.len() == 4);
    reveal_strlit("engine");
    assert("engine"@.len() == 6);
    reveal_strlit("targetProvider");
    assert("targetProvider"@.len() == 14);
    reveal_strlit("createdAtUnixMs");
    assert("createdAtUnixMs"@.len() == 15);
    reveal_strlit("changedSessionFiles");
    assert("changedSessionFiles"@.len() == 19);
    reveal_strlit("files");
    assert("files"@.len() == 5);
    reveal_strlit("path");
    assert("path"@.len() == 4);
    reveal_strlit("threadId");
    assert("threadId"@.len() == 8);
    reveal_strlit("cwd");
    assert("cwd"@.len() == 3);
    reveal_strlit("hasUserEvent");
    assert("hasUserEvent"@.len() == 12);
    reveal_strlit("originalFirstLine");
    assert("originalFirstLine"@.len() == 17);
    reveal_strlit("originalSeparator");
    assert("originalSeparator"@.len() == 17);
    reveal_strlit("originalOffset");
    assert("originalOffset"@.len() == 14);
    reveal_strlit("originalSize");
    assert("originalSize"@.len() == 12);
    reveal_strlit("originalMtimeUnixSeconds");
    assert("originalMtimeUnixSeconds"@.len() == 24);
    reveal_strlit("originalMtimeNanoseconds");
    assert("originalMtimeNanoseconds"@.len() == 24);
    assert("hasUserEvent"@[0] != "originalSize"@[0]);
    assert("originalFirstLine"@[8] != "originalSeparator"@[8]);
    assert("originalMtimeUnixSeconds"@[13] != "originalMtimeNanoseconds"@[13]);
    assert(j@ == sync_record(changes@, target@, millis as nat));
    assert(change_records(changes@)[i] == change_record(changes@[i]));
}

/// The steps of a command are taken in their order; where nothing is to change,
/// nothing is saved and nothing is written.
pub proof fn law_next_step(command: WriteCommand, steps: Vec<WriteStep>, done: usize, found: usize, r: Option<WriteStep>)
    requires
        call_ensures(write_steps, (command,), steps),
        call_ensures(next_step, (command, done, found), r),
    ensures
        found > 0 ==> r == (if done < steps@.len() {
            Some(steps@[done as int])
        } else {
            None
        }),
        found == 0 ==> (r matches Some(step) ==> !(step is Write) && !(step is Backup) && done < steps@.len() && step
            == steps@[done as int]),
        found == 0 && done == 0 && steps@.len() > 0 && !(steps@[0] is Backup) ==> r == Some(steps@[0]),
{
    assert(steps@ == steps_of(command));
    let taken = taken_steps(command, found as nat);
    if found == 0 {
        lemma_before_backup(steps_of(command));
        if r is Some {
            law_nothing_found_writes_nothing(command, done as int);
        }
    }
}

proof fn lemma_before_backup(steps: Seq<WriteStep>)
    ensures
        before_backup(steps).is_prefix_of(steps),
        steps.len() > 0 && !(steps[0] is Backup) ==> before_backup(steps).len() > 0,
    decreases steps.len(),
{
    if steps.len() > 0 && !(steps[0] is Backup) {
        lemma_before_backup(steps.drop_first());
        let rest = before_backup(steps.drop_first());
        assert(seq![steps[0]] + rest =~= steps.take(1int + rest.len()));
    }
}

proof fn lemma_dashed_kept(s: Seq<char>)
    requires
        forall|i: int| 0 <= i < s.len() ==> is_kept(#[trigger] s[i]),
    ensures
        dashed(s) == s,
    decreases s.len(),
{
    if s.len() > 0 {
        assert(is_kept(s[s.len() - 1]));
        assert forall|i: int| 0 <= i < s.drop_last().len() implies is_kept(#[trigger] s.drop_last()[i]) by {
            assert(is_kept(s[i]));
        }
        lemma_dashed_kept(s.drop_last());
        assert(dashed(s) =~= s);
    } else {
        assert(dashed(s) =~= s);
    }
}

proof fn lemma_dashed_gap(a: Seq<char>, gap: Seq<char>)
    requires
        a.len() > 0,
        forall|i: int| 0 <= i < a.len() ==> is_kept(#[trigger] a[i]),
        gap.len() > 0,
        forall|i: int| 0 <= i < gap.len() ==> !is_kept(#[trigger] gap[i]),
    ensures
        dashed(a + gap) == a.push('-'),
    decreases gap.len(),
{
    let s = a + gap;
    assert(s.last() == gap[gap.len() - 1]);
    if gap.len() == 1 {
        assert(s.drop_last() =~= a);
        lemma_dashed_kept(a);
        assert(is_kept(a[a.len() - 1]));
    } else {
        assert(s.drop_last() =~= a + gap.drop_last());
        assert forall|i: int| 0 <= i < gap.drop_last().len() implies !is_kept(#[trigger] gap.drop_last()[i]) by {
            assert(!is_kept(gap[i]));
        }
        lemma_dashed_gap(a, gap.drop_last());
    }
}

proof fn lemma_dashed_word(a: Seq<char>, gap: Seq<char>, b: Seq<char>)
    requires
        a.len() > 0,
        forall|i: int| 0 <= i < a.len() ==> is_kept(#[trigger] a[i]),
        gap.len() > 0,
        forall|i: int| 0 <= i < gap.len() ==> !is_kept(#[trigger] gap[i]),
        forall|i: int| 0 <= i < b.len() ==> is_kept(#[trigger] b[i]),
    ensures
        dashed(a + gap + b) == a.push('-') + b,
    decreases b.len(),
{
    let s = a + gap + b;
    if b.len() == 0 {
        assert(s =~= a + gap);
        lemma_dashed_gap(a, gap);
        assert(a.push('-') + b =~= a.push('-'));
    } else {
        assert(s.last() == b[b.len() - 1]);
        assert(s.drop_last() =~= a + gap + b.drop_last());
        assert forall|i: int| 0 <= i < b.drop_last().len() implies is_kept(#[trigger] b.drop_last()[i]) by {
            assert(is_kept(b[i]));
        }
        lemma_dashed_word(a, gap, b.drop_last());
        assert(dashed(s) =~= a.push('-') + b);
    }
}

/// What stands between two words of a name, however much it is, becomes one
/// dash.
pub proof fn law_gap_becomes_dash(a: Seq<char>, gap: Seq<char>, b: Seq<char>, lower: &str, r: Result<String, String>)
    requires
        lower@ == a + gap + b,
        a.len() > 0,
        b.len() > 0,
        gap.len() > 0,
        forall|i: int| 0 <= i < a.len() ==> 'a' <= #[trigger] a[i] <= 'z' || '0' <= a[i] <= '9',
        forall|i: int| 0 <= i < b.len() ==> 'a' <= #[trigger] b[i] <= 'z' || '0' <= b[i] <= '9',
        forall|i: int|
            0 <= i < gap.len() ==> #[trigger] gap[i] == ' ' || gap[i] == '-' || gap[i] == '/' || gap[i] == ':',
        call_ensures(provider_id_from_lower, (lower,), r),
    ensures
        r matches Ok(id) && id@ == a + seq!['-'] + b,
{
    assert(result_text(r) == id_or_reason(lower@));
    assert forall|i: int| 0 <= i < a.len() implies is_kept(#[trigger] a[i]) by {}
    assert forall|i: int| 0 <= i < b.len() implies is_kept(#[trigger] b[i]) by {}
    assert forall|i: int| 0 <= i < gap.len() implies !is_kept(#[trigger] gap[i]) by {}
    lemma_dashed_word(a, gap, b);
    let id = a.push('-') + b;
    assert(id =~= a + seq!['-'] + b);
    assert(id[0] == a[0]);
    assert(id.last() == b[b.len() - 1]);
    lemma_lead_len_is(id, only('-'), 0);
    assert(id.skip(0) =~= id);
    lemma_kept_len_is(id, only('-'), id.len() as int);
    assert(id.take(id.len() as int) =~= id);
    assert(is_alphanumeric(a[0]));
}

/// Counts are told by their keys in order, each with its number; none is told
/// where there is none.
pub proof fn law_counts_told(counts: Counts, r: String, key: Seq<char>)
    requires
        counts@.dom().finite(),
        call_ensures(format_counts, (&counts,), r),
    ensures
        counts@.dom().len() == 0 ==> r@ == "(none)"@,
        counts@.dom().contains(key) ==> exists|parts: Seq<Seq<char>>|
            #![trigger joined(parts, ", "@)]
            r@ == joined(parts, ", "@) && parts.contains(key + ": "@ + decimal(counts@[key])) && parts.len()
                == counts@.dom().len(),
{
    assert(r@ == counts_line(counts@));
    let keys = ascending(counts@.dom());
    law_ascending_exists(counts@.dom());
    lemma_ascending_len(keys);
    if counts@.dom().contains(key) {
        assert(keys.to_set().contains(key));
        let i = choose|i: int| 0 <= i < keys.len() && keys[i] == key;
        let parts = keys.map_values(|key: Seq<char>| count_entry(counts@, key));
        assert(parts[i] == count_entry(counts@, key));
        assert(r@ == joined(parts, ", "@));
    }
}

proof fn lemma_ascending_len(keys: Seq<Seq<char>>)
    requires
        is_ascending(keys),
    ensures
        keys.to_set().len() == keys.len(),
{
    assert(keys.no_duplicates()) by {
        assert forall|i: int, j: int| 0 <= i < keys.len() && 0 <= j < keys.len() && i != j implies keys[i] != keys[j] by {
            if i < j {
                assert(keys[i] != keys[j]);
            } else {
                assert(keys[j] != keys[i]);
            }
        }
    }
    keys.unique_seq_to_set();
}

/// A command that worked gives its text and the code nought, and one that did
/// not gives its reason and the code one.
pub proof fn law_shell_result(
    started_at: u128,
    now: u128,
    command: String,
    outcome: Result<String, String>,
    r: ShellResult,
)
    requires
        call_ensures(native_shell_result, (started_at, now, command, outcome), r),
    ensures
        r.ok <==> outcome is Ok,
        outcome matches Ok(text) ==> r.code == Some(0i32) && r.stdout@ == text@ && r.stderr@.len() == 0,
        outcome matches Err(text) ==> r.code == Some(1i32) && r.stderr@ == text@ && r.stdout@.len() == 0,
        now >= started_at ==> r.duration_ms == now - started_at,
        r.command == command,
{
    assert(r.duration_ms == elapsed(started_at, now));
}

/// The login is told as removed exactly when it was saved first.
pub proof fn law_auth_removed(auth_path: String, backup_dir: Option<String>, r: AuthRemoveResult)
    requires
        call_ensures(backup_remove_auth, (auth_path, backup_dir), r),
    ensures
        r.removed <==> backup_dir is Some,
        r.backup_dir == backup_dir,
        r.auth_path == auth_path,
{
}

/// What a list shows is what its options say.
pub proof fn law_list_options(
    args: &[String],
    usual_limit: usize,
    home: Option<String>,
    json: bool,
    limit: Result<Option<usize>, String>,
    r: Result<ListOptions, String>,
)
    requires
        call_ensures(option_value, (args, "--codex-home"), home),
        call_ensures(flag, (args, "--json"), json),
        call_ensures(option_usize, (args, "--limit"), limit),
        call_ensures(list_options, (args, usual_limit), r),
    ensures
        r is Ok <==> limit is Ok,
        r matches Ok(options) ==> opt_text(options.codex_home) == opt_text(home) && options.json == json && (limit
            matches Ok(Some(n)) ==> options.limit == n) && (limit matches Ok(None) ==> options.limit == usual_limit),
{
    let words = texts(args@);
    assert(opt_text(home) == option_of(words, "--codex-home"@));
    assert(json == words.contains("--json"@));
    assert(opt_number(limit) == usize_option_of(words, "--limit"@));
}

/// A provider is shown as set up by whether it has an address and a token, and
/// by whether it asks for the login.
pub proof fn law_provider_told(state: InspectState, config: ConfigView, provider: &ProviderView, r: String)
    requires
        state.config == Some(config),
        call_ensures(current_provider, (&config,), Some(provider)),
        call_ensures(inspect_text, (&state,), r),
    ensures
        exists|lines: Seq<Seq<char>>|
            #![trigger joined(lines, "\n"@)]
            {
                &&& r@ == joined(lines, "\n"@)
                &&& lines.contains("  显示名称："@ + provider.name@)
                &&& lines.contains(
                    "  中转 URL："@ + (if provider.base_url@.len() > 0 {
                        "已配置"@
                    } else {
                        "未配置"@
                    }),
                )
                &&& lines.contains(
                    "  中转 Key："@ + (if provider.has_experimental_bearer_token {
                        "已配置"@
                    } else {
                        "未配置"@
                    }),
                )
                &&& provider.requires_openai_auth@ == "true"@ ==> lines.contains("  OpenAI 登录态："@ + "需要"@)
                &&& provider.requires_openai_auth@ == "false"@ ==> lines.contains("  OpenAI 登录态："@ + "不需要"@)
            },
{
    let lines = inspect_lines(state);
    assert(r@ == joined(lines, "\n"@));
    assert(selected_from(config, 0) == Some(*provider));
    let told = selected_lines(Some(*provider));
    let n = 1int + running_lines(state).len() + 5;
    assert(lines[n + 3] == told[0]);
    assert(lines[n + 4] == told[1]);
    assert(lines[n + 5] == told[2]);
    assert(lines[n + 6] == told[3]);
    reveal_strlit("true");
    reveal_strlit("false");
    assert("true"@.len() == 4);
    assert("false"@.len() == 5);
}

/// The backups that are shown are the newest ones.
pub proof fn law_backups_shown(facts: InspectFacts, r: InspectState, sorted: Vec<String>, i: int)
    requires
        call_ensures(newest_first, (facts.backup_dirs,), sorted),
        call_ensures(inspect, (facts,), r),
        0 <= i < r.backup_dirs@.len(),
    ensures
        i < sorted@.len(),
        r.backup_dirs@[i]@ == sorted@[i]@,
        sorted@.len() >= 8 ==> r.backup_dirs@.len() == 8,
{
    assert(sorted@ == sorted_by(facts.backup_dirs@, later_first()));
    let shown = first_eight(sorted@);
    assert(texts(r.backup_dirs@) == texts(shown));
    assert(texts(r.backup_dirs@).len() == r.backup_dirs@.len());
    assert(texts(shown).len() == shown.len());
    assert(texts(r.backup_dirs@)[i] == r.backup_dirs@[i]@);
    assert(texts(shown)[i] == sorted@[i]@);
}

/// A provider that the index knows is one to choose, unless it is missing.
pub proof fn law_choices_of_index(
    config_text: Option<&str>,
    rollout_counts: Counts,
    sqlite_counts: Counts,
    r: Vec<String>,
    dir: Seq<char>,
    provider: Seq<char>,
)
    requires
        call_ensures(provider_choices, (config_text, &rollout_counts, Some(&sqlite_counts)), r),
        !dir.contains('/'),
        provider != "(missing)"@,
        trimmed(provider).len() > 0,
        sqlite_counts@.dom().finite(),
        sqlite_counts@.dom().contains(dir + seq!['/'] + provider),
    ensures
        texts(r@).contains(provider),
{
    let key = dir + seq!['/'] + provider;
    let keys = ascending(sqlite_counts@.dom());
    law_ascending_exists(sqlite_counts@.dom());
    assert(keys.to_set().contains(key));
    assert(keys.contains(key));
    lemma_key_provider(keys, dir, provider);
    assert(opt_counts(Some(&sqlite_counts)) == Some(sqlite_counts@));
    assert(is_choice(provider, opt_str(config_text), rollout_counts@, Some(sqlite_counts@)));
}

/// Nothing is offered that is not in use, in a section, in a session or in the
/// index.
pub proof fn law_no_other_choice(
    text: &str,
    rollout_counts: Counts,
    in_use: String,
    sections: Vec<ProviderSection>,
    r: Vec<String>,
    provider: Seq<char>,
)
    requires
        call_ensures(parse_root_provider, (text,), in_use),
        call_ensures(parse_provider_sections, (text,), sections),
        call_ensures(provider_choices, (Some(text), &rollout_counts, None), r),
        rollout_counts@.dom() == Set::<Seq<char>>::empty(),
        texts(r@).contains(provider),
    ensures
        provider == "openai"@ || provider == in_use@ || exists|i: int|
            0 <= i < sections@.len() && (#[trigger] sections@[i]).id@ == provider,
{
    assert(in_use@ == root_provider(text@));
    let models = provider_sections(text@);
    assert(section_models(sections@) == models);
    assert(is_choice(provider, Some(text@), rollout_counts@, None));
    law_ascending_exists(Set::<Seq<char>>::empty());
    let keys = ascending(rollout_counts@.dom());
    assert(keys.len() == 0) by {
        if keys.len() > 0 {
            assert(keys.to_set().contains(keys[0]));
        }
    }
    assert(key_providers(keys) =~= Seq::<Seq<char>>::empty());
    if section_ids(models).contains(provider) {
        let i = choose|i: int| 0 <= i < section_ids(models).len() && section_ids(models)[i] == provider;
        assert(models[i] == sections@[i]@);
        assert(sections@[i].id@ == provider);
    }
}

/// A backup is named by when it was made, so that two made at different times
/// have different names.
pub proof fn law_backup_names(a: u128, b: u128, name_a: String, name_b: String)
    requires
        call_ensures(timestamp_for_path, (a,), name_a),
        call_ensures(timestamp_for_path, (b,), name_b),
    ensures
        name_a@ == "backup-"@ + decimal(a as nat),
        a != b ==> name_a@ != name_b@,
{
    reveal_strlit("backup-");
    if name_a@ == name_b@ {
        assert(name_a@.skip(7) =~= decimal(a as nat));
        assert(name_b@.skip(7) =~= decimal(b as nat));
        lemma_decimal_value(a as nat);
        lemma_decimal_value(b as nat);
    }
}

} // verus!
