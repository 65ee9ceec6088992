//! The records that are kept beside backups.

use vstd::prelude::*;

use crate::json::{
    json_int, json_model, json_text_or_null, models, number_of, set_field, text_or_null, Json, JsonModel,
};
use crate::report::NATIVE_SYNC_ENGINE;
use crate::rollout::RolloutChange;
use crate::sqlite::DB_FILE_BASENAME;
use crate::text::{decimal, decimal_text, opt_text, texts};
use crate::workspace::{GLOBAL_STATE_BACKUP_FILE_BASENAME, GLOBAL_STATE_FILE_BASENAME};

verus! {

pub const APP_BACKUP_NAMESPACE: &'static str = "gpt-api-tools";

/// A file that was saved.
pub struct BackupFile {
    pub source: String,
    pub backup: String,
}

/// The name of a backup directory.
pub fn timestamp_for_path(millis: u128) -> (r: String)
    ensures
        r@ == "backup-"@ + decimal(millis as nat),
{
    "backup-".to_owned().concat(decimal_text(millis).as_str())
}

pub open spec fn file_record(file: BackupFile) -> JsonModel {
    JsonModel::Object(
        Map::empty().insert("source"@, JsonModel::Text(file.source@)).insert("backup"@, JsonModel::Text(file.backup@)),
    )
}

pub open spec fn file_records(files: Seq<BackupFile>) -> Seq<JsonModel> {
    files.map_values(|f: BackupFile| file_record(f))
}

/// The record of a backup: why and when it was made, and of what.
pub open spec fn backup_record(reason: Seq<char>, millis: nat, codex_home: Seq<char>, files: Seq<BackupFile>) -> JsonModel {
    JsonModel::Object(
        Map::empty().insert("tool"@, JsonModel::Text("Codex API Tools"@)).insert("reason"@, JsonModel::Text(reason)).insert(
            "createdAtUnixMs"@,
            JsonModel::Text(decimal(millis)),
        ).insert("codexHome"@, JsonModel::Text(codex_home)).insert("files"@, JsonModel::Array(file_records(files))),
    )
}

fn file_json(file: &BackupFile) -> (r: Json)
    ensures
        r@ == file_record(*file),
{
    let mut fields: Vec<(String, Json)> = Vec::new();
    set_field(&mut fields, "source", Json::Text(file.source.clone()));
    set_field(&mut fields, "backup", Json::Text(file.backup.clone()));
    Json::Object(fields)
}

pub fn backup_manifest(reason: &str, millis: u128, codex_home: &str, files: &Vec<BackupFile>) -> (r: Json)
    ensures
        r@ == backup_record(reason@, millis as nat, codex_home@, files@),
{
    let ghost all = file_records(files@);
    let mut list: Vec<Json> = Vec::new();
    for i in 0..files.len()
        invariant
            all == file_records(files@),
            models(list@) == all.take(i as int),
    {
        let ghost before = list@;
        list.push(file_json(&files[i]));
        assert(list@.drop_last() =~= before);
        assert(json_model(list@.last()) == all[i as int]);
        assert(models(list@) == models(before).push(all[i as int]));
        assert(all.take(i + 1) =~= all.take(i as int).push(all[i as int]));
    }
    assert(all.take(all.len() as int) =~= all);
    let mut fields: Vec<(String, Json)> = Vec::new();
    set_field(&mut fields, "tool", Json::Text("Codex API Tools".to_owned()));
    set_field(&mut fields, "reason", Json::Text(reason.to_owned()));
    set_field(&mut fields, "createdAtUnixMs", Json::Text(decimal_text(millis)));
    set_field(&mut fields, "codexHome", Json::Text(codex_home.to_owned()));
    set_field(&mut fields, "files", Json::Array(list));
    Json::Object(fields)
}

pub open spec fn change_record(c: RolloutChange) -> JsonModel {
    JsonModel::Object(
        Map::empty().insert("path"@, JsonModel::Text(c.path@)).insert("threadId"@, text_or_null(opt_text(c.thread_id))).insert(
            "cwd"@,
            text_or_null(opt_text(c.cwd)),
        ).insert("hasUserEvent"@, JsonModel::Bool(c.has_user_event)).insert(
            "originalFirstLine"@,
            JsonModel::Text(c.original_first_line@),
        ).insert("originalSeparator"@, JsonModel::Text(c.original_separator@)).insert(
            "originalOffset"@,
            JsonModel::Number(number_of(c.original_offset as int)),
        ).insert("originalSize"@, JsonModel::Number(number_of(c.original_size as int))).insert(
            "originalMtimeUnixSeconds"@,
            JsonModel::Number(number_of(c.original_mtime_seconds as int)),
        ).insert("originalMtimeNanoseconds"@, JsonModel::Number(number_of(c.original_mtime_nanos as int))),
    )
}

pub open spec fn change_records(changes: Seq<RolloutChange>) -> Seq<JsonModel> {
    changes.map_values(|c: RolloutChange| change_record(c))
}

/// The record of the first lines that a sync replaces.
pub open spec fn sync_record(changes: Seq<RolloutChange>, target: Seq<char>, millis: nat) -> JsonModel {
    JsonModel::Object(
        Map::empty().insert("version"@, JsonModel::Number(number_of(1))).insert(
            "tool"@,
            JsonModel::Text("Codex API Tools"@),
        ).insert("engine"@, JsonModel::Text(NATIVE_SYNC_ENGINE@)).insert("targetProvider"@, JsonModel::Text(target)).insert(
            "createdAtUnixMs"@,
            JsonModel::Text(decimal(millis)),
        ).insert("changedSessionFiles"@, JsonModel::Number(number_of(changes.len() as int))).insert(
            "files"@,
            JsonModel::Array(change_records(changes)),
        ),
    )
}

fn change_json(c: &RolloutChange) -> (r: Json)
    ensures
        r@ == change_record(*c),
{
    let mut fields: Vec<(String, Json)> = Vec::new();
    set_field(&mut fields, "path", Json::Text(c.path.clone()));
    set_field(&mut fields, "threadId", json_text_or_null(&c.thread_id));
    set_field(&mut fields, "cwd", json_text_or_null(&c.cwd));
    set_field(&mut fields, "hasUserEvent", Json::Bool(c.has_user_event));
    set_field(&mut fields, "originalFirstLine", Json::Text(c.original_first_line.clone()));
    set_field(&mut fields, "originalSeparator", Json::Text(c.original_separator.clone()));
    set_field(&mut fields, "originalOffset", json_int(c.original_offset as i128));
    set_field(&mut fields, "originalSize", json_int(c.original_size as i128));
    set_field(&mut fields, "originalMtimeUnixSeconds", json_int(c.original_mtime_seconds as i128));
    set_field(&mut fields, "originalMtimeNanoseconds", json_int(c.original_mtime_nanos as i128));
    Json::Object(fields)
}

pub fn sync_backup_manifest(changes: &Vec<RolloutChange>, target_provider: &str, millis: u128) -> (r: Json)
    ensures
        r@ == sync_record(changes@, target_provider@, millis as nat),
{
    let ghost all = change_records(changes@);
    let mut list: Vec<Json> = Vec::new();
    for i in 0..changes.len()
        invariant
            all == change_records(changes@),
            models(list@) == all.take(i as int),
    {
        let ghost before = list@;
        list.push(change_json(&changes[i]));
        assert(list@.drop_last() =~= before);
        assert(json_model(list@.last()) == all[i as int]);
        assert(models(list@) == models(before).push(all[i as int]));
        assert(all.take(i + 1) =~= all.take(i as int).push(all[i as int]));
    }
    assert(all.take(all.len() as int) =~= all);
    let mut fields: Vec<(String, Json)> = Vec::new();
    set_field(&mut fields, "version", json_int(1));
    set_field(&mut fields, "tool", Json::Text("Codex API Tools".to_owned()));
    set_field(&mut fields, "engine", Json::Text(NATIVE_SYNC_ENGINE.to_owned()));
    set_field(&mut fields, "targetProvider", Json::Text(target_provider.to_owned()));
    set_field(&mut fields, "createdAtUnixMs", Json::Text(decimal_text(millis)));
    set_field(&mut fields, "changedSessionFiles", json_int(changes.len() as i128));
    set_field(&mut fields, "files", Json::Array(list));
    Json::Object(fields)
}

/// The files that are saved before a sync.
pub open spec fn synced_files() -> Seq<Seq<char>> {
    seq![
        "config.toml"@,
        DB_FILE_BASENAME@,
        DB_FILE_BASENAME@ + "-shm"@,
        DB_FILE_BASENAME@ + "-wal"@,
        GLOBAL_STATE_FILE_BASENAME@,
        GLOBAL_STATE_BACKUP_FILE_BASENAME@,
    ]
}

/// The files that are saved before a sync.
pub fn sync_backup_file_names() -> (r: Vec<String>)
    ensures
        texts(r@) == synced_files(),
{
    let mut names: Vec<String> = Vec::new();
    names.push("config.toml".to_owned());
    names.push(DB_FILE_BASENAME.to_owned());
    names.push(DB_FILE_BASENAME.to_owned().concat("-shm"));
    names.push(DB_FILE_BASENAME.to_owned().concat("-wal"));
    names.push(GLOBAL_STATE_FILE_BASENAME.to_owned());
    names.push(GLOBAL_STATE_BACKUP_FILE_BASENAME.to_owned());
    assert(texts(names@) =~= synced_files());
    names
}

} // verus!
