//! What the parts of a command promise, each by itself.

use vstd::prelude::*;
use vstd::utf8::*;

use crate::auth::{between_tokens, extract_sk_tokens, is_sk_token, key_among, tokens_in_texts};
use crate::chunks::{
    described_chunks, failed_with, manifest_fault, validate_chunk_descriptors, ChunkDescriptor,
};
use crate::cloud::{required, smoke_text, text_or_error, ApiStatusResponse, CloudSettings};
use crate::config::{
    find_openai_provider_section, find_provider_section_by_id_or_name, find_provider_section_for_repair,
    first_section, is_called, is_openai, lemma_first_section, mask_secret, masked, opt_section,
    parse_provider_sections, provider_sections, section_for_repair, section_models, ProviderSection,
};
use crate::counts::Counts;
use crate::envelope::{bytes_or_text, checked_nonce, valid_nonce, verified_payload, verify_payload};
use crate::http::{
    fault_message, http_error, invalid_answer, network_error_message, service_url, NetworkFault,
};
use crate::json::{field, json_read, Json, JsonModel};
use crate::law_config::{goes_by, is_to_repair, lemma_first_place, lemma_openai_lower, says_openai};
use crate::law_sync::{from_user, user_sent};
use crate::order::{
    by_text, is_ascending, is_order, law_sorted, law_text_le_total, law_text_le_transitive, sort_distinct,
    sort_texts, sorted_by, text_le,
};
use crate::paths::normal_path;
use crate::process::{
    detection_failure, detection_failure_text, quit_command_texts, quit_commands, System,
};
use crate::provider::{apply_experimental_token_text, is_plain_key, TokenEdit};
use crate::quota::{shown_value, text_value};
use crate::relay::{
    active_key, active_relay_assignment_key, commented_key, commented_relay_assignment_key, lemma_indented,
    set_relay_lines_commented, RelayConfigToggleResult, RelayEdit,
};
use crate::report::{configured_providers, provider_switch_text, section_ids};
use crate::rollout::{
    details_after, is_index_record, is_session_meta, is_text, meta_payload, payload_text, session_has_id,
    session_index_record, shows_user, user_message_text, written_text, RolloutContentDetails,
    RolloutIndexRecord,
};
use crate::sessions::SessionManifest;
use crate::text::{
    contains, has_text, is_white_space, lemma_index_where_is, lemma_lead_len_is, lemma_trimmed_between, only,
    opt_text, split_once, split_once_at, split_where, texts, trim, trimmed, white,
};
use crate::transfer::{blob_fault, check_blob_hash};
use crate::workspace::{
    no_index_line, path_list, project_visibility_without_index, read_workspace_roots_from_global_state,
    to_path_array, workspace_roots, workspace_roots_in,
};
use crate::writes::{action_of, backup_reason, reason_of, write_action, WriteCommand};

verus! {

/// The section to repair is the first that says OpenAI by its id or name in any
/// case, and where none does the first that goes by the provider in use.
pub proof fn law_section_to_repair(sections: &[ProviderSection], current: &str, r: Option<ProviderSection>)
    requires
        call_ensures(find_provider_section_for_repair, (sections, current), r),
    ensures
        r matches Some(found) ==> exists|t: int| #[trigger]
            is_to_repair(section_models(sections@), current@, t) && found@ == sections@[t]@,
        r is None <==> forall|t: int|
            0 <= t < sections@.len() ==> !says_openai((#[trigger] sections@[t])@) && !goes_by(sections@[t]@, current@),
{
    let models = section_models(sections@);
    assert(opt_section(r) == section_for_repair(models, current@));
    assert(forall|t: int| 0 <= t < sections@.len() ==> #[trigger] models[t] == sections@[t]@);
    lemma_openai_lower();
    lemma_first_section(models, is_openai());
    lemma_first_section(models, is_called(current@));
    assert forall|j: int| 0 <= j < models.len() implies is_openai()(#[trigger] models[j]) == says_openai(models[j])
        && is_called(current@)(models[j]) == goes_by(models[j], current@) by {}
    if first_section(models, is_openai()) is Some {
        let t = lemma_first_place(models, is_openai());
        assert(says_openai(models[t]));
        assert forall|j: int| 0 <= j < t implies !says_openai(#[trigger] models[j]) by {
            assert(!is_openai()(models[j]));
        }
        assert(is_to_repair(models, current@, t));
        assert(says_openai(sections@[t]@));
    } else {
        assert forall|j: int| 0 <= j < models.len() implies !says_openai(#[trigger] models[j]) by {
            assert(!is_openai()(models[j]));
        }
        if first_section(models, is_called(current@)) is Some {
            let t = lemma_first_place(models, is_called(current@));
            assert forall|j: int| 0 <= j < t implies !goes_by(#[trigger] models[j], current@) by {
                assert(!is_called(current@)(models[j]));
            }
            assert(is_to_repair(models, current@, t));
            assert(goes_by(sections@[t]@, current@));
        } else {
            assert forall|t: int| 0 <= t < sections@.len() implies !says_openai((#[trigger] sections@[t])@) && !goes_by(
                sections@[t]@,
                current@,
            ) by {
                assert(models[t] == sections@[t]@);
                assert(!is_called(current@)(models[t]));
            }
        }
    }
}

/// The section of OpenAI, and that of a provider, is the first that goes by it.
pub proof fn law_sections_found(
    sections: &[ProviderSection],
    provider: &str,
    openai: Option<ProviderSection>,
    named: Option<ProviderSection>,
)
    requires
        call_ensures(find_openai_provider_section, (sections,), openai),
        call_ensures(find_provider_section_by_id_or_name, (sections, provider), named),
    ensures
        openai matches Some(found) ==> says_openai(found@),
        openai is None <==> forall|t: int| 0 <= t < sections@.len() ==> !says_openai((#[trigger] sections@[t])@),
        named matches Some(found) ==> goes_by(found@, provider@),
        named is None <==> forall|t: int| 0 <= t < sections@.len() ==> !goes_by((#[trigger] sections@[t])@, provider@),
{
    let models = section_models(sections@);
    lemma_openai_lower();
    lemma_first_section(models, is_openai());
    lemma_first_section(models, is_called(provider@));
    assert(opt_section(openai) == first_section(models, is_openai()));
    assert(opt_section(named) == first_section(models, is_called(provider@)));
    assert(forall|t: int| 0 <= t < sections@.len() ==> #[trigger] models[t] == sections@[t]@);
    match openai {
        Some(found) => {
            let t = lemma_first_place(models, is_openai());
            assert(says_openai(sections@[t]@));
        },
        None => {
            assert forall|t: int| 0 <= t < sections@.len() implies !says_openai((#[trigger] sections@[t])@) by {
                assert(!is_openai()(models[t]));
            }
        },
    }
    match named {
        Some(found) => {
            let t = lemma_first_place(models, is_called(provider@));
            assert(goes_by(sections@[t]@, provider@));
        },
        None => {
            assert forall|t: int| 0 <= t < sections@.len() implies !goes_by((#[trigger] sections@[t])@, provider@) by {
                assert(!is_called(provider@)(models[t]));
            }
        },
    }
}

/// The providers that are told as set up are those of the sections, in order.
pub proof fn law_configured(text: &str, sections: Vec<ProviderSection>, r: Vec<String>, none: Vec<String>, i: int)
    requires
        call_ensures(parse_provider_sections, (text,), sections),
        call_ensures(configured_providers, (Some(text),), r),
        call_ensures(configured_providers, (None,), none),
    ensures
        r@.len() == sections@.len(),
        0 <= i < r@.len() ==> r@[i]@ == sections@[i].id@,
        none@.len() == 0,
{
    let models = provider_sections(text@);
    assert(section_models(sections@) == models);
    assert(section_models(sections@).len() == sections@.len());
    assert(texts(r@) == section_ids(models));
    assert(texts(r@).len() == r@.len());
    assert(texts(none@).len() == none@.len());
    if 0 <= i < r@.len() {
        assert(texts(r@)[i] == r@[i]@);
        assert(models[i] == sections@[i]@);
    }
}

/// A relay that was switched is told as changed exactly when a line was, with
/// the backup that was made for it.
pub proof fn law_relay_result(edit: RelayEdit, backup_dir: Option<String>, r: RelayConfigToggleResult)
    requires
        call_ensures(set_relay_lines_commented, (edit, backup_dir), r),
    ensures
        r.changed <==> edit.changed_keys@.len() > 0,
        r.commented == edit.commented,
        r.provider_id@ == edit.provider_id@,
        texts(r.changed_keys@) == texts(edit.changed_keys@),
        r.changed ==> r.backup_dir == backup_dir,
        !r.changed ==> r.backup_dir is None,
{
}

/// A line is one of the relay by the key that it assigns, marked or not.
pub proof fn law_relay_keys(
    key: Seq<char>,
    value: Seq<char>,
    line: &str,
    marked: &str,
    active: Option<String>,
    commented: Option<String>,
    active_marked: Option<String>,
    commented_marked: Option<String>,
)
    requires
        is_plain_key(key),
        line@ == key + seq![' ', '=', ' '] + value,
        marked@ == seq!['#', ' '] + line@,
        call_ensures(active_relay_assignment_key, (line,), active),
        call_ensures(commented_relay_assignment_key, (line,), commented),
        call_ensures(active_relay_assignment_key, (marked,), active_marked),
        call_ensures(commented_relay_assignment_key, (marked,), commented_marked),
    ensures
        key == "base_url"@ || key == "experimental_bearer_token"@ ==> opt_text(active) == Some(key) && opt_text(
            commented_marked,
        ) == Some(key),
        key != "base_url"@ && key != "experimental_bearer_token"@ ==> active is None && commented_marked is None,
        commented is None,
        active_marked is None,
{
    let s = line@;
    assert(opt_text(active) == active_key(s));
    assert(opt_text(commented) == commented_key(s));
    assert(opt_text(active_marked) == active_key(marked@));
    assert(opt_text(commented_marked) == commented_key(marked@));
    assert(s[0] == key[0]);
    lemma_lead_len_is(s, white(), 0);
    assert(s.skip(0) =~= s);
    let k = key.len() as int;
    assert forall|j: int| 0 <= j < k + 1 implies !only('=')(#[trigger] s[j]) by {
        if j < k {
            assert(s[j] == key[j]);
            assert(key.contains(key[j]));
        }
    }
    assert(s[k + 1] == '=');
    lemma_index_where_is(s, only('='), k + 1);
    let left = s.take(k + 1);
    assert(is_white_space(' '));
    assert(left[0] == key[0] && left[k - 1] == key[k - 1] && left[k] == ' ');
    lemma_trimmed_between(left, 0, k);
    assert(left.subrange(0, k) =~= key);
    let m = marked@;
    assert(m[0] == '#');
    lemma_lead_len_is(m, white(), 0);
    assert(m.skip(0) =~= m);
    let after = m.skip(1);
    assert(after =~= seq![' '] + s);
    lemma_indented(seq![' '], s);
}

/// One more record adds what it says and takes nothing back.
pub proof fn law_observe(details: &mut RolloutContentDetails, record: &Json, message: Option<String>)
    requires
        call_ensures(user_message_text, (record,), message),
        call_ensures(RolloutContentDetails::observe, (details, record), ()),
    ensures
        final(details).has_user_event <==> old(details).has_user_event || user_sent(record@) || from_user(
            field(record@, "payload"@),
        ) || from_user(field(record@, "item"@)) || from_user(field(record@, "msg"@)),
        old(details).first_user_message is Some ==> opt_text(final(details).first_user_message) == opt_text(
            old(details).first_user_message,
        ),
        old(details).first_user_message is None ==> opt_text(final(details).first_user_message) == opt_text(message),
        field(record@, "type"@) == Some(JsonModel::Text("turn_context"@)) ==> final(details).saw_turn_context,
        field(record@, "type"@) != Some(JsonModel::Text("turn_context"@)) ==> opt_text(final(details).model) == opt_text(
            old(details).model,
        ) && final(details).saw_turn_context == old(details).saw_turn_context,
{
    let before = old(details)@;
    let after = final(details)@;
    assert(after == details_after(before, record@));
    assert(opt_text(message) == written_text(record@));
    assert(shows_user(record@) == (user_sent(record@) || from_user(field(record@, "payload"@)) || from_user(
        field(record@, "item"@),
    ) || from_user(field(record@, "msg"@))));
    assert(is_text(field(record@, "type"@), "turn_context"@) == (field(record@, "type"@) == Some(
        JsonModel::Text("turn_context"@),
    )));
}

/// A row for the index is made of the payload of a session's first record.
pub proof fn law_session_row(
    path: &str,
    dir_name: &str,
    meta: &Json,
    payload: &Json,
    content: RolloutContentDetails,
    modified: Option<i64>,
    now: i64,
    r: Option<RolloutIndexRecord>,
    has_id: bool,
)
    requires
        field(meta@, "type"@) == Some(JsonModel::Text("session_meta"@)),
        field(meta@, "payload"@) == Some(payload@),
        payload@ is Object,
        call_ensures(session_index_record, (path, dir_name, meta, content, modified, now), r),
        call_ensures(session_has_id, (meta,), has_id),
    ensures
        r is Some <==> has_id,
        has_id <==> (field(payload@, "id"@) matches Some(JsonModel::Text(id)) && trimmed(id).len() > 0),
        r matches Some(record) ==> (dir_name@ == "archived_sessions"@ ==> record.archived) && (dir_name@ == "sessions"@
            ==> !record.archived) && record.path@ == path@ && record.has_user_event == content.has_user_event,
{
    assert(is_session_meta(meta@));
    assert(meta_payload(meta@) == payload@);
    assert(has_id == (payload_text(payload@, "id"@) is Some));
    reveal_strlit("sessions");
    reveal_strlit("archived_sessions");
    assert("sessions"@.len() == 8);
    assert("archived_sessions"@.len() == 17);
    match r {
        Some(record) => {
            assert(is_index_record(record, path@, dir_name@, payload@, content@, modified, now as int));
        },
        None => {},
    }
}

/// A value is shown as its text, as its digits or as a word, and nothing is
/// shown of an empty text, of nothing and of what holds more.
pub proof fn law_value_shown(value: &Json, r: Option<String>)
    requires
        call_ensures(text_value, (Some(value),), r),
    ensures
        value@ matches JsonModel::Text(s) ==> (s.len() > 0 ==> opt_text(r) == Some(s)) && (s.len() == 0 ==> r is None),
        value@ matches JsonModel::Bool(b) ==> opt_text(r) == Some(
            if b {
                "true"@
            } else {
                "false"@
            },
        ),
        value@ is Null || value@ is Array || value@ is Object ==> r is None,
        value@ is Number ==> r is Some,
{
    assert(opt_text(r) == shown_value(Some(value@)));
}

/// A list of pieces is taken from a good answer that holds a good list.
pub proof fn law_described(
    ok: bool,
    chunks: Vec<ChunkDescriptor>,
    error: Option<String>,
    message: Option<String>,
    valid: Result<(), String>,
    r: Result<Vec<ChunkDescriptor>, String>,
    none: Result<Vec<ChunkDescriptor>, String>,
)
    requires
        call_ensures(validate_chunk_descriptors, (&chunks,), valid),
        call_ensures(described_chunks, (ok, Some(chunks), &error, &message), r),
        call_ensures(described_chunks, (ok, None, &error, &message), none),
    ensures
        r is Ok <==> ok && valid is Ok,
        r matches Ok(taken) ==> taken == chunks,
        none is Err,
{
    assert(failed_with(valid) == manifest_fault(chunks@));
}

/// What was downloaded is known by its hash.
pub proof fn law_blob_hash(sha256: &str, manifest: SessionManifest, r: Result<(), String>)
    requires
        call_ensures(check_blob_hash, (sha256, &manifest), r),
    ensures
        r is Ok <==> sha256@ == manifest.encrypted_sha256@,
{
    assert(failed_with(r) == blob_fault(sha256@, manifest));
}

/// A nonce is taken exactly when it decoded to twenty-four bytes, and a payload
/// exactly when its hash is the one in the header.
pub proof fn law_envelope_checks(
    decoded: Result<Vec<u8>, String>,
    nonce: Result<Vec<u8>, String>,
    raw: Vec<u8>,
    sha256: &str,
    header: &str,
    payload: Result<Vec<u8>, String>,
)
    requires
        call_ensures(checked_nonce, (decoded,), nonce),
        call_ensures(verify_payload, (raw, sha256, header), payload),
    ensures
        nonce is Ok <==> (decoded matches Ok(bytes) && bytes@.len() == 24),
        nonce matches Ok(bytes) ==> (decoded matches Ok(own) && own@ == bytes@),
        payload is Ok <==> sha256@ == header@,
        payload matches Ok(bytes) ==> bytes@ == raw@,
{
    assert(bytes_or_text(nonce) == valid_nonce(bytes_or_text(decoded)));
    assert(bytes_or_text(payload) == verified_payload(Ok(raw@), sha256@, header@));
}

/// A fault of the network is told by what went wrong first, a timeout before
/// anything else.
pub proof fn law_fault_told(fault: NetworkFault, r: String)
    requires
        call_ensures(network_error_message, (&fault,), r),
    ensures
        r@ == (if fault.timeout {
            "network timeout"@
        } else if fault.connect {
            "network connect/TLS failure"@
        } else if fault.body {
            "network stream/body interrupted"@
        } else if fault.request {
            "network request failure"@
        } else {
            "network failure"@
        }) + ": "@ + fault.text@ + ". This can happen before the request reaches the Worker, so the server may not show an error log. Retry, or set HTTP_PROXY/HTTPS_PROXY if your network needs a proxy."@,
{
    assert(r@ == fault_message(fault));
}

/// What went wrong is told with what the service said.
pub proof fn law_http_told(
    action: &str,
    status: &str,
    body: &str,
    error: &str,
    api_url: &str,
    path: &str,
    failed: String,
    invalid: String,
    url: String,
)
    requires
        call_ensures(http_error, (action, status, body), failed),
        call_ensures(invalid_answer, (action, error), invalid),
        call_ensures(service_url, (api_url, path), url),
    ensures
        failed@ == action@ + " failed: HTTP "@ + status@ + ": "@ + body@,
        invalid@ == action@ + " returned invalid JSON: "@ + error@,
        url@ == api_url@ + path@,
{
}

/// The service is well exactly when it says so.
pub proof fn law_smoke(status: ApiStatusResponse, api_url: &str, r: Result<String, String>)
    requires
        call_ensures(smoke_text, (&status, api_url), r),
    ensures
        r is Ok <==> status.ok,
        r matches Ok(text) ==> text@ == "API smoke test ok: "@ + api_url@,
{
}

/// The commands that ask Codex to end are those of the system.
pub proof fn law_quit_commands(system: System, r: Vec<String>, i: int)
    requires
        call_ensures(quit_command_texts, (system,), r),
    ensures
        system is MacOs ==> r@.len() == 1 && r@[0]@ == "osascript -e 'tell application \"Codex\" to quit'"@,
        system is Windows ==> r@.len() == 2 && r@[0]@ == "taskkill /IM Codex.exe"@ && r@[1]@ == "taskkill /IM codex.exe"@,
        system is Other ==> r@.len() == 1 && r@[0]@ == "pkill -TERM -f 'codex app-server'"@,
{
    let all = texts(r@);
    assert(all == quit_commands(system));
    assert(all.len() == r@.len());
    assert(all[0] == r@[0]@);
    if r@.len() > 1 {
        assert(all[1] == r@[1]@);
    }
}

/// Why the processes could not be listed is told by what the command printed,
/// errors first, and else by its code.
pub proof fn law_detection_failure(stderr: &str, stdout: &str, code: Option<i32>, r: String)
    requires
        call_ensures(detection_failure_text, (stderr, stdout, code), r),
    ensures
        trimmed(stderr@).len() > 0 ==> r@ == "Codex 进程检测命令失败："@ + trimmed(stderr@),
        trimmed(stderr@).len() == 0 && trimmed(stdout@).len() > 0 ==> r@ == "Codex 进程检测命令失败："@ + trimmed(stdout@),
{
    assert(r@ == detection_failure(stderr@, stdout@, code));
}

/// A command that writes tells what it is doing and why it saves the files
/// under its own words.
pub proof fn law_write_words(command: WriteCommand, action: String, reason: String)
    requires
        call_ensures(write_action, (command,), action),
        call_ensures(backup_reason, (command,), reason),
    ensures
        command is Sync ==> reason@ == "native-provider-sync"@ && action@ == "同步历史会话 metadata"@,
        command is Switch ==> reason@ == "switch-root-provider"@ && action@ == "切换 provider 并同步历史会话"@,
        command is Repair ==> reason@ == "repair-provider-name"@ && action@ == "重命名 provider 并同步历史会话"@,
        command is RemoveAuth ==> reason@ == "backup-and-remove-auth-json"@ && action@ == "备份并移除 auth.json"@,
        command is Token ==> reason@ == "apply-experimental-bearer-token"@ && action@ == "写入 experimental_bearer_token"@,
        command is Relay ==> reason@ == "toggle-relay-config-lines"@ && action@ == "切换中转配置注释状态"@,
{
    assert(action@ == action_of(command));
    assert(reason@ == reason_of(command));
}

/// A token that was applied is told masked, and a switch by its target and
/// backup.
pub proof fn law_edits_told(
    edit: TokenEdit,
    token: &str,
    hidden: String,
    backup_dir: &str,
    target: &str,
    sync_output: &str,
    applied: String,
    switched: String,
)
    requires
        token@ == edit.token@,
        call_ensures(mask_secret, (token,), hidden),
        call_ensures(apply_experimental_token_text, (&edit, backup_dir), applied),
        call_ensures(provider_switch_text, (target, backup_dir, sync_output), switched),
    ensures
        applied@ == "Applied experimental_bearer_token for provider "@ + edit.provider_id@ + ".\nToken: "@ + hidden@
            + "\nBackup: "@ + backup_dir@,
        switched@ == "Switched root provider to "@ + target@ + ".\nConfig backup: "@ + backup_dir@ + "\n\n"@ + sync_output@,
{
    assert(hidden@ == masked(token@));
}

/// A count that is set is the one that is got, and the others stay.
pub proof fn law_counts_set(counts: &mut Counts, key: String, count: usize, after: Counts, other: &str, r: Option<usize>)
    requires
        call_ensures(Counts::set, (counts, key, count), ()),
        after@ == final(counts)@,
        call_ensures(Counts::get, (&after, other), r),
    ensures
        other@ == key@ ==> r == Some(count),
        other@ != key@ ==> (r is Some <==> old(counts)@.dom().contains(other@)) && (r matches Some(n) ==> n
            == old(counts)@[other@]),
{
}

/// Texts are sorted with nothing lost; sorted as a set each comes once.
pub proof fn law_texts_sorted(items: Vec<String>, sorted: Vec<String>, distinct: Vec<String>, i: int, j: int)
    requires
        call_ensures(sort_texts, (items,), sorted),
        call_ensures(sort_distinct, (&items,), distinct),
    ensures
        0 <= i < j < distinct@.len() ==> distinct@[i]@ != distinct@[j]@ && text_le(distinct@[i]@, distinct@[j]@),
        forall|t: Seq<char>| #[trigger] texts(distinct@).contains(t) <==> texts(items@).contains(t),
        sorted@.len() == items@.len(),
        0 <= i < j < sorted@.len() ==> text_le(sorted@[i]@, sorted@[j]@),
{
    let le = by_text();
    assert(sorted@ == sorted_by(items@, le));
    lemma_by_text_is_order();
    law_sorted(items@, le);
    if 0 <= i < j < sorted@.len() {
        assert(le(sorted@[i], sorted@[j]));
    }
    assert(is_ascending(texts(distinct@)));
    assert(texts(distinct@).to_set() == texts(items@).to_set());
    assert forall|t: Seq<char>| #[trigger] texts(distinct@).contains(t) <==> texts(items@).contains(t) by {
        assert(texts(distinct@).contains(t) == texts(distinct@).to_set().contains(t));
        assert(texts(items@).contains(t) == texts(items@).to_set().contains(t));
    }
    if 0 <= i < j < distinct@.len() {
        assert(texts(distinct@)[i] == distinct@[i]@ && texts(distinct@)[j] == distinct@[j]@);
    }
}

proof fn lemma_by_text_is_order()
    ensures
        is_order(by_text()),
{
    let le = by_text();
    assert forall|a: String, b: String| #[trigger] le(a, b) || le(b, a) by {
        law_text_le_total(a@, b@);
    }
    assert forall|a: String, b: String, c: String| #[trigger] le(a, b) && #[trigger] le(b, c) implies le(a, c) by {
        law_text_le_transitive(a@, b@, c@);
    }
}

/// Keys of several texts are the keys of each of them.
pub proof fn law_keys_of_texts(items: Vec<String>, item: &str, i: int, own: Vec<String>, r: Vec<String>, token: Seq<char>)
    requires
        0 <= i < items@.len(),
        item@ == items@[i]@,
        call_ensures(extract_sk_tokens, (item,), own),
        call_ensures(tokens_in_texts, (&items,), r),
    ensures
        texts(own@).contains(token) ==> texts(r@).contains(token),
        items@.len() == 1 ==> (texts(r@).contains(token) <==> texts(own@).contains(token)),
{
    let all = texts(items@);
    assert(all[i] == item@);
    assert(texts(own@).contains(token) <==> split_where(item@, between_tokens()).contains(token) && is_sk_token(token));
    assert(texts(r@).contains(token) <==> key_among(all, token));
    if texts(own@).contains(token) {
        assert(split_where(all[i], between_tokens()).contains(token));
    }
    if items@.len() == 1 && key_among(all, token) {
        let k = choose|k: int| 0 <= k < all.len() && split_where(#[trigger] all[k], between_tokens()).contains(token);
        assert(k == 0 && i == 0);
    }
}

/// What a login needs is asked for by name where it is missing.
pub proof fn law_needed(
    settings: CloudSettings,
    token: Result<String, String>,
    key: Result<String, String>,
    email: Result<String, String>,
)
    requires
        call_ensures(CloudSettings::required_device_token, (&settings,), token),
        call_ensures(CloudSettings::required_sync_key, (&settings,), key),
        call_ensures(CloudSettings::required_email, (&settings,), email),
    ensures
        token is Ok <==> settings.device_token is Some,
        token matches Ok(text) ==> opt_text(settings.device_token) == Some(text@),
        key is Ok <==> settings.sync_key is Some,
        key matches Ok(text) ==> opt_text(settings.sync_key) == Some(text@),
        email is Ok <==> settings.email is Some,
        email matches Ok(text) ==> opt_text(settings.email) == Some(text@),
{
    assert(text_or_error(token) == required(
        opt_text(settings.device_token),
        "not logged in. Run: codex-tools cloud login"@,
    ));
    assert(text_or_error(key) == required(
        opt_text(settings.sync_key),
        "missing sync key. Run: codex-tools cloud login"@,
    ));
    assert(text_or_error(email) == required(
        opt_text(settings.email),
        "missing cloud email. Run: codex-tools cloud login"@,
    ));
}

/// The roots that a state file holds are those of the state in it.
pub proof fn law_roots_in_file(
    text: &str,
    state: &Json,
    roots: Vec<String>,
    r: Result<Vec<String>, String>,
    stored_paths: Vec<String>,
    value: &Json,
)
    requires
        json_read(text@) == Ok::<JsonModel, Seq<char>>(state@),
        call_ensures(read_workspace_roots_from_global_state, (state,), roots),
        call_ensures(workspace_roots_in, (text,), r),
        call_ensures(to_path_array, (Some(value),), stored_paths),
    ensures
        r matches Ok(found) && texts(found@) == texts(roots@),
        value@ matches JsonModel::Text(s) ==> trimmed(s).len() > 0 ==> texts(stored_paths@) == seq![s],
        value@ is Null || value@ is Bool || value@ is Number || value@ is Object ==> stored_paths@.len() == 0,
{
    assert(texts(roots@) == workspace_roots(state@));
    assert(texts(stored_paths@) == path_list(Some(value@)));
    assert(texts(stored_paths@).len() == stored_paths@.len());
}

/// Without an index a project is told with no threads.
pub proof fn law_no_index_told(roots: Vec<String>, r: Vec<String>, i: int)
    requires
        0 <= i < roots@.len(),
        call_ensures(project_visibility_without_index, (&roots,), r),
    ensures
        r@.len() == roots@.len(),
        r@[i]@ == normal_path(roots@[i]@)
            + ": interactive 0, first page 0/50, ranks (none), exact cwd 0/0, providers (none)"@,
{
    let told = texts(roots@).map_values(|root: Seq<char>| no_index_line(root));
    assert(texts(r@) == told);
    assert(texts(r@).len() == r@.len());
    assert(texts(r@)[i] == r@[i]@);
    assert(texts(roots@)[i] == roots@[i]@);
}

/// Text is trimmed of what is white around it, and only of that.
pub proof fn law_trimmed(before: Seq<char>, inner: Seq<char>, after: Seq<char>, s: &str, r: &str)
    requires
        s@ == before + inner + after,
        inner.len() > 0,
        !is_white_space(inner[0]),
        !is_white_space(inner.last()),
        forall|i: int| 0 <= i < before.len() ==> is_white_space(#[trigger] before[i]),
        forall|i: int| 0 <= i < after.len() ==> is_white_space(#[trigger] after[i]),
        call_ensures(trim, (s,), r),
    ensures
        r@ == inner,
{
    let t = s@;
    let a = before.len() as int;
    let b = a + inner.len();
    assert(r@ == trimmed(t));
    assert forall|j: int| 0 <= j < a implies is_white_space(#[trigger] t[j]) by {
        assert(t[j] == before[j]);
    }
    assert forall|j: int| b <= j < t.len() implies is_white_space(#[trigger] t[j]) by {
        assert(t[j] == after[j - b]);
    }
    assert(t[a] == inner[0]);
    assert(t[b - 1] == inner.last());
    lemma_trimmed_between(t, a, b);
    assert(t.subrange(a, b) =~= inner);
}

/// A text is split at the first place of a character.
pub proof fn law_split_once(a: Seq<char>, c: char, b: Seq<char>, s: &str, r: Option<(&str, &str)>)
    requires
        !a.contains(c),
        s@ == a + seq![c] + b,
        call_ensures(split_once, (s, c), r),
    ensures
        r matches Some((left, right)) && left@ == a && right@ == b,
{
    let t = s@;
    let n = a.len() as int;
    assert forall|j: int| 0 <= j < n implies !only(c)(#[trigger] t[j]) by {
        assert(t[j] == a[j]);
        assert(a.contains(a[j]));
    }
    assert(t[n] == c);
    lemma_index_where_is(t, only(c), n);
    assert(t.take(n) =~= a);
    assert(t.skip(n + 1) =~= b);
    assert(split_once_at(t, c) == Some((a, b)));
}

/// A text is found in another exactly when it stands somewhere in it.
pub proof fn law_contains(before: Seq<char>, needle: &str, after: Seq<char>, s: &str, r: bool)
    requires
        s@ == before + needle@ + after,
        call_ensures(contains, (s, needle), r),
    ensures
        r,
{
    let i = before.len() as int;
    assert(s@.subrange(i, i + needle@.len()) =~= needle@);
    assert(has_text(s@, needle@));
}

} // verus!
