//! What backing sessions up promises, said of what a push sends and of what a
//! pull brings back.

use vstd::prelude::*;

use crate::chunks::failed_with;
use crate::cloud::{select_sessions, selected, with_id};
use crate::digest::{sha256_hex, sha256_text};
use crate::envelope::{
    bytes_or_text, encrypt_payload, envelope_payload, framed, is_header_line, opens_again, SealedPayload,
};
use crate::json::{field, Json, JsonModel};
use crate::order::{
    is_order, law_sorted, law_sorted_holds, law_text_le_total, law_text_le_transitive, sorted_by, text_le,
};
use crate::rollout::{is_session_meta, meta_thread_id};
use crate::sessions::{
    group_local_sessions_by_id, group_views, grouped, has_as_new, in_groups, is_as_new, is_group,
    is_local_session, latest_manifests, latest_sessions_order, law_grouped, law_newest,
    law_newest_first_is_order, newest, newest_first_order, oldest_sessions_order, one_of_each,
    read_local_session_meta, session_groups, sort_local_sessions, LocalSessionMeta, SessionManifest,
};
use crate::text::{lemma_index_where_is, only, opt_text, split_where, trimmed};
use crate::transfer::{
    after_remote_check, after_version_noted, before_restore, blob_fault, check_blob, check_restored,
    finish_restore, is_uploaded, is_version_of, latest_version_optional, latest_version_required,
    law_pull_restores_push, next_upload_time, push_outcome, restore_payload, restored_from, restored_payload,
    upload_time, version_manifest, ApiManifestResponse, PushSessionOutcome, PushStep, RestoreEnd, RestoreStep,
};

verus! {

/// A version that is pushed is told of as the session that it is: under its id,
/// at its path, with the hashes of what was read and of what is sent.
pub proof fn law_manifest(
    session: LocalSessionMeta,
    raw: &[u8],
    raw_sha256: String,
    raw_hash: &str,
    encrypted: &[u8],
    encrypted_sha256: String,
    uploaded_at_ms: u128,
    device_name: &str,
    manifest: SessionManifest,
)
    requires
        call_ensures(sha256_hex, (raw,), raw_sha256),
        raw_hash@ == raw_sha256@,
        call_ensures(sha256_hex, (encrypted,), encrypted_sha256),
        call_ensures(version_manifest, (&session, raw_hash, encrypted, uploaded_at_ms, device_name), manifest),
    ensures
        manifest.format@ == "codex-tools-session-v1"@,
        manifest.session_id@ == session.session_id@,
        manifest.relative_path@ == session.relative_path@,
        manifest.source_dir@ == session.source_dir@,
        opt_text(manifest.title) == opt_text(session.title),
        opt_text(manifest.cwd) == opt_text(session.cwd),
        opt_text(manifest.provider_name) == opt_text(session.provider_name),
        opt_text(manifest.model) == opt_text(session.model),
        manifest.raw_sha256@ == raw_sha256@,
        manifest.encrypted_sha256@ == encrypted_sha256@,
        manifest.encrypted_size == encrypted@.len(),
        manifest.uploaded_at_ms == uploaded_at_ms,
        manifest.device_name@ == device_name@,
        manifest.blob_key@.len() == 0,
{
    reveal_strlit("");
    assert(encrypted_sha256@ == sha256_text(encrypted@));
    assert(is_version_of(
        manifest,
        session,
        raw_hash@,
        sha256_text(encrypted@),
        encrypted@.len() as int,
        uploaded_at_ms,
        device_name@,
    ));
}

/// What a push tells of a session is what its first record and its place say:
/// a pull puts the session where the push took it from.
pub proof fn law_pushed_place(
    record: &Json,
    payload: Map<Seq<char>, JsonModel>,
    id: Seq<char>,
    dir: Seq<char>,
    rest: Seq<char>,
    relative_path: &str,
    modified_at_ms: u128,
    size: u64,
    session: LocalSessionMeta,
    raw_hash: &str,
    encrypted: &[u8],
    uploaded_at_ms: u128,
    device_name: &str,
    manifest: SessionManifest,
)
    requires
        field(record@, "type"@) == Some(JsonModel::Text("session_meta"@)),
        field(record@, "payload"@) == Some(JsonModel::Object(payload)),
        payload.dom().contains("id"@) && payload["id"@] == JsonModel::Text(id),
        trimmed(id).len() > 0,
        relative_path@ == dir + seq!['/'] + rest,
        !dir.contains('/'),
        call_ensures(read_local_session_meta, (record, relative_path, modified_at_ms, size), session),
        call_ensures(version_manifest, (&session, raw_hash, encrypted, uploaded_at_ms, device_name), manifest),
    ensures
        manifest.relative_path@ == relative_path@,
        manifest.session_id@ == id,
        manifest.source_dir@ == dir,
        session.relative_path@ == relative_path@,
        session.session_id@ == id,
        session.modified_at_ms == modified_at_ms,
        session.size == size,
        payload.dom().contains("title"@) ==> (payload["title"@] matches JsonModel::Text(s) ==> opt_text(manifest.title)
            == Some(s)),
        payload.dom().contains("cwd"@) ==> (payload["cwd"@] matches JsonModel::Text(s) ==> opt_text(manifest.cwd)
            == Some(s)),
        payload.dom().contains("model_provider"@) ==> (payload["model_provider"@] matches JsonModel::Text(s) ==> opt_text(
            manifest.provider_name,
        ) == Some(s)),
        payload.dom().contains("model"@) ==> (payload["model"@] matches JsonModel::Text(s) ==> opt_text(manifest.model)
            == Some(s)),
{
    assert(is_session_meta(record@));
    assert(meta_thread_id(record@) == Some(id));
    assert(is_local_session(session, record@, relative_path@, modified_at_ms, size));
    assert(is_version_of(
        manifest,
        session,
        raw_hash@,
        sha256_text(encrypted@),
        encrypted@.len() as int,
        uploaded_at_ms,
        device_name@,
    ));
    let path = relative_path@;
    assert forall|j: int| 0 <= j < dir.len() implies !only('/')(#[trigger] path[j]) by {
        assert(path[j] == dir[j]);
        assert(dir.contains(dir[j]));
    }
    assert(path[dir.len() as int] == '/');
    lemma_index_where_is(path, only('/'), dir.len() as int);
    assert(split_where(path, only('/'))[0] == path.take(dir.len() as int));
    assert(path.take(dir.len() as int) =~= dir);
}

/// What was downloaded is taken exactly when it is what was sent.
pub proof fn law_blob_check(
    session: LocalSessionMeta,
    raw_hash: &str,
    encrypted: &[u8],
    sent: String,
    uploaded_at_ms: u128,
    device_name: &str,
    manifest: SessionManifest,
    downloaded: &[u8],
    came: String,
    r: Result<(), String>,
)
    requires
        call_ensures(version_manifest, (&session, raw_hash, encrypted, uploaded_at_ms, device_name), manifest),
        call_ensures(sha256_hex, (encrypted,), sent),
        call_ensures(sha256_hex, (downloaded,), came),
        call_ensures(check_blob, (downloaded, &manifest), r),
    ensures
        r is Ok <==> came@ == sent@,
        downloaded@ == encrypted@ ==> r is Ok,
{
    assert(sent@ == sha256_text(encrypted@));
    assert(came@ == sha256_text(downloaded@));
    assert(is_version_of(
        manifest,
        session,
        raw_hash@,
        sha256_text(encrypted@),
        encrypted@.len() as int,
        uploaded_at_ms,
        device_name@,
    ));
    assert(failed_with(r) == blob_fault(came@, manifest));
}

/// What a pull hands back is what the push sealed, and only where its hash is
/// the one that the version was told of with.
pub proof fn law_restored(
    raw: &[u8],
    raw_sha256: String,
    raw_hash: &str,
    sync_key: &str,
    created_at_ms: u128,
    sealed: SealedPayload,
    line: Seq<u8>,
    envelope: &[u8],
    session: LocalSessionMeta,
    uploaded_at_ms: u128,
    device_name: &str,
    manifest: SessionManifest,
    r: Result<Vec<u8>, String>,
)
    requires
        raw@.len() <= 536870912,
        call_ensures(sha256_hex, (raw,), raw_sha256),
        raw_hash@ == raw_sha256@,
        call_ensures(encrypt_payload, (raw, sync_key, created_at_ms), Ok(sealed)),
        forall|i: int| 0 <= i < line.len() ==> #[trigger] line[i] != 10,
        envelope@ == line + seq![10u8] + sealed.ciphertext@,
        call_ensures(version_manifest, (&session, raw_hash, envelope, uploaded_at_ms, device_name), manifest),
        call_ensures(restore_payload, (envelope, &sealed.header, &manifest, sync_key), r),
    ensures
        r matches Ok(bytes) && bytes@ == raw@,
        manifest.relative_path@ == session.relative_path@,
        manifest.session_id@ == session.session_id@,
{
    assert(raw_sha256@ == sha256_text(raw@));
    assert(opens_again(sealed, raw@, sync_key@));
    assert(is_header_line(line));
    assert(envelope@ == framed(line, sealed.ciphertext@));
    assert(envelope_payload(framed(line, sealed.ciphertext@), sealed.header, sync_key@) == Ok::<Seq<u8>, Seq<char>>(
        raw@,
    ));
    assert(is_version_of(
        manifest,
        session,
        raw_hash@,
        sha256_text(envelope@),
        envelope@.len() as int,
        uploaded_at_ms,
        device_name@,
    ));
    law_pull_restores_push(raw@, sealed, line, sync_key@, session, manifest, uploaded_at_ms, device_name@);
    assert(bytes_or_text(r) == restored_from(envelope@, sealed.header, manifest, sync_key@));
}

/// Bytes whose hash is another than the one that the version was told of with
/// are never handed back.
pub proof fn law_wrong_bytes_are_refused(
    raw: Vec<u8>,
    bytes: &[u8],
    hash: String,
    sha256: &str,
    manifest: SessionManifest,
    r: Result<Vec<u8>, String>,
)
    requires
        bytes@ == raw@,
        call_ensures(sha256_hex, (bytes,), hash),
        sha256@ == hash@,
        call_ensures(check_restored, (raw, sha256, &manifest), r),
    ensures
        r is Ok <==> hash@ == manifest.raw_sha256@,
        r matches Ok(out) ==> out@ == raw@,
{
    assert(bytes_or_text(r) == restored_payload(Ok(raw@), sha256@, manifest));
}

/// A version is uploaded exactly when it comes for the first time and, unless
/// forced, the cloud answered and does not hold it as its latest. Where the
/// cloud did not answer nothing is uploaded.
pub proof fn law_push_decision(
    session_id: &str,
    raw_sha256: &str,
    first_time: bool,
    force: bool,
    noted: PushStep,
    remote: Result<Option<SessionManifest>, String>,
    checked: Result<PushStep, String>,
)
    requires
        call_ensures(after_version_noted, (session_id, raw_sha256, first_time, force), noted),
        call_ensures(after_remote_check, (session_id, raw_sha256, &remote), checked),
    ensures
        noted is Upload <==> first_time && force,
        noted is AskRemote <==> first_time && !force,
        noted is Skip <==> !first_time,
        remote is Err <==> checked is Err,
        (checked matches Ok(PushStep::Upload)) <==> (remote matches Ok(None)) || (remote matches Ok(Some(latest))
            && latest.raw_sha256@ != raw_sha256@),
        (checked matches Ok(PushStep::Skip(_))) <==> (remote matches Ok(Some(latest)) && latest.raw_sha256@
            == raw_sha256@),
{
    assert(is_uploaded(remote, raw_sha256@) == (remote matches Ok(Some(latest)) && latest.raw_sha256@ == raw_sha256@));
}

/// A push counts as done exactly when the cloud says so, and as skipped exactly
/// when it says that it had the version.
pub proof fn law_push_outcome(
    result: ApiManifestResponse,
    session_id: &str,
    raw_sha256: &str,
    r: Result<(PushSessionOutcome, String), String>,
)
    requires
        call_ensures(push_outcome, (&result, session_id, raw_sha256), r),
    ensures
        r is Ok <==> result.ok,
        r matches Ok((outcome, _)) ==> (outcome is Skipped <==> result.skipped == Some(true)),
{
}

/// A file that is there is left alone: it is downloaded over only when that is
/// forced, and one with other content is an error.
pub proof fn law_restore_decision(
    existing: Option<String>,
    raw_sha256: &str,
    force: bool,
    path: &str,
    r: Result<RestoreStep, String>,
)
    requires
        call_ensures(before_restore, (&existing, raw_sha256, force, path), r),
    ensures
        (r matches Ok(RestoreStep::Download)) <==> force || existing is None,
        (r matches Ok(RestoreStep::Skip(_))) <==> !force && (existing matches Some(hash) && hash@ == raw_sha256@),
        r is Err <==> !force && (existing matches Some(hash) && hash@ != raw_sha256@),
{
}

/// Nothing is written in a dry run.
pub proof fn law_dry_run(dry_run: bool, size: usize, manifest: SessionManifest, path: &str, r: RestoreEnd)
    requires
        call_ensures(finish_restore, (dry_run, size, &manifest, path), r),
    ensures
        r is Write <==> !dry_run,
        r is DryRun <==> dry_run,
{
}

/// The latest version is asked for by the id of the session, and an answer that
/// is not good or holds none is no version.
pub proof fn law_latest(
    result: ApiManifestResponse,
    session_id: &str,
    optional: Result<Option<SessionManifest>, String>,
    required: Result<SessionManifest, String>,
)
    requires
        call_ensures(latest_version_optional, (result,), optional),
        call_ensures(latest_version_required, (result, session_id), required),
    ensures
        optional is Ok <==> result.ok,
        optional matches Ok(manifest) ==> manifest == result.manifest,
        required is Ok <==> result.ok && result.manifest is Some,
        required matches Ok(manifest) ==> result.manifest == Some(manifest),
{
}

/// Of every session the version uploaded last is kept, one for each session,
/// the newest first.
pub proof fn law_latest_manifests(manifests: Vec<SessionManifest>, r: Vec<SessionManifest>)
    requires
        call_ensures(latest_manifests, (manifests,), r),
    ensures
        forall|i: int| 0 <= i < r@.len() ==> manifests@.contains(#[trigger] r@[i]),
        forall|i: int, j: int|
            0 <= i < j < r@.len() ==> (#[trigger] r@[i]).session_id@ != (#[trigger] r@[j]).session_id@
                && r@[i].uploaded_at_ms >= r@[j].uploaded_at_ms,
        forall|m: int|
            0 <= m < manifests@.len() ==> exists|i: int|
                0 <= i < r@.len() && (#[trigger] r@[i]).session_id@ == (#[trigger] manifests@[m]).session_id@
                    && r@[i].uploaded_at_ms >= manifests@[m].uploaded_at_ms,
{
    let le = newest_first_order();
    let kept = newest(manifests@);
    assert(r@ == sorted_by(kept, le));
    law_newest_first_is_order();
    law_newest(manifests@);
    law_sorted(kept, le);
    assert forall|i: int| 0 <= i < r@.len() implies manifests@.contains(#[trigger] r@[i]) by {
        assert(r@.contains(r@[i]));
        law_sorted_holds(kept, le, r@[i]);
        let k = choose|k: int| 0 <= k < kept.len() && kept[k] == r@[i];
        assert(manifests@.contains(kept[k]));
    }
    assert forall|i: int, j: int| 0 <= i < j < r@.len() implies (#[trigger] r@[i]).session_id@ != (
    #[trigger] r@[j]).session_id@ && r@[i].uploaded_at_ms >= r@[j].uploaded_at_ms by {
        assert(le(r@[i], r@[j]));
        if r@[i].session_id@ == r@[j].session_id@ {
            law_sorted_holds(kept, le, r@[i]);
            law_sorted_holds(kept, le, r@[j]);
            assert(r@.contains(r@[i]) && r@.contains(r@[j]));
            let a = choose|a: int| 0 <= a < kept.len() && kept[a] == r@[i];
            let b = choose|b: int| 0 <= b < kept.len() && kept[b] == r@[j];
            if a < b {
                assert(kept[a].session_id@ != kept[b].session_id@);
            } else if b < a {
                assert(kept[b].session_id@ != kept[a].session_id@);
            } else {
                lemma_once(kept, r@, a, i, j);
            }
        }
    }
    assert forall|m: int| 0 <= m < manifests@.len() implies exists|i: int|
        0 <= i < r@.len() && (#[trigger] r@[i]).session_id@ == (#[trigger] manifests@[m]).session_id@
            && r@[i].uploaded_at_ms >= manifests@[m].uploaded_at_ms by {
        assert(has_as_new(kept, manifests@[m]));
        let k = choose|k: int| 0 <= k < kept.len() && is_as_new(#[trigger] kept[k], manifests@[m]);
        assert(kept.contains(kept[k]));
        law_sorted_holds(kept, le, kept[k]);
        let i = choose|i: int| 0 <= i < r@.len() && r@[i] == kept[k];
        assert(r@[i].session_id@ == manifests@[m].session_id@);
    }
}

/// Where one version comes once it does not come twice after sorting.
proof fn lemma_once(kept: Seq<SessionManifest>, sorted: Seq<SessionManifest>, a: int, i: int, j: int)
    requires
        sorted.to_multiset() == kept.to_multiset(),
        one_of_each(kept),
        0 <= a < kept.len(),
        0 <= i <= j < sorted.len(),
        sorted[i] == kept[a],
        sorted[j] == kept[a],
    ensures
        i == j,
{
    broadcast use vstd::seq_lib::group_to_multiset_ensures;

    if i < j {
        let x = kept[a];
        let less = sorted.remove(j);
        assert(less[i] == x);
        assert(less.contains(x));
        assert(less.to_multiset().count(x) > 0);
        assert(less.to_multiset() == sorted.to_multiset().remove(x));
        assert(kept.to_multiset().count(x) >= 2);
        let rest = kept.remove(a);
        assert(rest.to_multiset() == kept.to_multiset().remove(x));
        assert(rest.to_multiset().count(x) > 0);
        assert(rest.contains(x));
        let k = choose|k: int| 0 <= k < rest.len() && rest[k] == x;
        let b = if k < a {
            k
        } else {
            k + 1
        };
        assert(kept[b] == x);
        if a < b {
            assert(kept[a].session_id@ != kept[b].session_id@);
        } else {
            assert(kept[b].session_id@ != kept[a].session_id@);
        }
    }
}

proof fn lemma_latest_sessions_is_order()
    ensures
        is_order(latest_sessions_order()),
{
    let le = latest_sessions_order();
    assert forall|a: LocalSessionMeta, b: LocalSessionMeta| #[trigger] le(a, b) || le(b, a) by {
        law_text_le_total(a.relative_path@, b.relative_path@);
    }
    assert forall|a: LocalSessionMeta, b: LocalSessionMeta, c: LocalSessionMeta| #[trigger]
        le(a, b) && #[trigger] le(b, c) implies le(a, c) by {
        if text_le(a.relative_path@, b.relative_path@) && text_le(b.relative_path@, c.relative_path@) {
            law_text_le_transitive(a.relative_path@, b.relative_path@, c.relative_path@);
        }
    }
}

proof fn lemma_oldest_sessions_is_order()
    ensures
        is_order(oldest_sessions_order()),
{
    let le = oldest_sessions_order();
    assert forall|a: LocalSessionMeta, b: LocalSessionMeta| #[trigger] le(a, b) || le(b, a) by {
        law_text_le_total(a.relative_path@, b.relative_path@);
    }
    assert forall|a: LocalSessionMeta, b: LocalSessionMeta, c: LocalSessionMeta| #[trigger]
        le(a, b) && #[trigger] le(b, c) implies le(a, c) by {
        if text_le(a.relative_path@, b.relative_path@) && text_le(b.relative_path@, c.relative_path@) {
            law_text_le_transitive(a.relative_path@, b.relative_path@, c.relative_path@);
        }
    }
}

/// Sorting sessions keeps them all and puts the ones changed last first.
pub proof fn law_local_order(sessions: Vec<LocalSessionMeta>, r: Vec<LocalSessionMeta>)
    requires
        call_ensures(sort_local_sessions, (sessions,), r),
    ensures
        r@.to_multiset() == sessions@.to_multiset(),
        forall|i: int, j: int|
            0 <= i < j < r@.len() ==> (#[trigger] r@[i]).modified_at_ms >= (#[trigger] r@[j]).modified_at_ms,
{
    let le = latest_sessions_order();
    assert(r@ == sorted_by(sessions@, le));
    lemma_latest_sessions_is_order();
    law_sorted(sessions@, le);
    assert forall|i: int, j: int| 0 <= i < j < r@.len() implies (#[trigger] r@[i]).modified_at_ms >= (
    #[trigger] r@[j]).modified_at_ms by {
        assert(le(r@[i], r@[j]));
    }
}

/// The versions of one session are pushed one after the other, the oldest
/// first, so that the newest is uploaded last. Every session is in one group.
pub proof fn law_groups(sessions: Vec<LocalSessionMeta>, r: Vec<Vec<LocalSessionMeta>>)
    requires
        call_ensures(group_local_sessions_by_id, (sessions,), r),
    ensures
        forall|g: int, i: int, j: int|
            0 <= g < r@.len() && 0 <= i < j < r@[g]@.len() ==> (#[trigger] r@[g]@[i]).session_id@ == (
            #[trigger] r@[g]@[j]).session_id@ && r@[g]@[i].modified_at_ms <= r@[g]@[j].modified_at_ms,
        forall|g: int, h: int, i: int, j: int|
            0 <= g < h < r@.len() && 0 <= i < r@[g]@.len() && 0 <= j < r@[h]@.len() ==> (#[trigger] r@[g]@[i]).session_id@
                != (#[trigger] r@[h]@[j]).session_id@,
        forall|session: LocalSessionMeta| #[trigger]
            sessions@.contains(session) <==> exists|g: int| 0 <= g < r@.len() && (#[trigger] r@[g])@.contains(session),
{
    let le = oldest_sessions_order();
    let groups = grouped(sessions@);
    lemma_oldest_sessions_is_order();
    law_grouped(sessions@);
    assert(group_views(r@) == session_groups(sessions@));
    assert(group_views(r@).len() == r@.len());
    assert forall|g: int| 0 <= g < r@.len() implies (#[trigger] r@[g])@ == sorted_by(groups[g], le) by {
        assert(group_views(r@)[g] == r@[g]@);
        assert(session_groups(sessions@)[g] == sorted_by(groups[g], le));
    }
    assert forall|g: int, i: int| 0 <= g < r@.len() && 0 <= i < r@[g]@.len() implies (#[trigger] r@[g]@[i]).session_id@
        == groups[g][0].session_id@ by {
        assert(r@[g]@ == sorted_by(groups[g], le));
        assert(r@[g]@.contains(r@[g]@[i]));
        law_sorted_holds(groups[g], le, r@[g]@[i]);
        let k = choose|k: int| 0 <= k < groups[g].len() && groups[g][k] == r@[g]@[i];
        assert(is_group(groups[g]));
        assert(groups[g][k].session_id@ == groups[g][0].session_id@);
    }
    assert forall|g: int, i: int, j: int| 0 <= g < r@.len() && 0 <= i < j < r@[g]@.len() implies (
    #[trigger] r@[g]@[i]).session_id@ == (#[trigger] r@[g]@[j]).session_id@ && r@[g]@[i].modified_at_ms
        <= r@[g]@[j].modified_at_ms by {
        law_sorted(groups[g], le);
        assert(r@[g]@ == sorted_by(groups[g], le));
        assert(le(r@[g]@[i], r@[g]@[j]));
    }
    assert forall|g: int, h: int, i: int, j: int|
        0 <= g < h < r@.len() && 0 <= i < r@[g]@.len() && 0 <= j < r@[h]@.len() implies (
    #[trigger] r@[g]@[i]).session_id@ != (#[trigger] r@[h]@[j]).session_id@ by {
        assert(groups[g][0].session_id@ != groups[h][0].session_id@);
    }
    assert forall|session: LocalSessionMeta| #[trigger] sessions@.contains(session) <==> exists|g: int|
        0 <= g < r@.len() && (#[trigger] r@[g])@.contains(session) by {
        assert(in_groups(groups, session) == sessions@.contains(session));
        if in_groups(groups, session) {
            let g = choose|g: int| 0 <= g < groups.len() && (#[trigger] groups[g]).contains(session);
            assert(r@[g]@ == sorted_by(groups[g], le));
            law_sorted_holds(groups[g], le, session);
        }
        if exists|g: int| 0 <= g < r@.len() && (#[trigger] r@[g])@.contains(session) {
            let g = choose|g: int| 0 <= g < r@.len() && (#[trigger] r@[g])@.contains(session);
            assert(r@[g]@ == sorted_by(groups[g], le));
            law_sorted_holds(groups[g], le, session);
            assert(groups[g].contains(session));
        }
    }
}

proof fn lemma_with_id(sessions: Seq<LocalSessionMeta>, id: Option<Seq<char>>, x: LocalSessionMeta)
    ensures
        with_id(sessions, id).contains(x) <==> sessions.contains(x) && (id matches Some(wanted) ==> x.session_id@ == wanted),
        with_id(sessions, id).len() <= sessions.len(),
        id is None ==> with_id(sessions, id) == sessions,
    decreases sessions.len(),
{
    let all = with_id(sessions, id);
    if sessions.len() > 0 {
        let rest = sessions.drop_last();
        let before = with_id(rest, id);
        lemma_with_id(rest, id, x);
        assert(sessions[sessions.len() - 1] == sessions.last());
        if rest.contains(x) {
            let i = choose|i: int| 0 <= i < rest.len() && rest[i] == x;
            assert(sessions[i] == x);
        }
        if sessions.contains(x) && x != sessions.last() {
            let i = choose|i: int| 0 <= i < sessions.len() && sessions[i] == x;
            assert(rest[i] == x);
        }
        if id is None || sessions.last().session_id@ == id->0 {
            assert(all == before.push(sessions.last()));
            assert(all[all.len() - 1] == sessions.last());
            if before.contains(x) {
                let i = choose|i: int| 0 <= i < before.len() && before[i] == x;
                assert(all[i] == x);
            }
            if all.contains(x) && x != sessions.last() {
                let i = choose|i: int| 0 <= i < all.len() && all[i] == x;
                assert(before[i] == x);
            }
            if id is None {
                assert(all =~= sessions);
            }
        }
    }
}

/// A push takes the sessions of the id that is asked for, or all where none is,
/// and of these no more than the limit, the first ones. It is an error where
/// there is none.
pub proof fn law_selection(
    sessions: Vec<LocalSessionMeta>,
    session_id: Option<String>,
    limit: Option<usize>,
    r: Result<Vec<LocalSessionMeta>, String>,
    x: LocalSessionMeta,
)
    requires
        call_ensures(select_sessions, (sessions, &session_id, limit), r),
    ensures
        r matches Ok(chosen) ==> {
            &&& chosen@.len() > 0
            &&& limit matches Some(n) ==> chosen@.len() <= n
            &&& chosen@.contains(x) ==> sessions@.contains(x) && (session_id matches Some(id) ==> x.session_id@ == id@)
            &&& limit is None && sessions@.contains(x) && (session_id matches Some(id) ==> x.session_id@ == id@)
                ==> chosen@.contains(x)
            &&& session_id is None ==> chosen@.is_prefix_of(sessions@)
            &&& session_id is None && limit is None ==> chosen@ == sessions@
        },
        r is Err && limit is None ==> !(sessions@.contains(x) && (session_id matches Some(id) ==> x.session_id@ == id@)),
{
    let matching = with_id(sessions@, opt_text(session_id));
    lemma_with_id(sessions@, opt_text(session_id), x);
    assert(r is Ok == (selected(sessions@, opt_text(session_id), limit).len() > 0));
    match r {
        Ok(chosen) => {
            assert(chosen@ == selected(sessions@, opt_text(session_id), limit));
            if chosen@.contains(x) {
                let i = choose|i: int| 0 <= i < chosen@.len() && chosen@[i] == x;
                assert(matching[i] == x);
            }
            if session_id is None {
                assert(chosen@ =~= sessions@.take(chosen@.len() as int));
            }
        },
        Err(_) => {
            if limit is None && matching.contains(x) {
                let i = choose|i: int| 0 <= i < matching.len() && matching[i] == x;
            }
        },
    }
}

/// Times of upload grow: the next is later than the last and not before now.
pub proof fn law_upload_time(now_ms: u128, last_ms: u128, r: u128)
    requires
        call_ensures(next_upload_time, (now_ms, last_ms), r),
    ensures
        r >= now_ms,
        last_ms < u128::MAX ==> r > last_ms,
        r == now_ms || r == last_ms + 1 || r == last_ms,
        now_ms > last_ms ==> r == now_ms,
{
    assert(r == upload_time(now_ms as int, last_ms as int));
}

} // verus!
