//! The steps of a push and of a pull.

use vstd::prelude::*;

use crate::chunks::{failed_with, MAX_CHUNK_DOWNLOAD_CONCURRENCY};
use crate::cli::{
    flag, number_or_text, opt_number, option_of, option_usize, option_value, usize_option_of,
};
use crate::cloud::{chunk_download_option, transfer_option, DEFAULT_CHUNK_DOWNLOAD_CONCURRENCY};
use crate::digest::{sha256_hex, sha256_text, short_hash, shortened};
use crate::envelope::{
    bytes_or_text, decrypt_payload, envelope_payload, framed, EncryptedEnvelopeHeader, SealedPayload,
    ENVELOPE_FORMAT,
};
use crate::http::{api_error, api_error_text};
use crate::sessions::{LocalSessionMeta, SessionManifest};
use crate::text::{decimal, decimal_text, opt_text, same, texts};

verus! {

/// The versions that a push has met.
pub struct SeenVersions {
    pub keys: Vec<String>,
}

impl View for SeenVersions {
    type V = Set<Seq<char>>;

    open spec fn view(&self) -> Set<Seq<char>> {
        texts(self.keys@).to_set()
    }
}

/// What stands for a version of a session.
pub open spec fn version_key(session_id: Seq<char>, raw_sha256: Seq<char>) -> Seq<char> {
    session_id + "\0"@ + raw_sha256
}

impl SeenVersions {
    pub fn new() -> (r: SeenVersions)
        ensures
            r@ == Set::<Seq<char>>::empty(),
    {
        let r = SeenVersions { keys: Vec::new() };
        assert(texts(r.keys@) =~= Seq::empty());
        assert(r@ =~= Set::<Seq<char>>::empty());
        r
    }

    /// Takes note of a version. Whether it is met for the first time.
    pub fn note(&mut self, session_id: &str, raw_sha256: &str) -> (r: bool)
        ensures
            r == !old(self)@.contains(version_key(session_id@, raw_sha256@)),
            final(self)@ == old(self)@.insert(version_key(session_id@, raw_sha256@)),
    {
        let key = session_id.to_owned().concat("\0").concat(raw_sha256);
        let ghost before = texts(self.keys@);
        for i in 0..self.keys.len()
            invariant
                self@ == old(self)@,
                before == texts(self.keys@),
                key@ == version_key(session_id@, raw_sha256@),
                forall|j: int| 0 <= j < i ==> #[trigger] before[j] != key@,
        {
            if same(self.keys[i].as_str(), key.as_str()) {
                assert(before[i as int] == key@);
                assert(before.to_set().contains(key@));
                assert(self@.insert(key@) =~= self@);
                return false;
            }
        }
        proof {
            assert(!before.contains(key@));
            assert(!before.to_set().contains(key@));
        }
        let ghost text = key@;
        self.keys.push(key);
        proof {
            assert(texts(self.keys@) =~= before.push(text));
            assert forall|k: Seq<char>| self@.contains(k) == old(self)@.insert(text).contains(k) by {
                if old(self)@.contains(k) {
                    let j = choose|j: int| 0 <= j < before.len() && before[j] == k;
                    assert(before.push(text)[j] == k);
                }
                assert(before.push(text)[before.len() as int] == text);
            }
            assert(self@ =~= old(self)@.insert(text));
        }
        true
    }
}

/// What is said when a session is looked at.
pub fn checking_text(session: &LocalSessionMeta) -> (r: String)
    ensures
        r@ == "checking "@ + session.session_id@ + "  "@ + decimal(session.size as nat) + " bytes  "@
            + session.relative_path@,
{
    "checking ".to_owned().concat(session.session_id.as_str()).concat("  ").concat(
        decimal_text(session.size as u128).as_str(),
    ).concat(" bytes  ").concat(session.relative_path.as_str())
}

/// What follows in the push of a session.
pub enum PushStep {
    /// To say the text and skip the session.
    Skip(String),
    /// To ask for the latest version in the cloud.
    AskRemote,
    /// To upload the version.
    Upload,
}

/// What follows once the version of a session is noted. A version that was
/// met already is skipped, and one that is forced is not asked for.
pub fn after_version_noted(session_id: &str, raw_sha256: &str, first_time: bool, force: bool) -> (r: PushStep)
    ensures
        match r {
            PushStep::Skip(text) => !first_time && text@ == "skipped "@ + session_id@ + ": duplicate local version "@
                + raw_sha256@,
            PushStep::AskRemote => first_time && !force,
            PushStep::Upload => first_time && force,
        },
{
    if !first_time {
        PushStep::Skip("skipped ".to_owned().concat(session_id).concat(": duplicate local version ").concat(raw_sha256))
    } else if force {
        PushStep::Upload
    } else {
        PushStep::AskRemote
    }
}

/// What is said before an upload.
pub fn uploading_text(session_id: &str, raw_sha256: &str, encrypted_size: usize) -> (r: String)
    ensures
        r@ == "uploading "@ + session_id@ + ": raw "@ + raw_sha256@ + ", encrypted "@ + decimal(encrypted_size as nat)
            + " bytes"@,
{
    "uploading ".to_owned().concat(session_id).concat(": raw ").concat(raw_sha256).concat(", encrypted ").concat(
        decimal_text(encrypted_size as u128).as_str(),
    ).concat(" bytes")
}

/// What the service answers about a version.
pub struct ApiManifestResponse {
    pub ok: bool,
    pub error: Option<String>,
    pub message: Option<String>,
    pub manifest: Option<SessionManifest>,
    pub skipped: Option<bool>,
}

/// Whether an answer of that status says that there is no version.
pub fn says_no_version(status: u16) -> (r: bool)
    ensures
        r == (status == 404),
{
    status == 404
}

/// The latest version that an answer names, if any.
pub fn latest_version_optional(result: ApiManifestResponse) -> (r: Result<Option<SessionManifest>, String>)
    ensures
        match r {
            Ok(manifest) => result.ok && manifest == result.manifest,
            Err(error) => !result.ok && error@ == api_error_text(
                "latest"@,
                opt_text(result.error),
                opt_text(result.message),
            ),
        },
{
    if !result.ok {
        return Err(api_error("latest", &result.error, &result.message));
    }
    Ok(result.manifest)
}

/// The version that an answer names, which is to be restored.
pub fn latest_version_required(result: ApiManifestResponse, session_id: &str) -> (r: Result<SessionManifest, String>)
    ensures
        match r {
            Ok(manifest) => result.ok && result.manifest == Some(manifest),
            Err(error) => error@ == (if !result.ok {
                api_error_text("latest"@, opt_text(result.error), opt_text(result.message))
            } else {
                "no cloud manifest found for session "@ + session_id@
            }),
        },
        r is Ok <==> result.ok && result.manifest is Some,
{
    if !result.ok {
        return Err(api_error("latest", &result.error, &result.message));
    }
    match result.manifest {
        Some(manifest) => Ok(manifest),
        None => Err("no cloud manifest found for session ".to_owned().concat(session_id)),
    }
}

/// Whether the latest version in the cloud is the one at hand.
pub open spec fn is_uploaded(remote: Result<Option<SessionManifest>, String>, raw_sha256: Seq<char>) -> bool {
    remote matches Ok(Some(manifest)) && manifest.raw_sha256@ == raw_sha256
}

/// What follows from the latest version in the cloud: the version at hand is
/// skipped, if it is that one, and uploaded otherwise. It is an error not to
/// know.
pub fn after_remote_check(session_id: &str, raw_sha256: &str, remote: &Result<Option<SessionManifest>, String>) -> (r:
    Result<PushStep, String>)
    ensures
        match r {
            Ok(PushStep::Skip(text)) => is_uploaded(*remote, raw_sha256@) && text@ == "skipped "@ + session_id@
                + ": already uploaded "@ + raw_sha256@,
            Ok(PushStep::Upload) => *remote is Ok && !is_uploaded(*remote, raw_sha256@),
            Ok(PushStep::AskRemote) => false,
            Err(error) => *remote is Err && error@ == "cannot verify remote state for "@ + session_id@
                + " before upload: "@ + remote->Err_0@
                + "\nRe-run with --force to upload without the preflight duplicate check."@,
        },
{
    match remote {
        Ok(Some(manifest)) => if same(manifest.raw_sha256.as_str(), raw_sha256) {
            Ok(PushStep::Skip("skipped ".to_owned().concat(session_id).concat(": already uploaded ").concat(raw_sha256)))
        } else {
            Ok(PushStep::Upload)
        },
        Ok(None) => Ok(PushStep::Upload),
        Err(error) => Err(
            "cannot verify remote state for ".to_owned().concat(session_id).concat(" before upload: ").concat(
                error.as_str(),
            ).concat("\nRe-run with --force to upload without the preflight duplicate check."),
        ),
    }
}

/// A push is idempotent: a version whose manifest is the latest in the cloud
/// is not uploaded again.
pub proof fn law_push_is_idempotent(
    manifest: SessionManifest,
    session: LocalSessionMeta,
    raw_sha256: Seq<char>,
    encrypted_sha256: Seq<char>,
    encrypted_size: int,
    uploaded_at_ms: u128,
    device_name: Seq<char>,
)
    requires
        is_version_of(
            manifest,
            session,
            raw_sha256,
            encrypted_sha256,
            encrypted_size,
            uploaded_at_ms,
            device_name,
        ),
    ensures
        is_uploaded(Ok(Some(manifest)), raw_sha256),
{
}

/// Whether a manifest is that of a session, with a raw form and an encrypted
/// one.
pub open spec fn is_version_of(
    manifest: SessionManifest,
    session: LocalSessionMeta,
    raw_sha256: Seq<char>,
    encrypted_sha256: Seq<char>,
    encrypted_size: int,
    uploaded_at_ms: u128,
    device_name: Seq<char>,
) -> bool {
    &&& manifest.format@ == ENVELOPE_FORMAT@
    &&& manifest.session_id@ == session.session_id@
    &&& manifest.relative_path@ == session.relative_path@
    &&& manifest.source_dir@ == session.source_dir@
    &&& opt_text(manifest.title) == opt_text(session.title)
    &&& opt_text(manifest.cwd) == opt_text(session.cwd)
    &&& opt_text(manifest.provider_name) == opt_text(session.provider_name)
    &&& opt_text(manifest.model) == opt_text(session.model)
    &&& manifest.raw_sha256@ == raw_sha256
    &&& manifest.encrypted_sha256@ == encrypted_sha256
    &&& manifest.encrypted_size == encrypted_size
    &&& manifest.blob_key@ == ""@
    &&& manifest.uploaded_at_ms == uploaded_at_ms
    &&& manifest.device_name@ == device_name
}

fn copied(text: &Option<String>) -> (r: Option<String>)
    ensures
        opt_text(r) == opt_text(*text),
{
    match text {
        Some(text) => Some(text.clone()),
        None => None,
    }
}

/// The manifest of a version that is about to be uploaded.
pub fn version_manifest(
    session: &LocalSessionMeta,
    raw_sha256: &str,
    encrypted: &[u8],
    uploaded_at_ms: u128,
    device_name: &str,
) -> (r: SessionManifest)
    ensures
        is_version_of(
            r,
            *session,
            raw_sha256@,
            sha256_text(encrypted@),
            encrypted@.len() as int,
            uploaded_at_ms,
            device_name@,
        ),
{
    SessionManifest {
        format: ENVELOPE_FORMAT.to_owned(),
        session_id: session.session_id.clone(),
        relative_path: session.relative_path.clone(),
        source_dir: session.source_dir.clone(),
        title: copied(&session.title),
        cwd: copied(&session.cwd),
        provider_name: copied(&session.provider_name),
        model: copied(&session.model),
        raw_sha256: raw_sha256.to_owned(),
        encrypted_sha256: sha256_hex(encrypted),
        encrypted_size: encrypted.len(),
        blob_key: "".to_owned(),
        uploaded_at_ms,
        device_name: device_name.to_owned(),
    }
}

/// How the push of a session ended.
pub enum PushSessionOutcome {
    Uploaded,
    Skipped,
}

/// How an upload ended, and what is said of it.
pub fn push_outcome(result: &ApiManifestResponse, session_id: &str, raw_sha256: &str) -> (r: Result<
    (PushSessionOutcome, String),
    String,
>)
    ensures
        match r {
            Ok((PushSessionOutcome::Skipped, text)) => result.ok && result.skipped == Some(true) && text@ == "skipped "@
                + session_id@ + ": already existed on API "@ + raw_sha256@,
            Ok((PushSessionOutcome::Uploaded, text)) => result.ok && result.skipped != Some(true) && text@
                == "uploaded "@ + session_id@ + " -> API "@ + raw_sha256@,
            Err(error) => !result.ok && error@ == api_error_text(
                "push"@,
                opt_text(result.error),
                opt_text(result.message),
            ),
        },
{
    if !result.ok {
        return Err(api_error("push", &result.error, &result.message));
    }
    let skipped = match result.skipped {
        Some(skipped) => skipped,
        None => false,
    };
    if skipped {
        Ok(
            (
                PushSessionOutcome::Skipped,
                "skipped ".to_owned().concat(session_id).concat(": already existed on API ").concat(raw_sha256),
            ),
        )
    } else {
        Ok(
            (
                PushSessionOutcome::Uploaded,
                "uploaded ".to_owned().concat(session_id).concat(" -> API ").concat(raw_sha256),
            ),
        )
    }
}

/// The time that an upload is given: now, but after that of the last one.
pub open spec fn upload_time(now_ms: int, last_ms: int) -> int {
    let after = if last_ms < u128::MAX {
        last_ms + 1
    } else {
        last_ms
    };
    if now_ms > after {
        now_ms
    } else {
        after
    }
}

/// The time that an upload is given: now, but after that of the last one.
pub fn next_upload_time(now_ms: u128, last_ms: u128) -> (r: u128)
    ensures
        r == upload_time(now_ms as int, last_ms as int),
{
    let after: u128 = if last_ms < u128::MAX {
        last_ms + 1
    } else {
        last_ms
    };
    if now_ms > after {
        now_ms
    } else {
        after
    }
}

/// The uploads of a session have times that grow, so that the latest version
/// is the one uploaded last.
pub proof fn law_upload_times_grow(now_ms: int, last_ms: int)
    requires
        last_ms < u128::MAX,
    ensures
        upload_time(now_ms, last_ms) > last_ms,
        upload_time(now_ms, last_ms) >= now_ms,
{
}

/// How many groups of sessions are pushed at a time.
pub fn session_uploads(wanted: usize, groups: usize) -> (r: usize)
    ensures
        r == if wanted < groups {
            wanted
        } else {
            groups
        },
{
    if wanted < groups {
        wanted
    } else {
        groups
    }
}

pub fn session_uploads_text(count: usize) -> (r: String)
    ensures
        r@ == "session upload concurrency: "@ + decimal(count as nat) + " parallel session group(s)"@,
{
    "session upload concurrency: ".to_owned().concat(decimal_text(count as u128).as_str()).concat(
        " parallel session group(s)",
    )
}

/// How many versions a push has uploaded and skipped.
pub struct PushTally {
    pub uploaded: usize,
    pub skipped: usize,
}

impl PushTally {
    pub fn new() -> (r: PushTally)
        ensures
            r == (PushTally { uploaded: 0, skipped: 0 }),
    {
        PushTally { uploaded: 0, skipped: 0 }
    }

    /// One more version came to its end.
    pub fn count(&mut self, outcome: &PushSessionOutcome)
        requires
            match *outcome {
                PushSessionOutcome::Uploaded => old(self).uploaded,
                PushSessionOutcome::Skipped => old(self).skipped,
            } < usize::MAX,
        ensures
            *final(self) == (match *outcome {
                PushSessionOutcome::Uploaded => PushTally { uploaded: (old(self).uploaded + 1) as usize, ..*old(self) },
                PushSessionOutcome::Skipped => PushTally { skipped: (old(self).skipped + 1) as usize, ..*old(self) },
            }),
    {
        match outcome {
            PushSessionOutcome::Uploaded => {
                self.uploaded = self.uploaded + 1;
            },
            PushSessionOutcome::Skipped => {
                self.skipped = self.skipped + 1;
            },
        }
    }

    /// Those of a group of sessions are counted too.
    pub fn count_group(&mut self, group: &PushTally)
        requires
            old(self).uploaded + group.uploaded <= usize::MAX,
            old(self).skipped + group.skipped <= usize::MAX,
        ensures
            final(self).uploaded == old(self).uploaded + group.uploaded,
            final(self).skipped == old(self).skipped + group.skipped,
    {
        self.uploaded = self.uploaded + group.uploaded;
        self.skipped = self.skipped + group.skipped;
    }

    /// What a push shows at its end.
    pub fn text(&self) -> (r: String)
        ensures
            r@ == "cloud push ok: uploaded "@ + decimal(self.uploaded as nat) + ", skipped "@ + decimal(
                self.skipped as nat,
            ),
    {
        "cloud push ok: uploaded ".to_owned().concat(decimal_text(self.uploaded as u128).as_str()).concat(
            ", skipped ",
        ).concat(decimal_text(self.skipped as u128).as_str())
    }
}

/// What a pull is to do.
pub struct PullOptions {
    pub codex_home: Option<String>,
    pub session_id: Option<String>,
    pub force: bool,
    pub dry_run: bool,
    pub limit: Option<usize>,
    pub download_concurrency: usize,
}

/// Why a pull cannot be made with the arguments.
pub open spec fn pull_fault(args: Seq<Seq<char>>, env: Option<Seq<char>>) -> Option<Seq<char>> {
    let limit = usize_option_of(args, "--limit"@);
    let chunks = chunk_download_option(args, env);
    if args.contains("--all"@) == (option_of(args, "--session-id"@) is Some) {
        Some("cloud pull requires exactly one of --all or --session-id <id>"@)
    } else if limit is Err {
        Some(limit->Err_0)
    } else if chunks is Err {
        Some(chunks->Err_0)
    } else {
        None
    }
}

/// What a pull is to do. It restores one session, or else all.
pub fn pull_options(args: &[String], env: Option<String>) -> (r: Result<PullOptions, String>)
    ensures
        match r {
            Ok(options) => {
                let args = texts(args@);
                &&& pull_fault(args, opt_text(env)) is None
                &&& opt_text(options.codex_home) == option_of(args, "--codex-home"@)
                &&& opt_text(options.session_id) == option_of(args, "--session-id"@)
                &&& (options.session_id is None) == args.contains("--all"@)
                &&& options.force == args.contains("--force"@)
                &&& options.dry_run == args.contains("--dry-run"@)
                &&& opt_number(Ok(options.limit)) == usize_option_of(args, "--limit"@)
                &&& number_or_text(Ok(options.download_concurrency)) == chunk_download_option(args, opt_text(env))
            },
            Err(error) => pull_fault(texts(args@), opt_text(env)) == Some(error@),
        },
{
    let codex_home = option_value(args, "--codex-home");
    let session_id = option_value(args, "--session-id");
    let all = flag(args, "--all");
    if all == session_id.is_some() {
        return Err("cloud pull requires exactly one of --all or --session-id <id>".to_owned());
    }
    let limit = match option_usize(args, "--limit") {
        Ok(limit) => limit,
        Err(error) => {
            return Err(error);
        },
    };
    let download_concurrency: usize = match transfer_option(
        args,
        "--download-concurrency",
        "--download-threads",
        "CODEX_TOOLS_CHUNK_DOWNLOAD_CONCURRENCY",
        env,
        DEFAULT_CHUNK_DOWNLOAD_CONCURRENCY,
        MAX_CHUNK_DOWNLOAD_CONCURRENCY,
    ) {
        Ok(n) => n,
        Err(error) => {
            return Err(error);
        },
    };
    Ok(
        PullOptions {
            codex_home,
            session_id,
            force: flag(args, "--force"),
            dry_run: flag(args, "--dry-run"),
            limit,
            download_concurrency,
        },
    )
}

/// What follows in the restoring of a version.
pub enum RestoreStep {
    /// To say the text and skip the version.
    Skip(String),
    /// To download the version.
    Download,
}

/// What follows from a file that stands where a session is restored to, given
/// its hash. A session that is restored already is skipped, and another file
/// is not overwritten unless that is forced.
pub fn before_restore(existing_sha256: &Option<String>, raw_sha256: &str, force: bool, path: &str) -> (r: Result<
    RestoreStep,
    String,
>)
    ensures
        match r {
            Ok(RestoreStep::Download) => force || *existing_sha256 is None,
            Ok(RestoreStep::Skip(text)) => !force && opt_text(*existing_sha256) == Some(raw_sha256@) && text@
                == "already restored: "@ + path@,
            Err(error) => !force && *existing_sha256 is Some && existing_sha256->0@ != raw_sha256@ && error@ == path@
                + " already exists with different content. Use --force to overwrite."@,
        },
{
    match existing_sha256 {
        Some(sha256) => if force {
            Ok(RestoreStep::Download)
        } else if same(sha256.as_str(), raw_sha256) {
            Ok(RestoreStep::Skip("already restored: ".to_owned().concat(path)))
        } else {
            Err(path.to_owned().concat(" already exists with different content. Use --force to overwrite."))
        },
        None => Ok(RestoreStep::Download),
    }
}

/// Why bytes that came are not those of a version, given their hash.
pub open spec fn blob_fault(sha256: Seq<char>, manifest: SessionManifest) -> Option<Seq<char>> {
    if sha256 != manifest.encrypted_sha256@ {
        Some("downloaded encrypted blob hash does not match manifest"@)
    } else {
        None
    }
}

/// Whether bytes of that hash are those of the version.
pub fn check_blob_hash(sha256: &str, manifest: &SessionManifest) -> (r: Result<(), String>)
    ensures
        failed_with(r) == blob_fault(sha256@, *manifest),
{
    if same(sha256, manifest.encrypted_sha256.as_str()) {
        Ok(())
    } else {
        Err("downloaded encrypted blob hash does not match manifest".to_owned())
    }
}

/// Whether bytes that came are those of the version.
pub fn check_blob(encrypted: &[u8], manifest: &SessionManifest) -> (r: Result<(), String>)
    ensures
        failed_with(r) == blob_fault(sha256_text(encrypted@), *manifest),
{
    let sha256 = sha256_hex(encrypted);
    check_blob_hash(sha256.as_str(), manifest)
}

/// The payload of a version, if its hash is the one that the manifest names.
pub open spec fn restored_payload(payload: Result<Seq<u8>, Seq<char>>, sha256: Seq<char>, manifest: SessionManifest) -> Result<
    Seq<u8>,
    Seq<char>,
> {
    match payload {
        Ok(raw) => if sha256 == manifest.raw_sha256@ {
            Ok(raw)
        } else {
            Err("decrypted rollout hash does not match manifest"@)
        },
        Err(error) => Err(error),
    }
}

/// The payload of a version, if its hash is the one that the manifest names.
pub fn check_restored(raw: Vec<u8>, sha256: &str, manifest: &SessionManifest) -> (r: Result<Vec<u8>, String>)
    ensures
        bytes_or_text(r) == restored_payload(Ok(raw@), sha256@, *manifest),
{
    if same(sha256, manifest.raw_sha256.as_str()) {
        Ok(raw)
    } else {
        Err("decrypted rollout hash does not match manifest".to_owned())
    }
}

/// What an envelope of a version is restored to.
pub open spec fn restored_from(
    envelope: Seq<u8>,
    header: EncryptedEnvelopeHeader,
    manifest: SessionManifest,
    sync_key: Seq<char>,
) -> Result<Seq<u8>, Seq<char>> {
    let payload = envelope_payload(envelope, header, sync_key);
    restored_payload(payload, sha256_text(payload->Ok_0), manifest)
}

/// What an envelope of a version is restored to. The header is the one that
/// its first line holds.
pub fn restore_payload(
    envelope: &[u8],
    header: &EncryptedEnvelopeHeader,
    manifest: &SessionManifest,
    sync_key: &str,
) -> (r: Result<Vec<u8>, String>)
    ensures
        bytes_or_text(r) == restored_from(envelope@, *header, *manifest, sync_key@),
{
    match decrypt_payload(envelope, header, sync_key) {
        Ok(raw) => {
            let sha256 = sha256_hex(raw.as_slice());
            check_restored(raw, sha256.as_str(), manifest)
        },
        Err(error) => Err(error),
    }
}

/// A pull restores what a push uploaded: the bytes that were uploaded pass the
/// check against the manifest that went with them, and they are restored to
/// the bytes of the session. What `encrypt_payload` promises of the sealed
/// payload is all that is asked.
pub proof fn law_pull_restores_push(
    raw: Seq<u8>,
    sealed: SealedPayload,
    line: Seq<u8>,
    sync_key: Seq<char>,
    session: LocalSessionMeta,
    manifest: SessionManifest,
    uploaded_at_ms: u128,
    device_name: Seq<char>,
)
    requires
        envelope_payload(framed(line, sealed.ciphertext@), sealed.header, sync_key) == Ok::<Seq<u8>, Seq<char>>(raw),
        is_version_of(
            manifest,
            session,
            sha256_text(raw),
            sha256_text(framed(line, sealed.ciphertext@)),
            framed(line, sealed.ciphertext@).len() as int,
            uploaded_at_ms,
            device_name,
        ),
    ensures
        blob_fault(sha256_text(framed(line, sealed.ciphertext@)), manifest) is None,
        restored_from(framed(line, sealed.ciphertext@), sealed.header, manifest, sync_key) == Ok::<
            Seq<u8>,
            Seq<char>,
        >(raw),
        manifest.relative_path@ == session.relative_path@,
        manifest.session_id@ == session.session_id@,
{
}

/// How the restoring of a version ended.
pub enum RestoreOutcome {
    Restored,
    Skipped,
    DryRun,
}

/// How the restoring of a version ends, and what is said of it.
pub enum RestoreEnd {
    /// The version is not written.
    DryRun(String),
    /// The version is written.
    Write(String),
}

/// How the restoring of a version ends.
pub fn finish_restore(dry_run: bool, size: usize, manifest: &SessionManifest, path: &str) -> (r: RestoreEnd)
    ensures
        match r {
            RestoreEnd::DryRun(text) => dry_run && text@ == "dry run: would restore "@ + decimal(size as nat)
                + " bytes to "@ + path@,
            RestoreEnd::Write(text) => !dry_run && text@ == "restored "@ + manifest.session_id@ + " -> "@ + path@
                + "\nverified local decrypt/decompress: raw "@ + shortened(manifest.raw_sha256@),
        },
{
    if dry_run {
        RestoreEnd::DryRun(
            "dry run: would restore ".to_owned().concat(decimal_text(size as u128).as_str()).concat(" bytes to ").concat(
                path,
            ),
        )
    } else {
        RestoreEnd::Write(
            "restored ".to_owned().concat(manifest.session_id.as_str()).concat(" -> ").concat(path).concat(
                "\nverified local decrypt/decompress: raw ",
            ).concat(short_hash(manifest.raw_sha256.as_str()).as_str()),
        )
    }
}

/// How many versions a pull has restored, skipped and planned.
pub struct PullTally {
    pub restored: usize,
    pub skipped: usize,
    pub planned: usize,
}

impl PullTally {
    pub fn new() -> (r: PullTally)
        ensures
            r == (PullTally { restored: 0, skipped: 0, planned: 0 }),
    {
        PullTally { restored: 0, skipped: 0, planned: 0 }
    }

    /// One more version came to its end.
    pub fn count(&mut self, outcome: &RestoreOutcome)
        requires
            match *outcome {
                RestoreOutcome::Restored => old(self).restored,
                RestoreOutcome::Skipped => old(self).skipped,
                RestoreOutcome::DryRun => old(self).planned,
            } < usize::MAX,
        ensures
            *final(self) == (match *outcome {
                RestoreOutcome::Restored => PullTally { restored: (old(self).restored + 1) as usize, ..*old(self) },
                RestoreOutcome::Skipped => PullTally { skipped: (old(self).skipped + 1) as usize, ..*old(self) },
                RestoreOutcome::DryRun => PullTally { planned: (old(self).planned + 1) as usize, ..*old(self) },
            }),
    {
        match outcome {
            RestoreOutcome::Restored => {
                self.restored = self.restored + 1;
            },
            RestoreOutcome::Skipped => {
                self.skipped = self.skipped + 1;
            },
            RestoreOutcome::DryRun => {
                self.planned = self.planned + 1;
            },
        }
    }

    /// What a pull shows at its end.
    pub fn text(&self, dry_run: bool) -> (r: String)
        ensures
            r@ == (if dry_run {
                "cloud pull dry run ok: planned "@ + decimal(self.planned as nat)
            } else {
                "cloud pull ok: restored "@ + decimal(self.restored as nat)
            }) + ", skipped "@ + decimal(self.skipped as nat)
                + "\nrun provider metadata sync after restore if this machine uses a different provider name"@,
    {
        let start = if dry_run {
            "cloud pull dry run ok: planned ".to_owned().concat(decimal_text(self.planned as u128).as_str())
        } else {
            "cloud pull ok: restored ".to_owned().concat(decimal_text(self.restored as u128).as_str())
        };
        start.concat(", skipped ").concat(decimal_text(self.skipped as u128).as_str()).concat(
            "\nrun provider metadata sync after restore if this machine uses a different provider name",
        )
    }
}

} // verus!
