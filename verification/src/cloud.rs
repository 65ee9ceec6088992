//! Sessions in the cloud: the account, what is uploaded, and what is restored.

use vstd::prelude::*;
use vstd::utf8::*;

use crate::chunks::{failed_with, MAX_CHUNK_DOWNLOAD_CONCURRENCY, MAX_CHUNK_UPLOAD_CONCURRENCY};
use crate::cli::{
    concurrency_of, concurrency_option, concurrency_value, either, filled_setting, flag, number_or_text,
    opt_number, option_of, option_usize, option_value, setting_of, strs, usize_option_of,
};
use crate::envelope::{derive_sync_key_proof, sync_key_proof};
use crate::http::{api_error, api_error_text};
use crate::json::{json_text_or_null, set_field, text_or_null, Json, JsonModel};
use crate::sessions::LocalSessionMeta;
use crate::text::{
    blank, is_blank, joined, only, opt_text, same, texts, trim_end_char, trim_end_where,
};

verus! {

pub const DEFAULT_API_URL: &'static str = "https://codex-tools-sync-api.821099891.workers.dev";

pub const DEFAULT_INVITE_CODE: &'static str = "sub2api.simplaj.top";

pub const DEFAULT_CHUNK_UPLOAD_CONCURRENCY: usize = 4;

pub const DEFAULT_CHUNK_DOWNLOAD_CONCURRENCY: usize = 4;

pub const DEFAULT_SESSION_UPLOAD_CONCURRENCY: usize = 2;

pub const MAX_SESSION_UPLOAD_CONCURRENCY: usize = 8;

/// What is saved of the account.
pub struct CloudConfig {
    pub api_url: Option<String>,
    pub device_token: Option<String>,
    pub sync_key: Option<String>,
    pub email: Option<String>,
    pub user_id: Option<String>,
    pub device_id: Option<String>,
    pub device_name: Option<String>,
    pub saved_at_ms: Option<u128>,
}

impl CloudConfig {
    /// Nothing saved.
    pub fn empty() -> (r: CloudConfig)
        ensures
            r == (CloudConfig {
                api_url: None,
                device_token: None,
                sync_key: None,
                email: None,
                user_id: None,
                device_id: None,
                device_name: None,
                saved_at_ms: None,
            }),
    {
        CloudConfig {
            api_url: None,
            device_token: None,
            sync_key: None,
            email: None,
            user_id: None,
            device_id: None,
            device_name: None,
            saved_at_ms: None,
        }
    }
}

/// The settings that the environment gives, each as it stands there.
pub struct CloudEnvironment {
    pub api_url: Option<String>,
    pub device_token: Option<String>,
    pub sync_key: Option<String>,
    pub email: Option<String>,
}

/// The settings that hold.
pub struct CloudSettings {
    pub api_url: String,
    pub device_token: Option<String>,
    pub sync_key: Option<String>,
    pub email: Option<String>,
}

/// The setting of the environment, or else the saved one.
pub open spec fn holds_of(env: Option<String>, saved: Option<String>) -> Option<Seq<char>> {
    match setting_of(opt_text(env)) {
        Some(text) => Some(text),
        None => opt_text(saved),
    }
}

/// The setting of the environment, or else the saved one.
pub fn held_setting(env: &Option<String>, saved: &Option<String>) -> (r: Option<String>)
    ensures
        opt_text(r) == holds_of(*env, *saved),
{
    match filled_setting(env) {
        Some(text) => Some(text),
        None => match saved {
            Some(text) => Some(text.clone()),
            None => None,
        },
    }
}

pub open spec fn or_text(text: Option<Seq<char>>, other: Seq<char>) -> Seq<char> {
    match text {
        Some(text) => text,
        None => other,
    }
}

fn or_else_text(text: &Option<String>, other: &str) -> (r: String)
    ensures
        r@ == or_text(opt_text(*text), other@),
{
    match text {
        Some(text) => text.clone(),
        None => other.to_owned(),
    }
}

/// The settings that hold: those of the environment, or else the saved ones.
pub fn cloud_settings(config: &CloudConfig, env: &CloudEnvironment) -> (r: CloudSettings)
    ensures
        r.api_url@ == or_text(holds_of(env.api_url, config.api_url), DEFAULT_API_URL@),
        opt_text(r.device_token) == holds_of(env.device_token, config.device_token),
        opt_text(r.sync_key) == holds_of(env.sync_key, config.sync_key),
        opt_text(r.email) == holds_of(env.email, config.email),
{
    let api_url = held_setting(&env.api_url, &config.api_url);
    CloudSettings {
        api_url: or_else_text(&api_url, DEFAULT_API_URL),
        device_token: held_setting(&env.device_token, &config.device_token),
        sync_key: held_setting(&env.sync_key, &config.sync_key),
        email: held_setting(&env.email, &config.email),
    }
}

/// The address of the service, without slashes at its end.
pub fn service_root(api_url: &str) -> (r: String)
    ensures
        r@ == trim_end_where(api_url@, only('/')),
{
    trim_end_char(api_url, '/').to_owned()
}

/// A text, or the text of an error.
pub open spec fn text_or_error(r: Result<String, String>) -> Result<Seq<char>, Seq<char>> {
    match r {
        Ok(text) => Ok(text@),
        Err(error) => Err(error@),
    }
}

pub open spec fn required(text: Option<Seq<char>>, error: Seq<char>) -> Result<Seq<char>, Seq<char>> {
    match text {
        Some(text) => Ok(text),
        None => Err(error),
    }
}

fn require(text: &Option<String>, error: &str) -> (r: Result<String, String>)
    ensures
        text_or_error(r) == required(opt_text(*text), error@),
{
    match text {
        Some(text) => Ok(text.clone()),
        None => Err(error.to_owned()),
    }
}

impl CloudSettings {
    pub fn required_device_token(&self) -> (r: Result<String, String>)
        ensures
            text_or_error(r) == required(
                opt_text(self.device_token),
                "not logged in. Run: codex-tools cloud login"@,
            ),
    {
        require(&self.device_token, "not logged in. Run: codex-tools cloud login")
    }

    pub fn required_sync_key(&self) -> (r: Result<String, String>)
        ensures
            text_or_error(r) == required(opt_text(self.sync_key), "missing sync key. Run: codex-tools cloud login"@),
    {
        require(&self.sync_key, "missing sync key. Run: codex-tools cloud login")
    }

    pub fn required_email(&self) -> (r: Result<String, String>)
        ensures
            text_or_error(r) == required(opt_text(self.email), "missing cloud email. Run: codex-tools cloud login"@),
    {
        require(&self.email, "missing cloud email. Run: codex-tools cloud login")
    }

    /// The device token and the proof of the sync key, which every request
    /// carries.
    pub fn required_auth_headers(&self) -> (r: Result<(String, String), String>)
        ensures
            match r {
                Ok(headers) => opt_text(self.device_token) == Some(headers.0@) && self.email is Some
                    && self.sync_key is Some && headers.1@ == sync_key_proof(self.email->0@, self.sync_key->0@),
                Err(error) => error@ == if self.device_token is None {
                    "not logged in. Run: codex-tools cloud login"@
                } else if self.email is None {
                    "missing cloud email. Run: codex-tools cloud login"@
                } else {
                    "missing sync key. Run: codex-tools cloud login"@
                },
            },
            r is Ok <==> self.device_token is Some && self.email is Some && self.sync_key is Some,
    {
        let token = match self.required_device_token() {
            Ok(token) => token,
            Err(error) => {
                return Err(error);
            },
        };
        let email = match self.required_email() {
            Ok(email) => email,
            Err(error) => {
                return Err(error);
            },
        };
        let sync_key = match self.required_sync_key() {
            Ok(sync_key) => sync_key,
            Err(error) => {
                return Err(error);
            },
        };
        Ok((token, derive_sync_key_proof(email.as_str(), sync_key.as_str())))
    }
}

/// What is shown of a token.
pub open spec fn masked_token(token: Seq<char>) -> Seq<char> {
    let bytes = encode_utf8(token);
    if bytes.len() <= 12 {
        "***"@
    } else {
        decode_utf8(bytes.take(6)) + "..."@ + decode_utf8(bytes.skip(bytes.len() - 4))
    }
}

/// Whether the part of a token that is shown ends and begins between
/// characters.
pub open spec fn can_mask(token: Seq<char>) -> bool {
    let bytes = encode_utf8(token);
    bytes.len() > 12 ==> is_char_boundary(bytes, 6) && is_char_boundary(bytes, bytes.len() - 4)
}

/// What is shown of a token: its first six and its last four bytes, or nothing
/// of a short one.
pub fn mask_token(token: &str) -> (r: String)
    requires
        can_mask(token@),
    ensures
        r@ == masked_token(token@),
{
    let len: usize = token.as_bytes().len();
    if len <= 12 {
        return "***".to_owned();
    }
    let head = token.split_at(6).0;
    let tail = token.split_at(len - 4).1;
    proof {
        encode_utf8_decode_utf8(head@);
        encode_utf8_decode_utf8(tail@);
        let bytes = encode_utf8(token@);
        assert(bytes.subrange(0, 6) =~= bytes.take(6));
        assert(bytes.subrange(bytes.len() - 4, bytes.len() as int) =~= bytes.skip(bytes.len() - 4));
    }
    head.to_owned().concat("...").concat(tail)
}

/// What `cloud status` shows.
pub open spec fn cloud_status_lines(config: CloudConfig, settings: CloudSettings, config_path: Seq<char>) -> Seq<
    Seq<char>,
> {
    seq![
        "api: "@ + settings.api_url@,
        "config: "@ + config_path,
        "email: "@ + or_text(opt_text(settings.email), "not saved"@),
        "device: "@ + or_text(opt_text(config.device_id), "not saved"@),
        "device token: "@ + (match settings.device_token {
            Some(token) => masked_token(token@),
            None => "missing"@,
        }),
        "sync key: "@ + (if settings.sync_key is Some {
            "saved"@
        } else {
            "missing"@
        }),
        "auth: "@ + (if settings.device_token is Some && settings.sync_key is Some && settings.email is Some {
            "ready (device token + sync key proof)"@
        } else {
            "incomplete; run `codex-tools cloud login` again"@
        }),
    ]
}

/// What `cloud status` shows, given the settings that hold.
pub fn cloud_status(config: &CloudConfig, settings: &CloudSettings, config_path: &str) -> (r: Vec<String>)
    requires
        settings.device_token is Some ==> can_mask(settings.device_token->0@),
    ensures
        texts(r@) == cloud_status_lines(*config, *settings, config_path@),
{
    let mut lines: Vec<String> = Vec::new();
    lines.push("api: ".to_owned().concat(settings.api_url.as_str()));
    lines.push("config: ".to_owned().concat(config_path));
    lines.push("email: ".to_owned().concat(or_else_text(&settings.email, "not saved").as_str()));
    lines.push("device: ".to_owned().concat(or_else_text(&config.device_id, "not saved").as_str()));
    let token = match &settings.device_token {
        Some(token) => mask_token(token.as_str()),
        None => "missing".to_owned(),
    };
    lines.push("device token: ".to_owned().concat(token.as_str()));
    let sync_key = if settings.sync_key.is_some() {
        "saved"
    } else {
        "missing"
    };
    lines.push("sync key: ".to_owned().concat(sync_key));
    let auth = if settings.device_token.is_some() && settings.sync_key.is_some() && settings.email.is_some() {
        "ready (device token + sync key proof)"
    } else {
        "incomplete; run `codex-tools cloud login` again"
    };
    lines.push("auth: ".to_owned().concat(auth));
    assert(texts(lines@) =~= cloud_status_lines(*config, *settings, config_path@));
    lines
}

/// The address of the service that a login goes to.
pub fn login_api_url(option: &Option<String>, env: &Option<String>, config: &CloudConfig) -> (r: String)
    ensures
        r@ == trim_end_where(
            or_text(either(opt_text(*option), holds_of(*env, config.api_url)), DEFAULT_API_URL@),
            only('/'),
        ),
{
    let api_url = match option {
        Some(api_url) => api_url.clone(),
        None => {
            let held = held_setting(env, &config.api_url);
            or_else_text(&held, DEFAULT_API_URL)
        },
    };
    service_root(api_url.as_str())
}

/// Whether a login can be made with the sync key.
pub fn check_login_key(sync_key: &str) -> (r: Result<(), String>)
    ensures
        failed_with(r) == (if is_blank(sync_key@) {
            Some("cloud login requires a non-empty sync key"@)
        } else {
            None
        }),
{
    if blank(sync_key) {
        Err("cloud login requires a non-empty sync key".to_owned())
    } else {
        Ok(())
    }
}

/// What a device sends to be registered.
pub struct RegistrationRequest {
    pub email: String,
    pub device_name: String,
    pub platform: String,
    pub invite_code: Option<String>,
    pub sync_key_proof: Option<String>,
}

/// What a device sends to be registered. The invite code is that of the
/// option, or else that of the environment, or else the usual one.
pub fn registration_request(
    args: &[String],
    email: String,
    device_name: String,
    platform: String,
    sync_key_proof: Option<String>,
    invite_code_env: &Option<String>,
) -> (r: RegistrationRequest)
    ensures
        r.email@ == email@,
        r.device_name@ == device_name@,
        r.platform@ == platform@,
        opt_text(r.invite_code) == Some(
            or_text(
                either(option_of(texts(args@), "--invite-code"@), setting_of(opt_text(*invite_code_env))),
                DEFAULT_INVITE_CODE@,
            ),
        ),
        opt_text(r.sync_key_proof) == opt_text(sync_key_proof),
{
    let invite_code = match option_value(args, "--invite-code") {
        Some(code) => code,
        None => {
            let set = filled_setting(invite_code_env);
            or_else_text(&set, DEFAULT_INVITE_CODE)
        },
    };
    RegistrationRequest { email, device_name, platform, invite_code: Some(invite_code), sync_key_proof }
}

pub open spec fn registration_model(request: RegistrationRequest) -> JsonModel {
    JsonModel::Object(
        Map::empty().insert("email"@, JsonModel::Text(request.email@)).insert(
            "deviceName"@,
            JsonModel::Text(request.device_name@),
        ).insert("platform"@, JsonModel::Text(request.platform@)).insert(
            "inviteCode"@,
            text_or_null(opt_text(request.invite_code)),
        ).insert("syncKeyProof"@, text_or_null(opt_text(request.sync_key_proof))),
    )
}

/// The request as JSON.
pub fn registration_json(request: &RegistrationRequest) -> (r: Json)
    ensures
        r@ == registration_model(*request),
{
    let mut fields: Vec<(String, Json)> = Vec::new();
    set_field(&mut fields, "email", Json::Text(request.email.clone()));
    set_field(&mut fields, "deviceName", Json::Text(request.device_name.clone()));
    set_field(&mut fields, "platform", Json::Text(request.platform.clone()));
    set_field(&mut fields, "inviteCode", json_text_or_null(&request.invite_code));
    set_field(&mut fields, "syncKeyProof", json_text_or_null(&request.sync_key_proof));
    Json::Object(fields)
}

/// What the service answers to a registration.
pub struct ApiRegisterResponse {
    pub ok: bool,
    pub error: Option<String>,
    pub message: Option<String>,
    pub user_id: Option<String>,
    pub device_id: Option<String>,
    pub device_token: Option<String>,
}

/// Why a registration did not make a login.
pub open spec fn login_fault(result: ApiRegisterResponse) -> Option<Seq<char>> {
    if !result.ok {
        Some(api_error_text("login"@, opt_text(result.error), opt_text(result.message)))
    } else if result.user_id is None {
        Some("login response missing userId"@)
    } else if result.device_id is None {
        Some("login response missing deviceId"@)
    } else if result.device_token is None {
        Some("login response missing deviceToken"@)
    } else {
        None
    }
}

/// What is saved after a registration.
pub fn login_config(
    result: ApiRegisterResponse,
    api_url: &str,
    sync_key: &str,
    email: &str,
    device_name: &str,
    saved_at_ms: u128,
) -> (r: Result<CloudConfig, String>)
    ensures
        match r {
            Ok(config) => {
                &&& login_fault(result) is None
                &&& opt_text(config.api_url) == Some(api_url@)
                &&& opt_text(config.device_token) == opt_text(result.device_token)
                &&& opt_text(config.sync_key) == Some(sync_key@)
                &&& opt_text(config.email) == Some(email@)
                &&& opt_text(config.user_id) == opt_text(result.user_id)
                &&& opt_text(config.device_id) == opt_text(result.device_id)
                &&& opt_text(config.device_name) == Some(device_name@)
                &&& config.saved_at_ms == Some(saved_at_ms)
            },
            Err(error) => login_fault(result) == Some(error@),
        },
{
    if !result.ok {
        return Err(api_error("login", &result.error, &result.message));
    }
    if result.user_id.is_none() {
        return Err("login response missing userId".to_owned());
    }
    if result.device_id.is_none() {
        return Err("login response missing deviceId".to_owned());
    }
    if result.device_token.is_none() {
        return Err("login response missing deviceToken".to_owned());
    }
    Ok(
        CloudConfig {
            api_url: Some(api_url.to_owned()),
            device_token: result.device_token,
            sync_key: Some(sync_key.to_owned()),
            email: Some(email.to_owned()),
            user_id: result.user_id,
            device_id: result.device_id,
            device_name: Some(device_name.to_owned()),
            saved_at_ms: Some(saved_at_ms),
        },
    )
}

/// What a login shows.
pub fn login_text(user_id: &str, device_id: &str, api_url: &str, config_path: &str) -> (r: String)
    ensures
        r@ == "cloud login ok\nuser: "@ + user_id@ + "\ndevice: "@ + device_id@ + "\napi: "@ + api_url@
            + "\nconfig: "@ + config_path@,
{
    "cloud login ok\nuser: ".to_owned().concat(user_id).concat("\ndevice: ").concat(device_id).concat(
        "\napi: ",
    ).concat(api_url).concat("\nconfig: ").concat(config_path)
}

/// What a logout shows.
pub fn logout_text(removed: bool, config_path: &str) -> (r: String)
    ensures
        r@ == (if removed {
            "cloud logout ok: removed "@
        } else {
            "cloud logout ok: no local config at "@
        }) + config_path@,
{
    let start = if removed {
        "cloud logout ok: removed "
    } else {
        "cloud logout ok: no local config at "
    };
    start.to_owned().concat(config_path)
}

/// What the service answers to a question for its health.
pub struct ApiStatusResponse {
    pub ok: bool,
    pub error: Option<String>,
    pub message: Option<String>,
}

/// What a smoke test shows.
pub fn smoke_text(status: &ApiStatusResponse, api_url: &str) -> (r: Result<String, String>)
    ensures
        text_or_error(r) == (if status.ok {
            Ok::<Seq<char>, Seq<char>>("API smoke test ok: "@ + api_url@)
        } else {
            Err(api_error_text("health"@, opt_text(status.error), opt_text(status.message)))
        }),
{
    if !status.ok {
        return Err(api_error("health", &status.error, &status.message));
    }
    Ok("API smoke test ok: ".to_owned().concat(api_url))
}

/// What a push is to do.
pub struct PushOptions {
    pub codex_home: Option<String>,
    pub session_id: Option<String>,
    pub force: bool,
    pub limit: Option<usize>,
    pub device_name: Option<String>,
    pub session_concurrency: usize,
    pub chunk_concurrency: usize,
}

pub open spec fn thread_names() -> Seq<Seq<char>> {
    seq!["-n"@, "--n"@, "--threads"@]
}

/// The number of transfers that an option or its alias asks for, or a
/// fallback.
pub open spec fn transfer_option_of(
    args: Seq<Seq<char>>,
    name: Seq<char>,
    alias: Seq<char>,
    env_key: Seq<char>,
    env_value: Option<Seq<char>>,
    default_value: nat,
    max_value: nat,
) -> Result<nat, Seq<char>> {
    let names = seq![name, alias];
    concurrency_of(
        concurrency_value(args, names, thread_names(), env_value),
        joined(names + thread_names(), ", "@),
        env_key,
        default_value,
        max_value,
    )
}

pub(crate) fn transfer_option(
    args: &[String],
    name: &str,
    alias: &str,
    env_key: &str,
    env_value: Option<String>,
    default_value: usize,
    max_value: usize,
) -> (r: Result<usize, String>)
    ensures
        number_or_text(r) == transfer_option_of(
            texts(args@),
            name@,
            alias@,
            env_key@,
            opt_text(env_value),
            default_value as nat,
            max_value as nat,
        ),
{
    let mut names: Vec<&str> = Vec::new();
    names.push(name);
    names.push(alias);
    let mut fallback_names: Vec<&str> = Vec::new();
    fallback_names.push("-n");
    fallback_names.push("--n");
    fallback_names.push("--threads");
    assert(strs(names@) =~= seq![name@, alias@]);
    assert(strs(fallback_names@) =~= thread_names());
    concurrency_option(
        args,
        names.as_slice(),
        fallback_names.as_slice(),
        env_key,
        env_value,
        default_value,
        max_value,
    )
}

pub open spec fn session_upload_option(args: Seq<Seq<char>>, env: Option<Seq<char>>) -> Result<nat, Seq<char>> {
    transfer_option_of(
        args,
        "--session-concurrency"@,
        "--session-threads"@,
        "CODEX_TOOLS_SESSION_UPLOAD_CONCURRENCY"@,
        env,
        DEFAULT_SESSION_UPLOAD_CONCURRENCY as nat,
        MAX_SESSION_UPLOAD_CONCURRENCY as nat,
    )
}

pub open spec fn chunk_upload_option(args: Seq<Seq<char>>, env: Option<Seq<char>>) -> Result<nat, Seq<char>> {
    transfer_option_of(
        args,
        "--chunk-concurrency"@,
        "--chunk-threads"@,
        "CODEX_TOOLS_CHUNK_UPLOAD_CONCURRENCY"@,
        env,
        DEFAULT_CHUNK_UPLOAD_CONCURRENCY as nat,
        MAX_CHUNK_UPLOAD_CONCURRENCY as nat,
    )
}

pub open spec fn chunk_download_option(args: Seq<Seq<char>>, env: Option<Seq<char>>) -> Result<nat, Seq<char>> {
    transfer_option_of(
        args,
        "--download-concurrency"@,
        "--download-threads"@,
        "CODEX_TOOLS_CHUNK_DOWNLOAD_CONCURRENCY"@,
        env,
        DEFAULT_CHUNK_DOWNLOAD_CONCURRENCY as nat,
        MAX_CHUNK_DOWNLOAD_CONCURRENCY as nat,
    )
}

/// Why a push cannot be made with the arguments.
pub open spec fn push_fault(args: Seq<Seq<char>>, session_env: Option<Seq<char>>, chunk_env: Option<Seq<char>>) -> Option<
    Seq<char>,
> {
    let limit = usize_option_of(args, "--limit"@);
    let sessions = session_upload_option(args, session_env);
    let chunks = chunk_upload_option(args, chunk_env);
    if limit is Err {
        Some(limit->Err_0)
    } else if sessions is Err {
        Some(sessions->Err_0)
    } else if chunks is Err {
        Some(chunks->Err_0)
    } else if option_of(args, "--session-id"@) is None && !args.contains("--all"@) {
        Some("cloud push requires --all or --session-id <id>"@)
    } else {
        None
    }
}

/// What a push is to do.
pub fn push_options(args: &[String], session_env: Option<String>, chunk_env: Option<String>) -> (r: Result<
    PushOptions,
    String,
>)
    ensures
        match r {
            Ok(options) => {
                let args = texts(args@);
                &&& push_fault(args, opt_text(session_env), opt_text(chunk_env)) is None
                &&& opt_text(options.codex_home) == option_of(args, "--codex-home"@)
                &&& opt_text(options.session_id) == option_of(args, "--session-id"@)
                &&& options.force == args.contains("--force"@)
                &&& opt_number(Ok(options.limit)) == usize_option_of(args, "--limit"@)
                &&& opt_text(options.device_name) == option_of(args, "--device"@)
                &&& number_or_text(Ok(options.session_concurrency)) == session_upload_option(args, opt_text(session_env))
                &&& number_or_text(Ok(options.chunk_concurrency)) == chunk_upload_option(args, opt_text(chunk_env))
            },
            Err(error) => push_fault(texts(args@), opt_text(session_env), opt_text(chunk_env)) == Some(error@),
        },
{
    let codex_home = option_value(args, "--codex-home");
    let session_id = option_value(args, "--session-id");
    let all = flag(args, "--all");
    let force = flag(args, "--force");
    let limit = match option_usize(args, "--limit") {
        Ok(limit) => limit,
        Err(error) => {
            return Err(error);
        },
    };
    let device_name = option_value(args, "--device");
    let session_concurrency: usize = match transfer_option(
        args,
        "--session-concurrency",
        "--session-threads",
        "CODEX_TOOLS_SESSION_UPLOAD_CONCURRENCY",
        session_env,
        DEFAULT_SESSION_UPLOAD_CONCURRENCY,
        MAX_SESSION_UPLOAD_CONCURRENCY,
    ) {
        Ok(n) => n,
        Err(error) => {
            return Err(error);
        },
    };
    let chunk_concurrency: usize = match transfer_option(
        args,
        "--chunk-concurrency",
        "--chunk-threads",
        "CODEX_TOOLS_CHUNK_UPLOAD_CONCURRENCY",
        chunk_env,
        DEFAULT_CHUNK_UPLOAD_CONCURRENCY,
        MAX_CHUNK_UPLOAD_CONCURRENCY,
    ) {
        Ok(n) => n,
        Err(error) => {
            return Err(error);
        },
    };
    if session_id.is_none() && !all {
        return Err("cloud push requires --all or --session-id <id>".to_owned());
    }
    Ok(PushOptions { codex_home, session_id, force, limit, device_name, session_concurrency, chunk_concurrency })
}

/// The sessions with an id, or all, if none is given.
pub open spec fn with_id(sessions: Seq<LocalSessionMeta>, id: Option<Seq<char>>) -> Seq<LocalSessionMeta>
    decreases sessions.len(),
{
    if sessions.len() == 0 {
        sessions
    } else {
        let before = with_id(sessions.drop_last(), id);
        if id is None || sessions.last().session_id@ == id->0 {
            before.push(sessions.last())
        } else {
            before
        }
    }
}

/// The sessions that a push selects.
pub open spec fn selected(sessions: Seq<LocalSessionMeta>, id: Option<Seq<char>>, limit: Option<usize>) -> Seq<
    LocalSessionMeta,
> {
    let matching = with_id(sessions, id);
    match limit {
        Some(limit) => if limit < matching.len() {
            matching.take(limit as int)
        } else {
            matching
        },
        None => matching,
    }
}

/// The sessions that a push selects: those with the id, if one is given, up to
/// the limit.
pub fn select_sessions(sessions: Vec<LocalSessionMeta>, session_id: &Option<String>, limit: Option<usize>) -> (r: Result<
    Vec<LocalSessionMeta>,
    String,
>)
    ensures
        match r {
            Ok(chosen) => chosen@ == selected(sessions@, opt_text(*session_id), limit) && chosen@.len() > 0,
            Err(error) => selected(sessions@, opt_text(*session_id), limit).len() == 0 && error@
                == "no local sessions matched the push filter"@,
        },
{
    let ghost all = sessions@;
    let ghost id = opt_text(*session_id);
    let mut chosen: Vec<LocalSessionMeta> = Vec::new();
    for session in it: sessions
        invariant
            it.seq() == all,
            id == opt_text(*session_id),
            chosen@ == selected(all.take(it.index() as int), id, limit),
    {
        let ghost n = it.index() as int;
        assert(all.take(n + 1).drop_last() =~= all.take(n));
        assert(all.take(n + 1).last() == session);
        let wanted = match session_id {
            Some(id) => same(session.session_id.as_str(), id.as_str()),
            None => true,
        };
        let room = match limit {
            Some(limit) => chosen.len() < limit,
            None => true,
        };
        proof {
            let before = with_id(all.take(n), id);
            let after = with_id(all.take(n + 1), id);
            if wanted && room {
                assert(selected(all.take(n + 1), id, limit) =~= chosen@.push(session));
            } else {
                assert(selected(all.take(n + 1), id, limit) =~= chosen@);
            }
        }
        if wanted && room {
            chosen.push(session);
        }
    }
    assert(all.take(all.len() as int) =~= all);
    if chosen.len() == 0 {
        return Err("no local sessions matched the push filter".to_owned());
    }
    Ok(chosen)
}

} // verus!
