//! Where the settings of the cloud come from, and what a login keeps and shows.

use vstd::prelude::*;
use vstd::utf8::*;

use crate::cli::{either, flag, option_of, option_value, setting_of};
use crate::cloud::{
    can_mask, check_login_key, cloud_settings, cloud_status, cloud_status_lines, holds_of, login_api_url,
    login_config, login_fault, mask_token, masked_token, or_text, push_fault, push_options, registration_json,
    registration_model, registration_request, ApiRegisterResponse, CloudConfig, CloudEnvironment,
    CloudSettings, PushOptions, RegistrationRequest, DEFAULT_API_URL, DEFAULT_INVITE_CODE,
};
use crate::envelope::{derive_sync_key_proof, sync_key_proof};
use crate::json::{field, Json, JsonModel};
use crate::text::{
    is_blank, lemma_kept_len, lemma_kept_len_is, only, opt_text, texts, trim_end_where, trimmed,
};
use crate::transfer::{pull_fault, pull_options, PullOptions};

verus! {

/// What the environment sets goes before what was saved, and the service has a
/// usual address.
pub proof fn law_settings(config: CloudConfig, env: CloudEnvironment, r: CloudSettings)
    requires
        call_ensures(cloud_settings, (&config, &env), r),
    ensures
        env.api_url matches Some(text) ==> trimmed(text@).len() > 0 ==> r.api_url@ == trimmed(text@),
        env.api_url is None ==> (config.api_url matches Some(text) ==> r.api_url@ == text@),
        env.device_token matches Some(text) ==> trimmed(text@).len() > 0 ==> opt_text(r.device_token) == Some(
            trimmed(text@),
        ),
        env.device_token is None ==> opt_text(r.device_token) == opt_text(config.device_token),
        env.sync_key matches Some(text) ==> trimmed(text@).len() > 0 ==> opt_text(r.sync_key) == Some(trimmed(text@)),
        env.sync_key is None ==> opt_text(r.sync_key) == opt_text(config.sync_key),
        env.email matches Some(text) ==> trimmed(text@).len() > 0 ==> opt_text(r.email) == Some(trimmed(text@)),
        env.email is None ==> opt_text(r.email) == opt_text(config.email),
        env.api_url is None && config.api_url is None ==> r.api_url@
            == "https://codex-tools-sync-api.821099891.workers.dev"@,
{
    assert(r.api_url@ == or_text(
        holds_of(env.api_url, config.api_url),
        "https://codex-tools-sync-api.821099891.workers.dev"@,
    ));
    assert(opt_text(r.device_token) == holds_of(env.device_token, config.device_token));
    assert(opt_text(r.sync_key) == holds_of(env.sync_key, config.sync_key));
    assert(opt_text(r.email) == holds_of(env.email, config.email));
}

/// A request is signed with the token of the device and a proof of the sync key
/// of the account; without any of the three it is not sent.
pub proof fn law_signed(
    settings: CloudSettings,
    email: &str,
    key: &str,
    proof_text: String,
    r: Result<(String, String), String>,
)
    requires
        settings.email matches Some(own) ==> email@ == own@,
        settings.sync_key matches Some(own) ==> key@ == own@,
        call_ensures(derive_sync_key_proof, (email, key), proof_text),
        call_ensures(CloudSettings::required_auth_headers, (&settings,), r),
    ensures
        r is Ok <==> settings.device_token is Some && settings.email is Some && settings.sync_key is Some,
        r matches Ok((token, signature)) ==> (settings.device_token matches Some(own) && token@ == own@) && signature@
            == proof_text@,
{
    assert(proof_text@ == sync_key_proof(email@, key@));
}

/// The proof of a sync key does not depend on white space around the address.
pub proof fn law_proof_of_key(email: &str, other: &str, key: &str, a: String, b: String)
    requires
        trimmed(email@) == trimmed(other@),
        call_ensures(derive_sync_key_proof, (email, key), a),
        call_ensures(derive_sync_key_proof, (other, key), b),
    ensures
        a@ == b@,
{
    assert(a@ == sync_key_proof(email@, key@));
    assert(b@ == sync_key_proof(other@, key@));
}

/// A login is kept exactly when the service accepted it and named the user, the
/// device and its token; what is kept is what was given and what was named.
pub proof fn law_login_config(
    result: ApiRegisterResponse,
    api_url: &str,
    sync_key: &str,
    email: &str,
    device_name: &str,
    saved_at_ms: u128,
    r: Result<CloudConfig, String>,
)
    requires
        call_ensures(login_config, (result, api_url, sync_key, email, device_name, saved_at_ms), r),
    ensures
        r is Ok <==> result.ok && result.user_id is Some && result.device_id is Some && result.device_token is Some,
        r matches Ok(config) ==> {
            &&& opt_text(config.api_url) == Some(api_url@)
            &&& opt_text(config.sync_key) == Some(sync_key@)
            &&& opt_text(config.email) == Some(email@)
            &&& opt_text(config.device_name) == Some(device_name@)
            &&& config.saved_at_ms == Some(saved_at_ms)
            &&& opt_text(config.user_id) == opt_text(result.user_id)
            &&& opt_text(config.device_id) == opt_text(result.device_id)
            &&& opt_text(config.device_token) == opt_text(result.device_token)
        },
{
    assert(r is Err == login_fault(result) is Some);
}

/// A device logs in with what it is asked to: the address, its name and the
/// proof, and the invitation that is given before the usual one.
pub proof fn law_registration(
    args: &[String],
    email: String,
    device_name: String,
    platform: String,
    sync_key_proof: Option<String>,
    invite_code_env: Option<String>,
    given: Option<String>,
    request: RegistrationRequest,
    j: Json,
)
    requires
        call_ensures(option_value, (args, "--invite-code"), given),
        call_ensures(
            registration_request,
            (args, email, device_name, platform, sync_key_proof, &invite_code_env),
            request,
        ),
        call_ensures(registration_json, (&request,), j),
    ensures
        field(j@, "email"@) == Some(JsonModel::Text(email@)),
        field(j@, "deviceName"@) == Some(JsonModel::Text(device_name@)),
        field(j@, "platform"@) == Some(JsonModel::Text(platform@)),
        given matches Some(code) ==> field(j@, "inviteCode"@) == Some(JsonModel::Text(code@)),
        given is None ==> (invite_code_env matches Some(code) ==> trimmed(code@).len() > 0 ==> field(j@, "inviteCode"@)
            == Some(JsonModel::Text(trimmed(code@)))),
        sync_key_proof matches Some(signature) ==> field(j@, "syncKeyProof"@) == Some(JsonModel::Text(signature@)),
        sync_key_proof is None ==> field(j@, "syncKeyProof"@) == Some(JsonModel::Null),
{
    reveal_strlit("email");
    assert("email"@.len() == 5);
    reveal_strlit("deviceName");
    assert("deviceName"@.len() == 10);
    reveal_strlit("platform");
    assert("platform"@.len() == 8);
    reveal_strlit("inviteCode");
    assert("inviteCode"@.len() == 10);
    reveal_strlit("syncKeyProof");
    assert("syncKeyProof"@.len() == 12);
    assert("deviceName"@[0] != "inviteCode"@[0]);
    assert(opt_text(given) == option_of(texts(args@), "--invite-code"@));
    assert(j@ == registration_model(request));
    assert(opt_text(request.invite_code) == Some(
        or_text(
            either(option_of(texts(args@), "--invite-code"@), setting_of(opt_text(invite_code_env))),
            DEFAULT_INVITE_CODE@,
        ),
    ));
}

/// The service is reached at the address that is given, and else at the one in
/// force, always without a slash at its end.
pub proof fn law_login_address(option: Option<String>, env: Option<String>, config: CloudConfig, r: String)
    requires
        call_ensures(login_api_url, (&option, &env, &config), r),
    ensures
        option matches Some(url) ==> url@.len() > 0 && url@.last() != '/' ==> r@ == url@,
        option is None && env is None ==> (config.api_url matches Some(url) ==> url@.len() > 0 && url@.last() != '/'
            ==> r@ == url@),
        r@.len() > 0 ==> r@.last() != '/',
{
    let url = or_text(either(opt_text(option), holds_of(env, config.api_url)), DEFAULT_API_URL@);
    assert(r@ == trim_end_where(url, only('/')));
    lemma_kept_len(url, only('/'));
    if url.len() > 0 && url.last() != '/' {
        lemma_kept_len_is(url, only('/'), url.len() as int);
        assert(url.take(url.len() as int) =~= url);
    }
    if r@.len() > 0 {
        assert(r@.last() == url[r@.len() - 1]);
    }
}

/// A sync key must not be blank.
pub proof fn law_login_key(sync_key: &str, r: Result<(), String>)
    requires
        call_ensures(check_login_key, (sync_key,), r),
    ensures
        r is Ok <==> trimmed(sync_key@).len() > 0,
{
    assert(r is Ok == !is_blank(sync_key@));
}

/// The status never shows the sync key, and of the token no more than its mask;
/// it says that the login is ready exactly when all three parts are there.
pub proof fn law_status(
    config: CloudConfig,
    settings: CloudSettings,
    other: CloudSettings,
    config_path: &str,
    r: Vec<String>,
    r_other: Vec<String>,
)
    requires
        settings.device_token is Some ==> can_mask(settings.device_token->0@),
        call_ensures(cloud_status, (&config, &settings, config_path), r),
        call_ensures(cloud_status, (&config, &other, config_path), r_other),
        other.api_url@ == settings.api_url@,
        opt_text(other.email) == opt_text(settings.email),
        opt_text(other.device_token) == opt_text(settings.device_token),
        other.sync_key is Some <==> settings.sync_key is Some,
    ensures
        texts(r@) == texts(r_other@),
        texts(r@).contains("auth: ready (device token + sync key proof)"@) <==> settings.device_token is Some
            && settings.sync_key is Some && settings.email is Some,
        r@.len() == 7,
        r@[0]@ == "api: "@ + settings.api_url@,
        r@[1]@ == "config: "@ + config_path@,
        settings.email matches Some(email) ==> r@[2]@ == "email: "@ + email@,
{
    assert(other.device_token is Some ==> can_mask(other.device_token->0@));
    let lines = cloud_status_lines(config, settings, config_path@);
    assert(texts(r@) == lines);
    assert(texts(r_other@) =~= cloud_status_lines(config, other, config_path@));
    assert(texts(r@) =~= texts(r_other@));
    assert(texts(r@)[0] == r@[0]@ && texts(r@)[1] == r@[1]@ && texts(r@)[2] == r@[2]@);
    let ready = "auth: ready (device token + sync key proof)"@;
    reveal_strlit("auth: ready (device token + sync key proof)");
    reveal_strlit("auth: ");
    reveal_strlit("ready (device token + sync key proof)");
    reveal_strlit("incomplete; run `codex-tools cloud login` again");
    reveal_strlit("api: ");
    reveal_strlit("config: ");
    reveal_strlit("email: ");
    reveal_strlit("device: ");
    reveal_strlit("device token: ");
    reveal_strlit("sync key: ");
    assert(ready[0] == 'a' && ready[1] == 'u' && ready[6] == 'r');
    assert(lines[0][1] == 'p');
    assert(lines[1][0] == 'c');
    assert(lines[2][0] == 'e');
    assert(lines[3][0] == 'd');
    assert(lines[4][0] == 'd');
    assert(lines[5][0] == 's');
    if settings.device_token is Some && settings.sync_key is Some && settings.email is Some {
        assert(lines[6] =~= ready);
        assert(texts(r@)[6] == ready);
    } else {
        assert(lines[6][6] == 'i');
        if lines.contains(ready) {
            let i = choose|i: int| 0 <= i < lines.len() && lines[i] == ready;
            assert(i == 0 || i == 1 || i == 2 || i == 3 || i == 4 || i == 5 || i == 6);
        }
    }
}

/// A short token is hidden whole, and of a long one that is plain ASCII the
/// first six and the last four characters are shown.
pub proof fn law_masked_token(token: &str, r: String)
    requires
        can_mask(token@),
        call_ensures(mask_token, (token,), r),
    ensures
        encode_utf8(token@).len() <= 12 ==> r@ == "***"@,
        encode_utf8(token@).len() > 12 ==> r@ == decode_utf8(encode_utf8(token@).take(6)) + "..."@ + decode_utf8(
            encode_utf8(token@).skip(encode_utf8(token@).len() - 4),
        ),
{
    assert(r@ == masked_token(token@));
}

/// What a push does is what its options say.
pub proof fn law_push_options(
    args: &[String],
    session_env: Option<String>,
    chunk_env: Option<String>,
    id: Option<String>,
    all: bool,
    force: bool,
    home: Option<String>,
    device: Option<String>,
    r: Result<PushOptions, String>,
)
    requires
        call_ensures(option_value, (args, "--session-id"), id),
        call_ensures(flag, (args, "--all"), all),
        call_ensures(flag, (args, "--force"), force),
        call_ensures(option_value, (args, "--codex-home"), home),
        call_ensures(option_value, (args, "--device"), device),
        call_ensures(push_options, (args, session_env, chunk_env), r),
    ensures
        id is None && !all ==> r is Err,
        r matches Ok(options) ==> opt_text(options.session_id) == opt_text(id) && options.force == force && opt_text(
            options.codex_home,
        ) == opt_text(home) && opt_text(options.device_name) == opt_text(device),
{
    let words = texts(args@);
    assert(opt_text(id) == option_of(words, "--session-id"@));
    assert(opt_text(home) == option_of(words, "--codex-home"@));
    assert(opt_text(device) == option_of(words, "--device"@));
    assert(all == words.contains("--all"@));
    assert(force == words.contains("--force"@));
    assert(r is Ok == push_fault(words, opt_text(session_env), opt_text(chunk_env)) is None);
}

/// A pull takes one session or all, never both and never neither, and what else
/// it does is what its options say.
pub proof fn law_pull_options(
    args: &[String],
    env: Option<String>,
    id: Option<String>,
    all: bool,
    force: bool,
    dry_run: bool,
    home: Option<String>,
    r: Result<PullOptions, String>,
)
    requires
        call_ensures(option_value, (args, "--session-id"), id),
        call_ensures(flag, (args, "--all"), all),
        call_ensures(flag, (args, "--force"), force),
        call_ensures(flag, (args, "--dry-run"), dry_run),
        call_ensures(option_value, (args, "--codex-home"), home),
        call_ensures(pull_options, (args, env), r),
    ensures
        all == (id is Some) ==> r is Err,
        r matches Ok(options) ==> opt_text(options.session_id) == opt_text(id) && options.force == force
            && options.dry_run == dry_run && opt_text(options.codex_home) == opt_text(home),
{
    let words = texts(args@);
    assert(opt_text(id) == option_of(words, "--session-id"@));
    assert(opt_text(home) == option_of(words, "--codex-home"@));
    assert(all == words.contains("--all"@));
    assert(force == words.contains("--force"@));
    assert(dry_run == words.contains("--dry-run"@));
    assert(r is Ok == pull_fault(words, opt_text(env)) is None);
}

} // verus!
