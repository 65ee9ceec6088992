//! The ChatGPT login of Codex, as far as a query of its quota needs it.

use base64::Engine;
use vstd::prelude::*;
use vstd::utf8::*;

use crate::config::{mask_secret, masked};
use crate::json::{
    fields_model, json_read, last_with_key, lemma_fields_finite, lemma_models, models, parse_json, Json,
    JsonModel,
};
use crate::order::{ascending, is_ascending, sort_distinct};
use crate::provider::is_alphanumeric;
use crate::report::{lemma_concat_contains, lemma_push_contains};
use crate::rollout::opt_bytes;
use crate::text::{
    ascii_lowered, blank, chars_of, decimal, decimal_text, is_blank, only, same, split_by, split_char,
    split_once, split_once_at, split_where, starts_with, texts, to_ascii_lowercase,
};

verus! {

/// A mail address with most of its local part left out. What is no address
/// is masked as a secret is.
pub open spec fn masked_email(value: Seq<char>) -> Seq<char> {
    match split_once_at(value, '@') {
        None => masked(value),
        Some((local, domain)) => {
            let first = if local.len() > 0 {
                local[0]
            } else {
                '*'
            };
            if encode_utf8(local).len() > 3 {
                seq![first] + "***"@ + seq![local.last()] + "@"@ + domain
            } else {
                seq![first] + "***@"@ + domain
            }
        },
    }
}

proof fn lemma_encode_len(s: Seq<char>)
    ensures
        s.len() == 0 ==> encode_utf8(s).len() == 0,
{
}

pub fn mask_email(value: &str) -> (r: String)
    ensures
        r@ == masked_email(value@),
{
    match split_once(value, '@') {
        None => mask_secret(value),
        Some((local, domain)) => {
            let chars = chars_of(local);
            let first = if chars.len() > 0 {
                chars[0]
            } else {
                '*'
            };
            let mut out = String::new();
            out.push(first);
            assert(out@ =~= seq![first]);
            if local.as_bytes().len() > 3 {
                proof {
                    lemma_encode_len(local@);
                }
                let mut masked = out.concat("***");
                let ghost before = masked@;
                masked.push(chars[chars.len() - 1]);
                assert(masked@ =~= before + seq![local@.last()]);
                masked.concat("@").concat(domain)
            } else {
                out.concat("***@").concat(domain)
            }
        },
    }
}

/// What the URL-safe base64 without padding stands for, if it is that.
pub uninterp spec fn url_safe_no_pad_bytes(text: Seq<char>) -> Option<Seq<u8>>;

/// What the URL-safe base64 with padding stands for, or what is wrong with
/// it.
pub uninterp spec fn url_safe_bytes(text: Seq<char>) -> Result<Seq<u8>, Seq<char>>;

/// `base64`'s `decode` with `URL_SAFE_NO_PAD`: the bytes are a function of
/// the text.
#[verifier::external_body]
fn decode_url_safe_no_pad(text: &str) -> (r: Option<Vec<u8>>)
    ensures
        opt_bytes(r) == url_safe_no_pad_bytes(text@),
{
    base64::engine::general_purpose::URL_SAFE_NO_PAD.decode(text).ok()
}

/// `base64`'s `decode` with `URL_SAFE`: the bytes, or the text of the error,
/// are a function of the text.
#[verifier::external_body]
fn decode_url_safe(text: &str) -> (r: Result<Vec<u8>, String>)
    ensures
        match r {
            Ok(bytes) => url_safe_bytes(text@) == Ok::<Seq<u8>, Seq<char>>(bytes@),
            Err(e) => url_safe_bytes(text@) == Err::<Seq<u8>, Seq<char>>(e@),
        },
{
    base64::engine::general_purpose::URL_SAFE.decode(text).map_err(|error| error.to_string())
}

/// The second of the parts of a token, if there are at least three and it is
/// not empty.
pub open spec fn payload_part(jwt: Seq<char>) -> Option<Seq<char>> {
    let parts = split_where(jwt, only('.'));
    if parts.len() < 3 || parts[1].len() == 0 {
        None
    } else {
        Some(parts[1])
    }
}

/// The payload of a token from what its base64 stands for.
pub open spec fn payload_or_reason(no_pad: Option<Seq<u8>>, padded: Result<Seq<u8>, Seq<char>>) -> Result<
    Seq<u8>,
    Seq<char>,
> {
    match (no_pad, padded) {
        (Some(bytes), _) => Ok(bytes),
        (None, Ok(bytes)) => Ok(bytes),
        (None, Err(error)) => Err("JWT payload base64 解码失败："@ + error),
    }
}

pub open spec fn result_bytes(r: Result<Vec<u8>, String>) -> Result<Seq<u8>, Seq<char>> {
    match r {
        Ok(bytes) => Ok(bytes@),
        Err(e) => Err(e@),
    }
}

/// The part of a token that holds its payload.
pub fn jwt_payload_part(jwt: &str) -> (r: Result<String, String>)
    ensures
        match payload_part(jwt@) {
            Some(part) => r matches Ok(text) && text@ == part,
            None => r matches Err(e) && e@ == "JWT 格式无效。"@,
        },
{
    let parts = split_char(jwt, '.');
    assert(texts(parts@).len() == parts@.len());
    if parts.len() < 3 {
        return Err("JWT 格式无效。".to_owned());
    }
    assert(texts(parts@)[1] == parts@[1]@);
    if parts[1].as_str().is_empty() {
        return Err("JWT 格式无效。".to_owned());
    }
    Ok(parts[1].clone())
}

/// The payload of a token, as the bytes of a JSON text.
pub fn decode_jwt_payload(jwt: &str) -> (r: Result<Vec<u8>, String>)
    ensures
        match payload_part(jwt@) {
            Some(part) => result_bytes(r) == payload_or_reason(url_safe_no_pad_bytes(part), url_safe_bytes(part)),
            None => r matches Err(e) && e@ == "JWT 格式无效。"@,
        },
{
    let part = match jwt_payload_part(jwt) {
        Ok(part) => part,
        Err(e) => {
            return Err(e);
        },
    };
    if let Some(bytes) = decode_url_safe_no_pad(part.as_str()) {
        return Ok(bytes);
    }
    match decode_url_safe(part.as_str()) {
        Ok(bytes) => Ok(bytes),
        Err(error) => Err("JWT payload base64 解码失败：".to_owned().concat(error.as_str())),
    }
}

/// The tokens of a login.
pub struct AuthTokens {
    pub id_token: String,
    pub access_token: String,
    pub account_id: Option<String>,
}

/// What `auth.json` says.
pub struct AuthFile {
    pub auth_mode: Option<String>,
    pub openai_api_key: Option<String>,
    pub tokens: Option<AuthTokens>,
    pub last_refresh: Option<String>,
}

/// What the id token of a login claims.
pub struct JwtClaims {
    pub email: Option<String>,
    pub profile_email: Option<String>,
    pub auth: Option<AuthClaims>,
}

/// What the id token of a login claims of its account.
pub struct AuthClaims {
    pub chatgpt_plan_type: Option<String>,
    pub chatgpt_account_id: Option<String>,
    pub chatgpt_account_is_fedramp: bool,
}

/// A ChatGPT login.
pub struct LocalChatGptAuth {
    pub auth_mode: Option<String>,
    pub account_id: String,
    pub email: Option<String>,
    pub plan_type: Option<String>,
    pub access_token: String,
    pub last_refresh: Option<String>,
    pub fedramp: bool,
}

/// Whether the login is by API key.
pub open spec fn is_api_key_login(auth: AuthFile) -> bool {
    auth.openai_api_key is Some || (auth.auth_mode matches Some(mode) && (ascii_lowered(mode@) == ascii_lowered(
        "apikey"@,
    ) || ascii_lowered(mode@) == ascii_lowered("api_key"@)))
}

/// Why a login cannot be used to query the quota, before its id token is
/// looked at.
pub open spec fn login_problem(auth: AuthFile) -> Option<Seq<char>> {
    if is_api_key_login(auth) {
        Some("当前 auth.json 是 API Key 登录，不是 ChatGPT 登录，无法查询 GPT 订阅额度。"@)
    } else {
        match auth.tokens {
            None => Some("auth.json 缺少 ChatGPT tokens，请在 Codex 中重新登录 ChatGPT。"@),
            Some(tokens) => if is_blank(tokens.access_token@) {
                Some("auth.json 缺少 access_token，请在 Codex 中重新登录 ChatGPT。"@)
            } else {
                None
            },
        }
    }
}

fn same_ignoring_case(a: &str, b: &str) -> (r: bool)
    ensures
        r == (ascii_lowered(a@) == ascii_lowered(b@)),
{
    same(to_ascii_lowercase(a).as_str(), to_ascii_lowercase(b).as_str())
}

/// The id token of a login that can be used to query the quota.
pub fn chatgpt_id_token(auth: &AuthFile) -> (r: Result<String, String>)
    ensures
        match login_problem(*auth) {
            Some(reason) => r matches Err(e) && e@ == reason,
            None => r matches Ok(token) && token@ == auth.tokens->0.id_token@,
        },
{
    let by_mode = match &auth.auth_mode {
        Some(mode) => same_ignoring_case(mode.as_str(), "apikey") || same_ignoring_case(mode.as_str(), "api_key"),
        None => false,
    };
    if auth.openai_api_key.is_some() || by_mode {
        return Err("当前 auth.json 是 API Key 登录，不是 ChatGPT 登录，无法查询 GPT 订阅额度。".to_owned());
    }
    match &auth.tokens {
        None => Err("auth.json 缺少 ChatGPT tokens，请在 Codex 中重新登录 ChatGPT。".to_owned()),
        Some(tokens) => if blank(tokens.access_token.as_str()) {
            Err("auth.json 缺少 access_token，请在 Codex 中重新登录 ChatGPT。".to_owned())
        } else {
            Ok(tokens.id_token.clone())
        },
    }
}

/// The account of a login: the one of the tokens, else the one claimed.
pub open spec fn login_account(tokens: AuthTokens, claims: JwtClaims) -> Option<String> {
    match tokens.account_id {
        Some(id) => Some(id),
        None => match claims.auth {
            Some(auth) => auth.chatgpt_account_id,
            None => None,
        },
    }
}

/// The login that the tokens and the claims of the id token make up.
pub fn chatgpt_auth(auth: AuthFile, claims: JwtClaims) -> (r: Result<LocalChatGptAuth, String>)
    requires
        auth.tokens is Some,
    ensures
        match login_account(auth.tokens->0, claims) {
            None => r matches Err(e) && e@
                == "auth.json 缺少 ChatGPT account_id，请在 Codex 中重新登录 ChatGPT。"@,
            Some(account) => r matches Ok(login) && {
                &&& login.auth_mode == auth.auth_mode
                &&& login.account_id == account
                &&& login.email == (if claims.email is Some {
                    claims.email
                } else {
                    claims.profile_email
                })
                &&& login.plan_type == (match claims.auth {
                    Some(a) => a.chatgpt_plan_type,
                    None => None,
                })
                &&& login.access_token == auth.tokens->0.access_token
                &&& login.last_refresh == auth.last_refresh
                &&& login.fedramp == (claims.auth matches Some(a) && a.chatgpt_account_is_fedramp)
            },
        },
{
    match auth.tokens {
        None => Err("auth.json 缺少 ChatGPT tokens，请在 Codex 中重新登录 ChatGPT。".to_owned()),
        Some(tokens) => {
            let (plan_type, claimed, fedramp) = match claims.auth {
                Some(a) => (a.chatgpt_plan_type, a.chatgpt_account_id, a.chatgpt_account_is_fedramp),
                None => (None, None, false),
            };
            let account = match tokens.account_id {
                Some(id) => Some(id),
                None => claimed,
            };
            match account {
                None => Err("auth.json 缺少 ChatGPT account_id，请在 Codex 中重新登录 ChatGPT。".to_owned()),
                Some(account_id) => {
                    let email = match claims.email {
                        Some(email) => Some(email),
                        None => claims.profile_email,
                    };
                    Ok(
                        LocalChatGptAuth {
                            auth_mode: auth.auth_mode,
                            account_id,
                            email,
                            plan_type,
                            access_token: tokens.access_token,
                            last_refresh: auth.last_refresh,
                            fedramp,
                        },
                    )
                },
            }
        },
    }
}

/// A request header.
pub struct Header {
    pub name: String,
    pub value: String,
}

pub open spec fn header_models(headers: Seq<Header>) -> Seq<(Seq<char>, Seq<char>)> {
    headers.map_values(|h: Header| (h.name@, h.value@))
}

/// The headers of a query of the quota.
pub open spec fn quota_headers(auth: LocalChatGptAuth) -> Seq<(Seq<char>, Seq<char>)> {
    seq![
        ("user-agent"@, "codex-cli"@),
        ("accept"@, "application/json"@),
        ("authorization"@, "Bearer "@ + auth.access_token@),
        ("chatgpt-account-id"@, auth.account_id@),
    ] + (if auth.fedramp {
        seq![("x-openai-fedramp"@, "true"@)]
    } else {
        Seq::empty()
    })
}

fn header(name: &str, value: &str) -> (r: Header)
    ensures
        r.name@ == name@,
        r.value@ == value@,
{
    Header { name: name.to_owned(), value: value.to_owned() }
}

pub fn quota_request_headers(auth: &LocalChatGptAuth) -> (r: Vec<Header>)
    ensures
        header_models(r@) == quota_headers(*auth),
{
    let mut out: Vec<Header> = Vec::new();
    let bearer = "Bearer ".to_owned().concat(auth.access_token.as_str());
    out.push(header("user-agent", "codex-cli"));
    out.push(header("accept", "application/json"));
    out.push(header("authorization", bearer.as_str()));
    out.push(header("chatgpt-account-id", auth.account_id.as_str()));
    if auth.fedramp {
        out.push(header("x-openai-fedramp", "true"));
    }
    assert(header_models(out@) =~= quota_headers(*auth));
    out
}

/// The characters of an API key.
pub open spec fn is_token_char(c: char) -> bool {
    is_alphanumeric(c) || c == '-' || c == '_'
}

/// What stands between tokens.
pub open spec fn between_tokens() -> spec_fn(char) -> bool {
    |c: char| !is_token_char(c)
}

/// Whether a word is an API key.
pub open spec fn is_sk_token(word: Seq<char>) -> bool {
    "sk-"@.is_prefix_of(word) && word.len() >= 15
}

/// The API keys in a text, each once and in order.
pub fn extract_sk_tokens(text: &str) -> (r: Vec<String>)
    ensures
        is_ascending(texts(r@)),
        forall|t: Seq<char>| #[trigger] texts(r@).contains(t) <==> split_where(text@, between_tokens()).contains(t)
            && is_sk_token(t),
{
    let f = |c: char| -> (b: bool)
        ensures
            b == between_tokens()(c),
        {
            !(('a' <= c && c <= 'z') || ('A' <= c && c <= 'Z') || ('0' <= c && c <= '9') || c == '-' || c == '_')
        };
    let words = split_by(text, f, Ghost(between_tokens()));
    let ghost all = texts(words@);
    let mut found: Vec<String> = Vec::new();
    for i in 0..words.len()
        invariant
            all == texts(words@),
            forall|t: Seq<char>| #[trigger] texts(found@).contains(t) <==> all.take(i as int).contains(t)
                && is_sk_token(t),
    {
        let ghost x = all[i as int];
        assert(x == words@[i as int]@);
        let ghost before = texts(found@);
        assert(all.take(i + 1) =~= all.take(i as int).push(x));
        let n: usize = chars_of(words[i].as_str()).len();
        if starts_with(words[i].as_str(), "sk-") && n >= 15 {
            found.push(words[i].clone());
            assert(texts(found@) =~= before.push(x));
        }
        assert forall|t: Seq<char>| #[trigger] texts(found@).contains(t) <==> all.take(i + 1).contains(t)
            && is_sk_token(t) by {
            lemma_push_contains(all.take(i as int), x, t);
            lemma_push_contains(before, x, t);
            assert(before.contains(t) <==> all.take(i as int).contains(t) && is_sk_token(t));
        }
    }
    assert(all.take(all.len() as int) =~= all);
    let sorted = sort_distinct(&found);
    assert forall|t: Seq<char>| #[trigger] texts(sorted@).contains(t) <==> split_where(
        text@,
        between_tokens(),
    ).contains(t) && is_sk_token(t) by {
        assert(texts(sorted@).to_set().contains(t) <==> texts(found@).to_set().contains(t));
    }
    sorted
}

/// The texts that stand in a JSON value, not as keys: those of an array in its
/// order, those of an object in the order of its keys.
pub open spec fn texts_in(value: JsonModel) -> Seq<Seq<char>>
    decreases value, 0nat,
{
    match value {
        JsonModel::Text(t) => seq![t],
        JsonModel::Array(items) => texts_in_items(items),
        JsonModel::Object(map) => texts_in_fields(map, ascending(map.dom())),
        _ => Seq::empty(),
    }
}

pub open spec fn texts_in_items(items: Seq<JsonModel>) -> Seq<Seq<char>>
    decreases items, 0nat,
{
    if items.len() == 0 {
        Seq::empty()
    } else {
        texts_in_items(items.drop_last()) + texts_in(items.last())
    }
}

/// The texts in the fields of those keys.
pub open spec fn texts_in_fields(map: Map<Seq<char>, JsonModel>, keys: Seq<Seq<char>>) -> Seq<Seq<char>>
    decreases map, keys.len(),
{
    if keys.len() == 0 {
        Seq::empty()
    } else if map.dom().finite() && map.dom().contains(keys.last()) {
        texts_in_fields(map, keys.drop_last()) + texts_in(map[keys.last()])
    } else {
        texts_in_fields(map, keys.drop_last())
    }
}

/// Puts the texts that stand in a JSON value at the end of a list.
pub fn collect_strings_from_json(value: &Json, output: &mut Vec<String>)
    ensures
        texts(final(output)@) == texts(old(output)@) + texts_in(value@),
    decreases value,
{
    let ghost before = texts(output@);
    match value {
        Json::Text(t) => {
            output.push(t.clone());
            assert(texts(output@) =~= before + texts_in(value@));
        },
        Json::Array(items) => {
            let ghost all = models(items@);
            proof {
                lemma_models(items@);
                assert(texts(output@) =~= before + texts_in_items(all.take(0)));
            }
            for i in 0..items.len()
                invariant
                    *value == Json::Array(*items),
                    all.len() == items@.len(),
                    forall|k: int| 0 <= k < items@.len() ==> #[trigger] all[k] == items@[k]@,
                    texts(output@) == before + texts_in_items(all.take(i as int)),
            {
                assert(decreases_to!(*value => value->Array_0));
                assert(decreases_to!(*items => items@));
                assert(decreases_to!(items@ => items@[i as int]));
                collect_strings_from_json(&items[i], output);
                assert(all.take(i + 1).drop_last() =~= all.take(i as int));
                assert(texts(output@) =~= before + texts_in_items(all.take(i + 1)));
            }
            assert(all.take(all.len() as int) =~= all);
        },
        Json::Object(fields) => {
            let ghost map = fields_model(fields@);
            let mut names: Vec<String> = Vec::new();
            for i in 0..fields.len()
                invariant
                    names@.len() == i,
                    forall|k: int| 0 <= k < i ==> (#[trigger] texts(names@)[k]) == fields@[k].0@,
            {
                let ghost so_far = texts(names@);
                names.push(fields[i].0.clone());
                assert(texts(names@) =~= so_far.push(fields@[i as int].0@));
            }
            proof {
                lemma_fields_finite(fields@);
                assert forall|key: Seq<char>| #[trigger] texts(names@).to_set().contains(key) <==> map.dom().contains(
                    key,
                ) by {
                    if map.dom().contains(key) {
                        let k = choose|k: int| 0 <= k < fields@.len() && (#[trigger] fields@[k]).0@ == key;
                        assert(texts(names@)[k] == key);
                    }
                    if texts(names@).contains(key) {
                        let k = choose|k: int| 0 <= k < texts(names@).len() && texts(names@)[k] == key;
                        assert(fields@[k].0@ == key);
                    }
                }
                assert(texts(names@).to_set() =~= map.dom());
            }
            let sorted = sort_distinct(&names);
            let ghost keys = texts(sorted@);
            proof {
                assert forall|k: int| 0 <= k < keys.len() implies map.dom().contains(#[trigger] keys[k]) by {
                    assert(keys.to_set().contains(keys[k]));
                }
                assert(texts(output@) =~= before + texts_in_fields(map, keys.take(0)));
            }
            for i in 0..sorted.len()
                invariant
                    *value == Json::Object(*fields),
                    map == fields_model(fields@),
                    keys == texts(sorted@),
                    map.dom().finite(),
                    forall|k: int| 0 <= k < keys.len() ==> map.dom().contains(#[trigger] keys[k]),
                    texts(output@) == before + texts_in_fields(map, keys.take(i as int)),
            {
                assert(keys[i as int] == sorted@[i as int]@);
                if let Some(m) = last_with_key(fields, sorted[i].as_str()) {
                    assert(decreases_to!(*value => value->Object_0));
                    assert(decreases_to!(*fields => fields@));
                    assert(decreases_to!(fields@ => fields@[m as int]));
                    assert(decreases_to!(fields@[m as int] => fields@[m as int].1));
                    collect_strings_from_json(&fields[m].1, output);
                }
                assert(keys.take(i + 1).drop_last() =~= keys.take(i as int));
                assert(keys.take(i + 1).last() == keys[i as int]);
                assert(texts(output@) =~= before + texts_in_fields(map, keys.take(i + 1)));
            }
            assert(keys.take(keys.len() as int) =~= keys);
        },
        _ => {
            assert(texts(output@) =~= before + texts_in(value@));
        },
    }
}

/// Whether a text stands in what was saved: in a value of its JSON, or as
/// all of it where it is no JSON.
pub open spec fn stands_in(raw: Seq<char>, s: Seq<char>) -> bool {
    match json_read(raw) {
        Ok(value) => texts_in(value).contains(s),
        Err(_) => s == raw,
    }
}

/// Whether an API key is among the texts.
pub open spec fn key_among(items: Seq<Seq<char>>, token: Seq<char>) -> bool {
    is_sk_token(token) && exists|i: int|
        0 <= i < items.len() && split_where(#[trigger] items[i], between_tokens()).contains(token)
}

/// The API keys in a list of texts, each once and in order.
pub fn tokens_in_texts(items: &Vec<String>) -> (r: Vec<String>)
    ensures
        is_ascending(texts(r@)),
        forall|t: Seq<char>| #[trigger] texts(r@).contains(t) <==> key_among(texts(items@), t),
{
    let ghost all = texts(items@);
    let mut found: Vec<String> = Vec::new();
    for i in 0..items.len()
        invariant
            all == texts(items@),
            forall|t: Seq<char>| #[trigger] texts(found@).contains(t) <==> key_among(all.take(i as int), t),
    {
        assert(all[i as int] == items@[i as int]@);
        let more = extract_sk_tokens(items[i].as_str());
        let ghost here = texts(more@);
        let ghost before = texts(found@);
        for k in 0..more.len()
            invariant
                here == texts(more@),
                texts(found@) == before + here.take(k as int),
        {
            let ghost so_far = texts(found@);
            found.push(more[k].clone());
            assert(here[k as int] == more@[k as int]@);
            assert(texts(found@) =~= so_far.push(here[k as int]));
            assert(texts(found@) =~= before + here.take(k + 1));
        }
        assert(here.take(here.len() as int) =~= here);
        assert forall|t: Seq<char>| #[trigger] texts(found@).contains(t) <==> key_among(all.take(i + 1), t) by {
            lemma_concat_contains(before, here, t);
            let shorter = all.take(i as int);
            let longer = all.take(i + 1);
            assert(before.contains(t) <==> key_among(shorter, t));
            assert(here.contains(t) <==> split_where(all[i as int], between_tokens()).contains(t) && is_sk_token(t));
            if key_among(shorter, t) {
                let k = choose|k: int|
                    0 <= k < shorter.len() && split_where(#[trigger] shorter[k], between_tokens()).contains(t);
                assert(longer[k] == shorter[k]);
            }
            if here.contains(t) {
                assert(longer[i as int] == all[i as int]);
            }
            if key_among(longer, t) {
                let k = choose|k: int|
                    0 <= k < longer.len() && split_where(#[trigger] longer[k], between_tokens()).contains(t);
                if k < i {
                    assert(shorter[k] == longer[k]);
                }
            }
        }
    }
    assert(all.take(all.len() as int) =~= all);
    let sorted = sort_distinct(&found);
    assert forall|t: Seq<char>| #[trigger] texts(sorted@).contains(t) <==> key_among(texts(items@), t) by {
        assert(texts(sorted@).to_set().contains(t) <==> texts(found@).to_set().contains(t));
    }
    sorted
}

/// The API keys in a login that was saved, each once and in order.
pub fn tokens_in_backup(raw: &str) -> (r: Vec<String>)
    ensures
        is_ascending(texts(r@)),
        forall|t: Seq<char>| #[trigger] texts(r@).contains(t) <==> is_sk_token(t) && exists|s: Seq<char>|
            #[trigger] stands_in(raw@, s) && split_where(s, between_tokens()).contains(t),
{
    let mut strings: Vec<String> = Vec::new();
    match parse_json(raw) {
        Ok(value) => {
            collect_strings_from_json(&value, &mut strings);
        },
        Err(_) => {
            strings.push(raw.to_owned());
            assert(texts(strings@)[0] == raw@);
        },
    }
    let ghost all = texts(strings@);
    assert forall|s: Seq<char>| #[trigger] all.contains(s) <==> stands_in(raw@, s) by {}
    let found = tokens_in_texts(&strings);
    assert forall|t: Seq<char>| #[trigger] texts(found@).contains(t) <==> is_sk_token(t) && exists|s: Seq<char>|
        #[trigger] stands_in(raw@, s) && split_where(s, between_tokens()).contains(t) by {
        if key_among(all, t) {
            let i = choose|i: int| 0 <= i < all.len() && split_where(#[trigger] all[i], between_tokens()).contains(t);
            assert(all.contains(all[i]));
            assert(stands_in(raw@, all[i]));
        }
        if is_sk_token(t) && exists|s: Seq<char>|
            #[trigger] stands_in(raw@, s) && split_where(s, between_tokens()).contains(t) {
            let s = choose|s: Seq<char>| #[trigger] stands_in(raw@, s) && split_where(s, between_tokens()).contains(t);
            assert(all.contains(s));
            let i = choose|i: int| 0 <= i < all.len() && all[i] == s;
            assert(split_where(all[i], between_tokens()).contains(t));
        }
    }
    found
}

/// An API key that was found in a backup.
pub struct TokenCandidate {
    pub id: String,
    pub backup_path: String,
    pub backup_dir: String,
    pub masked: String,
    pub length: usize,
}

pub open spec fn is_candidate(
    candidate: TokenCandidate,
    token: Seq<char>,
    dir_name: Seq<char>,
    index: nat,
    backup_path: Seq<char>,
    backup_dir: Seq<char>,
) -> bool {
    &&& candidate.id@ == dir_name + ":"@ + decimal(index)
    &&& candidate.backup_path@ == backup_path
    &&& candidate.backup_dir@ == backup_dir
    &&& candidate.masked@ == masked(token)
    &&& candidate.length == encode_utf8(token).len()
}

/// An API key that was found in a backup, the `index`-th in all.
pub fn token_candidate(token: &str, dir_name: &str, index: usize, backup_path: &str, backup_dir: &str) -> (r:
    TokenCandidate)
    ensures
        is_candidate(r, token@, dir_name@, index as nat, backup_path@, backup_dir@),
{
    TokenCandidate {
        id: dir_name.to_owned().concat(":").concat(decimal_text(index as u128).as_str()),
        backup_path: backup_path.to_owned(),
        backup_dir: backup_dir.to_owned(),
        masked: mask_secret(token),
        length: token.as_bytes().len(),
    }
}

/// The API key to write: the one that was given or chosen, if it is one.
pub fn token_to_write(token: Option<String>) -> (r: Result<String, String>)
    ensures
        match token {
            None => r matches Err(e) && e@ == "没有可写入的 Simplaj API Key。"@,
            Some(t) => if "sk-"@.is_prefix_of(t@) {
                r == Ok::<String, String>(t)
            } else {
                r matches Err(e) && e@ == "Simplaj API Key 需以 sk- 开头。"@
            },
        },
{
    match token {
        None => Err("没有可写入的 Simplaj API Key。".to_owned()),
        Some(t) => if starts_with(t.as_str(), "sk-") {
            Ok(t)
        } else {
            Err("Simplaj API Key 需以 sk- 开头。".to_owned())
        },
    }
}

} // verus!
