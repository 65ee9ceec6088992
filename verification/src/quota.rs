//! The quota of a ChatGPT login: what the service says of it, and how it is
//! told. Percentages are floating-point numbers; here they stand as the JSON
//! values that were received, and as the texts that show them.

use vstd::prelude::*;

use crate::auth::{mask_email, masked_email, LocalChatGptAuth};
use crate::config::{mask_secret, masked};
use crate::json::{
    as_bool, as_text, bool_of, bool_or_null, field, field_of, filter_null, get_of, int_or_null,
    json_bool_or_null, json_int_or_null, json_model, json_number_as_i64, json_number_text, json_read,
    json_text_or_null, lemma_models, models, number_text_of, opt_int, opt_json, parse_json, set_field,
    text_of, text_or_null, unless_null, Json, JsonModel,
};
use crate::number::{parse_signed, signed_value};
use crate::text::{
    blank, chars_of, decimal, decimal_text, is_blank, join, joined, opt_text, same, texts,
};

verus! {

pub const CHATGPT_USAGE_URL: &'static str = "https://chatgpt.com/backend-api/wham/usage";

/// A number of the service: a JSON integer, or an integer in a text.
pub open spec fn integer_of(value: Option<JsonModel>) -> Option<int> {
    match value {
        Some(JsonModel::Number(n)) => signed_value(number_text_of(n)),
        Some(JsonModel::Text(s)) => signed_value(s),
        _ => None,
    }
}

pub fn number_as_i64(value: Option<&Json>) -> (r: Option<i64>)
    ensures
        opt_int(r) == integer_of(opt_json(value)),
{
    match value {
        Some(Json::Number(n)) => json_number_as_i64(n),
        Some(Json::Text(s)) => parse_signed(s.as_str()),
        _ => None,
    }
}

/// A value of the service as a text: a text that is not empty, a number, or a
/// truth value.
pub open spec fn shown_value(value: Option<JsonModel>) -> Option<Seq<char>> {
    match value {
        Some(JsonModel::Text(s)) => if s.len() > 0 {
            Some(s)
        } else {
            None
        },
        Some(JsonModel::Number(n)) => Some(number_text_of(n)),
        Some(JsonModel::Bool(b)) => Some(
            if b {
                "true"@
            } else {
                "false"@
            },
        ),
        _ => None,
    }
}

pub fn text_value(value: Option<&Json>) -> (r: Option<String>)
    ensures
        opt_text(r) == shown_value(opt_json(value)),
{
    match value {
        Some(Json::Text(s)) => if s.as_str().is_empty() {
            None
        } else {
            Some(s.clone())
        },
        Some(Json::Number(n)) => Some(json_number_text(n)),
        Some(Json::Bool(b)) => if *b {
            Some("true".to_owned())
        } else {
            Some("false".to_owned())
        },
        _ => None,
    }
}

/// A percentage: the number, and the text that shows it.
pub struct Percent {
    pub value: Json,
    pub text: String,
}

/// A window of a quota as the service states it.
pub struct RawQuotaWindow {
    pub label: String,
    pub used_percent: Option<Json>,
    pub window_minutes: Option<i64>,
    pub resets_at: Option<i64>,
    pub reset_after_seconds: Option<i64>,
}

/// A quota as the service states it.
pub struct RawQuotaBucket {
    pub limit_id: String,
    pub limit_name: Option<String>,
    pub allowed: Option<bool>,
    pub limit_reached: Option<bool>,
    pub primary: Option<RawQuotaWindow>,
    pub secondary: Option<RawQuotaWindow>,
}

/// The credits of an account.
pub struct QuotaCreditsView {
    pub has_credits: Option<bool>,
    pub unlimited: Option<bool>,
    pub balance: Option<String>,
}

/// The limit on spending as the service states it.
pub struct RawSpendControl {
    pub limit: Option<String>,
    pub used: Option<String>,
    pub remaining: Option<String>,
    pub used_percent: Option<Json>,
    pub remaining_percent: Option<Json>,
    pub resets_at: Option<i64>,
    pub reset_after_seconds: Option<i64>,
}

/// All that the service states.
pub struct RawQuota {
    pub buckets: Vec<RawQuotaBucket>,
    pub credits: Option<QuotaCreditsView>,
    pub spend_control: Option<RawSpendControl>,
    pub rate_limit_reached_type: Option<String>,
    pub plan_type: Option<String>,
}

/// `n` over 60, towards zero.
pub open spec fn over_sixty(n: int) -> int {
    if n >= 0 {
        n / 60
    } else {
        -((-n) / 60)
    }
}

/// Seconds as minutes that have begun.
pub open spec fn begun_minutes(seconds: Option<int>) -> Option<int> {
    match seconds {
        Some(s) => Some(over_sixty(s + 59)),
        None => None,
    }
}

fn minutes_of(seconds: Option<i64>) -> (r: Option<i64>)
    ensures
        opt_int(r) == begun_minutes(opt_int(seconds)),
{
    match seconds {
        Some(s) => {
            let n: i128 = s as i128 + 59;
            if n >= 0 {
                Some((n / 60) as i64)
            } else {
                let m: i128 = -n;
                Some((-(m / 60)) as i64)
            }
        },
        None => None,
    }
}

pub open spec fn opt_json_owned(value: Option<Json>) -> Option<JsonModel> {
    match value {
        Some(j) => Some(j@),
        None => None,
    }
}

fn duplicate_of(value: Option<&Json>) -> (r: Option<Json>)
    ensures
        opt_json_owned(r) == opt_json(value),
{
    match value {
        Some(j) => Some(j.duplicate()),
        None => None,
    }
}

/// Whether `w` is the window that a value states.
pub open spec fn is_window(w: RawQuotaWindow, value: JsonModel, label: Seq<char>) -> bool {
    &&& w.label@ == label
    &&& opt_json_owned(w.used_percent) == field(value, "used_percent"@)
    &&& opt_int(w.window_minutes) == begun_minutes(integer_of(field(value, "limit_window_seconds"@)))
    &&& opt_int(w.resets_at) == integer_of(field(value, "reset_at"@))
    &&& opt_int(w.reset_after_seconds) == integer_of(field(value, "reset_after_seconds"@))
}

/// Whether `w` is the window that a value states, none being stated by none
/// or by null.
pub open spec fn window_shows(w: Option<RawQuotaWindow>, value: Option<JsonModel>, label: Seq<char>) -> bool {
    match (unless_null(value), w) {
        (Some(v), Some(window)) => is_window(window, v, label),
        (None, None) => true,
        _ => false,
    }
}

pub fn parse_quota_window(value: Option<&Json>, label: &str) -> (r: Option<RawQuotaWindow>)
    ensures
        window_shows(r, opt_json(value), label@),
{
    match filter_null(value) {
        None => None,
        Some(v) => Some(
            RawQuotaWindow {
                label: label.to_owned(),
                used_percent: duplicate_of(v.get("used_percent")),
                window_minutes: minutes_of(number_as_i64(v.get("limit_window_seconds"))),
                resets_at: number_as_i64(v.get("reset_at")),
                reset_after_seconds: number_as_i64(v.get("reset_after_seconds")),
            },
        ),
    }
}

/// Whether `b` is the quota of the given name that a value states.
pub open spec fn bucket_shows(
    b: RawQuotaBucket,
    id: Seq<char>,
    name: Option<Seq<char>>,
    value: Option<JsonModel>,
) -> bool {
    let details = unless_null(value);
    &&& b.limit_id@ == id
    &&& opt_text(b.limit_name) == name
    &&& b.allowed == bool_of(field_of(details, "allowed"@))
    &&& b.limit_reached == bool_of(field_of(details, "limit_reached"@))
    &&& window_shows(b.primary, field_of(details, "primary_window"@), "primary"@)
    &&& window_shows(b.secondary, field_of(details, "secondary_window"@), "secondary"@)
}

pub fn parse_quota_bucket(limit_id: String, limit_name: Option<String>, value: Option<&Json>) -> (r: RawQuotaBucket)
    ensures
        bucket_shows(r, limit_id@, opt_text(limit_name), opt_json(value)),
{
    let details = filter_null(value);
    RawQuotaBucket {
        limit_id,
        limit_name,
        allowed: as_bool(get_of(details, "allowed")),
        limit_reached: as_bool(get_of(details, "limit_reached")),
        primary: parse_quota_window(get_of(details, "primary_window"), "primary"),
        secondary: parse_quota_window(get_of(details, "secondary_window"), "secondary"),
    }
}

/// The further quotas that the service states.
pub open spec fn additional_of(payload: JsonModel) -> Seq<JsonModel> {
    match field(payload, "additional_rate_limits"@) {
        Some(JsonModel::Array(items)) => items,
        _ => Seq::empty(),
    }
}

/// The id of a further quota.
pub open spec fn additional_id(item: JsonModel) -> Seq<char> {
    match shown_value(field(item, "metered_feature"@)) {
        Some(s) => s,
        None => match shown_value(field(item, "limit_name"@)) {
            Some(s) => s,
            None => "additional"@,
        },
    }
}

/// Whether the quotas are those that the service states, that of Codex first.
pub open spec fn buckets_show(buckets: Seq<RawQuotaBucket>, payload: JsonModel) -> bool {
    let items = additional_of(payload);
    &&& buckets.len() == items.len() + 1
    &&& bucket_shows(buckets[0], "codex"@, None, field(payload, "rate_limit"@))
    &&& forall|i: int| 0 <= i < items.len() ==> bucket_shows(
        buckets[i + 1],
        additional_id(#[trigger] items[i]),
        shown_value(field(items[i], "limit_name"@)),
        field(items[i], "rate_limit"@),
    )
}

pub open spec fn credits_show(c: Option<QuotaCreditsView>, value: Option<JsonModel>) -> bool {
    match (unless_null(value), c) {
        (Some(v), Some(credits)) => {
            &&& credits.has_credits == bool_of(field(v, "has_credits"@))
            &&& credits.unlimited == bool_of(field(v, "unlimited"@))
            &&& opt_text(credits.balance) == shown_value(field(v, "balance"@))
        },
        (None, None) => true,
        _ => false,
    }
}

pub open spec fn spend_shows(s: Option<RawSpendControl>, value: Option<JsonModel>) -> bool {
    match (unless_null(value), s) {
        (Some(v), Some(spend)) => {
            &&& opt_text(spend.limit) == shown_value(field(v, "limit"@))
            &&& opt_text(spend.used) == shown_value(field(v, "used"@))
            &&& opt_text(spend.remaining) == shown_value(field(v, "remaining"@))
            &&& opt_json_owned(spend.used_percent) == field(v, "used_percent"@)
            &&& opt_json_owned(spend.remaining_percent) == field(v, "remaining_percent"@)
            &&& opt_int(spend.resets_at) == integer_of(field(v, "reset_at"@))
            &&& opt_int(spend.reset_after_seconds) == integer_of(field(v, "reset_after_seconds"@))
        },
        (None, None) => true,
        _ => false,
    }
}

/// Whether a quota is the one that an answer shows.
pub open spec fn quota_shows(quota: RawQuota, payload: JsonModel) -> bool {
    &&& buckets_show(quota.buckets@, payload)
    &&& credits_show(quota.credits, field(payload, "credits"@))
    &&& spend_shows(quota.spend_control, field_of(field(payload, "spend_control"@), "individual_limit"@))
    &&& opt_text(quota.rate_limit_reached_type) == text_of(
        field_of(field(payload, "rate_limit_reached_type"@), "type"@),
    )
    &&& opt_text(quota.plan_type) == shown_value(field(payload, "plan_type"@))
}

/// Reads what the service states of a quota.
pub fn parse_quota_payload(payload: &Json) -> (r: RawQuota)
    ensures
        quota_shows(r, payload@),
{
    let mut buckets: Vec<RawQuotaBucket> = Vec::new();
    buckets.push(parse_quota_bucket("codex".to_owned(), None, payload.get("rate_limit")));
    let ghost items = additional_of(payload@);
    if let Some(Json::Array(list)) = payload.get("additional_rate_limits") {
        proof {
            lemma_models(list@);
        }
        for i in 0..list.len()
            invariant
                items == models(list@),
                items.len() == list@.len(),
                forall|k: int| 0 <= k < list@.len() ==> #[trigger] items[k] == list@[k]@,
                buckets@.len() == i + 1,
                bucket_shows(buckets@[0], "codex"@, None, field(payload@, "rate_limit"@)),
                forall|k: int| 0 <= k < i ==> bucket_shows(
                    buckets@[k + 1],
                    additional_id(#[trigger] items[k]),
                    shown_value(field(items[k], "limit_name"@)),
                    field(items[k], "rate_limit"@),
                ),
        {
            let item = &list[i];
            let id = match text_value(item.get("metered_feature")) {
                Some(s) => s,
                None => match text_value(item.get("limit_name")) {
                    Some(s) => s,
                    None => "additional".to_owned(),
                },
            };
            let name = text_value(item.get("limit_name"));
            buckets.push(parse_quota_bucket(id, name, item.get("rate_limit")));
        }
    }
    let credits = match filter_null(payload.get("credits")) {
        Some(v) => Some(
            QuotaCreditsView {
                has_credits: as_bool(v.get("has_credits")),
                unlimited: as_bool(v.get("unlimited")),
                balance: text_value(v.get("balance")),
            },
        ),
        None => None,
    };
    let spend_control = match filter_null(get_of(payload.get("spend_control"), "individual_limit")) {
        Some(v) => Some(
            RawSpendControl {
                limit: text_value(v.get("limit")),
                used: text_value(v.get("used")),
                remaining: text_value(v.get("remaining")),
                used_percent: duplicate_of(v.get("used_percent")),
                remaining_percent: duplicate_of(v.get("remaining_percent")),
                resets_at: number_as_i64(v.get("reset_at")),
                reset_after_seconds: number_as_i64(v.get("reset_after_seconds")),
            },
        ),
        None => None,
    };
    let rate_limit_reached_type = match as_text(get_of(payload.get("rate_limit_reached_type"), "type")) {
        Some(s) => Some(s.to_owned()),
        None => None,
    };
    RawQuota {
        buckets,
        credits,
        spend_control,
        rate_limit_reached_type,
        plan_type: text_value(payload.get("plan_type")),
    }
}

/// A window of a quota.
pub struct QuotaWindowView {
    pub label: String,
    pub used_percent: Option<Percent>,
    pub remaining_percent: Option<Percent>,
    pub window_minutes: Option<i64>,
    pub resets_at: Option<i64>,
    pub reset_after_seconds: Option<i64>,
}

/// A quota.
pub struct QuotaBucketView {
    pub limit_id: String,
    pub limit_name: Option<String>,
    pub allowed: Option<bool>,
    pub limit_reached: Option<bool>,
    pub primary: Option<QuotaWindowView>,
    pub secondary: Option<QuotaWindowView>,
}

/// The limit on spending.
pub struct SpendControlView {
    pub limit: Option<String>,
    pub used: Option<String>,
    pub remaining: Option<String>,
    pub used_percent: Option<Percent>,
    pub remaining_percent: Option<Percent>,
    pub resets_at: Option<i64>,
    pub reset_after_seconds: Option<i64>,
}

/// What a query of the quota gave.
pub struct OpenAiQuotaResult {
    pub ok: bool,
    pub status: String,
    pub auth_mode: Option<String>,
    pub account_id_masked: Option<String>,
    pub email_masked: Option<String>,
    pub plan_type: Option<String>,
    pub last_refresh: Option<String>,
    pub endpoint: String,
    pub fetched_at_unix_ms: u128,
    pub buckets: Vec<QuotaBucketView>,
    pub credits: Option<QuotaCreditsView>,
    pub spend_control: Option<SpendControlView>,
    pub rate_limit_reached_type: Option<String>,
    pub message: String,
    pub recommendation: String,
}

pub open spec fn advice() -> Seq<char> {
    "额度恢复后，可以先完全退出 Codex，再执行 `codex-tools relay gpt` 自动注释 base_url 和 experimental_bearer_token，然后重启 Codex 使用当前 GPT 订阅；需要中转时执行 `codex-tools relay restore` 再重启 Codex。"@
}

pub fn quota_recommendation() -> (r: String)
    ensures
        r@ == advice(),
{
    "额度恢复后，可以先完全退出 Codex，再执行 `codex-tools relay gpt` 自动注释 base_url 和 experimental_bearer_token，然后重启 Codex 使用当前 GPT 订阅；需要中转时执行 `codex-tools relay restore` 再重启 Codex。".to_owned()
}

/// Whether the result tells of the login, with its account and address
/// masked.
pub open spec fn tells_login(r: OpenAiQuotaResult, auth: Option<LocalChatGptAuth>) -> bool {
    match auth {
        Some(a) => {
            &&& opt_text(r.auth_mode) == opt_text(a.auth_mode)
            &&& opt_text(r.account_id_masked) == Some(masked(a.account_id@))
            &&& opt_text(r.email_masked) == (match a.email {
                Some(email) => Some(masked_email(email@)),
                None => None,
            })
            &&& opt_text(r.last_refresh) == opt_text(a.last_refresh)
        },
        None => r.auth_mode is None && r.account_id_masked is None && r.email_masked is None && r.last_refresh is None,
    }
}

fn masked_address(email: &Option<String>) -> (r: Option<String>)
    ensures
        opt_text(r) == (match *email {
            Some(e) => Some(masked_email(e@)),
            None => None,
        }),
{
    match email {
        Some(e) => Some(mask_email(e.as_str())),
        None => None,
    }
}

/// Whether `r` is the result where the quota could not be had.
pub open spec fn is_unavailable(
    r: OpenAiQuotaResult,
    status: Seq<char>,
    message: Seq<char>,
    auth: Option<LocalChatGptAuth>,
    now_ms: u128,
) -> bool {
    &&& !r.ok
    &&& r.status@ == status
    &&& tells_login(r, auth)
    &&& opt_text(r.plan_type) == (match auth {
        Some(a) => opt_text(a.plan_type),
        None => None,
    })
    &&& r.endpoint@ == CHATGPT_USAGE_URL@
    &&& r.fetched_at_unix_ms == now_ms
    &&& r.buckets@.len() == 0
    &&& r.credits is None
    &&& r.spend_control is None
    &&& r.rate_limit_reached_type is None
    &&& r.message@ == message
    &&& r.recommendation@ == advice()
}

/// The result where the quota could not be had.
pub fn quota_result_unavailable(status: &str, message: String, auth: Option<LocalChatGptAuth>, now_ms: u128) -> (r:
    OpenAiQuotaResult)
    ensures
        is_unavailable(r, status@, message@, auth, now_ms),
{
    let (auth_mode, account_id_masked, email_masked, plan_type, last_refresh) = match auth {
        Some(a) => (
            a.auth_mode,
            Some(mask_secret(a.account_id.as_str())),
            masked_address(&a.email),
            a.plan_type,
            a.last_refresh,
        ),
        None => (None, None, None, None, None),
    };
    OpenAiQuotaResult {
        ok: false,
        status: status.to_owned(),
        auth_mode,
        account_id_masked,
        email_masked,
        plan_type,
        last_refresh,
        endpoint: CHATGPT_USAGE_URL.to_owned(),
        fetched_at_unix_ms: now_ms,
        buckets: Vec::new(),
        credits: None,
        spend_control: None,
        rate_limit_reached_type: None,
        message,
        recommendation: quota_recommendation(),
    }
}

/// The first 320 characters.
pub open spec fn preview_of(body: Seq<char>) -> Seq<char> {
    if body.len() > 320 {
        body.take(320)
    } else {
        body
    }
}

/// What to tell of an answer that is not a success.
pub open spec fn http_error_text(status: Seq<char>, content_type: Seq<char>, body: Seq<char>) -> Seq<char> {
    "OpenAI usage 接口返回 HTTP "@ + status + "，content-type="@ + content_type + "，响应摘要："@ + preview_of(body)
}

/// What to tell of an answer that is not a success.
pub fn quota_http_error(status: &str, content_type: &str, body: &str) -> (r: String)
    ensures
        r@ == http_error_text(status@, content_type@, body@),
{
    let n: usize = chars_of(body).len();
    let preview = if n > 320 {
        body.substring_char(0, 320)
    } else {
        body
    };
    assert(preview@ =~= preview_of(body@));
    "OpenAI usage 接口返回 HTTP ".to_owned().concat(status).concat("，content-type=").concat(content_type).concat(
        "，响应摘要：",
    ).concat(preview)
}

/// What came of asking for the quota.
pub enum UsageAnswer {
    /// There is no login to ask with.
    NoLogin { reason: String },
    /// The request did not get through.
    NotSent { error: String },
    /// The service answered.
    Answered { success: bool, status: String, content_type: String, body: String },
}

/// Why no quota was had, as a status and a message, if none was.
pub open spec fn usage_fault(answer: UsageAnswer) -> Option<(Seq<char>, Seq<char>)> {
    match answer {
        UsageAnswer::NoLogin { reason } => Some(("unavailable"@, reason@)),
        UsageAnswer::NotSent { error } => Some(("error"@, "无法连接 OpenAI ChatGPT usage 接口："@ + error@)),
        UsageAnswer::Answered { success, status, content_type, body } => if !success {
            Some(("error"@, http_error_text(status@, content_type@, body@)))
        } else {
            match json_read(body@) {
                Ok(_) => None,
                Err(error) => Some(("error"@, "OpenAI usage 响应不是可识别 JSON："@ + error)),
            }
        },
    }
}

/// The quota that was had, or the status and the message of the query.
pub fn quota_outcome(answer: &UsageAnswer) -> (r: Result<RawQuota, (String, String)>)
    ensures
        match r {
            Ok(quota) => usage_fault(*answer) is None && (answer matches UsageAnswer::Answered { body, .. }
                && quota_shows(quota, json_read(body@)->Ok_0)),
            Err((status, message)) => usage_fault(*answer) == Some((status@, message@)),
        },
{
    match answer {
        UsageAnswer::NoLogin { reason } => Err(("unavailable".to_owned(), reason.clone())),
        UsageAnswer::NotSent { error } => Err(
            ("error".to_owned(), "无法连接 OpenAI ChatGPT usage 接口：".to_owned().concat(error.as_str())),
        ),
        UsageAnswer::Answered { success, status, content_type, body } => {
            if !*success {
                return Err(
                    ("error".to_owned(), quota_http_error(status.as_str(), content_type.as_str(), body.as_str())),
                );
            }
            match parse_json(body.as_str()) {
                Ok(payload) => Ok(parse_quota_payload(&payload)),
                Err(error) => Err(
                    ("error".to_owned(), "OpenAI usage 响应不是可识别 JSON：".to_owned().concat(error.as_str())),
                ),
            }
        },
    }
}

/// Whether one of the quotas is used up.
pub open spec fn is_limit_reached(buckets: Seq<QuotaBucketView>) -> bool {
    exists|i: int| 0 <= i < buckets.len() && (#[trigger] buckets[i]).limit_reached == Some(true)
}

fn limit_reached(buckets: &Vec<QuotaBucketView>) -> (r: bool)
    ensures
        r == is_limit_reached(buckets@),
{
    for i in 0..buckets.len()
        invariant
            forall|k: int| 0 <= k < i ==> (#[trigger] buckets@[k]).limit_reached != Some(true),
    {
        if let Some(reached) = buckets[i].limit_reached {
            if reached {
                return true;
            }
        }
    }
    false
}

/// Whether `r` is the result of a query that was answered.
pub open spec fn is_quota_result(
    r: OpenAiQuotaResult,
    auth: LocalChatGptAuth,
    plan_type: Option<String>,
    buckets: Vec<QuotaBucketView>,
    credits: Option<QuotaCreditsView>,
    spend_control: Option<SpendControlView>,
    rate_limit_reached_type: Option<String>,
    now_ms: u128,
) -> bool {
    &&& r.ok
    &&& r.status@ == "available"@
    &&& tells_login(r, Some(auth))
    &&& opt_text(r.plan_type) == (if plan_type is Some {
        opt_text(plan_type)
    } else {
        opt_text(auth.plan_type)
    })
    &&& r.endpoint@ == CHATGPT_USAGE_URL@
    &&& r.fetched_at_unix_ms == now_ms
    &&& r.buckets == buckets
    &&& r.credits == credits
    &&& r.spend_control == spend_control
    &&& r.rate_limit_reached_type == rate_limit_reached_type
    &&& r.message@ == (if is_limit_reached(buckets@) {
        "已读取当前 ChatGPT 账号额度，存在已触发的使用限制。"@
    } else {
        "已读取当前 ChatGPT 账号额度。"@
    })
    &&& r.recommendation@ == advice()
}

/// The result of a query that was answered.
pub fn quota_result(
    auth: LocalChatGptAuth,
    plan_type: Option<String>,
    buckets: Vec<QuotaBucketView>,
    credits: Option<QuotaCreditsView>,
    spend_control: Option<SpendControlView>,
    rate_limit_reached_type: Option<String>,
    now_ms: u128,
) -> (r: OpenAiQuotaResult)
    ensures
        is_quota_result(r, auth, plan_type, buckets, credits, spend_control, rate_limit_reached_type, now_ms),
{
    let message = if limit_reached(&buckets) {
        "已读取当前 ChatGPT 账号额度，存在已触发的使用限制。".to_owned()
    } else {
        "已读取当前 ChatGPT 账号额度。".to_owned()
    };
    let account_id_masked = Some(mask_secret(auth.account_id.as_str()));
    let email_masked = masked_address(&auth.email);
    let plan_type = match plan_type {
        Some(plan) => Some(plan),
        None => auth.plan_type,
    };
    OpenAiQuotaResult {
        ok: true,
        status: "available".to_owned(),
        auth_mode: auth.auth_mode,
        account_id_masked,
        email_masked,
        plan_type,
        last_refresh: auth.last_refresh,
        endpoint: CHATGPT_USAGE_URL.to_owned(),
        fetched_at_unix_ms: now_ms,
        buckets,
        credits,
        spend_control,
        rate_limit_reached_type,
        message,
        recommendation: quota_recommendation(),
    }
}

/// A span of time in words, to the minute, or to the hour from a day on.
pub open spec fn duration_words(seconds: int) -> Seq<char> {
    if seconds < 60 {
        "不到 1 分钟"@
    } else {
        let minutes = (seconds + 59) / 60;
        let hours = minutes / 60;
        if minutes < 60 {
            decimal(minutes as nat) + " 分钟"@
        } else if hours < 24 {
            if minutes % 60 == 0 {
                decimal(hours as nat) + " 小时"@
            } else {
                decimal(hours as nat) + " 小时 "@ + decimal((minutes % 60) as nat) + " 分钟"@
            }
        } else if hours % 24 == 0 {
            decimal((hours / 24) as nat) + " 天"@
        } else {
            decimal((hours / 24) as nat) + " 天 "@ + decimal((hours % 24) as nat) + " 小时"@
        }
    }
}

fn wide_duration(seconds: i128) -> (r: String)
    requires
        seconds <= i128::MAX - 59,
    ensures
        r@ == duration_words(seconds as int),
{
    if seconds < 60 {
        return "不到 1 分钟".to_owned();
    }
    let minutes: u128 = (seconds as u128 + 59) / 60;
    if minutes < 60 {
        return decimal_text(minutes).concat(" 分钟");
    }
    let hours: u128 = minutes / 60;
    let rest: u128 = minutes % 60;
    if hours < 24 {
        if rest == 0 {
            decimal_text(hours).concat(" 小时")
        } else {
            decimal_text(hours).concat(" 小时 ").concat(decimal_text(rest).as_str()).concat(" 分钟")
        }
    } else {
        let days: u128 = hours / 24;
        let left: u128 = hours % 24;
        if left == 0 {
            decimal_text(days).concat(" 天")
        } else {
            decimal_text(days).concat(" 天 ").concat(decimal_text(left).as_str()).concat(" 小时")
        }
    }
}

pub fn human_duration(seconds: i64) -> (r: String)
    ensures
        r@ == duration_words(seconds as int),
{
    wide_duration(seconds as i128)
}

/// When a window begins anew, in words.
pub open spec fn reset_words(after: Option<i64>, at: Option<i64>, now: int) -> Option<Seq<char>> {
    match (after, at) {
        (Some(seconds), _) if seconds >= 0 => Some("约 "@ + duration_words(seconds as int) + "后"@),
        (_, Some(t)) => Some(
            if t > now {
                "约 "@ + duration_words(t - now) + "后"@
            } else {
                "随时可能恢复"@
            },
        ),
        (_, None) => None,
    }
}

pub fn reset_summary(reset_after_seconds: Option<i64>, resets_at: Option<i64>, now_seconds: i64) -> (r: Option<String>)
    ensures
        opt_text(r) == reset_words(reset_after_seconds, resets_at, now_seconds as int),
{
    if let Some(seconds) = reset_after_seconds {
        if seconds >= 0 {
            return Some("约 ".to_owned().concat(human_duration(seconds).as_str()).concat("后"));
        }
    }
    match resets_at {
        Some(t) => if t > now_seconds {
            let left: i128 = t as i128 - now_seconds as i128;
            Some("约 ".to_owned().concat(wide_duration(left).as_str()).concat("后"))
        } else {
            Some("随时可能恢复".to_owned())
        },
        None => None,
    }
}

pub open spec fn window_label(label: Seq<char>) -> Seq<char> {
    if label == "primary"@ {
        "短周期"@
    } else if label == "secondary"@ {
        "长周期"@
    } else {
        label
    }
}

fn window_label_text(label: &str) -> (r: String)
    ensures
        r@ == window_label(label@),
{
    if same(label, "primary") {
        "短周期".to_owned()
    } else if same(label, "secondary") {
        "长周期".to_owned()
    } else {
        label.to_owned()
    }
}

pub open spec fn percent_or_unknown(p: Option<Percent>) -> Seq<char> {
    match p {
        Some(percent) => percent.text@,
        None => "未知"@,
    }
}

fn percent_text(p: &Option<Percent>) -> (r: String)
    ensures
        r@ == percent_or_unknown(*p),
{
    match p {
        Some(percent) => percent.text.clone(),
        None => "未知".to_owned(),
    }
}

/// A window of a quota in one line.
pub open spec fn window_summary(w: QuotaWindowView, now: int) -> Seq<char> {
    window_label(w.label@) + "：已用 "@ + percent_or_unknown(w.used_percent) + "，剩余 "@ + percent_or_unknown(
        w.remaining_percent,
    ) + (match w.window_minutes {
        Some(m) => "，窗口 "@ + duration_words(m * 60),
        None => Seq::empty(),
    }) + (match reset_words(w.reset_after_seconds, w.resets_at, now) {
        Some(s) => "，恢复："@ + s,
        None => Seq::empty(),
    })
}

pub fn quota_window_summary(window: &QuotaWindowView, now_seconds: i64) -> (r: String)
    ensures
        r@ == window_summary(*window, now_seconds as int),
{
    let span = match window.window_minutes {
        Some(m) => "，窗口 ".to_owned().concat(wide_duration(m as i128 * 60).as_str()),
        None => String::new(),
    };
    let reset = match reset_summary(window.reset_after_seconds, window.resets_at, now_seconds) {
        Some(s) => "，恢复：".to_owned().concat(s.as_str()),
        None => String::new(),
    };
    window_label_text(window.label.as_str()).concat("：已用 ").concat(
        percent_text(&window.used_percent).as_str(),
    ).concat("，剩余 ").concat(percent_text(&window.remaining_percent).as_str()).concat(span.as_str()).concat(
        reset.as_str(),
    )
}

/// The name of a quota, or else its id.
pub open spec fn bucket_label(b: QuotaBucketView) -> Seq<char> {
    match b.limit_name {
        Some(name) => if is_blank(name@) {
            b.limit_id@
        } else {
            name@
        },
        None => b.limit_id@,
    }
}

pub fn quota_bucket_label(bucket: &QuotaBucketView) -> (r: String)
    ensures
        r@ == bucket_label(*bucket),
{
    match &bucket.limit_name {
        Some(name) => if blank(name.as_str()) {
            bucket.limit_id.clone()
        } else {
            name.clone()
        },
        None => bucket.limit_id.clone(),
    }
}

pub open spec fn bucket_state(b: QuotaBucketView) -> Seq<char> {
    match (b.allowed, b.limit_reached) {
        (_, Some(true)) => "已用尽"@,
        (Some(true), _) => "可用"@,
        (Some(false), _) => "暂不可用"@,
        _ => "状态未知"@,
    }
}

pub fn quota_bucket_state(bucket: &QuotaBucketView) -> (r: &'static str)
    ensures
        r@ == bucket_state(*bucket),
{
    match (bucket.allowed, bucket.limit_reached) {
        (_, Some(true)) => "已用尽",
        (Some(true), _) => "可用",
        (Some(false), _) => "暂不可用",
        _ => "状态未知",
    }
}

/// The windows of a quota, the short one first.
pub open spec fn windows_of(b: QuotaBucketView) -> Seq<QuotaWindowView> {
    opt_window(b.primary) + opt_window(b.secondary)
}

pub open spec fn opt_window(window: Option<QuotaWindowView>) -> Seq<QuotaWindowView> {
    match window {
        Some(w) => seq![w],
        None => Seq::empty(),
    }
}

pub open spec fn window_lines(windows: Seq<QuotaWindowView>, now: int) -> Seq<Seq<char>> {
    windows.map_values(|w: QuotaWindowView| "    "@ + window_summary(w, now))
}

/// The lines of the quotas.
pub open spec fn bucket_lines(buckets: Seq<QuotaBucketView>, now: int) -> Seq<Seq<char>>
    decreases buckets.len(),
{
    if buckets.len() == 0 {
        Seq::empty()
    } else {
        let b = buckets.last();
        bucket_lines(buckets.drop_last(), now) + seq!["  "@ + bucket_label(b) + "："@ + bucket_state(b)]
            + window_lines(windows_of(b), now)
    }
}

/// A line with a label, if there is something to tell.
pub open spec fn told(label: Seq<char>, value: Option<Seq<char>>) -> Seq<Seq<char>> {
    match value {
        Some(s) => seq![label + s],
        None => Seq::empty(),
    }
}

pub open spec fn query_word(result: OpenAiQuotaResult) -> Seq<char> {
    if result.ok {
        if is_limit_reached(result.buckets@) {
            "已触发额度限制"@
        } else {
            "当前未显示额度限制"@
        }
    } else {
        "无法查询"@
    }
}

pub open spec fn opt_percent(p: Option<Percent>) -> Option<Seq<char>> {
    match p {
        Some(percent) => Some(percent.text@),
        None => None,
    }
}

/// The lines on the limit on spending.
pub open spec fn spend_lines(spend: Option<SpendControlView>, now: int) -> Seq<Seq<char>> {
    match spend {
        Some(s) => seq![Seq::empty(), "消费限制"@] + told("  剩余："@, opt_text(s.remaining)) + told(
            "  已用："@,
            opt_percent(s.used_percent),
        ) + told("  恢复："@, reset_words(s.reset_after_seconds, s.resets_at, now)),
        None => Seq::empty(),
    }
}

/// The lines on the login and on how the query went.
pub open spec fn quota_head(result: OpenAiQuotaResult) -> Seq<Seq<char>> {
    seq!["OpenAI 额度"@] + told("  账号："@, opt_text(result.email_masked)) + told(
        "  订阅："@,
        opt_text(result.plan_type),
    ) + told("  Account："@, opt_text(result.account_id_masked)) + seq!["  查询结果："@ + query_word(result)] + (if !result.ok {
        seq!["  原因："@ + result.message@]
    } else {
        told("  限制类型："@, opt_text(result.rate_limit_reached_type))
    })
}

/// The lines on the quotas, under a heading.
pub open spec fn bucket_section(buckets: Seq<QuotaBucketView>, now: int) -> Seq<Seq<char>> {
    if buckets.len() > 0 {
        seq![Seq::empty(), "额度窗口"@] + bucket_lines(buckets, now)
    } else {
        Seq::empty()
    }
}

/// The lines that tell a quota.
pub open spec fn quota_lines(result: OpenAiQuotaResult, now: int) -> Seq<Seq<char>> {
    quota_head(result) + bucket_section(result.buckets@, now) + spend_lines(result.spend_control, now) + seq![
        Seq::empty(),
    ] + seq![result.recommendation@]
}

fn push_told(lines: &mut Vec<String>, label: &str, value: &Option<String>)
    ensures
        texts(final(lines)@) == texts(old(lines)@) + told(label@, opt_text(*value)),
{
    let ghost before = texts(lines@);
    if let Some(s) = value {
        lines.push(label.to_owned().concat(s.as_str()));
    }
    assert(texts(lines@) =~= before + told(label@, opt_text(*value)));
}

fn push_line(lines: &mut Vec<String>, line: String)
    ensures
        texts(final(lines)@) == texts(old(lines)@) + seq![line@],
{
    let ghost before = texts(lines@);
    lines.push(line);
    assert(texts(lines@) =~= before + seq![line@]);
}

fn push_window(lines: &mut Vec<String>, window: &Option<QuotaWindowView>, now_seconds: i64)
    ensures
        texts(final(lines)@) == texts(old(lines)@) + window_lines(opt_window(*window), now_seconds as int),
{
    let ghost before = texts(lines@);
    match window {
        Some(w) => {
            let line = "    ".to_owned().concat(quota_window_summary(w, now_seconds).as_str());
            push_line(lines, line);
            assert(window_lines(seq![*w], now_seconds as int) =~= seq![line@]);
        },
        None => {
            assert(window_lines(Seq::empty(), now_seconds as int) =~= Seq::empty());
            assert(texts(lines@) =~= before + Seq::empty());
        },
    }
}

fn query_label(result: &OpenAiQuotaResult) -> (r: &'static str)
    ensures
        r@ == query_word(*result),
{
    if result.ok {
        if limit_reached(&result.buckets) {
            "已触发额度限制"
        } else {
            "当前未显示额度限制"
        }
    } else {
        "无法查询"
    }
}

fn percent_option(p: &Option<Percent>) -> (r: Option<String>)
    ensures
        opt_text(r) == opt_percent(*p),
{
    match p {
        Some(percent) => Some(percent.text.clone()),
        None => None,
    }
}

fn push_buckets(lines: &mut Vec<String>, buckets: &Vec<QuotaBucketView>, now_seconds: i64)
    ensures
        texts(final(lines)@) == texts(old(lines)@) + bucket_lines(buckets@, now_seconds as int),
{
    let ghost before = texts(lines@);
    let ghost now = now_seconds as int;
    assert(before + bucket_lines(buckets@.take(0), now) =~= before);
    for i in 0..buckets.len()
        invariant
            now == now_seconds as int,
            texts(lines@) == before + bucket_lines(buckets@.take(i as int), now),
    {
        let b = &buckets[i];
        let ghost head = bucket_lines(buckets@.take(i as int), now);
        let line = "  ".to_owned().concat(quota_bucket_label(b).as_str()).concat("：").concat(quota_bucket_state(b));
        push_line(lines, line);
        push_window(lines, &b.primary, now_seconds);
        push_window(lines, &b.secondary, now_seconds);
        assert(buckets@.take(i + 1).drop_last() =~= buckets@.take(i as int));
        let ghost p = opt_window(b.primary);
        let ghost s = opt_window(b.secondary);
        assert(window_lines(windows_of(*b), now) =~= window_lines(p, now) + window_lines(s, now));
        assert(texts(lines@) =~= before + (head + seq![line@] + (window_lines(p, now) + window_lines(s, now))));
    }
    assert(buckets@.take(buckets@.len() as int) =~= buckets@);
}

fn head_lines(result: &OpenAiQuotaResult) -> (r: Vec<String>)
    ensures
        texts(r@) == quota_head(*result),
{
    let mut lines: Vec<String> = Vec::new();
    lines.push("OpenAI 额度".to_owned());
    assert(texts(lines@) =~= seq!["OpenAI 额度"@]);
    push_told(&mut lines, "  账号：", &result.email_masked);
    push_told(&mut lines, "  订阅：", &result.plan_type);
    push_told(&mut lines, "  Account：", &result.account_id_masked);
    push_line(&mut lines, "  查询结果：".to_owned().concat(query_label(result)));
    if !result.ok {
        push_line(&mut lines, "  原因：".to_owned().concat(result.message.as_str()));
    } else {
        push_told(&mut lines, "  限制类型：", &result.rate_limit_reached_type);
    }
    lines
}

fn push_bucket_section(lines: &mut Vec<String>, buckets: &Vec<QuotaBucketView>, now_seconds: i64)
    ensures
        texts(final(lines)@) == texts(old(lines)@) + bucket_section(buckets@, now_seconds as int),
{
    let ghost before = texts(lines@);
    if buckets.len() > 0 {
        lines.push(String::new());
        lines.push("额度窗口".to_owned());
        let ghost head = seq![Seq::<char>::empty(), "额度窗口"@];
        assert(texts(lines@) =~= before + head);
        push_buckets(lines, buckets, now_seconds);
        let ghost rest = bucket_lines(buckets@, now_seconds as int);
        assert(before + head + rest =~= before + (head + rest));
    } else {
        assert(texts(lines@) =~= before + Seq::empty());
    }
}

fn push_spend(lines: &mut Vec<String>, spend: &Option<SpendControlView>, now_seconds: i64)
    ensures
        texts(final(lines)@) == texts(old(lines)@) + spend_lines(*spend, now_seconds as int),
{
    let ghost before = texts(lines@);
    match spend {
        Some(s) => {
            lines.push(String::new());
            lines.push("消费限制".to_owned());
            let ghost head = seq![Seq::<char>::empty(), "消费限制"@];
            assert(texts(lines@) =~= before + head);
            let used = percent_option(&s.used_percent);
            let reset = reset_summary(s.reset_after_seconds, s.resets_at, now_seconds);
            push_told(lines, "  剩余：", &s.remaining);
            push_told(lines, "  已用：", &used);
            push_told(lines, "  恢复：", &reset);
            let ghost x = told("  剩余："@, opt_text(s.remaining));
            let ghost y = told("  已用："@, opt_text(used));
            let ghost z = told("  恢复："@, opt_text(reset));
            assert(before + head + x + y + z =~= before + (head + x + y + z));
        },
        None => {
            assert(texts(lines@) =~= before + Seq::empty());
        },
    }
}

/// Tells a quota in words.
pub fn quota_text(result: &OpenAiQuotaResult, now_seconds: i64) -> (r: String)
    ensures
        r@ == joined(quota_lines(*result, now_seconds as int), "\n"@),
{
    let mut lines = head_lines(result);
    push_bucket_section(&mut lines, &result.buckets, now_seconds);
    push_spend(&mut lines, &result.spend_control, now_seconds);
    let empty = String::new();
    assert(empty@ =~= Seq::empty());
    push_line(&mut lines, empty);
    push_line(&mut lines, result.recommendation.clone());
    join(lines.as_slice(), "\n")
}

pub open spec fn percent_or_null(p: Option<Percent>) -> JsonModel {
    match p {
        Some(percent) => percent.value@,
        None => JsonModel::Null,
    }
}

fn json_percent_or_null(p: &Option<Percent>) -> (r: Json)
    ensures
        r@ == percent_or_null(*p),
{
    match p {
        Some(percent) => percent.value.duplicate(),
        None => Json::Null,
    }
}

/// A window of a quota for other programs.
pub open spec fn readable_window(w: QuotaWindowView, now: int) -> JsonModel {
    JsonModel::Object(
        Map::empty().insert("label"@, JsonModel::Text(window_label(w.label@))).insert("summary"@, JsonModel::Text(window_summary(w, now))).insert("usedPercent"@, percent_or_null(w.used_percent)).insert("remainingPercent"@, percent_or_null(w.remaining_percent)).insert("windowMinutes"@, int_or_null(opt_int(w.window_minutes))).insert("recovery"@, text_or_null(reset_words(w.reset_after_seconds, w.resets_at, now))),
    )
}

pub fn quota_window_readable_json(window: &QuotaWindowView, now_seconds: i64) -> (r: Json)
    ensures
        r@ == readable_window(*window, now_seconds as int),
{
    let recovery = reset_summary(window.reset_after_seconds, window.resets_at, now_seconds);
    let mut fields: Vec<(String, Json)> = Vec::new();
    set_field(&mut fields, "label", Json::Text(window_label_text(window.label.as_str())));
    set_field(&mut fields, "summary", Json::Text(quota_window_summary(window, now_seconds)));
    set_field(&mut fields, "usedPercent", json_percent_or_null(&window.used_percent));
    set_field(&mut fields, "remainingPercent", json_percent_or_null(&window.remaining_percent));
    set_field(&mut fields, "windowMinutes", json_int_or_null(window.window_minutes));
    set_field(&mut fields, "recovery", json_text_or_null(&recovery));
    Json::Object(fields)
}

pub open spec fn readable_windows(windows: Seq<QuotaWindowView>, now: int) -> Seq<JsonModel> {
    windows.map_values(|w: QuotaWindowView| readable_window(w, now))
}

/// A quota for other programs.
pub open spec fn readable_bucket(b: QuotaBucketView, now: int) -> JsonModel {
    JsonModel::Object(
        Map::empty().insert("name"@, JsonModel::Text(bucket_label(b))).insert("id"@, JsonModel::Text(b.limit_id@)).insert("state"@, JsonModel::Text(bucket_state(b))).insert("allowed"@, bool_or_null(b.allowed)).insert("limitReached"@, bool_or_null(b.limit_reached)).insert("windows"@, JsonModel::Array(readable_windows(windows_of(b), now))),
    )
}

fn push_readable_window(out: &mut Vec<Json>, window: &Option<QuotaWindowView>, now_seconds: i64)
    ensures
        models(final(out)@) == models(old(out)@) + readable_windows(opt_window(*window), now_seconds as int),
{
    let ghost before = out@;
    match window {
        Some(w) => {
            let json = quota_window_readable_json(w, now_seconds);
            out.push(json);
            assert(out@.drop_last() =~= before);
            assert(readable_windows(seq![*w], now_seconds as int) =~= seq![readable_window(*w, now_seconds as int)]);
            assert(models(out@) =~= models(before) + seq![readable_window(*w, now_seconds as int)]);
        },
        None => {
            assert(models(out@) =~= models(before) + readable_windows(Seq::empty(), now_seconds as int));
        },
    }
}

pub fn quota_bucket_readable_json(bucket: &QuotaBucketView, now_seconds: i64) -> (r: Json)
    ensures
        r@ == readable_bucket(*bucket, now_seconds as int),
{
    let mut windows: Vec<Json> = Vec::new();
    push_readable_window(&mut windows, &bucket.primary, now_seconds);
    push_readable_window(&mut windows, &bucket.secondary, now_seconds);
    assert(models(windows@) =~= readable_windows(windows_of(*bucket), now_seconds as int));
    let mut fields: Vec<(String, Json)> = Vec::new();
    set_field(&mut fields, "name", Json::Text(quota_bucket_label(bucket)));
    set_field(&mut fields, "id", Json::Text(bucket.limit_id.clone()));
    set_field(&mut fields, "state", Json::Text(quota_bucket_state(bucket).to_owned()));
    set_field(&mut fields, "allowed", json_bool_or_null(bucket.allowed));
    set_field(&mut fields, "limitReached", json_bool_or_null(bucket.limit_reached));
    set_field(&mut fields, "windows", Json::Array(windows));
    Json::Object(fields)
}

/// The credits of an account in words.
pub open spec fn credits_summary(c: QuotaCreditsView) -> Seq<char> {
    match (c.unlimited, c.has_credits, c.balance) {
        (Some(true), _, _) => "无限额度"@,
        (_, Some(true), Some(balance)) => "有可用余额："@ + balance@,
        (_, Some(true), None) => "有可用余额"@,
        (_, Some(false), _) => "没有可用余额"@,
        (_, _, Some(balance)) => "余额："@ + balance@,
        _ => "状态未知"@,
    }
}

fn credits_text(c: &QuotaCreditsView) -> (r: String)
    ensures
        r@ == credits_summary(*c),
{
    match (c.unlimited, c.has_credits, &c.balance) {
        (Some(true), _, _) => "无限额度".to_owned(),
        (_, Some(true), Some(balance)) => "有可用余额：".to_owned().concat(balance.as_str()),
        (_, Some(true), None) => "有可用余额".to_owned(),
        (_, Some(false), _) => "没有可用余额".to_owned(),
        (_, _, Some(balance)) => "余额：".to_owned().concat(balance.as_str()),
        _ => "状态未知".to_owned(),
    }
}

/// The credits of an account for other programs.
pub open spec fn readable_credits(c: QuotaCreditsView) -> JsonModel {
    JsonModel::Object(
        Map::empty().insert("summary"@, JsonModel::Text(credits_summary(c))).insert("hasCredits"@, bool_or_null(c.has_credits)).insert("unlimited"@, bool_or_null(c.unlimited)).insert("balance"@, text_or_null(opt_text(c.balance))),
    )
}

pub fn quota_credits_readable_json(credits: &QuotaCreditsView) -> (r: Json)
    ensures
        r@ == readable_credits(*credits),
{
    let mut fields: Vec<(String, Json)> = Vec::new();
    set_field(&mut fields, "summary", Json::Text(credits_text(credits)));
    set_field(&mut fields, "hasCredits", json_bool_or_null(credits.has_credits));
    set_field(&mut fields, "unlimited", json_bool_or_null(credits.unlimited));
    set_field(&mut fields, "balance", json_text_or_null(&credits.balance));
    Json::Object(fields)
}

/// The limit on spending in words.
pub open spec fn spend_summary(s: SpendControlView) -> Seq<char> {
    "已用 "@ + percent_or_unknown(s.used_percent) + "，剩余 "@ + (match s.remaining {
        Some(r) => r@,
        None => percent_or_unknown(s.remaining_percent),
    })
}

fn spend_text(s: &SpendControlView) -> (r: String)
    ensures
        r@ == spend_summary(*s),
{
    let remaining = match &s.remaining {
        Some(r) => r.clone(),
        None => percent_text(&s.remaining_percent),
    };
    "已用 ".to_owned().concat(percent_text(&s.used_percent).as_str()).concat("，剩余 ").concat(remaining.as_str())
}

/// The limit on spending for other programs.
pub open spec fn readable_spend(s: SpendControlView, now: int) -> JsonModel {
    JsonModel::Object(
        Map::empty().insert("summary"@, JsonModel::Text(spend_summary(s))).insert("limit"@, text_or_null(opt_text(s.limit))).insert("used"@, text_or_null(opt_text(s.used))).insert("remaining"@, text_or_null(opt_text(s.remaining))).insert("usedPercent"@, percent_or_null(s.used_percent)).insert("remainingPercent"@, percent_or_null(s.remaining_percent)).insert("recovery"@, text_or_null(reset_words(s.reset_after_seconds, s.resets_at, now))),
    )
}

pub fn spend_control_readable_json(spend: &SpendControlView, now_seconds: i64) -> (r: Json)
    ensures
        r@ == readable_spend(*spend, now_seconds as int),
{
    let recovery = reset_summary(spend.reset_after_seconds, spend.resets_at, now_seconds);
    let mut fields: Vec<(String, Json)> = Vec::new();
    set_field(&mut fields, "summary", Json::Text(spend_text(spend)));
    set_field(&mut fields, "limit", json_text_or_null(&spend.limit));
    set_field(&mut fields, "used", json_text_or_null(&spend.used));
    set_field(&mut fields, "remaining", json_text_or_null(&spend.remaining));
    set_field(&mut fields, "usedPercent", json_percent_or_null(&spend.used_percent));
    set_field(&mut fields, "remainingPercent", json_percent_or_null(&spend.remaining_percent));
    set_field(&mut fields, "recovery", json_text_or_null(&recovery));
    Json::Object(fields)
}

/// The login for other programs.
pub open spec fn readable_account(r: OpenAiQuotaResult) -> JsonModel {
    JsonModel::Object(
        Map::empty().insert("email"@, text_or_null(opt_text(r.email_masked))).insert("subscription"@, text_or_null(opt_text(r.plan_type))).insert("accountId"@, text_or_null(opt_text(r.account_id_masked))).insert("authMode"@, text_or_null(opt_text(r.auth_mode))).insert("lastRefresh"@, text_or_null(opt_text(r.last_refresh))),
    )
}

fn account_json(result: &OpenAiQuotaResult) -> (r: Json)
    ensures
        r@ == readable_account(*result),
{
    let mut fields: Vec<(String, Json)> = Vec::new();
    set_field(&mut fields, "email", json_text_or_null(&result.email_masked));
    set_field(&mut fields, "subscription", json_text_or_null(&result.plan_type));
    set_field(&mut fields, "accountId", json_text_or_null(&result.account_id_masked));
    set_field(&mut fields, "authMode", json_text_or_null(&result.auth_mode));
    set_field(&mut fields, "lastRefresh", json_text_or_null(&result.last_refresh));
    Json::Object(fields)
}

/// How a query went, for other programs.
pub open spec fn readable_query(r: OpenAiQuotaResult) -> JsonModel {
    JsonModel::Object(
        Map::empty().insert("ok"@, JsonModel::Bool(r.ok)).insert("status"@, JsonModel::Text(r.status@)).insert("result"@, JsonModel::Text(query_word(r))).insert("message"@, JsonModel::Text(r.message@)).insert("limitReachedType"@, text_or_null(opt_text(r.rate_limit_reached_type))),
    )
}

fn query_json(result: &OpenAiQuotaResult) -> (r: Json)
    ensures
        r@ == readable_query(*result),
{
    let mut fields: Vec<(String, Json)> = Vec::new();
    set_field(&mut fields, "ok", Json::Bool(result.ok));
    set_field(&mut fields, "status", Json::Text(result.status.clone()));
    set_field(&mut fields, "result", Json::Text(query_label(result).to_owned()));
    set_field(&mut fields, "message", Json::Text(result.message.clone()));
    set_field(&mut fields, "limitReachedType", json_text_or_null(&result.rate_limit_reached_type));
    Json::Object(fields)
}

pub open spec fn readable_buckets(buckets: Seq<QuotaBucketView>, now: int) -> Seq<JsonModel> {
    buckets.map_values(|b: QuotaBucketView| readable_bucket(b, now))
}

pub open spec fn opt_readable_credits(c: Option<QuotaCreditsView>) -> JsonModel {
    match c {
        Some(credits) => readable_credits(credits),
        None => JsonModel::Null,
    }
}

pub open spec fn opt_readable_spend(s: Option<SpendControlView>, now: int) -> JsonModel {
    match s {
        Some(spend) => readable_spend(spend, now),
        None => JsonModel::Null,
    }
}

/// A quota for other programs.
pub open spec fn readable_quota(r: OpenAiQuotaResult, now: int) -> JsonModel {
    JsonModel::Object(
        Map::empty().insert("title"@, JsonModel::Text("OpenAI 额度"@)).insert("account"@, readable_account(r)).insert("query"@, readable_query(r)).insert("quotaWindows"@, JsonModel::Array(readable_buckets(r.buckets@, now))).insert("credits"@, opt_readable_credits(r.credits)).insert("spendControl"@, opt_readable_spend(r.spend_control, now)).insert("recommendation"@, JsonModel::Text(r.recommendation@)),
    )
}

pub fn quota_readable_json(result: &OpenAiQuotaResult, now_seconds: i64) -> (r: Json)
    ensures
        r@ == readable_quota(*result, now_seconds as int),
{
    let ghost now = now_seconds as int;
    let ghost all = readable_buckets(result.buckets@, now);
    let mut buckets: Vec<Json> = Vec::new();
    for i in 0..result.buckets.len()
        invariant
            now == now_seconds as int,
            all == readable_buckets(result.buckets@, now),
            models(buckets@) == all.take(i as int),
    {
        let ghost before = buckets@;
        buckets.push(quota_bucket_readable_json(&result.buckets[i], now_seconds));
        assert(buckets@.drop_last() =~= before);
        assert(json_model(buckets@.last()) == all[i as int]);
        assert(models(buckets@) == models(before).push(all[i as int]));
        assert(all.take(i + 1) =~= all.take(i as int).push(all[i as int]));
    }
    assert(all.take(all.len() as int) =~= all);
    let credits = match &result.credits {
        Some(c) => quota_credits_readable_json(c),
        None => Json::Null,
    };
    let spend = match &result.spend_control {
        Some(s) => spend_control_readable_json(s, now_seconds),
        None => Json::Null,
    };
    let mut fields: Vec<(String, Json)> = Vec::new();
    set_field(&mut fields, "title", Json::Text("OpenAI 额度".to_owned()));
    set_field(&mut fields, "account", account_json(result));
    set_field(&mut fields, "query", query_json(result));
    set_field(&mut fields, "quotaWindows", Json::Array(buckets));
    set_field(&mut fields, "credits", credits);
    set_field(&mut fields, "spendControl", spend);
    set_field(&mut fields, "recommendation", Json::Text(result.recommendation.clone()));
    Json::Object(fields)
}

/// Whether two logins differ in nothing but their access tokens.
pub open spec fn same_but_access_token(a: LocalChatGptAuth, b: LocalChatGptAuth) -> bool {
    &&& opt_text(a.auth_mode) == opt_text(b.auth_mode)
    &&& a.account_id@ == b.account_id@
    &&& opt_text(a.email) == opt_text(b.email)
    &&& opt_text(a.plan_type) == opt_text(b.plan_type)
    &&& opt_text(a.last_refresh) == opt_text(b.last_refresh)
    &&& a.fedramp == b.fedramp
}

/// Whether two results say the same in every field.
pub open spec fn says_same(a: OpenAiQuotaResult, b: OpenAiQuotaResult) -> bool {
    &&& a.ok == b.ok
    &&& a.status@ == b.status@
    &&& opt_text(a.auth_mode) == opt_text(b.auth_mode)
    &&& opt_text(a.account_id_masked) == opt_text(b.account_id_masked)
    &&& opt_text(a.email_masked) == opt_text(b.email_masked)
    &&& opt_text(a.plan_type) == opt_text(b.plan_type)
    &&& opt_text(a.last_refresh) == opt_text(b.last_refresh)
    &&& a.endpoint@ == b.endpoint@
    &&& a.fetched_at_unix_ms == b.fetched_at_unix_ms
    &&& a.buckets@ == b.buckets@
    &&& a.credits == b.credits
    &&& a.spend_control == b.spend_control
    &&& opt_text(a.rate_limit_reached_type) == opt_text(b.rate_limit_reached_type)
    &&& a.message@ == b.message@
    &&& a.recommendation@ == b.recommendation@
}

/// Results that say the same are told the same, in words and for other
/// programs.
pub proof fn law_same_results_are_told_alike(a: OpenAiQuotaResult, b: OpenAiQuotaResult, now: int)
    requires
        says_same(a, b),
    ensures
        quota_lines(a, now) == quota_lines(b, now),
        readable_quota(a, now) == readable_quota(b, now),
{
}

/// The access token is never told: a query that was answered the same has the
/// same result for two logins that differ in nothing else.
pub proof fn law_access_token_is_not_told(
    a: LocalChatGptAuth,
    b: LocalChatGptAuth,
    plan_type: Option<String>,
    buckets: Vec<QuotaBucketView>,
    credits: Option<QuotaCreditsView>,
    spend_control: Option<SpendControlView>,
    rate_limit_reached_type: Option<String>,
    now_ms: u128,
    result_a: OpenAiQuotaResult,
    result_b: OpenAiQuotaResult,
)
    requires
        same_but_access_token(a, b),
        is_quota_result(
            result_a,
            a,
            plan_type,
            buckets,
            credits,
            spend_control,
            rate_limit_reached_type,
            now_ms,
        ),
        is_quota_result(
            result_b,
            b,
            plan_type,
            buckets,
            credits,
            spend_control,
            rate_limit_reached_type,
            now_ms,
        ),
    ensures
        says_same(result_a, result_b),
{
}

/// The access token is never told where the quota could not be had either.
pub proof fn law_access_token_is_not_told_of_failures(
    a: LocalChatGptAuth,
    b: LocalChatGptAuth,
    status: Seq<char>,
    message: Seq<char>,
    now_ms: u128,
    result_a: OpenAiQuotaResult,
    result_b: OpenAiQuotaResult,
)
    requires
        same_but_access_token(a, b),
        is_unavailable(result_a, status, message, Some(a), now_ms),
        is_unavailable(result_b, status, message, Some(b), now_ms),
    ensures
        says_same(result_a, result_b),
{
    assert(result_a.buckets@ =~= result_b.buckets@);
}

} // verus!
