//! What a quota query promises, said of the answer of the service and of what
//! the user is told.

use vstd::prelude::*;

use crate::auth::LocalChatGptAuth;
use crate::config::{mask_secret, masked};
use crate::json::{field, json_read, number_of, opt_int, Json, JsonModel};
use crate::number::{parse_signed, signed_value};
use crate::quota::{
    additional_id, additional_of, bucket_label, bucket_lines, bucket_section, bucket_shows, bucket_state,
    buckets_show, credits_summary, duration_words, http_error_text, human_duration, integer_of,
    is_limit_reached, is_quota_result, is_unavailable, is_window, number_as_i64, parse_quota_bucket,
    query_word, quota_bucket_label, quota_bucket_readable_json, quota_bucket_state,
    quota_credits_readable_json, quota_head, quota_http_error, quota_lines, quota_outcome,
    quota_readable_json, quota_result, quota_result_unavailable, quota_shows, quota_text,
    quota_window_readable_json, quota_window_summary, readable_account, readable_bucket, readable_credits,
    readable_query, readable_quota, readable_spend, readable_window, readable_windows, reset_summary,
    reset_words, shown_value, spend_control_readable_json, usage_fault, window_summary, windows_of,
    OpenAiQuotaResult, Percent, QuotaBucketView, QuotaCreditsView, QuotaWindowView, RawQuota, RawQuotaBucket,
    RawQuotaWindow, SpendControlView, UsageAnswer,
};
use crate::text::{decimal, joined, opt_text, trimmed};

verus! {

/// What a window of the answer says stands in the window that is read: the
/// share used as it is, the length in minutes with a begun one counted, and
/// when it starts anew.
pub open spec fn window_tells(window: RawQuotaWindow, told: Map<Seq<char>, JsonModel>) -> bool {
    &&& (match window.used_percent {
        Some(percent) => told.dom().contains("used_percent"@) && percent@ == told["used_percent"@],
        None => !told.dom().contains("used_percent"@),
    })
    &&& (match (window.window_minutes, integer_of(field(JsonModel::Object(told), "limit_window_seconds"@))) {
        (Some(m), Some(s)) => s >= 0 ==> 60 * (m - 1) < s <= 60 * m,
        (None, None) => true,
        _ => false,
    })
    &&& (match (window.resets_at, integer_of(field(JsonModel::Object(told), "reset_at"@))) {
        (Some(n), Some(t)) => n == t,
        (None, None) => true,
        _ => false,
    })
    &&& (match (window.reset_after_seconds, integer_of(field(JsonModel::Object(told), "reset_after_seconds"@))) {
        (Some(n), Some(t)) => n == t,
        (None, None) => true,
        _ => false,
    })
}

/// What one limit of the answer says stands in the bucket that is read:
/// whether requests are let through, whether the limit is reached, and its two
/// windows, each under its own name.
pub open spec fn bucket_tells(bucket: RawQuotaBucket, told: Map<Seq<char>, JsonModel>) -> bool {
    &&& told.dom().contains("allowed"@) ==> (told["allowed"@] matches JsonModel::Bool(a) ==> bucket.allowed == Some(a))
    &&& !told.dom().contains("allowed"@) ==> bucket.allowed is None
    &&& told.dom().contains("limit_reached"@) ==> (told["limit_reached"@] matches JsonModel::Bool(r)
        ==> bucket.limit_reached == Some(r))
    &&& !told.dom().contains("limit_reached"@) ==> bucket.limit_reached is None
    &&& told.dom().contains("primary_window"@) ==> (told["primary_window"@] matches JsonModel::Object(w) ==> (
    bucket.primary matches Some(window) && window.label@ == "primary"@ && window_tells(window, w)))
    &&& !told.dom().contains("primary_window"@) ==> bucket.primary is None
    &&& told.dom().contains("secondary_window"@) ==> (told["secondary_window"@] matches JsonModel::Object(w) ==> (
    bucket.secondary matches Some(window) && window.label@ == "secondary"@ && window_tells(window, w)))
    &&& !told.dom().contains("secondary_window"@) ==> bucket.secondary is None
}

proof fn lemma_window_tells(window: RawQuotaWindow, told: Map<Seq<char>, JsonModel>, label: Seq<char>)
    requires
        is_window(window, JsonModel::Object(told), label),
    ensures
        window.label@ == label,
        window_tells(window, told),
{
}

proof fn lemma_bucket_tells(
    bucket: RawQuotaBucket,
    id: Seq<char>,
    name: Option<Seq<char>>,
    told: Map<Seq<char>, JsonModel>,
)
    requires
        bucket_shows(bucket, id, name, Some(JsonModel::Object(told))),
    ensures
        bucket.limit_id@ == id,
        opt_text(bucket.limit_name) == name,
        bucket_tells(bucket, told),
{
    if told.dom().contains("primary_window"@) && told["primary_window"@] is Object {
        lemma_window_tells(bucket.primary->0, told["primary_window"@]->Object_0, "primary"@);
    }
    if told.dom().contains("secondary_window"@) && told["secondary_window"@] is Object {
        lemma_window_tells(bucket.secondary->0, told["secondary_window"@]->Object_0, "secondary"@);
    }
}

/// A limit is read as the service states it.
pub proof fn law_bucket(
    limit_id: String,
    limit_name: Option<String>,
    value: &Json,
    told: Map<Seq<char>, JsonModel>,
    r: RawQuotaBucket,
)
    requires
        value@ == JsonModel::Object(told),
        call_ensures(parse_quota_bucket, (limit_id, limit_name, Some(value)), r),
    ensures
        r.limit_id@ == limit_id@,
        opt_text(r.limit_name) == opt_text(limit_name),
        bucket_tells(r, told),
{
    assert(bucket_shows(r, limit_id@, opt_text(limit_name), Some(value@)));
    lemma_bucket_tells(r, limit_id@, opt_text(limit_name), told);
}

/// A good answer gives the limit of Codex first and then every additional one
/// in order, each as the service states it, and with them the plan, the credits
/// and the spending limit.
pub proof fn law_quota_answer(
    answer: UsageAnswer,
    status: String,
    content_type: String,
    body: String,
    payload: Map<Seq<char>, JsonModel>,
    r: Result<RawQuota, (String, String)>,
)
    requires
        answer == (UsageAnswer::Answered { success: true, status, content_type, body }),
        json_read(body@) == Ok::<JsonModel, Seq<char>>(JsonModel::Object(payload)),
        call_ensures(quota_outcome, (&answer,), r),
    ensures
        r matches Ok(quota) && {
            &&& quota.buckets@.len() >= 1
            &&& quota.buckets@[0].limit_id@ == "codex"@
            &&& payload.dom().contains("rate_limit"@) ==> (payload["rate_limit"@] matches JsonModel::Object(limit)
                ==> bucket_tells(quota.buckets@[0], limit))
            &&& !payload.dom().contains("additional_rate_limits"@) ==> quota.buckets@.len() == 1
            &&& payload.dom().contains("additional_rate_limits"@) ==> (payload["additional_rate_limits"@] matches
                JsonModel::Array(items) ==> quota.buckets@.len() == items.len() + 1 && forall|i: int|
                0 <= i < items.len() ==> (#[trigger] items[i] matches JsonModel::Object(item) ==> {
                    &&& item.dom().contains("rate_limit"@) ==> (item["rate_limit"@] matches JsonModel::Object(limit)
                        ==> bucket_tells(quota.buckets@[i + 1], limit))
                    &&& item.dom().contains("metered_feature"@) ==> (item["metered_feature"@] matches JsonModel::Text(id)
                        ==> id.len() > 0 ==> quota.buckets@[i + 1].limit_id@ == id)
                    &&& item.dom().contains("limit_name"@) ==> (item["limit_name"@] matches JsonModel::Text(name)
                        ==> name.len() > 0 ==> opt_text(quota.buckets@[i + 1].limit_name) == Some(name))
                }))
            &&& payload.dom().contains("plan_type"@) ==> (payload["plan_type"@] matches JsonModel::Text(plan)
                ==> plan.len() > 0 ==> opt_text(quota.plan_type) == Some(plan))
            &&& !payload.dom().contains("plan_type"@) ==> quota.plan_type is None
            &&& payload.dom().contains("rate_limit_reached_type"@) ==> (payload["rate_limit_reached_type"@] matches
                JsonModel::Object(reached) ==> reached.dom().contains("type"@) ==> (reached["type"@] matches
                JsonModel::Text(kind) ==> opt_text(quota.rate_limit_reached_type) == Some(kind)))
            &&& payload.dom().contains("credits"@) ==> (payload["credits"@] matches JsonModel::Object(told) ==> (
            quota.credits matches Some(credits) && {
                &&& told.dom().contains("has_credits"@) ==> (told["has_credits"@] matches JsonModel::Bool(b)
                    ==> credits.has_credits == Some(b))
                &&& told.dom().contains("unlimited"@) ==> (told["unlimited"@] matches JsonModel::Bool(b)
                    ==> credits.unlimited == Some(b))
                &&& told.dom().contains("balance"@) ==> (told["balance"@] matches JsonModel::Text(b) ==> b.len() > 0
                    ==> opt_text(credits.balance) == Some(b))
            }))
            &&& !payload.dom().contains("credits"@) ==> quota.credits is None
            &&& payload.dom().contains("spend_control"@) ==> (payload["spend_control"@] matches JsonModel::Object(control)
                ==> control.dom().contains("individual_limit"@) ==> (control["individual_limit"@] matches
                JsonModel::Object(told) ==> (quota.spend_control matches Some(spend) && {
                &&& told.dom().contains("limit"@) ==> (told["limit"@] matches JsonModel::Text(s) ==> s.len() > 0
                    ==> opt_text(spend.limit) == Some(s))
                &&& told.dom().contains("used"@) ==> (told["used"@] matches JsonModel::Text(s) ==> s.len() > 0
                    ==> opt_text(spend.used) == Some(s))
                &&& told.dom().contains("remaining"@) ==> (told["remaining"@] matches JsonModel::Text(s) ==> s.len() > 0
                    ==> opt_text(spend.remaining) == Some(s))
                &&& told.dom().contains("used_percent"@) ==> (spend.used_percent matches Some(p) && p@
                    == told["used_percent"@])
                &&& told.dom().contains("remaining_percent"@) ==> (spend.remaining_percent matches Some(p) && p@
                    == told["remaining_percent"@])
                &&& opt_int(spend.resets_at) == integer_of(field(JsonModel::Object(told), "reset_at"@))
                &&& opt_int(spend.reset_after_seconds) == integer_of(
                    field(JsonModel::Object(told), "reset_after_seconds"@),
                )
            })))
        },
{
    assert(usage_fault(answer) is None);
    let quota = r->Ok_0;
    let whole = JsonModel::Object(payload);
    assert(quota_shows(quota, whole));
    assert(buckets_show(quota.buckets@, whole));
    if payload.dom().contains("rate_limit"@) && payload["rate_limit"@] is Object {
        lemma_bucket_tells(quota.buckets@[0], "codex"@, None, payload["rate_limit"@]->Object_0);
    }
    let items = additional_of(whole);
    assert forall|i: int| 0 <= i < items.len() implies (#[trigger] items[i] matches JsonModel::Object(item) ==> {
        &&& item.dom().contains("rate_limit"@) ==> (item["rate_limit"@] matches JsonModel::Object(limit)
            ==> bucket_tells(quota.buckets@[i + 1], limit))
        &&& item.dom().contains("metered_feature"@) ==> (item["metered_feature"@] matches JsonModel::Text(id)
            ==> id.len() > 0 ==> quota.buckets@[i + 1].limit_id@ == id)
        &&& item.dom().contains("limit_name"@) ==> (item["limit_name"@] matches JsonModel::Text(name) ==> name.len() > 0
            ==> opt_text(quota.buckets@[i + 1].limit_name) == Some(name))
    }) by {
        if items[i] is Object {
            let item = items[i]->Object_0;
            if item.dom().contains("rate_limit"@) && item["rate_limit"@] is Object {
                lemma_bucket_tells(
                    quota.buckets@[i + 1],
                    additional_id(items[i]),
                    shown_value(field(items[i], "limit_name"@)),
                    item["rate_limit"@]->Object_0,
                );
            }
        }
    }
}

/// A user is told that a limit is used up exactly when the service states that
/// it is reached, whatever it says on requests being let through; else they are
/// told what it says on that.
pub proof fn law_state_told(
    limit_id: String,
    limit_name: Option<String>,
    value: &Json,
    told: Map<Seq<char>, JsonModel>,
    allowed: bool,
    reached: bool,
    bucket: RawQuotaBucket,
    view: QuotaBucketView,
    state: &'static str,
)
    requires
        value@ == JsonModel::Object(told),
        told.dom().contains("allowed"@) && told["allowed"@] == JsonModel::Bool(allowed),
        told.dom().contains("limit_reached"@) && told["limit_reached"@] == JsonModel::Bool(reached),
        call_ensures(parse_quota_bucket, (limit_id, limit_name, Some(value)), bucket),
        view.allowed == bucket.allowed,
        view.limit_reached == bucket.limit_reached,
        call_ensures(quota_bucket_state, (&view,), state),
    ensures
        reached <==> state@ == "已用尽"@,
        !reached && allowed <==> state@ == "可用"@,
        !reached && !allowed <==> state@ == "暂不可用"@,
{
    law_bucket(limit_id, limit_name, value, told, bucket);
    assert(state@ == bucket_state(view));
    reveal_strlit("已用尽");
    reveal_strlit("可用");
    reveal_strlit("暂不可用");
    reveal_strlit("状态未知");
    assert("已用尽"@.len() == 3);
    assert("可用"@.len() == 2);
    assert("暂不可用"@.len() == 4);
    assert("状态未知"@.len() == 4);
}

/// An answer is read exactly when there was a login, the request got through,
/// the service accepted it and sent JSON. Only a missing login counts as
/// unavailable: the rest are errors.
pub proof fn law_quota_outcome(answer: UsageAnswer, r: Result<RawQuota, (String, String)>)
    requires
        call_ensures(quota_outcome, (&answer,), r),
    ensures
        r is Ok <==> (answer matches UsageAnswer::Answered { success, body, .. } && success && json_read(body@) is Ok),
        r matches Err((status, message)) ==> (status@ == "unavailable"@ <==> answer is NoLogin) && (status@ == "error"@
            <==> !(answer is NoLogin)),
        answer matches UsageAnswer::NoLogin { reason } ==> (r matches Err((status, message)) && message@ == reason@),
{
    reveal_strlit("unavailable");
    reveal_strlit("error");
    assert("unavailable"@.len() == 11);
    assert("error"@.len() == 5);
    assert(r is Err == usage_fault(answer) is Some);
}

/// The result of a query tells of a limit exactly when one of its buckets has
/// reached its own.
pub proof fn law_result_message(
    auth: LocalChatGptAuth,
    plan_type: Option<String>,
    buckets: Vec<QuotaBucketView>,
    credits: Option<QuotaCreditsView>,
    spend_control: Option<SpendControlView>,
    rate_limit_reached_type: Option<String>,
    now_ms: u128,
    r: OpenAiQuotaResult,
)
    requires
        call_ensures(
            quota_result,
            (auth, plan_type, buckets, credits, spend_control, rate_limit_reached_type, now_ms),
            r,
        ),
    ensures
        r.ok,
        r.status@ == "available"@,
        r.buckets == buckets,
        r.message@ == "已读取当前 ChatGPT 账号额度，存在已触发的使用限制。"@ <==> exists|i: int|
            0 <= i < buckets@.len() && (#[trigger] buckets@[i]).limit_reached == Some(true),
        r.message@ == "已读取当前 ChatGPT 账号额度。"@ <==> forall|i: int|
            0 <= i < buckets@.len() ==> (#[trigger] buckets@[i]).limit_reached != Some(true),
        plan_type is Some ==> opt_text(r.plan_type) == opt_text(plan_type),
        plan_type is None ==> opt_text(r.plan_type) == opt_text(auth.plan_type),
        r.credits == credits,
        r.spend_control == spend_control,
        r.rate_limit_reached_type == rate_limit_reached_type,
        r.fetched_at_unix_ms == now_ms,
{
    assert(is_quota_result(r, auth, plan_type, buckets, credits, spend_control, rate_limit_reached_type, now_ms));
    assert(is_limit_reached(buckets@) == exists|i: int|
        0 <= i < buckets@.len() && (#[trigger] buckets@[i]).limit_reached == Some(true));
    reveal_strlit("已读取当前 ChatGPT 账号额度，存在已触发的使用限制。");
    reveal_strlit("已读取当前 ChatGPT 账号额度。");
    assert("已读取当前 ChatGPT 账号额度，存在已触发的使用限制。"@.len() == 30);
    assert("已读取当前 ChatGPT 账号额度。"@.len() == 19);
}

/// A stretch of time is told in whole minutes, with a begun one counted, up to
/// an hour; in hours and minutes up to a day; and then in days and hours.
pub proof fn law_duration(seconds: i64, r: String)
    requires
        0 <= seconds,
        call_ensures(human_duration, (seconds,), r),
    ensures
        seconds < 60 ==> r@ == "不到 1 分钟"@,
        60 <= seconds <= 59 * 60 ==> exists|m: nat|
            60 * (m - 1) < seconds <= 60 * m && r@ == #[trigger] decimal(m) + " 分钟"@,
        59 * 60 < seconds <= 24 * 3600 - 60 ==> exists|h: nat, m: nat|
            m < 60 && 60 * (60 * h + m - 1) < seconds <= 60 * (60 * h + m) && r@ == (if m == 0 {
                #[trigger] decimal(h) + " 小时"@
            } else {
                decimal(h) + " 小时 "@ + #[trigger] decimal(m) + " 分钟"@
            }),
        24 * 3600 - 60 < seconds ==> exists|d: nat, h: nat|
            h < 24 && 3600 * (24 * d + h) - 60 < seconds <= 3600 * (24 * d + h + 1) - 60 && r@ == (if h == 0 {
                #[trigger] decimal(d) + " 天"@
            } else {
                decimal(d) + " 天 "@ + #[trigger] decimal(h) + " 小时"@
            }),
{
    let s = seconds as int;
    assert(r@ == duration_words(s));
    if s >= 60 {
        let minutes = (s + 59) / 60;
        let hours = minutes / 60;
        assert(60 * (minutes - 1) < s <= 60 * minutes);
        if minutes < 60 {
            assert(r@ == decimal(minutes as nat) + " 分钟"@);
        } else if hours < 24 {
            let m = (minutes % 60) as nat;
            let h = hours as nat;
            assert(minutes == 60 * h + m);
            assert(decimal(h) == decimal(h) && decimal(m) == decimal(m));
            assert(r@ == (if m == 0 {
                decimal(h) + " 小时"@
            } else {
                decimal(h) + " 小时 "@ + decimal(m) + " 分钟"@
            }));
        } else {
            let h = (hours % 24) as nat;
            let d = (hours / 24) as nat;
            assert(hours == 24 * d + h);
            assert(r@ == (if h == 0 {
                decimal(d) + " 天"@
            } else {
                decimal(d) + " 天 "@ + decimal(h) + " 小时"@
            }));
            assert(60 * hours <= minutes < 60 * hours + 60);
            assert(decimal(h) == decimal(h) && decimal(d) == decimal(d));
        }
    }
}

/// When a limit is lifted is told by the time left where the service gives it,
/// and else by the moment that it names; a moment that has passed is any time
/// now, and nothing is told of neither.
pub proof fn law_reset(
    after: Option<i64>,
    at: Option<i64>,
    now: i64,
    left: i64,
    words: String,
    r: Option<String>,
)
    requires
        call_ensures(human_duration, (left,), words),
        call_ensures(reset_summary, (after, at, now), r),
    ensures
        after == Some(left) && left >= 0 ==> (r matches Some(text) && text@ == "约 "@ + words@ + "后"@),
        after is None ==> (at matches Some(t) ==> t > now && left == t - now ==> (r matches Some(text) && text@ == "约 "@
            + words@ + "后"@)),
        after is None ==> (at matches Some(t) ==> t <= now ==> (r matches Some(text) && text@ == "随时可能恢复"@)),
        after is None && at is None ==> r is None,
{
    assert(words@ == duration_words(left as int));
    assert(opt_text(r) == reset_words(after, at, now as int));
}

/// A window is told by a word for its length, with the shares used and left, how
/// long it is, and when it starts anew.
pub proof fn law_window_json(window: QuotaWindowView, now: i64, j: Json, recovery: Option<String>)
    requires
        call_ensures(quota_window_readable_json, (&window, now), j),
        call_ensures(reset_summary, (window.reset_after_seconds, window.resets_at, now), recovery),
    ensures
        window.label@ == "primary"@ ==> field(j@, "label"@) == Some(JsonModel::Text("短周期"@)),
        window.label@ == "secondary"@ ==> field(j@, "label"@) == Some(JsonModel::Text("长周期"@)),
        field(j@, "usedPercent"@) == Some(
            match window.used_percent {
                Some(p) => p.value@,
                None => JsonModel::Null,
            },
        ),
        field(j@, "remainingPercent"@) == Some(
            match window.remaining_percent {
                Some(p) => p.value@,
                None => JsonModel::Null,
            },
        ),
        field(j@, "windowMinutes"@) == Some(
            match window.window_minutes {
                Some(m) => JsonModel::Number(number_of(m as int)),
                None => JsonModel::Null,
            },
        ),
        field(j@, "recovery"@) == Some(
            match recovery {
                Some(text) => JsonModel::Text(text@),
                None => JsonModel::Null,
            },
        ),
{
    reveal_strlit("label");
    assert("label"@.len() == 5);
    reveal_strlit("summary");
    assert("summary"@.len() == 7);
    reveal_strlit("usedPercent");
    assert("usedPercent"@.len() == 11);
    reveal_strlit("remainingPercent");
    assert("remainingPercent"@.len() == 16);
    reveal_strlit("windowMinutes");
    assert("windowMinutes"@.len() == 13);
    reveal_strlit("recovery");
    assert("recovery"@.len() == 8);
    reveal_strlit("primary");
    reveal_strlit("secondary");
    assert("primary"@.len() == 7);
    assert("secondary"@.len() == 9);
    assert(j@ == readable_window(window, now as int));
    assert(opt_text(recovery) == reset_words(window.reset_after_seconds, window.resets_at, now as int));
}

/// A limit is told under its name where it has one and else under its id, with
/// its state, what the service says of it, and the windows that it has, the
/// short one first.
pub proof fn law_bucket_json(bucket: QuotaBucketView, now: i64, j: Json, state: &'static str, first: Json, second: Json)
    requires
        call_ensures(quota_bucket_readable_json, (&bucket, now), j),
        call_ensures(quota_bucket_state, (&bucket,), state),
        bucket.primary matches Some(w) ==> call_ensures(quota_window_readable_json, (&w, now), first),
        bucket.secondary matches Some(w) ==> call_ensures(quota_window_readable_json, (&w, now), second),
    ensures
        bucket.limit_name is None ==> field(j@, "name"@) == Some(JsonModel::Text(bucket.limit_id@)),
        bucket.limit_name matches Some(name) ==> trimmed(name@).len() > 0 ==> field(j@, "name"@) == Some(
            JsonModel::Text(name@),
        ),
        field(j@, "id"@) == Some(JsonModel::Text(bucket.limit_id@)),
        field(j@, "state"@) == Some(JsonModel::Text(state@)),
        field(j@, "allowed"@) == Some(
            match bucket.allowed {
                Some(b) => JsonModel::Bool(b),
                None => JsonModel::Null,
            },
        ),
        field(j@, "limitReached"@) == Some(
            match bucket.limit_reached {
                Some(b) => JsonModel::Bool(b),
                None => JsonModel::Null,
            },
        ),
        field(j@, "windows"@) == Some(
            JsonModel::Array(
                match (bucket.primary, bucket.secondary) {
                    (Some(_), Some(_)) => seq![first@, second@],
                    (Some(_), None) => seq![first@],
                    (None, Some(_)) => seq![second@],
                    (None, None) => Seq::empty(),
                },
            ),
        ),
{
    reveal_strlit("name");
    assert("name"@.len() == 4);
    reveal_strlit("id");
    assert("id"@.len() == 2);
    reveal_strlit("state");
    assert("state"@.len() == 5);
    reveal_strlit("allowed");
    assert("allowed"@.len() == 7);
    reveal_strlit("limitReached");
    assert("limitReached"@.len() == 12);
    reveal_strlit("windows");
    assert("windows"@.len() == 7);
    assert("allowed"@[0] != "windows"@[0]);
    assert(j@ == readable_bucket(bucket, now as int));
    assert(state@ == bucket_state(bucket));
    match bucket.primary {
        Some(w) => {
            assert(first@ == readable_window(w, now as int));
        },
        None => {},
    }
    match bucket.secondary {
        Some(w) => {
            assert(second@ == readable_window(w, now as int));
        },
        None => {},
    }
    assert(readable_windows(windows_of(bucket), now as int) =~= (match (bucket.primary, bucket.secondary) {
        (Some(_), Some(_)) => seq![first@, second@],
        (Some(_), None) => seq![first@],
        (None, Some(_)) => seq![second@],
        (None, None) => Seq::empty(),
    }));
}

/// What is told of credits is what the service says of them.
pub proof fn law_credits_json(credits: QuotaCreditsView, j: Json)
    requires
        call_ensures(quota_credits_readable_json, (&credits,), j),
    ensures
        field(j@, "hasCredits"@) == Some(
            match credits.has_credits {
                Some(b) => JsonModel::Bool(b),
                None => JsonModel::Null,
            },
        ),
        field(j@, "unlimited"@) == Some(
            match credits.unlimited {
                Some(b) => JsonModel::Bool(b),
                None => JsonModel::Null,
            },
        ),
        field(j@, "balance"@) == Some(
            match credits.balance {
                Some(b) => JsonModel::Text(b@),
                None => JsonModel::Null,
            },
        ),
        credits.unlimited == Some(true) <==> field(j@, "summary"@) == Some(JsonModel::Text("无限额度"@)),
        credits.unlimited != Some(true) && credits.has_credits == Some(false) ==> field(j@, "summary"@) == Some(
            JsonModel::Text("没有可用余额"@),
        ),
        credits.unlimited != Some(true) && credits.has_credits == Some(true) ==> (credits.balance matches Some(b)
            ==> field(j@, "summary"@) == Some(JsonModel::Text("有可用余额："@ + b@))),
{
    reveal_strlit("summary");
    assert("summary"@.len() == 7);
    reveal_strlit("hasCredits");
    assert("hasCredits"@.len() == 10);
    reveal_strlit("unlimited");
    assert("unlimited"@.len() == 9);
    reveal_strlit("balance");
    assert("balance"@.len() == 7);
    assert("summary"@[0] != "balance"@[0]);
    assert(j@ == readable_credits(credits));
    reveal_strlit("无限额度");
    reveal_strlit("有可用余额：");
    reveal_strlit("有可用余额");
    reveal_strlit("没有可用余额");
    reveal_strlit("余额：");
    reveal_strlit("状态未知");
    assert("无限额度"@[0] == '无');
    assert("有可用余额："@[0] == '有');
    assert("有可用余额"@[0] == '有');
    assert("没有可用余额"@[0] == '没');
    assert("余额："@[0] == '余');
    assert("状态未知"@[0] == '状');
    let words = credits_summary(credits);
    match credits.balance {
        Some(b) => {
            assert(("有可用余额："@ + b@)[0] == '有');
            assert(("余额："@ + b@)[0] == '余');
        },
        None => {},
    }
    if credits.unlimited != Some(true) {
        assert(words[0] != '无');
    }
}

/// What is told of a spending limit is what the service says of it.
pub proof fn law_spend_json(spend: SpendControlView, now: i64, j: Json, recovery: Option<String>)
    requires
        call_ensures(spend_control_readable_json, (&spend, now), j),
        call_ensures(reset_summary, (spend.reset_after_seconds, spend.resets_at, now), recovery),
    ensures
        field(j@, "limit"@) == Some(
            match spend.limit {
                Some(s) => JsonModel::Text(s@),
                None => JsonModel::Null,
            },
        ),
        field(j@, "used"@) == Some(
            match spend.used {
                Some(s) => JsonModel::Text(s@),
                None => JsonModel::Null,
            },
        ),
        field(j@, "remaining"@) == Some(
            match spend.remaining {
                Some(s) => JsonModel::Text(s@),
                None => JsonModel::Null,
            },
        ),
        field(j@, "usedPercent"@) == Some(
            match spend.used_percent {
                Some(p) => p.value@,
                None => JsonModel::Null,
            },
        ),
        field(j@, "remainingPercent"@) == Some(
            match spend.remaining_percent {
                Some(p) => p.value@,
                None => JsonModel::Null,
            },
        ),
        field(j@, "recovery"@) == Some(
            match recovery {
                Some(text) => JsonModel::Text(text@),
                None => JsonModel::Null,
            },
        ),
{
    reveal_strlit("summary");
    assert("summary"@.len() == 7);
    reveal_strlit("limit");
    assert("limit"@.len() == 5);
    reveal_strlit("used");
    assert("used"@.len() == 4);
    reveal_strlit("remaining");
    assert("remaining"@.len() == 9);
    reveal_strlit("usedPercent");
    assert("usedPercent"@.len() == 11);
    reveal_strlit("remainingPercent");
    assert("remainingPercent"@.len() == 16);
    reveal_strlit("recovery");
    assert("recovery"@.len() == 8);
    assert(j@ == readable_spend(spend, now as int));
    assert(opt_text(recovery) == reset_words(spend.reset_after_seconds, spend.resets_at, now as int));
}

/// A query is told as one that hit a limit exactly when it was answered and one
/// of its buckets has reached its own, with the account as it is masked, the
/// plan and every bucket in order.
pub proof fn law_quota_json(result: OpenAiQuotaResult, now: i64, j: Json, i: int, bucket: Json)
    requires
        call_ensures(quota_readable_json, (&result, now), j),
        0 <= i < result.buckets@.len() ==> call_ensures(quota_bucket_readable_json, (&result.buckets@[i], now), bucket),
    ensures
        field(j@, "query"@) matches Some(query) && {
            &&& field(query, "ok"@) == Some(JsonModel::Bool(result.ok))
            &&& field(query, "status"@) == Some(JsonModel::Text(result.status@))
            &&& field(query, "message"@) == Some(JsonModel::Text(result.message@))
            &&& field(query, "result"@) == Some(
                JsonModel::Text(
                    if !result.ok {
                        "无法查询"@
                    } else if exists|k: int|
                        0 <= k < result.buckets@.len() && (#[trigger] result.buckets@[k]).limit_reached == Some(true) {
                        "已触发额度限制"@
                    } else {
                        "当前未显示额度限制"@
                    },
                ),
            )
            &&& result.rate_limit_reached_type matches Some(kind) ==> field(query, "limitReachedType"@) == Some(
                JsonModel::Text(kind@),
            )
        },
        field(j@, "account"@) matches Some(account) && {
            &&& result.email_masked matches Some(s) ==> field(account, "email"@) == Some(JsonModel::Text(s@))
            &&& result.plan_type matches Some(s) ==> field(account, "subscription"@) == Some(JsonModel::Text(s@))
            &&& result.account_id_masked matches Some(s) ==> field(account, "accountId"@) == Some(JsonModel::Text(s@))
            &&& result.auth_mode matches Some(s) ==> field(account, "authMode"@) == Some(JsonModel::Text(s@))
            &&& result.last_refresh matches Some(s) ==> field(account, "lastRefresh"@) == Some(JsonModel::Text(s@))
        },
        field(j@, "quotaWindows"@) matches Some(JsonModel::Array(told)) && told.len() == result.buckets@.len() && (0 <= i
            < result.buckets@.len() ==> told[i] == bucket@),
        result.credits is None ==> field(j@, "credits"@) == Some(JsonModel::Null),
        result.spend_control is None ==> field(j@, "spendControl"@) == Some(JsonModel::Null),
{
    reveal_strlit("title");
    assert("title"@.len() == 5);
    reveal_strlit("account");
    assert("account"@.len() == 7);
    reveal_strlit("query");
    assert("query"@.len() == 5);
    reveal_strlit("quotaWindows");
    assert("quotaWindows"@.len() == 12);
    reveal_strlit("credits");
    assert("credits"@.len() == 7);
    reveal_strlit("spendControl");
    assert("spendControl"@.len() == 12);
    reveal_strlit("recommendation");
    assert("recommendation"@.len() == 14);
    assert("title"@[0] != "query"@[0]);
    assert("account"@[0] != "credits"@[0]);
    assert("quotaWindows"@[0] != "spendControl"@[0]);
    reveal_strlit("ok");
    assert("ok"@.len() == 2);
    reveal_strlit("status");
    assert("status"@.len() == 6);
    reveal_strlit("result");
    assert("result"@.len() == 6);
    reveal_strlit("message");
    assert("message"@.len() == 7);
    reveal_strlit("limitReachedType");
    assert("limitReachedType"@.len() == 16);
    assert("status"@[0] != "result"@[0]);
    reveal_strlit("email");
    assert("email"@.len() == 5);
    reveal_strlit("subscription");
    assert("subscription"@.len() == 12);
    reveal_strlit("accountId");
    assert("accountId"@.len() == 9);
    reveal_strlit("authMode");
    assert("authMode"@.len() == 8);
    reveal_strlit("lastRefresh");
    assert("lastRefresh"@.len() == 11);
    assert(j@ == readable_quota(result, now as int));
    if 0 <= i < result.buckets@.len() {
        assert(bucket@ == readable_bucket(result.buckets@[i], now as int));
    }
    assert(is_limit_reached(result.buckets@) == exists|k: int|
        0 <= k < result.buckets@.len() && (#[trigger] result.buckets@[k]).limit_reached == Some(true));
    assert(field(j@, "query"@) == Some(readable_query(result)));
    assert(field(j@, "account"@) == Some(readable_account(result)));
}

/// What a query tells as text says first what it found, then every bucket under
/// its name with its state.
pub proof fn law_quota_text(
    result: OpenAiQuotaResult,
    now: i64,
    r: String,
    i: int,
    label: String,
    state: &'static str,
)
    requires
        call_ensures(quota_text, (&result, now), r),
        0 <= i < result.buckets@.len() ==> call_ensures(quota_bucket_label, (&result.buckets@[i],), label)
            && call_ensures(quota_bucket_state, (&result.buckets@[i],), state),
    ensures
        exists|lines: Seq<Seq<char>>|
            #![trigger joined(lines, "\n"@)]
            {
                &&& r@ == joined(lines, "\n"@)
                &&& lines.len() > 0 && lines[0] == "OpenAI 额度"@
                &&& lines.contains(
                    "  查询结果："@ + (if !result.ok {
                        "无法查询"@
                    } else if exists|k: int|
                        0 <= k < result.buckets@.len() && (#[trigger] result.buckets@[k]).limit_reached == Some(true) {
                        "已触发额度限制"@
                    } else {
                        "当前未显示额度限制"@
                    }),
                )
                &&& 0 <= i < result.buckets@.len() ==> lines.contains("  "@ + label@ + "："@ + state@)
                &&& !result.ok ==> lines.contains("  原因："@ + result.message@)
                &&& result.plan_type matches Some(s) ==> lines.contains("  订阅："@ + s@)
                &&& result.email_masked matches Some(s) ==> lines.contains("  账号："@ + s@)
                &&& lines.last() == result.recommendation@
            },
{
    let lines = quota_lines(result, now as int);
    assert(r@ == joined(lines, "\n"@));
    assert(is_limit_reached(result.buckets@) == exists|k: int|
        0 <= k < result.buckets@.len() && (#[trigger] result.buckets@[k]).limit_reached == Some(true));
    let head = quota_head(result);
    if 0 <= i < result.buckets@.len() {
        assert(label@ == bucket_label(result.buckets@[i]));
        assert(state@ == bucket_state(result.buckets@[i]));
        let section = bucket_section(result.buckets@, now as int);
        let told = bucket_lines(result.buckets@, now as int);
        lemma_bucket_line(result.buckets@, now as int, i);
        let line = "  "@ + label@ + "："@ + state@;
        let k = choose|k: int| 0 <= k < told.len() && #[trigger] told[k] == line;
        assert(section[k + 2] == line);
        assert(lines[head.len() + k + 2] == line);
    }
    let mails = told_lines_len(opt_text(result.email_masked));
    let plans = told_lines_len(opt_text(result.plan_type));
    let accounts = told_lines_len(opt_text(result.account_id_masked));
    assert(head[1 + mails + plans + accounts] == "  查询结果："@ + query_word(result));
    assert(lines[1 + mails + plans + accounts] == head[1 + mails + plans + accounts]);
    if !result.ok {
        assert(lines[2 + mails + plans + accounts] == "  原因："@ + result.message@);
    }
    if result.email_masked is Some {
        assert(lines[1] == "  账号："@ + result.email_masked->0@);
    }
    if result.plan_type is Some {
        assert(lines[1 + mails] == "  订阅："@ + result.plan_type->0@);
    }
}

spec fn told_lines_len(value: Option<Seq<char>>) -> int {
    if value is Some {
        1
    } else {
        0
    }
}

proof fn lemma_bucket_line(buckets: Seq<QuotaBucketView>, now: int, i: int)
    requires
        0 <= i < buckets.len(),
    ensures
        exists|k: int|
            0 <= k < bucket_lines(buckets, now).len() && #[trigger] bucket_lines(buckets, now)[k] == "  "@ + bucket_label(
                buckets[i],
            ) + "："@ + bucket_state(buckets[i]),
    decreases buckets.len(),
{
    let before = bucket_lines(buckets.drop_last(), now);
    let all = bucket_lines(buckets, now);
    let line = "  "@ + bucket_label(buckets[i]) + "："@ + bucket_state(buckets[i]);
    if i == buckets.len() - 1 {
        assert(all[before.len() as int] == line);
    } else {
        lemma_bucket_line(buckets.drop_last(), now, i);
        let k = choose|k: int| 0 <= k < before.len() && #[trigger] before[k] == line;
        assert(all[k] == line);
    }
}

/// A query that failed tells why and of no limit; what is known of the login it
/// tells masked.
pub proof fn law_unavailable(
    status: &str,
    message: String,
    auth: LocalChatGptAuth,
    now_ms: u128,
    account: &str,
    hidden: String,
    r: OpenAiQuotaResult,
)
    requires
        account@ == auth.account_id@,
        call_ensures(mask_secret, (account,), hidden),
        call_ensures(quota_result_unavailable, (status, message, Some(auth), now_ms), r),
    ensures
        !r.ok,
        r.status@ == status@,
        r.message@ == message@,
        r.buckets@.len() == 0,
        r.credits is None,
        r.spend_control is None,
        opt_text(r.account_id_masked) == Some(hidden@),
        opt_text(r.plan_type) == opt_text(auth.plan_type),
        opt_text(r.auth_mode) == opt_text(auth.auth_mode),
        r.fetched_at_unix_ms == now_ms,
{
    assert(hidden@ == masked(account@));
    assert(is_unavailable(r, status@, message@, Some(auth), now_ms));
}

/// Of a bad answer the first three hundred and twenty characters are told.
pub proof fn law_http_error(status: &str, content_type: &str, body: &str, r: String)
    requires
        call_ensures(quota_http_error, (status, content_type, body), r),
    ensures
        r@ == "OpenAI usage 接口返回 HTTP "@ + status@ + "，content-type="@ + content_type@ + "，响应摘要："@ + (if body@.len()
            <= 320 {
            body@
        } else {
            body@.take(320)
        }),
{
    assert(r@ == http_error_text(status@, content_type@, body@));
}

/// A number is read as one whether it stands as a number or as a text.
pub proof fn law_number(value: &Json, text: &str, parsed: Option<i64>, r: Option<i64>)
    requires
        value@ == JsonModel::Text(text@),
        call_ensures(parse_signed, (text,), parsed),
        call_ensures(number_as_i64, (Some(value),), r),
    ensures
        r == parsed,
{
    assert(opt_int(r) == integer_of(Some(value@)));
    assert(parsed is Some == signed_value(text@) is Some);
}

/// What is told of a window begins with its word and says what is used and what
/// is left.
pub proof fn law_window_told(window: QuotaWindowView, now: i64, used: Percent, left: Percent, r: String)
    requires
        window.label@ == "primary"@,
        window.used_percent == Some(used),
        window.remaining_percent == Some(left),
        window.window_minutes is None,
        window.resets_at is None,
        window.reset_after_seconds is None,
        call_ensures(quota_window_summary, (&window, now), r),
    ensures
        r@ == "短周期"@ + "：已用 "@ + used.text@ + "，剩余 "@ + left.text@,
{
    assert(r@ == window_summary(window, now as int));
    assert(r@ =~= "短周期"@ + "：已用 "@ + used.text@ + "，剩余 "@ + left.text@);
}

} // verus!
