//! What is read from the records of a session.

use vstd::prelude::*;

use crate::json::{field, field_of, json_read, json_written, Json, JsonModel};
use crate::rollout::{
    collect_rollout_content_details, content_text, details_after_line, details_from,
    extract_text_from_content, is_session_meta, is_text, law_details_stay, meta_provider, meta_thread_id,
    no_details, object_payload, part_texts, session_provider, user_message_text, written_text, DetailsModel,
    RolloutContentDetails,
};
use crate::sessions::{is_rollout_name, line_ends, session_record};
use crate::text::{is_blank, joined, lemma_kept_len_is, opt_text, texts, trim_end_where, trimmed};

verus! {

/// Whether a line is the record of a turn, and what the turn ran with.
pub open spec fn is_turn(line: Seq<char>) -> bool {
    !is_blank(line) && (json_read(line) matches Ok(record) && field(record, "type"@) == Some(
        JsonModel::Text("turn_context"@),
    ))
}

/// The field of a turn, where its payload is an object.
pub open spec fn turn_field(line: Seq<char>, key: Seq<char>) -> Option<JsonModel> {
    match field(json_read(line)->Ok_0, "payload"@) {
        Some(JsonModel::Object(payload)) => if payload.dom().contains(key) {
            Some(payload[key])
        } else {
            None
        },
        _ => None,
    }
}

/// What one line that is no turn leaves unsaid of the turns.
proof fn lemma_no_turn(before: DetailsModel, line: Seq<char>)
    requires
        !is_turn(line),
    ensures
        details_after_line(before, line).model == before.model,
        details_after_line(before, line).reasoning_effort == before.reasoning_effort,
        details_after_line(before, line).sandbox_policy == before.sandbox_policy,
        details_after_line(before, line).approval_mode == before.approval_mode,
        details_after_line(before, line).saw_turn_context == before.saw_turn_context,
{
    if !is_blank(line) && json_read(line) is Ok {
        let record = json_read(line)->Ok_0;
        assert(!is_text(field(record, "type"@), "turn_context"@)) by {
            if is_text(field(record, "type"@), "turn_context"@) {
                assert(field(record, "type"@) == Some(JsonModel::Text("turn_context"@)));
            }
        }
    }
}

/// What is known stays known to the end.
proof fn lemma_details_stay(before: DetailsModel, lines: Seq<Seq<char>>, i: int)
    requires
        0 <= i <= lines.len(),
    ensures
        before.model is Some ==> details_from(before, lines, i).model == before.model,
        before.reasoning_effort is Some ==> details_from(before, lines, i).reasoning_effort == before.reasoning_effort,
        before.sandbox_policy is Some ==> details_from(before, lines, i).sandbox_policy == before.sandbox_policy,
        before.approval_mode is Some ==> details_from(before, lines, i).approval_mode == before.approval_mode,
        before.first_user_message is Some ==> details_from(before, lines, i).first_user_message
            == before.first_user_message,
    decreases lines.len() - i,
{
    if i < lines.len() {
        law_details_stay(before, lines[i]);
        lemma_details_stay(details_after_line(before, lines[i]), lines, i + 1);
    }
}

/// Up to the first turn nothing is known of the turns, and reading goes on.
proof fn lemma_first_turn(before: DetailsModel, lines: Seq<Seq<char>>, i: int, k: int) -> (at: DetailsModel)
    requires
        0 <= i <= k < lines.len(),
        forall|j: int| i <= j < k ==> !is_turn(#[trigger] lines[j]),
        before.model is None,
        before.reasoning_effort is None,
        before.sandbox_policy is None,
        before.approval_mode is None,
        !before.saw_turn_context,
    ensures
        details_from(before, lines, i) == details_from(at, lines, k),
        at.model is None,
        at.reasoning_effort is None,
        at.sandbox_policy is None,
        at.approval_mode is None,
        !at.saw_turn_context,
    decreases k - i,
{
    if i < k {
        assert(!is_turn(lines[i]));
        lemma_no_turn(before, lines[i]);
        let next = details_after_line(before, lines[i]);
        lemma_first_turn(next, lines, i + 1, k)
    } else {
        before
    }
}

/// A session's model, effort, sandbox and approval are those of its first turn,
/// in so far as that turn states them.
pub proof fn law_first_turn(lines: Vec<String>, k: int, r: RolloutContentDetails)
    requires
        0 <= k < lines@.len(),
        is_turn(lines@[k]@),
        forall|j: int| 0 <= j < k ==> !is_turn((#[trigger] lines@[j])@),
        call_ensures(collect_rollout_content_details, (&lines,), r),
    ensures
        turn_field(lines@[k]@, "model"@) matches Some(JsonModel::Text(s)) ==> !is_blank(s) ==> opt_text(r.model) == Some(
            s,
        ),
        turn_field(lines@[k]@, "effort"@) matches Some(JsonModel::Text(s)) ==> !is_blank(s) ==> opt_text(
            r.reasoning_effort,
        ) == Some(s),
        turn_field(lines@[k]@, "effort"@) is None ==> (field_of(
            field_of(turn_field(lines@[k]@, "collaboration_mode"@), "settings"@),
            "reasoning_effort"@,
        ) matches Some(JsonModel::Text(s)) ==> !is_blank(s) ==> opt_text(r.reasoning_effort) == Some(s)),
        turn_field(lines@[k]@, "sandbox_policy"@) matches Some(policy) ==> opt_text(r.sandbox_policy) == Some(
            json_written(policy),
        ),
        turn_field(lines@[k]@, "approval_policy"@) matches Some(JsonModel::Text(s)) ==> !is_blank(s) ==> opt_text(
            r.approval_mode,
        ) == Some(s),
        turn_field(lines@[k]@, "approval_policy"@) is None ==> (turn_field(lines@[k]@, "approval_mode"@) matches Some(
            JsonModel::Text(s),
        ) ==> !is_blank(s) ==> opt_text(r.approval_mode) == Some(s)),
{
    let all = texts(lines@);
    assert(r@ == details_from(no_details(), all, 0));
    assert forall|j: int| 0 <= j < k implies !is_turn(#[trigger] all[j]) by {
        assert(all[j] == lines@[j]@);
    }
    assert(all[k] == lines@[k]@);
    let at = lemma_first_turn(no_details(), all, 0, k);
    let next = details_after_line(at, all[k]);
    lemma_details_stay(next, all, k + 1);
    let record = json_read(all[k])->Ok_0;
    assert(is_text(field(record, "type"@), "turn_context"@));
    let payload = object_payload(record);
    assert(field_of(payload, "model"@) == turn_field(all[k], "model"@));
    assert(field_of(payload, "effort"@) == turn_field(all[k], "effort"@));
    assert(field_of(payload, "collaboration_mode"@) == turn_field(all[k], "collaboration_mode"@));
    assert(field_of(payload, "sandbox_policy"@) == turn_field(all[k], "sandbox_policy"@));
    assert(field_of(payload, "approval_policy"@) == turn_field(all[k], "approval_policy"@));
    assert(field_of(payload, "approval_mode"@) == turn_field(all[k], "approval_mode"@));
}

/// What a line says that the user wrote.
pub open spec fn line_text(line: Seq<char>) -> Option<Seq<char>> {
    if is_blank(line) {
        None
    } else {
        match json_read(line) {
            Ok(record) => written_text(record),
            Err(_) => None,
        }
    }
}

proof fn lemma_first_message(before: DetailsModel, lines: Seq<Seq<char>>, i: int, k: int)
    requires
        0 <= i <= k < lines.len(),
        forall|j: int| i <= j < k ==> line_text(#[trigger] lines[j]) is None,
        line_text(lines[k]) is Some,
        before.first_user_message is None,
    ensures
        details_from(before, lines, i).first_user_message == line_text(lines[k]),
    decreases k - i,
{
    let next = details_after_line(before, lines[i]);
    if i < k {
        assert(line_text(lines[i]) is None);
        assert(next.first_user_message is None);
        lemma_first_message(next, lines, i + 1, k);
    } else {
        assert(next.first_user_message == line_text(lines[k]));
        lemma_details_stay(next, lines, i + 1);
    }
}

/// The first message of a session is that of its first record that holds one.
pub proof fn law_first_message(
    lines: Vec<String>,
    k: int,
    record: &Json,
    message: Option<String>,
    r: RolloutContentDetails,
)
    requires
        0 <= k < lines@.len(),
        !is_blank(lines@[k]@),
        json_read(lines@[k]@) == Ok::<JsonModel, Seq<char>>(record@),
        call_ensures(user_message_text, (record,), message),
        message is Some,
        forall|j: int| 0 <= j < k ==> line_text((#[trigger] lines@[j])@) is None,
        call_ensures(collect_rollout_content_details, (&lines,), r),
    ensures
        opt_text(r.first_user_message) == opt_text(message),
{
    let all = texts(lines@);
    assert(r@ == details_from(no_details(), all, 0));
    assert(opt_text(message) == written_text(record@));
    assert forall|j: int| 0 <= j < k implies line_text(#[trigger] all[j]) is None by {
        assert(all[j] == lines@[j]@);
    }
    assert(all[k] == lines@[k]@);
    lemma_first_message(no_details(), all, 0, k);
}

/// The text of content: a text itself, the text of an object, or the texts of a
/// list one below the other.
pub proof fn law_content_text(value: &Json, parts: Seq<Seq<char>>, r: Option<String>)
    requires
        call_ensures(extract_text_from_content, (value,), r),
    ensures
        value@ matches JsonModel::Text(s) ==> (trimmed(s).len() > 0 ==> opt_text(r) == Some(trimmed(s))) && (trimmed(
            s,
        ).len() == 0 ==> r is None),
        value@ matches JsonModel::Object(map) ==> map.dom().contains("text"@) ==> (map["text"@] matches JsonModel::Text(s)
            ==> trimmed(s).len() > 0 ==> opt_text(r) == Some(trimmed(s))),
        value@ matches JsonModel::Array(items) ==> items.len() == parts.len() && items.len() > 0 && (forall|i: int|
            0 <= i < items.len() ==> field(#[trigger] items[i], "text"@) == Some(JsonModel::Text(parts[i])) && trimmed(
                parts[i],
            ) == parts[i] && parts[i].len() > 0) ==> opt_text(r) == Some(joined(parts, "\n"@)),
        value@ is Null || value@ is Bool || value@ is Number ==> r is None,
{
    assert(opt_text(r) == content_text(value@));
    reveal_with_fuel(content_text, 2);
    match value@ {
        JsonModel::Array(items) => {
            if items.len() == parts.len() && items.len() > 0 && (forall|i: int|
                0 <= i < items.len() ==> field(#[trigger] items[i], "text"@) == Some(JsonModel::Text(parts[i])) && trimmed(
                    parts[i],
                ) == parts[i] && parts[i].len() > 0) {
                lemma_part_texts(items, parts);
                assert forall|i: int| 0 <= i < parts.len() implies (#[trigger] parts[i]).len() > 0 by {
                    assert(field(items[i], "text"@) == Some(JsonModel::Text(parts[i])));
                }
                lemma_joined_filled(parts);
            }
        },
        _ => {},
    }
}

proof fn lemma_part_texts(items: Seq<JsonModel>, parts: Seq<Seq<char>>)
    requires
        items.len() == parts.len(),
        forall|i: int|
            0 <= i < items.len() ==> field(#[trigger] items[i], "text"@) == Some(JsonModel::Text(parts[i])) && trimmed(
                parts[i],
            ) == parts[i] && parts[i].len() > 0,
    ensures
        part_texts(items) == parts,
    decreases items.len(),
{
    if items.len() > 0 {
        let rest = items.drop_last();
        let less = parts.drop_last();
        assert forall|i: int| 0 <= i < rest.len() implies field(#[trigger] rest[i], "text"@) == Some(
            JsonModel::Text(less[i]),
        ) && trimmed(less[i]) == less[i] && less[i].len() > 0 by {
            assert(rest[i] == items[i]);
        }
        lemma_part_texts(rest, less);
        assert(field(items[items.len() - 1], "text"@) == Some(JsonModel::Text(parts[items.len() - 1])));
        assert(part_texts(items) =~= parts);
    } else {
        assert(part_texts(items) =~= parts);
    }
}

proof fn lemma_joined_filled(parts: Seq<Seq<char>>)
    requires
        parts.len() > 0,
        forall|i: int| 0 <= i < parts.len() ==> (#[trigger] parts[i]).len() > 0,
    ensures
        joined(parts, "\n"@).len() > 0,
{
    assert(parts[parts.len() - 1].len() > 0);
    assert(parts[0].len() > 0);
}

/// A line is the record of a session exactly when it is one with an id that is
/// not blank, whatever line ending stands behind it.
pub proof fn law_session_record(line: &str, text: Seq<char>, end: Seq<char>, r: Option<Json>)
    requires
        line@ == text + end,
        text.len() > 0 ==> text.last() != '\r' && text.last() != '\n',
        forall|i: int| 0 <= i < end.len() ==> #[trigger] end[i] == '\r' || end[i] == '\n',
        call_ensures(session_record, (line,), r),
    ensures
        match json_read(text) {
            Ok(value) => if field(value, "type"@) == Some(JsonModel::Text("session_meta"@)) && (field(
                value,
                "payload"@,
            ) matches Some(JsonModel::Object(payload)) && payload.dom().contains("id"@) && (payload["id"@] matches
                JsonModel::Text(id) && !is_blank(id))) {
                r matches Some(record) && record@ == value
            } else {
                r is None
            },
            Err(_) => r is None,
        },
{
    let s = line@;
    let p = line_ends();
    assert forall|j: int| text.len() <= j < s.len() implies p(#[trigger] s[j]) by {
        assert(s[j] == end[j - text.len()]);
    }
    if text.len() > 0 {
        assert(s[text.len() - 1] == text.last());
    }
    lemma_kept_len_is(s, p, text.len() as int);
    assert(trim_end_where(s, p) =~= text);
    match json_read(text) {
        Ok(value) => {
            assert(is_session_meta(value) == (field(value, "type"@) == Some(JsonModel::Text("session_meta"@)) && field(
                value,
                "payload"@,
            ) matches Some(JsonModel::Object(_))));
            if is_session_meta(value) {
                let payload = field(value, "payload"@)->0->Object_0;
                assert(meta_thread_id(value) is Some == (payload.dom().contains("id"@) && (payload["id"@] matches
                    JsonModel::Text(id) && !is_blank(id))));
            }
        },
        Err(_) => {},
    }
}

/// A file is a session's by its name.
pub proof fn law_rollout_name(name: &str, middle: Seq<char>, r: bool)
    requires
        call_ensures(is_rollout_name, (name,), r),
    ensures
        name@ == "rollout-"@ + middle + ".jsonl"@ ==> r,
        r ==> name@.len() >= 8 && name@.take(8) == "rollout-"@ && name@.skip(name@.len() - 6) == ".jsonl"@,
{
    reveal_strlit("rollout-");
    reveal_strlit(".jsonl");
    if name@ == "rollout-"@ + middle + ".jsonl"@ {
        assert(name@.take(8) =~= "rollout-"@);
        assert(name@.skip(8 + middle.len() as int) =~= ".jsonl"@);
    }
    if "rollout-"@.is_prefix_of(name@) {
        assert(name@.take(8) =~= "rollout-"@);
    }
}

/// The provider of a session is the one that its first record names.
pub proof fn law_session_provider(meta: &Json, payload: Map<Seq<char>, JsonModel>, provider: String)
    requires
        field(meta@, "type"@) == Some(JsonModel::Text("session_meta"@)),
        field(meta@, "payload"@) == Some(JsonModel::Object(payload)),
        call_ensures(session_provider, (meta,), provider),
    ensures
        payload.dom().contains("model_provider"@) ==> (payload["model_provider"@] matches JsonModel::Text(s)
            ==> provider@ == s),
        !payload.dom().contains("model_provider"@) ==> provider@ == "(missing)"@,
{
    assert(provider@ == meta_provider(meta@));
}

} // verus!
