//! The rollout files of Codex, in which sessions are recorded.

use vstd::prelude::*;
use vstd::utf8::*;

use crate::bytes::{append_bytes, find_line_feed, lemma_line_feed, lemma_line_feed_bound, line_feed};
use crate::config::{entries, lemma_entries, lookup, opt_str};
use crate::counts::{tally, Counts};
use crate::json::{
    as_text, field, field_of, fields_model, get_of, is_lossless, json_read, json_text, json_written,
    lemma_fields_finite, lemma_models, models, opt_json, parse_json, read_depth, reads_as, set_field, text_of,
    Json, JsonModel,
};
use crate::number::{parse_unsigned, unsigned_value};
use crate::order::{ascending, lemma_ascending_len, sort_distinct};
use crate::paths::{normal_path, to_normal_workspace_path};
use crate::text::{
    blank, chars_of, is_blank, join, joined, lemma_encode_without, opt_text, same, starts_with, string_of,
    texts, trim, trimmed,
};

verus! {

/// What the thread index says of a session.
pub struct RolloutIndexRecord {
    pub path: String,
    pub thread_id: String,
    pub cwd: String,
    pub title: String,
    pub source: String,
    pub thread_source: String,
    pub cli_version: String,
    pub model: Option<String>,
    pub reasoning_effort: Option<String>,
    pub sandbox_policy: String,
    pub approval_mode: String,
    pub created_at: i64,
    pub updated_at: i64,
    pub has_user_event: bool,
    pub first_user_message: String,
    pub archived: bool,
}

/// What std's `String::from_utf8_lossy` makes of bytes.
pub uninterp spec fn lossy_text(bytes: Seq<u8>) -> Seq<char>;

/// std's `String::from_utf8_lossy`: the text of the bytes, which for valid
/// UTF-8 is what they encode.
#[verifier::external_body]
pub(crate) fn text_from_bytes(bytes: &[u8]) -> (r: String)
    ensures
        r@ == lossy_text(bytes@),
        valid_utf8(bytes@) ==> r@ == decode_utf8(bytes@),
{
    String::from_utf8_lossy(bytes).to_string()
}

/// The first line of a rollout file, what ends it, and where the next begins.
pub struct FirstLineRecord {
    pub first_line: String,
    pub separator: String,
    pub offset: usize,
}

/// The length of the first line without what ends it.
pub open spec fn first_line_len(bytes: Seq<u8>) -> int {
    let n = line_feed(bytes) as int;
    if n < bytes.len() && n > 0 && bytes[n - 1] == 13u8 {
        n - 1
    } else {
        n
    }
}

/// What ends the first line.
pub open spec fn first_line_end(bytes: Seq<u8>) -> Seq<char> {
    let n = line_feed(bytes) as int;
    if n >= bytes.len() {
        ""@
    } else if n > 0 && bytes[n - 1] == 13u8 {
        "\r\n"@
    } else {
        "\n"@
    }
}

/// Where the second line begins, or the length.
pub open spec fn first_line_offset(bytes: Seq<u8>) -> int {
    let n = line_feed(bytes) as int;
    if n < bytes.len() {
        n + 1
    } else {
        n
    }
}

/// Reads the first line of a rollout file.
pub fn read_first_line_record(bytes: &[u8]) -> (r: FirstLineRecord)
    ensures
        r.first_line@ == lossy_text(bytes@.take(first_line_len(bytes@))),
        r.separator@ == first_line_end(bytes@),
        r.offset == first_line_offset(bytes@),
        valid_utf8(bytes@.take(first_line_len(bytes@))) ==> r.first_line@ == decode_utf8(
            bytes@.take(first_line_len(bytes@)),
        ),
{
    let n: usize = bytes.len();
    let i: usize = find_line_feed(bytes);
    if i < n {
        let crlf = i > 0 && bytes[i - 1] == 13u8;
        let end: usize = if crlf {
            i - 1
        } else {
            i
        };
        let head = vstd::slice::slice_subrange(bytes, 0, end);
        assert(head@ =~= bytes@.take(end as int));
        let separator = if crlf {
            "\r\n".to_owned()
        } else {
            "\n".to_owned()
        };
        return FirstLineRecord { first_line: text_from_bytes(head), separator, offset: i + 1 };
    }
    assert(bytes@.take(n as int) =~= bytes@);
    FirstLineRecord { first_line: text_from_bytes(bytes), separator: "".to_owned(), offset: n }
}

/// Whether there is a value and it is the text.
pub open spec fn is_text(value: Option<JsonModel>, text: Seq<char>) -> bool {
    text_of(value) == Some(text)
}

fn text_is(value: Option<&Json>, text: &str) -> (r: bool)
    ensures
        r == is_text(opt_json(value), text@),
{
    match as_text(value) {
        Some(s) => same(s, text),
        None => false,
    }
}

/// Whether a value is the record that begins a session.
pub open spec fn is_session_meta(value: JsonModel) -> bool {
    is_text(field(value, "type"@), "session_meta"@) && field(value, "payload"@) matches Some(JsonModel::Object(_))
}

/// The record that begins a session, if the line holds one.
pub fn parse_session_meta_record(first_line: &str) -> (r: Option<Json>)
    ensures
        match r {
            Some(meta) => json_read(first_line@) == Ok::<JsonModel, Seq<char>>(meta@) && is_session_meta(meta@),
            None => match json_read(first_line@) {
                Ok(value) => !is_session_meta(value),
                Err(_) => true,
            },
        },
{
    match parse_json(first_line) {
        Ok(value) => {
            if session_meta(&value) {
                Some(value)
            } else {
                None
            }
        },
        Err(_) => None,
    }
}

/// Whether a value is the record that begins a session.
pub fn session_meta(value: &Json) -> (r: bool)
    ensures
        r == is_session_meta(value@),
{
    let has_payload = match value.get("payload") {
        Some(Json::Object(_)) => true,
        _ => false,
    };
    text_is(value.get("type"), "session_meta") && has_payload
}

/// Whether a value is a message of the user.
pub open spec fn is_user_message(value: Option<JsonModel>) -> bool {
    is_text(field_of(value, "type"@), "message"@) && is_text(field_of(value, "role"@), "user"@)
}

fn user_message(value: Option<&Json>) -> (r: bool)
    ensures
        r == is_user_message(opt_json(value)),
{
    text_is(get_of(value, "type"), "message") && text_is(get_of(value, "role"), "user")
}

/// Whether a record is the event of a message of the user.
pub open spec fn is_user_event(record: JsonModel) -> bool {
    is_text(field(record, "type"@), "event_msg"@) && is_text(
        field_of(field(record, "payload"@), "type"@),
        "user_message"@,
    )
}

/// Whether a record shows that the user wrote something.
pub open spec fn shows_user(record: JsonModel) -> bool {
    ||| is_user_event(record)
    ||| is_user_message(field(record, "payload"@))
    ||| is_user_message(field(record, "item"@))
    ||| is_user_message(field(record, "msg"@))
}

pub fn record_has_user_event(record: &Json) -> (r: bool)
    ensures
        r == shows_user(record@),
{
    if text_is(record.get("type"), "event_msg") && text_is(get_of(record.get("payload"), "type"), "user_message") {
        return true;
    }
    user_message(record.get("payload")) || user_message(record.get("item")) || user_message(record.get("msg"))
}

/// Whether a line holds a record that shows that the user wrote something.
pub open spec fn line_shows_user(line: Seq<char>) -> bool {
    !is_blank(line) && json_read(line) is Ok && shows_user(json_read(line)->Ok_0)
}

/// Whether one of the lines of a session shows that the user wrote something.
pub fn file_has_user_event(lines: &Vec<String>) -> (r: bool)
    ensures
        r == exists|i: int| 0 <= i < lines@.len() && line_shows_user((#[trigger] lines@[i])@),
{
    for i in 0..lines.len()
        invariant
            forall|j: int| 0 <= j < i ==> !line_shows_user((#[trigger] lines@[j])@),
    {
        if !blank(lines[i].as_str()) {
            if let Ok(record) = parse_json(lines[i].as_str()) {
                if record_has_user_event(&record) {
                    assert(line_shows_user(lines@[i as int]@));
                    return true;
                }
            }
        }
    }
    false
}

/// The text of one part of a content.
pub open spec fn part_text(item: JsonModel) -> Option<Seq<char>> {
    match text_of(field(item, "text"@)) {
        Some(s) => Some(trimmed(s)),
        None => match text_of(field(item, "content"@)) {
            Some(s) => Some(trimmed(s)),
            None => match item {
                JsonModel::Text(s) => Some(trimmed(s)),
                _ => None,
            },
        },
    }
}

/// The texts of the parts of a content, those that are not empty.
pub open spec fn part_texts(items: Seq<JsonModel>) -> Seq<Seq<char>>
    decreases items.len(),
{
    if items.len() == 0 {
        Seq::empty()
    } else {
        let before = part_texts(items.drop_last());
        match part_text(items.last()) {
            Some(s) => if s.len() > 0 {
                before.push(s)
            } else {
                before
            },
            None => before,
        }
    }
}

pub open spec fn unless_empty(s: Seq<char>) -> Option<Seq<char>> {
    if s.len() == 0 {
        None
    } else {
        Some(s)
    }
}

/// The text of a content: a text, the texts of its parts on lines of their
/// own, or that of the `text` or else the `content` of an object.
pub open spec fn content_text(value: JsonModel) -> Option<Seq<char>>
    decreases value,
{
    match value {
        JsonModel::Text(s) => unless_empty(trimmed(s)),
        JsonModel::Array(items) => unless_empty(joined(part_texts(items), "\n"@)),
        JsonModel::Object(map) => if map.dom().contains("text"@) {
            content_text(map["text"@])
        } else if map.dom().contains("content"@) {
            content_text(map["content"@])
        } else {
            None
        },
        _ => None,
    }
}

fn item_text(item: &Json) -> (r: Option<String>)
    ensures
        opt_text(r) == part_text(item@),
{
    if let Some(s) = as_text(item.get("text")) {
        return Some(trim(s).to_owned());
    }
    if let Some(s) = as_text(item.get("content")) {
        return Some(trim(s).to_owned());
    }
    match item {
        Json::Text(s) => Some(trim(s.as_str()).to_owned()),
        _ => None,
    }
}

fn text_unless_empty(s: &str) -> (r: Option<String>)
    ensures
        opt_text(r) == unless_empty(s@),
{
    if s.is_empty() {
        None
    } else {
        Some(s.to_owned())
    }
}

pub fn extract_text_from_content(value: &Json) -> (r: Option<String>)
    ensures
        opt_text(r) == content_text(value@),
    decreases value@,
{
    match value {
        Json::Text(s) => text_unless_empty(trim(s.as_str())),
        Json::Array(items) => {
            let ghost all = models(items@);
            proof {
                lemma_models(items@);
            }
            let mut parts: Vec<String> = Vec::new();
            for i in 0..items.len()
                invariant
                    all == models(items@),
                    all.len() == items@.len(),
                    forall|k: int| 0 <= k < items@.len() ==> #[trigger] all[k] == items@[k]@,
                    texts(parts@) == part_texts(all.take(i as int)),
            {
                assert(all.take(i + 1).drop_last() =~= all.take(i as int));
                let ghost before = texts(parts@);
                if let Some(s) = item_text(&items[i]) {
                    if !s.as_str().is_empty() {
                        let ghost t = s@;
                        parts.push(s);
                        assert(texts(parts@) =~= before.push(t));
                    }
                }
            }
            assert(all.take(all.len() as int) =~= all);
            let text = join(parts.as_slice(), "\n");
            text_unless_empty(text.as_str())
        },
        Json::Object(fields) => {
            proof {
                lemma_fields_finite(fields@);
                let map = fields_model(fields@);
                assert(decreases_to!(value@ => value@->Object_0));
                if map.dom().contains("text"@) {
                    assert(decreases_to!(map => map["text"@]));
                }
                if map.dom().contains("content"@) {
                    assert(decreases_to!(map => map["content"@]));
                }
            }
            match value.get("text") {
                Some(inner) => extract_text_from_content(inner),
                None => match value.get("content") {
                    Some(inner) => extract_text_from_content(inner),
                    None => None,
                },
            }
        },
        _ => None,
    }
}

/// Whether a text is one that Codex puts before what the user wrote.
pub open spec fn is_environment(text: Seq<char>) -> bool {
    let t = trimmed(text);
    "<environment_context>"@.is_prefix_of(t) || "# AGENTS.md instructions"@.is_prefix_of(t)
        || "<permissions instructions>"@.is_prefix_of(t) || "<collaboration_mode>"@.is_prefix_of(t)
}

pub fn looks_like_environment_context(text: &str) -> (r: bool)
    ensures
        r == is_environment(text@),
{
    let t = trim(text);
    starts_with(t, "<environment_context>") || starts_with(t, "# AGENTS.md instructions") || starts_with(
        t,
        "<permissions instructions>",
    ) || starts_with(t, "<collaboration_mode>")
}

/// A text that the user wrote.
pub open spec fn unless_environment(text: Option<Seq<char>>) -> Option<Seq<char>> {
    match text {
        Some(s) => if is_environment(s) {
            None
        } else {
            Some(s)
        },
        None => None,
    }
}

/// The text of a message of the user.
pub open spec fn message_text(value: Option<JsonModel>) -> Option<Seq<char>> {
    if is_user_message(value) {
        match field_of(value, "content"@) {
            Some(content) => unless_environment(content_text(content)),
            None => None,
        }
    } else {
        None
    }
}

/// The text of the event of a message of the user.
pub open spec fn event_text(record: JsonModel) -> Option<Seq<char>> {
    if is_user_event(record) {
        match text_of(field_of(field(record, "payload"@), "message"@)) {
            Some(s) => unless_environment(unless_empty(trimmed(s))),
            None => None,
        }
    } else {
        None
    }
}

pub open spec fn first_some(a: Option<Seq<char>>, b: Option<Seq<char>>) -> Option<Seq<char>> {
    if a is Some {
        a
    } else {
        b
    }
}

/// What the user wrote in a record: the message of an event, or else the
/// first of its parts that is a message of the user. An event without a
/// payload holds nothing.
pub open spec fn written_text(record: JsonModel) -> Option<Seq<char>> {
    if is_text(field(record, "type"@), "event_msg"@) && field(record, "payload"@) is None {
        None
    } else {
        first_some(
            event_text(record),
            first_some(
                message_text(field(record, "payload"@)),
                first_some(message_text(field(record, "item"@)), message_text(field(record, "msg"@))),
            ),
        )
    }
}

fn filter_environment(text: Option<String>) -> (r: Option<String>)
    ensures
        opt_text(r) == unless_environment(opt_text(text)),
{
    match text {
        Some(s) => if looks_like_environment_context(s.as_str()) {
            None
        } else {
            Some(s)
        },
        None => None,
    }
}

fn text_of_message(value: Option<&Json>) -> (r: Option<String>)
    ensures
        opt_text(r) == message_text(opt_json(value)),
{
    if !user_message(value) {
        return None;
    }
    match get_of(value, "content") {
        Some(content) => filter_environment(extract_text_from_content(content)),
        None => None,
    }
}

pub fn user_message_text(record: &Json) -> (r: Option<String>)
    ensures
        opt_text(r) == written_text(record@),
{
    if text_is(record.get("type"), "event_msg") {
        let payload = record.get("payload");
        if payload.is_none() {
            return None;
        }
        if text_is(get_of(payload, "type"), "user_message") {
            if let Some(s) = as_text(get_of(payload, "message")) {
                let text = filter_environment(text_unless_empty(trim(s)));
                if text.is_some() {
                    return text;
                }
            }
        }
    }
    let text = text_of_message(record.get("payload"));
    if text.is_some() {
        return text;
    }
    let text = text_of_message(record.get("item"));
    if text.is_some() {
        return text;
    }
    text_of_message(record.get("msg"))
}

/// What the records of a session tell, as far as they were read.
pub struct RolloutContentDetails {
    pub has_user_event: bool,
    pub first_user_message: Option<String>,
    pub model: Option<String>,
    pub reasoning_effort: Option<String>,
    pub sandbox_policy: Option<String>,
    pub approval_mode: Option<String>,
    pub saw_turn_context: bool,
}

/// What the records of a session tell, as mathematical values.
pub struct DetailsModel {
    pub has_user_event: bool,
    pub first_user_message: Option<Seq<char>>,
    pub model: Option<Seq<char>>,
    pub reasoning_effort: Option<Seq<char>>,
    pub sandbox_policy: Option<Seq<char>>,
    pub approval_mode: Option<Seq<char>>,
    pub saw_turn_context: bool,
}

impl View for RolloutContentDetails {
    type V = DetailsModel;

    open spec fn view(&self) -> DetailsModel {
        DetailsModel {
            has_user_event: self.has_user_event,
            first_user_message: opt_text(self.first_user_message),
            model: opt_text(self.model),
            reasoning_effort: opt_text(self.reasoning_effort),
            sandbox_policy: opt_text(self.sandbox_policy),
            approval_mode: opt_text(self.approval_mode),
            saw_turn_context: self.saw_turn_context,
        }
    }
}

/// Before any record was read.
pub open spec fn no_details() -> DetailsModel {
    DetailsModel {
        has_user_event: false,
        first_user_message: None,
        model: None,
        reasoning_effort: None,
        sandbox_policy: None,
        approval_mode: None,
        saw_turn_context: false,
    }
}

/// A text that is not just white space, as it is.
pub open spec fn filled_text(value: Option<JsonModel>) -> Option<Seq<char>> {
    match text_of(value) {
        Some(s) => if is_blank(s) {
            None
        } else {
            Some(s)
        },
        None => None,
    }
}

/// The reasoning effort that a turn states: its own, or that of its
/// collaboration mode.
pub open spec fn effort_value(payload: Option<JsonModel>) -> Option<JsonModel> {
    if field_of(payload, "effort"@) is Some {
        field_of(payload, "effort"@)
    } else {
        field_of(field_of(field_of(payload, "collaboration_mode"@), "settings"@), "reasoning_effort"@)
    }
}

/// The approval policy that a turn states, under its new or its old name.
pub open spec fn approval_value(payload: Option<JsonModel>) -> Option<JsonModel> {
    if field_of(payload, "approval_policy"@) is Some {
        field_of(payload, "approval_policy"@)
    } else {
        field_of(payload, "approval_mode"@)
    }
}

pub open spec fn written_json(value: Option<JsonModel>) -> Option<Seq<char>> {
    match value {
        Some(v) => Some(json_written(v)),
        None => None,
    }
}

/// The payload of a record, if it is an object.
pub open spec fn object_payload(record: JsonModel) -> Option<JsonModel> {
    match field(record, "payload"@) {
        Some(JsonModel::Object(map)) => Some(JsonModel::Object(map)),
        _ => None,
    }
}

/// What is known after one more record. What was known before stays.
pub open spec fn details_after(before: DetailsModel, record: JsonModel) -> DetailsModel {
    let seen = DetailsModel {
        has_user_event: before.has_user_event || shows_user(record),
        first_user_message: first_some(before.first_user_message, written_text(record)),
        ..before
    };
    if is_text(field(record, "type"@), "turn_context"@) {
        let payload = object_payload(record);
        DetailsModel {
            model: first_some(before.model, filled_text(field_of(payload, "model"@))),
            reasoning_effort: first_some(before.reasoning_effort, filled_text(effort_value(payload))),
            sandbox_policy: first_some(before.sandbox_policy, written_json(field_of(payload, "sandbox_policy"@))),
            approval_mode: first_some(before.approval_mode, filled_text(approval_value(payload))),
            saw_turn_context: true,
            ..seen
        }
    } else {
        seen
    }
}

/// What is known after one more line. A line that is blank or no JSON tells
/// nothing.
pub open spec fn details_after_line(before: DetailsModel, line: Seq<char>) -> DetailsModel {
    if is_blank(line) {
        before
    } else {
        match json_read(line) {
            Ok(record) => details_after(before, record),
            Err(_) => before,
        }
    }
}

/// Whether enough is known to stop reading.
pub open spec fn is_complete(details: DetailsModel) -> bool {
    details.has_user_event && details.first_user_message is Some && details.saw_turn_context
}

fn text_unless_blank(value: Option<&Json>) -> (r: Option<String>)
    ensures
        opt_text(r) == filled_text(opt_json(value)),
{
    match as_text(value) {
        Some(s) => if blank(s) {
            None
        } else {
            Some(s.to_owned())
        },
        None => None,
    }
}

impl RolloutContentDetails {
    pub fn new() -> (r: RolloutContentDetails)
        ensures
            r@ == no_details(),
    {
        RolloutContentDetails {
            has_user_event: false,
            first_user_message: None,
            model: None,
            reasoning_effort: None,
            sandbox_policy: None,
            approval_mode: None,
            saw_turn_context: false,
        }
    }

    /// Takes in one more record.
    pub fn observe(&mut self, record: &Json)
        ensures
            final(self)@ == details_after(old(self)@, record@),
    {
        if record_has_user_event(record) {
            self.has_user_event = true;
        }
        if self.first_user_message.is_none() {
            self.first_user_message = user_message_text(record);
        }
        if text_is(record.get("type"), "turn_context") {
            self.saw_turn_context = true;
            let payload = match record.get("payload") {
                Some(Json::Object(fields)) => record.get("payload"),
                _ => None,
            };
            if self.model.is_none() {
                self.model = text_unless_blank(get_of(payload, "model"));
            }
            if self.reasoning_effort.is_none() {
                let own = get_of(payload, "effort");
                self.reasoning_effort =
                if own.is_some() {
                    text_unless_blank(own)
                } else {
                    text_unless_blank(
                        get_of(get_of(get_of(payload, "collaboration_mode"), "settings"), "reasoning_effort"),
                    )
                };
            }
            if self.sandbox_policy.is_none() {
                if let Some(policy) = get_of(payload, "sandbox_policy") {
                    self.sandbox_policy =
                    match json_text(policy) {
                        Ok(text) => Some(text),
                        Err(_) => None,
                    };
                }
            }
            if self.approval_mode.is_none() {
                let new_name = get_of(payload, "approval_policy");
                self.approval_mode =
                if new_name.is_some() {
                    text_unless_blank(new_name)
                } else {
                    text_unless_blank(get_of(payload, "approval_mode"))
                };
            }
        }
    }

    /// Takes in one more line.
    pub fn observe_line(&mut self, line: &str)
        ensures
            final(self)@ == details_after_line(old(self)@, line@),
    {
        if blank(line) {
            return;
        }
        if let Ok(record) = parse_json(line) {
            self.observe(&record);
        }
    }

    /// Whether enough is known to stop reading.
    pub fn complete(&self) -> (r: bool)
        ensures
            r == is_complete(self@),
    {
        self.has_user_event && self.first_user_message.is_some() && self.saw_turn_context
    }
}

/// What the lines from `i` on add, up to the one after which enough is known.
pub open spec fn details_from(before: DetailsModel, lines: Seq<Seq<char>>, i: int) -> DetailsModel
    decreases lines.len() - i,
{
    if i >= lines.len() {
        before
    } else {
        let next = details_after_line(before, lines[i]);
        if !is_blank(lines[i]) && json_read(lines[i]) is Ok && is_complete(next) {
            next
        } else {
            details_from(next, lines, i + 1)
        }
    }
}

/// Reads the lines of a session until enough is known.
pub fn collect_rollout_content_details(lines: &Vec<String>) -> (r: RolloutContentDetails)
    ensures
        r@ == details_from(no_details(), texts(lines@), 0),
{
    let ghost all = texts(lines@);
    let mut details = RolloutContentDetails::new();
    let mut i: usize = 0;
    while i < lines.len() && !details.complete()
        invariant
            all == texts(lines@),
            i <= lines@.len(),
            i > 0 || !is_complete(details@),
            details_from(no_details(), all, 0) == (if is_complete(details@) {
                details@
            } else {
                details_from(details@, all, i as int)
            }),
        ensures
            details_from(no_details(), all, 0) == details@,
        decreases lines@.len() - i,
    {
        assert(all[i as int] == lines@[i as int]@);
        details.observe_line(lines[i].as_str());
        i += 1;
    }
    details
}

/// Once something is known of a session it stays, whatever line comes next.
pub proof fn law_details_stay(before: DetailsModel, line: Seq<char>)
    ensures
        ({
            let after = details_after_line(before, line);
            &&& before.has_user_event ==> after.has_user_event
            &&& before.first_user_message is Some ==> after.first_user_message == before.first_user_message
            &&& before.model is Some ==> after.model == before.model
            &&& before.reasoning_effort is Some ==> after.reasoning_effort == before.reasoning_effort
            &&& before.sandbox_policy is Some ==> after.sandbox_policy == before.sandbox_policy
            &&& before.approval_mode is Some ==> after.approval_mode == before.approval_mode
            &&& before.saw_turn_context ==> after.saw_turn_context
            &&& is_complete(before) ==> is_complete(after)
        }),
{
}

/// The text of a field without white space around it, if there is any.
pub open spec fn payload_text(payload: JsonModel, key: Seq<char>) -> Option<Seq<char>> {
    match text_of(field(payload, key)) {
        Some(s) => unless_empty(trimmed(s)),
        None => None,
    }
}

pub fn payload_string(payload: &Json, key: &str) -> (r: Option<String>)
    ensures
        opt_text(r) == payload_text(payload@, key@),
{
    match as_text(payload.get(key)) {
        Some(s) => text_unless_empty(trim(s)),
        None => None,
    }
}

/// The characters of `s` that are not dashes.
pub open spec fn without_dashes(s: Seq<char>) -> Seq<char> {
    s.filter(|c: char| c != '-')
}

/// The time in a session id: its first twelve digits are the milliseconds
/// since 1970, in hexadecimal.
pub open spec fn session_seconds(id: Seq<char>) -> Option<int> {
    let plain = without_dashes(id);
    if plain.len() < 12 {
        None
    } else {
        match unsigned_value(plain.take(12), 16, u64::MAX as nat) {
            Some(millis) => Some(millis as int / 1000),
            None => None,
        }
    }
}

pub fn session_id_unix_seconds(session_id: &str) -> (r: Option<i64>)
    ensures
        match r {
            Some(n) => session_seconds(session_id@) == Some(n as int),
            None => session_seconds(session_id@) is None,
        },
{
    let chars = chars_of(session_id);
    assert(without_dashes(chars@.take(0)) =~= Seq::<char>::empty()) by {
        reveal(Seq::filter);
    }
    let mut plain: Vec<char> = Vec::new();
    for i in 0..chars.len()
        invariant
            chars@ == session_id@,
            plain@ == without_dashes(chars@.take(i as int)),
    {
        assert(chars@.take(i + 1).drop_last() =~= chars@.take(i as int));
        proof {
            reveal(Seq::filter);
        }
        if chars[i] != '-' {
            plain.push(chars[i]);
        }
    }
    assert(chars@.take(chars@.len() as int) =~= chars@);
    if plain.len() < 12 {
        return None;
    }
    let head = vstd::slice::slice_subrange(plain.as_slice(), 0, 12);
    assert(head@ =~= plain@.take(12));
    let hex = string_of(head);
    match parse_unsigned(hex.as_str(), 16, u64::MAX) {
        Some(millis) => Some((millis / 1000) as i64),
        None => None,
    }
}

pub open spec fn text_or(value: Option<Seq<char>>, other: Seq<char>) -> Seq<char> {
    match value {
        Some(s) => s,
        None => other,
    }
}

fn string_or(value: Option<String>, other: &str) -> (r: String)
    ensures
        r@ == text_or(opt_text(value), other@),
{
    match value {
        Some(s) => s,
        None => other.to_owned(),
    }
}

/// The first message that the thread index shows of a session.
pub open spec fn index_message(id: Seq<char>, payload: JsonModel, details: DetailsModel) -> Seq<char> {
    text_or(first_some(details.first_user_message, payload_text(payload, "title"@)), "Restored session "@ + id)
}

/// When a session began: the time in its id, else that of its file, else now.
pub open spec fn created_seconds(id: Seq<char>, modified: Option<i64>, now: int) -> int {
    match session_seconds(id) {
        Some(n) => n,
        None => match modified {
            Some(n) => n as int,
            None => now,
        },
    }
}

pub open spec fn later(a: int, b: int) -> int {
    if a >= b {
        a
    } else {
        b
    }
}

/// Whether `record` is what the thread index says of a session whose file is
/// `path` in the directory `dir_name`, last changed at `modified`.
pub open spec fn is_index_record(
    record: RolloutIndexRecord,
    path: Seq<char>,
    dir_name: Seq<char>,
    payload: JsonModel,
    details: DetailsModel,
    modified: Option<i64>,
    now: int,
) -> bool {
    let id = payload_text(payload, "id"@)->0;
    let created = created_seconds(id, modified, now);
    &&& record.path@ == path
    &&& record.thread_id@ == id
    &&& record.cwd@ == (match payload_text(payload, "cwd"@) {
        Some(cwd) => normal_path(cwd),
        None => Seq::empty(),
    })
    &&& record.first_user_message@ == index_message(id, payload, details)
    &&& record.title@ == text_or(payload_text(payload, "title"@), index_message(id, payload, details))
    &&& record.source@ == text_or(payload_text(payload, "source"@), "vscode"@)
    &&& record.thread_source@ == text_or(payload_text(payload, "thread_source"@), "user"@)
    &&& record.cli_version@ == text_or(payload_text(payload, "cli_version"@), Seq::empty())
    &&& opt_text(record.model) == details.model
    &&& opt_text(record.reasoning_effort) == details.reasoning_effort
    &&& record.sandbox_policy@ == text_or(details.sandbox_policy, "{\"type\":\"disabled\"}"@)
    &&& record.approval_mode@ == text_or(details.approval_mode, "never"@)
    &&& record.created_at == created
    &&& record.updated_at == later(
        match modified {
            Some(n) => n as int,
            None => created,
        },
        created,
    )
    &&& record.has_user_event == details.has_user_event
    &&& record.archived == (dir_name == "archived_sessions"@)
}

/// What the thread index says of a session, if its record has an id.
pub fn rollout_index_record(
    rollout_path: &str,
    dir_name: &str,
    payload: &Json,
    content: RolloutContentDetails,
    modified: Option<i64>,
    now_seconds: i64,
) -> (r: Option<RolloutIndexRecord>)
    ensures
        match r {
            Some(record) => payload_text(payload@, "id"@) is Some && is_index_record(
                record,
                rollout_path@,
                dir_name@,
                payload@,
                content@,
                modified,
                now_seconds as int,
            ),
            None => payload_text(payload@, "id"@) is None,
        },
{
    let thread_id = match payload_string(payload, "id") {
        Some(id) => id,
        None => {
            return None;
        },
    };
    let cwd = match payload_string(payload, "cwd") {
        Some(cwd) => to_normal_workspace_path(cwd.as_str()),
        None => String::new(),
    };
    let fallback = "Restored session ".to_owned().concat(thread_id.as_str());
    let ghost details = content@;
    let found = match content.first_user_message {
        Some(message) => Some(message),
        None => payload_string(payload, "title"),
    };
    let first_user_message = string_or(found, fallback.as_str());
    let title = string_or(payload_string(payload, "title"), first_user_message.as_str());
    let created_at: i64 = match session_id_unix_seconds(thread_id.as_str()) {
        Some(n) => n,
        None => match modified {
            Some(n) => n,
            None => now_seconds,
        },
    };
    let changed_at: i64 = match modified {
        Some(n) => n,
        None => created_at,
    };
    let updated_at: i64 = if changed_at >= created_at {
        changed_at
    } else {
        created_at
    };
    let empty = String::new();
    assert(empty@ =~= Seq::<char>::empty());
    Some(
        RolloutIndexRecord {
            path: rollout_path.to_owned(),
            thread_id,
            cwd,
            title,
            source: string_or(payload_string(payload, "source"), "vscode"),
            thread_source: string_or(payload_string(payload, "thread_source"), "user"),
            cli_version: string_or(payload_string(payload, "cli_version"), empty.as_str()),
            model: content.model,
            reasoning_effort: content.reasoning_effort,
            sandbox_policy: string_or(content.sandbox_policy, "{\"type\":\"disabled\"}"),
            approval_mode: string_or(content.approval_mode, "never"),
            created_at,
            updated_at,
            has_user_event: content.has_user_event,
            first_user_message,
            archived: same(dir_name, "archived_sessions"),
        },
    )
}

/// A rollout file whose first line is to name another provider.
pub struct RolloutChange {
    pub path: String,
    pub thread_id: Option<String>,
    pub cwd: Option<String>,
    pub has_user_event: bool,
    pub original_first_line: String,
    pub original_separator: String,
    pub original_offset: usize,
    pub original_size: u64,
    pub original_mtime_seconds: i64,
    pub original_mtime_nanos: u32,
    pub updated_first_line: String,
}

/// A rollout file that is scanned.
pub struct RolloutFile {
    pub dir_name: String,
    pub path: String,
    pub first: FirstLineRecord,
    pub size: u64,
    pub mtime_seconds: i64,
    pub mtime_nanos: u32,
}

/// What a scan of the rollout files found.
pub struct RolloutScan {
    pub changes: Vec<RolloutChange>,
    pub index_records: Vec<RolloutIndexRecord>,
    /// The directory and the provider of each session.
    pub provider_keys: Vec<String>,
    pub user_event_thread_ids: Vec<String>,
    /// The working directory by session id, the last of each id.
    pub thread_cwds: Vec<(String, String)>,
}

/// The payload of the record that begins a session.
pub open spec fn meta_payload(meta: JsonModel) -> JsonModel {
    field(meta, "payload"@)->0
}

/// The provider that a session names.
pub open spec fn meta_provider(meta: JsonModel) -> Seq<char> {
    text_or(text_of(field(meta_payload(meta), "model_provider"@)), "(missing)"@)
}

pub open spec fn meta_thread_id(meta: JsonModel) -> Option<Seq<char>> {
    filled_text(field(meta_payload(meta), "id"@))
}

pub open spec fn meta_cwd(meta: JsonModel) -> Option<Seq<char>> {
    match filled_text(field(meta_payload(meta), "cwd"@)) {
        Some(cwd) => Some(normal_path(cwd)),
        None => None,
    }
}

/// The record with another provider in its payload.
pub open spec fn with_provider(meta: JsonModel, target: Seq<char>) -> JsonModel {
    match (meta, meta_payload(meta)) {
        (JsonModel::Object(map), JsonModel::Object(payload)) => JsonModel::Object(
            map.insert(
                "payload"@,
                JsonModel::Object(payload.insert("model_provider"@, JsonModel::Text(target))),
            ),
        ),
        _ => meta,
    }
}

/// Whether a session is to be moved to the target.
pub open spec fn is_moved(meta: JsonModel, target: Option<Seq<char>>) -> bool {
    match target {
        Some(t) => meta_provider(meta) != t,
        None => false,
    }
}

pub open spec fn is_change(
    change: RolloutChange,
    file: RolloutFile,
    meta: JsonModel,
    has_user_event: bool,
    target: Seq<char>,
) -> bool {
    &&& change.path@ == file.path@
    &&& opt_text(change.thread_id) == meta_thread_id(meta)
    &&& opt_text(change.cwd) == meta_cwd(meta)
    &&& change.has_user_event == has_user_event
    &&& change.original_first_line@ == file.first.first_line@
    &&& change.original_separator@ == file.first.separator@
    &&& change.original_offset == file.first.offset
    &&& change.original_size == file.size
    &&& change.original_mtime_seconds == file.mtime_seconds
    &&& change.original_mtime_nanos == file.mtime_nanos
    &&& change.updated_first_line@ == json_written(with_provider(meta, target))
    &&& is_lossless(meta, read_depth()) ==> reads_as(change.updated_first_line@, with_provider(meta, target))
    &&& !change.updated_first_line@.contains('\n')
    &&& !change.updated_first_line@.contains('\r')
}

fn payload_of(meta: &Json) -> (r: &Json)
    requires
        is_session_meta(meta@),
    ensures
        r@ == meta_payload(meta@),
{
    match meta.get("payload") {
        Some(payload) => payload,
        None => meta,
    }
}

/// The provider that a session names.
pub fn session_provider(meta: &Json) -> (r: String)
    requires
        is_session_meta(meta@),
    ensures
        r@ == meta_provider(meta@),
{
    match as_text(payload_of(meta).get("model_provider")) {
        Some(s) => s.to_owned(),
        None => "(missing)".to_owned(),
    }
}

/// Whether a session is to be moved to the target.
pub fn session_is_moved(meta: &Json, target: Option<&str>) -> (r: bool)
    requires
        is_session_meta(meta@),
    ensures
        r == is_moved(meta@, opt_str(target)),
{
    match target {
        Some(t) => !same(session_provider(meta).as_str(), t),
        None => false,
    }
}

/// What the thread index says of the session that a record begins, if the
/// record has an id.
pub fn session_index_record(
    rollout_path: &str,
    dir_name: &str,
    meta: &Json,
    content: RolloutContentDetails,
    modified: Option<i64>,
    now_seconds: i64,
) -> (r: Option<RolloutIndexRecord>)
    requires
        is_session_meta(meta@),
    ensures
        match r {
            Some(record) => payload_text(meta_payload(meta@), "id"@) is Some && is_index_record(
                record,
                rollout_path@,
                dir_name@,
                meta_payload(meta@),
                content@,
                modified,
                now_seconds as int,
            ),
            None => payload_text(meta_payload(meta@), "id"@) is None,
        },
{
    rollout_index_record(rollout_path, dir_name, payload_of(meta), content, modified, now_seconds)
}

/// Whether the record that begins a session has an id for the thread index.
pub fn session_has_id(meta: &Json) -> (r: bool)
    requires
        is_session_meta(meta@),
    ensures
        r == (payload_text(meta_payload(meta@), "id"@) is Some),
{
    payload_string(payload_of(meta), "id").is_some()
}

fn updated_meta(meta: &Json, target: &str) -> (r: Json)
    requires
        is_session_meta(meta@),
    ensures
        r@ == with_provider(meta@, target@),
{
    match (meta.duplicate(), payload_of(meta).duplicate()) {
        (Json::Object(fields), Json::Object(payload)) => {
            let mut fields = fields;
            let mut payload = payload;
            set_field(&mut payload, "model_provider", Json::Text(target.to_owned()));
            set_field(&mut fields, "payload", Json::Object(payload));
            Json::Object(fields)
        },
        (other, _) => other,
    }
}

/// The ids of those that count as having a user event.
pub open spec fn event_ids(before: Seq<Seq<char>>, record: Option<RolloutIndexRecord>) -> Seq<Seq<char>> {
    match record {
        Some(r) => if r.has_user_event {
            before.push(r.thread_id@)
        } else {
            before
        },
        None => before,
    }
}

proof fn lemma_moved_is_lossless(meta: JsonModel, target: Seq<char>)
    requires
        is_session_meta(meta),
    ensures
        is_lossless(meta, read_depth()) ==> is_lossless(with_provider(meta, target), read_depth()),
{
    if is_lossless(meta, read_depth()) {
        let map = meta->Object_0;
        let payload = map["payload"@]->Object_0;
        let deeper = (read_depth() - 1) as nat;
        assert(is_lossless(map["payload"@], deeper));
        let moved = payload.insert("model_provider"@, JsonModel::Text(target));
        assert forall|key: Seq<char>| moved.dom().contains(key) implies is_lossless(
            #[trigger] moved[key],
            (deeper - 1) as nat,
        ) by {
            if key != "model_provider"@ {
                assert(is_lossless(payload[key], (deeper - 1) as nat));
            }
        }
        assert(is_lossless(JsonModel::Object(moved), deeper));
        let next = map.insert("payload"@, JsonModel::Object(moved));
        assert forall|key: Seq<char>| next.dom().contains(key) implies is_lossless(#[trigger] next[key], deeper) by {
            if key != "payload"@ {
                assert(is_lossless(map[key], deeper));
            }
        }
    }
}

impl RolloutScan {
    pub fn new() -> (r: RolloutScan)
        ensures
            r.changes@.len() == 0,
            r.index_records@.len() == 0,
            r.provider_keys@.len() == 0,
            r.user_event_thread_ids@.len() == 0,
            r.thread_cwds@.len() == 0,
    {
        RolloutScan {
            changes: Vec::new(),
            index_records: Vec::new(),
            provider_keys: Vec::new(),
            user_event_thread_ids: Vec::new(),
            thread_cwds: Vec::new(),
        }
    }

    /// Takes in a session: its file, the record that begins it, and what the
    /// thread index is to say of it.
    pub fn collect(
        &mut self,
        file: RolloutFile,
        meta: &Json,
        index_record: Option<RolloutIndexRecord>,
        target: Option<&str>,
    )
        requires
            is_session_meta(meta@),
        ensures
            texts(final(self).provider_keys@) == texts(old(self).provider_keys@).push(
                file.dir_name@ + "/"@ + meta_provider(meta@),
            ),
            final(self).index_records@ == (match index_record {
                Some(record) => old(self).index_records@.push(record),
                None => old(self).index_records@,
            }),
            texts(final(self).user_event_thread_ids@) == event_ids(
                texts(old(self).user_event_thread_ids@),
                index_record,
            ),
            entries(final(self).thread_cwds@) == (match (meta_thread_id(meta@), meta_cwd(meta@)) {
                (Some(id), Some(cwd)) => entries(old(self).thread_cwds@).insert(id, cwd),
                _ => entries(old(self).thread_cwds@),
            }),
            !is_moved(meta@, opt_str(target)) ==> final(self).changes@ == old(self).changes@,
            is_moved(meta@, opt_str(target)) ==> {
                &&& final(self).changes@.len() == old(self).changes@.len() + 1
                &&& final(self).changes@.drop_last() == old(self).changes@
                &&& is_change(
                    final(self).changes@.last(),
                    file,
                    meta@,
                    index_record matches Some(record) && record.has_user_event,
                    target->0@,
                )
            },
    {
        let ghost keys = texts(self.provider_keys@);
        let ghost ids = texts(self.user_event_thread_ids@);
        let ghost cwds = self.thread_cwds@;
        let provider = session_provider(meta);
        let key = file.dir_name.clone().concat("/").concat(provider.as_str());
        self.provider_keys.push(key);
        assert(texts(self.provider_keys@) =~= keys.push(file.dir_name@ + "/"@ + meta_provider(meta@)));
        let payload = payload_of(meta);
        let thread_id = text_unless_blank(payload.get("id"));
        let cwd = match text_unless_blank(payload.get("cwd")) {
            Some(cwd) => Some(to_normal_workspace_path(cwd.as_str())),
            None => None,
        };
        if let (Some(id), Some(dir)) = (&thread_id, &cwd) {
            self.thread_cwds.push((id.clone(), dir.clone()));
            assert(self.thread_cwds@.drop_last() =~= cwds);
        }
        let mut has_user_event = false;
        if let Some(record) = index_record {
            if record.has_user_event {
                has_user_event = true;
                self.user_event_thread_ids.push(record.thread_id.clone());
                assert(texts(self.user_event_thread_ids@) =~= ids.push(record.thread_id@));
            }
            self.index_records.push(record);
        }
        if let Some(t) = target {
            if !same(provider.as_str(), t) {
                let updated = updated_meta(meta, t);
                proof {
                    lemma_moved_is_lossless(meta@, t@);
                }
                if let Ok(updated_first_line) = json_text(&updated) {
                    let ghost before = self.changes@;
                    self.changes.push(
                        RolloutChange {
                            path: file.path,
                            thread_id,
                            cwd,
                            has_user_event,
                            original_first_line: file.first.first_line,
                            original_separator: file.first.separator,
                            original_offset: file.first.offset,
                            original_size: file.size,
                            original_mtime_seconds: file.mtime_seconds,
                            original_mtime_nanos: file.mtime_nanos,
                            updated_first_line,
                        },
                    );
                    assert(self.changes@.drop_last() =~= before);
                }
            }
        }
    }

    /// How many sessions each provider has, by directory.
    pub fn provider_counts(&self) -> (r: Counts)
        ensures
            r@ == tally(texts(self.provider_keys@)),
    {
        Counts::tally_of(&self.provider_keys)
    }

    /// How many sessions have a user event.
    pub fn user_event_count(&self) -> (r: usize)
        ensures
            r == texts(self.user_event_thread_ids@).to_set().len(),
    {
        let ids = sort_distinct(&self.user_event_thread_ids);
        proof {
            lemma_ascending_len(texts(ids@));
        }
        ids.len()
    }

    /// The sessions with a working directory, each once with the last one.
    pub fn cwds(&self) -> (r: Vec<(String, String)>)
        ensures
            pair_keys(r@) == ascending(entries(self.thread_cwds@).dom()),
            entries(r@) == entries(self.thread_cwds@),
    {
        let mut keys: Vec<String> = Vec::new();
        for i in 0..self.thread_cwds.len()
            invariant
                keys@.len() == i,
                forall|k: int| 0 <= k < i ==> (#[trigger] keys@[k])@ == self.thread_cwds@[k].0@,
        {
            keys.push(self.thread_cwds[i].0.clone());
        }
        let ghost map = entries(self.thread_cwds@);
        proof {
            lemma_entries(self.thread_cwds@);
            let all = texts(keys@);
            assert forall|t: Seq<char>| #[trigger] all.to_set().contains(t) <==> map.dom().contains(t) by {
                if all.contains(t) {
                    let k = choose|k: int| 0 <= k < all.len() && all[k] == t;
                    assert(keys@[k]@ == self.thread_cwds@[k].0@);
                    assert(self.thread_cwds@[k].0@ == t);
                }
                if map.dom().contains(t) {
                    let k = choose|k: int| 0 <= k < self.thread_cwds@.len() && (#[trigger] self.thread_cwds@[k]).0@ == t;
                    assert(keys@[k]@ == t);
                    assert(all[k] == t);
                }
            }
            assert(all.to_set() =~= map.dom());
        }
        let sorted = sort_distinct(&keys);
        let ghost order = texts(sorted@);
        let mut out: Vec<(String, String)> = Vec::new();
        for i in 0..sorted.len()
            invariant
                order == texts(sorted@),
                order.to_set() == map.dom(),
                map == entries(self.thread_cwds@),
                out@.len() == i,
                pair_keys(out@) == order.take(i as int),
                forall|t: Seq<char>| #[trigger] entries(out@).dom().contains(t) <==> order.take(i as int).contains(t),
                forall|t: Seq<char>| #[trigger] entries(out@).dom().contains(t) ==> entries(out@)[t] == map[t],
        {
            let ghost before = out@;
            let ghost key = order[i as int];
            assert(key == sorted@[i as int]@);
            assert(order.to_set().contains(key));
            if let Some(cwd) = lookup(&self.thread_cwds, sorted[i].as_str()) {
                out.push((sorted[i].clone(), cwd.clone()));
                assert(out@.drop_last() =~= before);
            }
            assert(pair_keys(out@) =~= pair_keys(before).push(key));
            assert(order.take(i + 1) =~= order.take(i as int).push(key));
            assert forall|t: Seq<char>| #[trigger] entries(out@).dom().contains(t) <==> order.take(i + 1).contains(t) by {
                let head = order.take(i as int);
                if entries(out@).dom().contains(t) {
                    if t == key {
                        assert(head.push(key)[i as int] == t);
                    } else {
                        assert(entries(before).dom().contains(t));
                        let k = choose|k: int| 0 <= k < head.len() && head[k] == t;
                        assert(head.push(key)[k] == t);
                    }
                }
                if head.push(key).contains(t) {
                    let k = choose|k: int| 0 <= k < head.push(key).len() && head.push(key)[k] == t;
                    if k < head.len() {
                        assert(head[k] == t);
                        assert(entries(before).dom().contains(t));
                    }
                }
            }
            assert forall|t: Seq<char>| #[trigger] entries(out@).dom().contains(t) implies entries(out@)[t] == map[t] by {
                if t != key {
                    assert(entries(before).dom().contains(t));
                }
            }
        }
        assert(order.take(order.len() as int) =~= order);
        assert forall|t: Seq<char>| #[trigger] entries(out@).dom().contains(t) <==> map.dom().contains(t) by {
            assert(order.to_set().contains(t) <==> order.contains(t));
        }
        assert(entries(out@) =~= map);
        out
    }
}

pub open spec fn pair_keys(pairs: Seq<(String, String)>) -> Seq<Seq<char>> {
    pairs.map_values(|p: (String, String)| p.0@)
}

/// The bytes of a file whose first line is replaced.
pub open spec fn rewritten(first_line: Seq<char>, separator: Seq<char>, rest: Seq<u8>) -> Seq<u8> {
    encode_utf8(first_line) + encode_utf8(separator) + rest
}

/// What a change writes to its file, if the file is still as it was: of the
/// same size, with the same first line, and long enough.
pub open spec fn change_output(
    change: RolloutChange,
    size: u64,
    first_line: Seq<char>,
    offset: int,
    bytes: Seq<u8>,
) -> Option<Seq<u8>> {
    if size != change.original_size || first_line != change.original_first_line@ || offset != change.original_offset
        || change.original_offset > bytes.len() {
        None
    } else {
        Some(
            rewritten(
                change.updated_first_line@,
                change.original_separator@,
                bytes.skip(change.original_offset as int),
            ),
        )
    }
}

pub open spec fn opt_bytes(bytes: Option<Vec<u8>>) -> Option<Seq<u8>> {
    match bytes {
        Some(b) => Some(b@),
        None => None,
    }
}

/// The new bytes of a rollout file of the given size, whose first line was
/// read before its bytes were; none if the file is no longer as it was.
pub fn apply_rollout_change(change: &RolloutChange, size: u64, current: &FirstLineRecord, bytes: &[u8]) -> (r: Option<
    Vec<u8>,
>)
    ensures
        opt_bytes(r) == change_output(*change, size, current.first_line@, current.offset as int, bytes@),
{
    if size != change.original_size {
        return None;
    }
    if !same(current.first_line.as_str(), change.original_first_line.as_str()) || current.offset
        != change.original_offset {
        return None;
    }
    let n: usize = bytes.len();
    if change.original_offset > n {
        return None;
    }
    let mut next: Vec<u8> = Vec::new();
    append_bytes(&mut next, change.updated_first_line.as_str().as_bytes());
    append_bytes(&mut next, change.original_separator.as_str().as_bytes());
    let rest = vstd::slice::slice_subrange(bytes, change.original_offset, n);
    assert(rest@ =~= bytes@.skip(change.original_offset as int));
    append_bytes(&mut next, rest);
    assert(next@ =~= rewritten(
        change.updated_first_line@,
        change.original_separator@,
        bytes@.skip(change.original_offset as int),
    ));
    Some(next)
}

pub proof fn lemma_encode_line_ends()
    ensures
        encode_utf8(""@) == Seq::<u8>::empty(),
        encode_utf8("\n"@) == seq![10u8],
        encode_utf8("\r\n"@) == seq![13u8, 10u8],
{
    reveal_strlit("");
    reveal_strlit("\n");
    reveal_strlit("\r\n");
    reveal_with_fuel(encode_utf8, 3);
    assert(0x0au32 & 0x7F == 0x0a) by (bit_vector);
    assert(0x0du32 & 0x7F == 0x0d) by (bit_vector);
    assert(encode_scalar('\n' as u32) =~= seq![10u8]);
    assert(encode_scalar('\r' as u32) =~= seq![13u8]);
    assert("\n"@.drop_first() =~= Seq::<char>::empty());
    assert("\r\n"@.drop_first() =~= seq!['\n']);
    assert(seq!['\n'].drop_first() =~= Seq::<char>::empty());
    assert(encode_utf8("\n"@) =~= seq![10u8]);
    assert(encode_utf8("\r\n"@) =~= seq![13u8, 10u8]);
}

/// Replacing the first line of a file leaves all that follows it as it is:
/// the new first line is read back with the same line end, and the bytes
/// after it are the same.
pub proof fn law_rewrite_keeps_content(bytes: Seq<u8>, first_line: Seq<char>)
    requires
        !first_line.contains('\n'),
        !first_line.contains('\r'),
    ensures
        ({
            let next = rewritten(first_line, first_line_end(bytes), bytes.skip(first_line_offset(bytes)));
            &&& next.take(first_line_len(next)) == encode_utf8(first_line)
            &&& decode_utf8(next.take(first_line_len(next))) == first_line
            &&& first_line_end(next) == first_line_end(bytes)
            &&& next.skip(first_line_offset(next)) == bytes.skip(first_line_offset(bytes))
        }),
{
    lemma_encode_line_ends();
    lemma_line_feed_bound(bytes);
    lemma_encode_without(first_line, '\n', 10u8);
    lemma_encode_without(first_line, '\r', 13u8);
    let head = encode_utf8(first_line);
    let sep = encode_utf8(first_line_end(bytes));
    let rest = bytes.skip(first_line_offset(bytes));
    let next = rewritten(first_line, first_line_end(bytes), rest);
    let n = head.len() as int;
    encode_utf8_decode_utf8(first_line);
    assert forall|j: int| 0 <= j < n implies #[trigger] next[j] != 10u8 && next[j] != 13u8 by {
        assert(next[j] == head[j]);
        assert(head.contains(head[j]));
    }
    if sep.len() == 0 {
        assert(rest =~= Seq::<u8>::empty());
        assert(next =~= head);
        lemma_line_feed(next, n);
    } else if sep.len() == 1 {
        assert(next[n] == 10u8);
        lemma_line_feed(next, n);
    } else {
        assert(next[n] == 13u8);
        assert(next[n + 1] == 10u8);
        lemma_line_feed(next, n + 1);
    }
    assert(next.take(n) =~= head);
    assert(next.skip(n + sep.len()) =~= rest);
}

/// A session that is moved names the target, keeps all else that its first
/// record says, and is not moved again.
pub proof fn law_moved_session(meta: JsonModel, target: Seq<char>)
    requires
        is_session_meta(meta),
    ensures
        is_session_meta(with_provider(meta, target)),
        meta_provider(with_provider(meta, target)) == target,
        !is_moved(with_provider(meta, target), Some(target)),
        forall|key: Seq<char>| key != "payload"@ ==> #[trigger] field(with_provider(meta, target), key) == field(meta, key),
        forall|key: Seq<char>| key != "model_provider"@ ==> #[trigger] field(
            meta_payload(with_provider(meta, target)),
            key,
        ) == field(meta_payload(meta), key),
{
    reveal_strlit("payload");
    reveal_strlit("type");
    assert("payload"@.len() != "type"@.len());
}

/// A sync moves a session for good: the first line of the rewritten file is
/// read as the same record with the target for its provider, so that the
/// session is not moved again. The numbers in the record are integers, and it
/// is nested no deeper than is read.
pub proof fn law_synced_session_is_read_back(
    change: RolloutChange,
    file: RolloutFile,
    meta: JsonModel,
    has_user_event: bool,
    target: Seq<char>,
    bytes: Seq<u8>,
)
    requires
        is_session_meta(meta),
        is_lossless(meta, read_depth()),
        is_change(change, file, meta, has_user_event, target),
        file.first.separator@ == first_line_end(bytes),
        file.first.offset == first_line_offset(bytes),
    ensures
        ({
            let next = rewritten(
                change.updated_first_line@,
                change.original_separator@,
                bytes.skip(change.original_offset as int),
            );
            let moved = with_provider(meta, target);
            &&& reads_as(decode_utf8(next.take(first_line_len(next))), moved)
            &&& is_session_meta(moved)
            &&& meta_provider(moved) == target
            &&& !is_moved(moved, Some(target))
        }),
{
    law_rewrite_keeps_content(bytes, change.updated_first_line@);
    law_moved_session(meta, target);
}

} // verus!
