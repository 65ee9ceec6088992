//! What a sync of sessions to a provider promises, said of the results of the
//! functions that make it up.

use vstd::prelude::*;
use vstd::utf8::{decode_utf8, encode_utf8, encode_utf8_valid_utf8, valid_utf8};

use crate::bytes::{lemma_line_feed, lemma_line_feed_bound};
use crate::config::opt_str;
use crate::json::{field, field_of, is_lossless, json_read, reads_as, Json, JsonModel};
use crate::number::{parse_unsigned, unsigned_value};
use crate::paths::normal_path;
use crate::rollout::{
    apply_rollout_change, change_output, collect_rollout_content_details, details_after_line, details_from,
    file_has_user_event, first_line_end, first_line_len, first_line_offset, is_change, is_environment,
    is_index_record, is_moved, is_session_meta, is_user_event, is_user_message, law_moved_session,
    law_rewrite_keeps_content, lemma_encode_line_ends, line_shows_user, looks_like_environment_context,
    no_details, opt_bytes, parse_session_meta_record, payload_text, read_first_line_record, rewritten,
    rollout_index_record, session_id_unix_seconds, session_is_moved, session_seconds, shows_user,
    user_message_text, with_provider, without_dashes, written_text, DetailsModel, FirstLineRecord,
    RolloutChange, RolloutContentDetails, RolloutFile, RolloutIndexRecord,
};
use crate::sqlite::{
    lemma_thread_values, opt_sql, sqlite_thread_insert_value, thread_value, SqlModel, SqlValue,
};
use crate::text::{is_blank, law_trim_is_idempotent, opt_text, texts, trimmed};

verus! {

/// A session is in the thread index as archived exactly when its file lies
/// under `archived_sessions`, so that one under `sessions` shows.
pub proof fn law_archived_by_place(
    path: &str,
    dir_name: &str,
    payload: &Json,
    content: RolloutContentDetails,
    modified: Option<i64>,
    now: i64,
    record: RolloutIndexRecord,
    target: &str,
    value: Option<SqlValue>,
)
    requires
        call_ensures(rollout_index_record, (path, dir_name, payload, content, modified, now), Some(record)),
        call_ensures(sqlite_thread_insert_value, (&record, "archived", target), value),
    ensures
        dir_name@ == "sessions"@ ==> opt_sql(value) == Some(SqlModel::Integer(0)),
        dir_name@ == "archived_sessions"@ ==> opt_sql(value) == Some(SqlModel::Integer(1)),
{
    reveal_strlit("sessions");
    reveal_strlit("archived_sessions");
    assert(is_index_record(record, path@, dir_name@, payload@, content@, modified, now as int));
    assert(opt_sql(value) == thread_value(record, "archived"@, target@));
    assert("sessions"@.len() == 8);
    assert("archived_sessions"@.len() == 17);
    lemma_thread_values(record, target@);
}

/// The row that the thread index gets for a session tells what the session's
/// file says: its id and place, the provider synced to, the folder in its plain
/// form, the title, what the user wrote first, and what the turns ran with.
pub proof fn law_index_row(
    path: &str,
    dir_name: &str,
    payload: &Json,
    content: RolloutContentDetails,
    modified: Option<i64>,
    now: i64,
    record: RolloutIndexRecord,
    target: &str,
    column: &str,
    value: Option<SqlValue>,
)
    requires
        call_ensures(rollout_index_record, (path, dir_name, payload, content, modified, now), Some(record)),
        call_ensures(sqlite_thread_insert_value, (&record, column, target), value),
    ensures
        column@ == "id"@ ==> (field(payload@, "id"@) matches Some(JsonModel::Text(id)) && opt_sql(value) == Some(
            SqlModel::Text(trimmed(id)),
        )),
        column@ == "rollout_path"@ ==> opt_sql(value) == Some(SqlModel::Text(path@)),
        column@ == "model_provider"@ ==> opt_sql(value) == Some(SqlModel::Text(target@)),
        column@ == "cwd"@ ==> (field(payload@, "cwd"@) matches Some(JsonModel::Text(cwd)) ==> trimmed(cwd).len() > 0
            ==> opt_sql(value) == Some(SqlModel::Text(normal_path(trimmed(cwd))))),
        column@ == "title"@ ==> (field(payload@, "title"@) matches Some(JsonModel::Text(title)) ==> trimmed(title).len()
            > 0 ==> opt_sql(value) == Some(SqlModel::Text(trimmed(title)))),
        column@ == "title"@ ==> field(payload@, "title"@) is None ==> (content.first_user_message matches Some(message)
            ==> opt_sql(value) == Some(SqlModel::Text(message@))),
        column@ == "first_user_message"@ || column@ == "preview"@ ==> (content.first_user_message matches Some(message)
            ==> opt_sql(value) == Some(SqlModel::Text(message@))),
        column@ == "first_user_message"@ || column@ == "preview"@ || column@ == "title"@ ==> content.first_user_message
            is None && field(payload@, "title"@) is None ==> (field(payload@, "id"@) matches Some(JsonModel::Text(id))
            && opt_sql(value) == Some(SqlModel::Text("Restored session "@ + trimmed(id)))),
        column@ == "first_user_message"@ ==> content.first_user_message is None ==> (field(payload@, "title"@) matches Some(
            JsonModel::Text(title),
        ) ==> trimmed(title).len() > 0 ==> opt_sql(value) == Some(SqlModel::Text(trimmed(title)))),
        column@ == "cwd"@ && field(payload@, "cwd"@) is None ==> opt_sql(value) == Some(SqlModel::Text(Seq::empty())),
        column@ == "cli_version"@ && field(payload@, "cli_version"@) is None ==> opt_sql(value) == Some(
            SqlModel::Text(Seq::empty()),
        ),
        column@ == "source"@ || column@ == "thread_source"@ || column@ == "cli_version"@ ==> (field(payload@, column@)
            matches Some(JsonModel::Text(told)) ==> trimmed(told).len() > 0 ==> opt_sql(value) == Some(
            SqlModel::Text(trimmed(told)),
        )),
        column@ == "source"@ && field(payload@, "source"@) is None ==> opt_sql(value) == Some(SqlModel::Text("vscode"@)),
        column@ == "thread_source"@ && field(payload@, "thread_source"@) is None ==> opt_sql(value) == Some(
            SqlModel::Text("user"@),
        ),
        column@ == "tokens_used"@ ==> opt_sql(value) == Some(SqlModel::Integer(0)),
        column@ == "memory_mode"@ ==> opt_sql(value) == Some(SqlModel::Text("enabled"@)),
        column@ == "archived_at"@ || column@ == "git_sha"@ || column@ == "git_branch"@ || column@ == "git_origin_url"@
            || column@ == "agent_nickname"@ || column@ == "agent_role"@ || column@ == "agent_path"@ ==> opt_sql(value)
            == Some(SqlModel::Null),
        column@ == "has_user_event"@ ==> opt_sql(value) == Some(
            SqlModel::Integer(
                if content.has_user_event {
                    1int
                } else {
                    0int
                },
            ),
        ),
        column@ == "model"@ ==> (match content.model {
            Some(model) => opt_sql(value) == Some(SqlModel::Text(model@)),
            None => opt_sql(value) == Some(SqlModel::Null),
        }),
        column@ == "reasoning_effort"@ ==> (match content.reasoning_effort {
            Some(effort) => opt_sql(value) == Some(SqlModel::Text(effort@)),
            None => opt_sql(value) == Some(SqlModel::Null),
        }),
        column@ == "sandbox_policy"@ ==> (match content.sandbox_policy {
            Some(policy) => opt_sql(value) == Some(SqlModel::Text(policy@)),
            None => opt_sql(value) == Some(SqlModel::Text("{\"type\":\"disabled\"}"@)),
        }),
        column@ == "approval_mode"@ ==> (match content.approval_mode {
            Some(mode) => opt_sql(value) == Some(SqlModel::Text(mode@)),
            None => opt_sql(value) == Some(SqlModel::Text("never"@)),
        }),
{
    assert(is_index_record(record, path@, dir_name@, payload@, content@, modified, now as int));
    assert(opt_sql(value) == thread_value(record, column@, target@));
    lemma_thread_values(record, target@);
}

/// A session that has no id is in no index, and every other one is.
pub proof fn law_index_needs_id(
    path: &str,
    dir_name: &str,
    payload: &Json,
    content: RolloutContentDetails,
    modified: Option<i64>,
    now: i64,
    r: Option<RolloutIndexRecord>,
)
    requires
        call_ensures(rollout_index_record, (path, dir_name, payload, content, modified, now), r),
    ensures
        r is Some <==> (field(payload@, "id"@) matches Some(JsonModel::Text(id)) && trimmed(id).len() > 0),
{
    assert(r is Some == payload_text(payload@, "id"@) is Some);
}

/// The index dates a session by its id where the id holds a time, and else by
/// its file. It says that the session was last changed when its file was, and
/// never before the session began. Both stand there in seconds and in
/// milliseconds.
pub proof fn law_index_times(
    path: &str,
    dir_name: &str,
    payload: &Json,
    content: RolloutContentDetails,
    modified: Option<i64>,
    now: i64,
    record: RolloutIndexRecord,
    id: &str,
    id_time: Option<i64>,
    target: &str,
    column: &str,
    value: Option<SqlValue>,
)
    requires
        call_ensures(rollout_index_record, (path, dir_name, payload, content, modified, now), Some(record)),
        id@ == record.thread_id@,
        call_ensures(session_id_unix_seconds, (id,), id_time),
        call_ensures(sqlite_thread_insert_value, (&record, column, target), value),
    ensures
        column@ == "created_at"@ ==> opt_sql(value) == Some(
            SqlModel::Integer(
                match (id_time, modified) {
                    (Some(t), _) => t as int,
                    (None, Some(t)) => t as int,
                    (None, None) => now as int,
                },
            ),
        ),
        column@ == "created_at"@ ==> opt_sql(value) == Some(SqlModel::Integer(record.created_at as int)),
        column@ == "updated_at"@ ==> opt_sql(value) == Some(SqlModel::Integer(record.updated_at as int)),
        record.created_at <= record.updated_at,
        modified matches Some(t) ==> t <= record.updated_at,
        record.updated_at == record.created_at || modified == Some(record.updated_at),
        column@ == "created_at_ms"@ && -9_000_000_000_000_000 <= record.created_at <= 9_000_000_000_000_000 ==> opt_sql(
            value,
        ) == Some(SqlModel::Integer(1000 * record.created_at)),
        column@ == "updated_at_ms"@ && -9_000_000_000_000_000 <= record.updated_at <= 9_000_000_000_000_000 ==> opt_sql(
            value,
        ) == Some(SqlModel::Integer(1000 * record.updated_at)),
{
    assert(is_index_record(record, path@, dir_name@, payload@, content@, modified, now as int));
    assert(opt_sql(value) == thread_value(record, column@, target@));
    assert(id_time is Some == session_seconds(id@) is Some);
    lemma_thread_values(record, target@);
}

/// The time in a session id: the two groups of digits that it begins with are
/// the milliseconds since 1970, in hexadecimal.
pub proof fn law_id_time(
    id: &str,
    first: Seq<char>,
    second: Seq<char>,
    rest: Seq<char>,
    digits: &str,
    millis: Option<u64>,
    r: Option<i64>,
)
    requires
        id@ == first + seq!['-'] + second + rest,
        first.len() == 8,
        second.len() == 4,
        forall|i: int| 0 <= i < 8 ==> #[trigger] first[i] != '-',
        forall|i: int| 0 <= i < 4 ==> #[trigger] second[i] != '-',
        digits@ == first + second,
        call_ensures(parse_unsigned, (digits, 16, u64::MAX), millis),
        call_ensures(session_id_unix_seconds, (id,), r),
    ensures
        match (millis, r) {
            (Some(m), Some(n)) => n == m as int / 1000,
            (None, None) => true,
            _ => false,
        },
{
    let keep = |c: char| c != '-';
    assert(r is Some == session_seconds(id@) is Some);
    assert(millis is Some == unsigned_value(digits@, 16, u64::MAX as nat) is Some);
    Seq::filter_distributes_over_add(first + seq!['-'] + second, rest, keep);
    Seq::filter_distributes_over_add(first + seq!['-'], second, keep);
    Seq::filter_distributes_over_add(first, seq!['-'], keep);
    lemma_filter_all(first, keep);
    lemma_filter_all(second, keep);
    assert(seq!['-'].filter(keep) =~= Seq::<char>::empty()) by {
        reveal(Seq::filter);
        assert(seq!['-'].drop_last() =~= Seq::<char>::empty());
        assert(Seq::<char>::empty().filter(keep) =~= Seq::<char>::empty());
        assert(seq!['-'].last() == '-');
    }
    let plain = without_dashes(id@);
    assert(without_dashes(id@) == id@.filter(keep));
    assert(plain =~= first + second + rest.filter(keep));
    assert(plain.take(12) =~= digits@);
}

proof fn lemma_filter_all(s: Seq<char>, keep: spec_fn(char) -> bool)
    requires
        forall|i: int| 0 <= i < s.len() ==> keep(#[trigger] s[i]),
    ensures
        s.filter(keep) == s,
    decreases s.len(),
{
    reveal(Seq::filter);
    if s.len() > 0 {
        assert(keep(s[s.len() - 1]));
        assert forall|i: int| 0 <= i < s.drop_last().len() implies keep(#[trigger] s.drop_last()[i]) by {
            assert(keep(s[i]));
        }
        lemma_filter_all(s.drop_last(), keep);
        assert(s.drop_last().push(s.last()) =~= s);
    }
}

/// A session is moved exactly when a provider is synced to that is another than
/// the one its first record names.
pub proof fn law_session_is_moved(
    meta: &Json,
    payload: Map<Seq<char>, JsonModel>,
    target: Option<&str>,
    r: bool,
)
    requires
        field(meta@, "type"@) == Some(JsonModel::Text("session_meta"@)),
        field(meta@, "payload"@) == Some(JsonModel::Object(payload)),
        call_ensures(session_is_moved, (meta, target), r),
    ensures
        target is None ==> !r,
        target matches Some(t) ==> payload.dom().contains("model_provider"@) ==> (payload["model_provider"@] matches
            JsonModel::Text(own) ==> r == (own != t@)),
        target matches Some(t) ==> !payload.dom().contains("model_provider"@) ==> r == (t@ != "(missing)"@),
{
    assert(r == is_moved(meta@, opt_str(target)));
}

/// A first line is a session's record exactly when it is a JSON object of the
/// type `session_meta` that holds an object as its payload, and it is read as
/// it stands.
pub proof fn law_session_meta(first_line: &str, r: Option<Json>)
    requires
        call_ensures(parse_session_meta_record, (first_line,), r),
    ensures
        match json_read(first_line@) {
            Ok(value) => if field(value, "type"@) == Some(JsonModel::Text("session_meta"@)) && field(
                value,
                "payload"@,
            ) matches Some(JsonModel::Object(_)) {
                r matches Some(meta) && meta@ == value
            } else {
                r is None
            },
            Err(_) => r is None,
        },
{
    match r {
        Some(meta) => {
            assert(is_session_meta(meta@));
        },
        None => {},
    }
    match json_read(first_line@) {
        Ok(value) => {
            assert(is_session_meta(value) == (field(value, "type"@) == Some(JsonModel::Text("session_meta"@)) && field(
                value,
                "payload"@,
            ) matches Some(JsonModel::Object(_))));
        },
        Err(_) => {},
    }
}

/// The first line that a move writes reads as the one that was there with the
/// new provider in its payload, and nothing else is changed.
pub proof fn law_change_sets_provider(
    change: RolloutChange,
    file: RolloutFile,
    meta: JsonModel,
    payload: Map<Seq<char>, JsonModel>,
    has_user_event: bool,
    target: Seq<char>,
)
    requires
        field(meta, "type"@) == Some(JsonModel::Text("session_meta"@)),
        field(meta, "payload"@) == Some(JsonModel::Object(payload)),
        is_lossless(meta, 127),
        is_change(change, file, meta, has_user_event, target),
    ensures
        json_read(change.updated_first_line@) matches Ok(next) && {
            &&& field(next, "payload"@) matches Some(moved) && {
                &&& field(moved, "model_provider"@) == Some(JsonModel::Text(target))
                &&& forall|key: Seq<char>| key != "model_provider"@ ==> #[trigger] field(moved, key) == field(
                    JsonModel::Object(payload),
                    key,
                )
            }
            &&& forall|key: Seq<char>| key != "payload"@ ==> #[trigger] field(next, key) == field(meta, key)
        },
        payload.dom().contains("id"@) ==> (payload["id"@] matches JsonModel::Text(id) ==> trimmed(id).len() > 0 ==> (
        change.thread_id matches Some(own) && own@ == id)),
        payload.dom().contains("cwd"@) ==> (payload["cwd"@] matches JsonModel::Text(cwd) ==> trimmed(cwd).len() > 0 ==> (
        change.cwd matches Some(own) && own@ == normal_path(cwd))),
{
    law_moved_session(meta, target);
    let next = with_provider(meta, target);
    assert(reads_as(change.updated_first_line@, next));
}

/// The first line of a file, whichever way it ends, and where the rest begins.
pub proof fn law_first_line(bytes: &[u8], line: Seq<u8>, end: Seq<u8>, rest: Seq<u8>, r: FirstLineRecord)
    requires
        bytes@ == line + end + rest,
        !line.contains(10u8),
        valid_utf8(line),
        end == seq![10u8] && (line.len() == 0 || line.last() != 13u8) || end == seq![13u8, 10u8] || (end.len() == 0
            && rest.len() == 0),
        call_ensures(read_first_line_record, (bytes,), r),
    ensures
        r.first_line@ == decode_utf8(line),
        encode_utf8(r.separator@) == end,
        bytes@.skip(r.offset as int) == rest,
        r.offset == line.len() + end.len(),
{
    reveal_strlit("\n");
    reveal_strlit("\r\n");
    reveal_strlit("");
    assert(r.offset == first_line_offset(bytes@));
    assert(r.separator@ == first_line_end(bytes@));
    lemma_encode_line_ends();
    let n = if end.len() == 2 {
        line.len() as int + 1
    } else {
        line.len() as int
    };
    assert forall|j: int| 0 <= j < n implies #[trigger] bytes@[j] != 10u8 by {
        if j < line.len() {
            assert(line.contains(line[j]));
        }
    }
    if end.len() > 0 {
        assert(bytes@[n] == 10u8);
    } else {
        assert(bytes@ =~= line);
    }
    lemma_line_feed(bytes@, n);
    assert(bytes@.take(first_line_len(bytes@)) =~= line);
    assert(bytes@.skip(r.offset as int) =~= rest);
}

/// A move is written only over the file that it was planned for, and then it
/// replaces the first line: what follows is the same bytes, and the file reads
/// with the new first line and the old line ending.
pub proof fn law_apply_change(
    change: RolloutChange,
    size: u64,
    bytes: &[u8],
    current: FirstLineRecord,
    r: Option<Vec<u8>>,
    after: &[u8],
    reread: FirstLineRecord,
)
    requires
        call_ensures(read_first_line_record, (bytes,), current),
        call_ensures(apply_rollout_change, (&change, size, &current, bytes), r),
        change.original_separator@ == current.separator@,
        !change.updated_first_line@.contains('\n'),
        !change.updated_first_line@.contains('\r'),
        r matches Some(next) ==> after@ == next@,
        call_ensures(read_first_line_record, (after,), reread),
    ensures
        r is Some <==> size == change.original_size && current.first_line@ == change.original_first_line@
            && current.offset == change.original_offset,
        r is Some ==> reread.first_line@ == change.updated_first_line@ && reread.separator@ == current.separator@
            && after@.skip(reread.offset as int) == bytes@.skip(current.offset as int),
{
    assert(current.offset == first_line_offset(bytes@));
    assert(current.separator@ == first_line_end(bytes@));
    lemma_line_feed_bound(bytes@);
    assert(opt_bytes(r) == change_output(change, size, current.first_line@, current.offset as int, bytes@));
    if r is Some {
        assert(after@ == rewritten(
            change.updated_first_line@,
            first_line_end(bytes@),
            bytes@.skip(first_line_offset(bytes@)),
        ));
        law_rewrite_keeps_content(bytes@, change.updated_first_line@);
        assert(reread.offset == first_line_offset(after@));
        assert(reread.separator@ == first_line_end(after@));
        encode_utf8_valid_utf8(change.updated_first_line@);
        assert(reread.first_line@ == decode_utf8(after@.take(first_line_len(after@))));
    }
}

/// Whether a value is a message that the user wrote.
pub open spec fn from_user(value: Option<JsonModel>) -> bool {
    value matches Some(message) && field(message, "type"@) == Some(JsonModel::Text("message"@)) && field(
        message,
        "role"@,
    ) == Some(JsonModel::Text("user"@))
}

/// Whether a record tells that the user sent a message.
pub open spec fn user_sent(record: JsonModel) -> bool {
    field(record, "type"@) == Some(JsonModel::Text("event_msg"@)) && (field(record, "payload"@) matches Some(event)
        && field(event, "type"@) == Some(JsonModel::Text("user_message"@)))
}

/// A session counts as one with a user exactly when one of its records is a
/// user's message or tells of one, and its details say the same.
pub proof fn law_user_event(lines: Vec<String>, r: bool, details: RolloutContentDetails)
    requires
        call_ensures(file_has_user_event, (&lines,), r),
        call_ensures(collect_rollout_content_details, (&lines,), details),
    ensures
        r == exists|i: int|
            0 <= i < lines@.len() && !is_blank((#[trigger] lines@[i])@) && (json_read(lines@[i]@) matches Ok(record) && (
            user_sent(record) || from_user(field(record, "payload"@)) || from_user(field(record, "item"@)) || from_user(
                field(record, "msg"@),
            ))),
        details.has_user_event == r,
{
    assert forall|record: JsonModel| shows_user(record) == (user_sent(record) || from_user(field(record, "payload"@))
        || from_user(field(record, "item"@)) || #[trigger] from_user(field(record, "msg"@))) by {}
    assert(r == exists|i: int| 0 <= i < lines@.len() && line_shows_user((#[trigger] lines@[i])@));
    if r {
        let i = choose|i: int| 0 <= i < lines@.len() && line_shows_user((#[trigger] lines@[i])@);
        let record = json_read(lines@[i]@)->Ok_0;
        assert(from_user(field(record, "msg"@)) || !from_user(field(record, "msg"@)));
        assert(!is_blank(lines@[i]@));
    }
    if exists|i: int|
        0 <= i < lines@.len() && !is_blank((#[trigger] lines@[i])@) && (json_read(lines@[i]@) matches Ok(record) && (
        user_sent(record) || from_user(field(record, "payload"@)) || from_user(field(record, "item"@)) || from_user(
            field(record, "msg"@),
        ))) {
        let i = choose|i: int|
            0 <= i < lines@.len() && !is_blank((#[trigger] lines@[i])@) && (json_read(lines@[i]@) matches Ok(record) && (
            user_sent(record) || from_user(field(record, "payload"@)) || from_user(field(record, "item"@)) || from_user(
                field(record, "msg"@),
            )));
        assert(line_shows_user(lines@[i]@));
    }
    assert(details@ == details_from(no_details(), texts(lines@), 0));
    lemma_details_show_user(no_details(), texts(lines@), 0);
    if r {
        let i = choose|i: int| 0 <= i < lines@.len() && line_shows_user((#[trigger] lines@[i])@);
        assert(texts(lines@)[i] == lines@[i]@);
    }
    if details.has_user_event {
        let i = choose|i: int| 0 <= i < texts(lines@).len() && line_shows_user(#[trigger] texts(lines@)[i]);
        assert(texts(lines@)[i] == lines@[i]@);
    }
}

proof fn lemma_details_show_user(before: DetailsModel, lines: Seq<Seq<char>>, i: int)
    requires
        0 <= i <= lines.len(),
    ensures
        details_from(before, lines, i).has_user_event <==> before.has_user_event || exists|j: int|
            i <= j < lines.len() && line_shows_user(#[trigger] lines[j]),
    decreases lines.len() - i,
{
    if i < lines.len() {
        let next = details_after_line(before, lines[i]);
        assert(next.has_user_event == (before.has_user_event || line_shows_user(lines[i])));
        lemma_details_show_user(next, lines, i + 1);
    }
}

/// What a user's message says is its text without white space around it. Text
/// that only describes the surroundings is none that the user wrote.
pub proof fn law_user_message(record: &Json, r: Option<String>)
    requires
        call_ensures(user_message_text, (record,), r),
    ensures
        user_sent(record@) ==> (field_of(field(record@, "payload"@), "message"@) matches Some(JsonModel::Text(message))
            ==> trimmed(message).len() > 0 && !is_environment(message) ==> (r matches Some(text) && text@ == trimmed(
            message,
        ))),
        !user_sent(record@) && from_user(field(record@, "payload"@)) ==> (field_of(
            field(record@, "payload"@),
            "content"@,
        ) matches Some(JsonModel::Text(message)) ==> trimmed(message).len() > 0 && !is_environment(message) ==> (
        r matches Some(text) && text@ == trimmed(message))),
        !user_sent(record@) && !from_user(field(record@, "payload"@)) && !from_user(field(record@, "item"@))
            && !from_user(field(record@, "msg"@)) ==> r is None,
        r matches Some(text) ==> !is_environment(text@),
{
    assert(opt_text(r) == written_text(record@));
    assert(is_user_event(record@) == user_sent(record@));
    assert(is_user_message(field(record@, "payload"@)) == from_user(field(record@, "payload"@)));
    assert(is_user_message(field(record@, "item"@)) == from_user(field(record@, "item"@)));
    assert(is_user_message(field(record@, "msg"@)) == from_user(field(record@, "msg"@)));
    match field_of(field(record@, "payload"@), "message"@) {
        Some(JsonModel::Text(message)) => {
            law_trim_is_idempotent(message);
        },
        _ => {},
    }
    match field_of(field(record@, "payload"@), "content"@) {
        Some(JsonModel::Text(message)) => {
            law_trim_is_idempotent(message);
        },
        _ => {},
    }
}

/// Text that begins with one of the marks of the surroundings, after white
/// space or not, describes them.
pub proof fn law_environment(text: &str, lead: Seq<char>, rest: Seq<char>, r: bool)
    requires
        call_ensures(looks_like_environment_context, (text,), r),
        trimmed(text@) == lead + rest,
    ensures
        lead == "<environment_context>"@ ==> r,
        lead == "# AGENTS.md instructions"@ ==> r,
        lead == "<permissions instructions>"@ ==> r,
        lead == "<collaboration_mode>"@ ==> r,
        lead.len() > 0 && lead[0] != '<' && lead[0] != '#' ==> !r,
{
    reveal_strlit("<environment_context>");
    reveal_strlit("# AGENTS.md instructions");
    reveal_strlit("<permissions instructions>");
    reveal_strlit("<collaboration_mode>");
    let t = trimmed(text@);
    assert(r == is_environment(text@));
    assert(lead.is_prefix_of(t)) by {
        assert(t.take(lead.len() as int) =~= lead);
    }
    if lead.len() > 0 {
        assert(t[0] == lead[0]);
    }
}

} // verus!
