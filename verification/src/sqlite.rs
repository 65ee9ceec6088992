//! The thread index of Codex in `state_5.sqlite`: the statements that read
//! and write it, and what its rows mean.

use vstd::prelude::*;

use crate::config::{entries, lemma_entries, lookup};
use crate::counts::Counts;
use crate::order::{ascending, sort_distinct};
use crate::paths::{comparable, normalize_comparable_path, CwdRow, ThreadCwdStat};
use crate::rollout::{pair_keys, RolloutIndexRecord, RolloutScan};
use crate::text::{
    ascii_lowered, blank, contains, decimal, decimal_text, has_text, is_ascii_text, is_blank, join, joined,
    opt_text, replace_char, replaced, same, texts, to_lowercase, unicode_lower,
};

verus! {

pub const DB_FILE_BASENAME: &'static str = "state_5.sqlite";

/// A value of a row.
pub enum SqlValue {
    Null,
    Integer(i64),
    Text(String),
}

/// A value of a row, as mathematical values.
pub enum SqlModel {
    Null,
    Integer(int),
    Text(Seq<char>),
}

impl View for SqlValue {
    type V = SqlModel;

    open spec fn view(&self) -> SqlModel {
        match *self {
            SqlValue::Null => SqlModel::Null,
            SqlValue::Integer(n) => SqlModel::Integer(n as int),
            SqlValue::Text(s) => SqlModel::Text(s@),
        }
    }
}

/// The columns that a new row of the thread index can fill, in order.
pub open spec fn thread_columns() -> Seq<Seq<char>> {
    seq![
        "id"@,
        "rollout_path"@,
        "created_at"@,
        "updated_at"@,
        "source"@,
        "model_provider"@,
        "cwd"@,
        "title"@,
        "sandbox_policy"@,
        "approval_mode"@,
        "tokens_used"@,
        "has_user_event"@,
        "archived"@,
        "archived_at"@,
        "git_sha"@,
        "git_branch"@,
        "git_origin_url"@,
        "cli_version"@,
        "first_user_message"@,
        "agent_nickname"@,
        "agent_role"@,
        "memory_mode"@,
        "model"@,
        "reasoning_effort"@,
        "agent_path"@,
        "created_at_ms"@,
        "updated_at_ms"@,
        "thread_source"@,
        "preview"@,
    ]
}

fn thread_insert_columns() -> (r: Vec<String>)
    ensures
        texts(r@) == thread_columns(),
{
    let mut out: Vec<String> = Vec::new();
    out.push("id".to_owned());
    out.push("rollout_path".to_owned());
    out.push("created_at".to_owned());
    out.push("updated_at".to_owned());
    out.push("source".to_owned());
    out.push("model_provider".to_owned());
    out.push("cwd".to_owned());
    out.push("title".to_owned());
    out.push("sandbox_policy".to_owned());
    out.push("approval_mode".to_owned());
    out.push("tokens_used".to_owned());
    out.push("has_user_event".to_owned());
    out.push("archived".to_owned());
    out.push("archived_at".to_owned());
    out.push("git_sha".to_owned());
    out.push("git_branch".to_owned());
    out.push("git_origin_url".to_owned());
    out.push("cli_version".to_owned());
    out.push("first_user_message".to_owned());
    out.push("agent_nickname".to_owned());
    out.push("agent_role".to_owned());
    out.push("memory_mode".to_owned());
    out.push("model".to_owned());
    out.push("reasoning_effort".to_owned());
    out.push("agent_path".to_owned());
    out.push("created_at_ms".to_owned());
    out.push("updated_at_ms".to_owned());
    out.push("thread_source".to_owned());
    out.push("preview".to_owned());
    assert(texts(out@) =~= thread_columns());
    out
}

/// 1 for true, 0 for false.
pub open spec fn flag_model(b: bool) -> SqlModel {
    SqlModel::Integer(
        if b {
            1int
        } else {
            0int
        },
    )
}

fn flag_value(b: bool) -> (r: SqlValue)
    ensures
        r@ == flag_model(b),
{
    if b {
        SqlValue::Integer(1)
    } else {
        SqlValue::Integer(0)
    }
}

pub open spec fn text_or_null_model(text: Option<Seq<char>>) -> SqlModel {
    match text {
        Some(s) => SqlModel::Text(s),
        None => SqlModel::Null,
    }
}

fn sql_text_or_null(text: &Option<String>) -> (r: SqlValue)
    ensures
        r@ == text_or_null_model(opt_text(*text)),
{
    match text {
        Some(s) => SqlValue::Text(s.clone()),
        None => SqlValue::Null,
    }
}

/// Seconds as milliseconds, kept in the range of `i64`.
pub open spec fn millis(seconds: int) -> int {
    if seconds * 1000 > i64::MAX {
        i64::MAX as int
    } else if seconds * 1000 < i64::MIN {
        i64::MIN as int
    } else {
        seconds * 1000
    }
}

fn to_millis(seconds: i64) -> (r: i64)
    ensures
        r == millis(seconds as int),
{
    let wide: i128 = seconds as i128 * 1000;
    if wide > i64::MAX as i128 {
        i64::MAX
    } else if wide < i64::MIN as i128 {
        i64::MIN
    } else {
        wide as i64
    }
}

/// What a column of a new row holds for a session, if it is a column that
/// is known.
pub open spec fn thread_value(record: RolloutIndexRecord, column: Seq<char>, target: Seq<char>) -> Option<SqlModel> {
    if column == "id"@ {
        Some(SqlModel::Text(record.thread_id@))
    } else if column == "rollout_path"@ {
        Some(SqlModel::Text(record.path@))
    } else if column == "created_at"@ {
        Some(SqlModel::Integer(record.created_at as int))
    } else if column == "updated_at"@ {
        Some(SqlModel::Integer(record.updated_at as int))
    } else if column == "source"@ {
        Some(SqlModel::Text(record.source@))
    } else if column == "model_provider"@ {
        Some(SqlModel::Text(target))
    } else if column == "cwd"@ {
        Some(SqlModel::Text(record.cwd@))
    } else if column == "title"@ {
        Some(SqlModel::Text(record.title@))
    } else if column == "sandbox_policy"@ {
        Some(SqlModel::Text(record.sandbox_policy@))
    } else if column == "approval_mode"@ {
        Some(SqlModel::Text(record.approval_mode@))
    } else if column == "tokens_used"@ {
        Some(SqlModel::Integer(0))
    } else if column == "has_user_event"@ {
        Some(flag_model(record.has_user_event))
    } else if column == "archived"@ {
        Some(flag_model(record.archived))
    } else if column == "cli_version"@ {
        Some(SqlModel::Text(record.cli_version@))
    } else if column == "first_user_message"@ {
        Some(SqlModel::Text(record.first_user_message@))
    } else if column == "memory_mode"@ {
        Some(SqlModel::Text("enabled"@))
    } else if column == "model"@ {
        Some(text_or_null_model(opt_text(record.model)))
    } else if column == "reasoning_effort"@ {
        Some(text_or_null_model(opt_text(record.reasoning_effort)))
    } else if column == "created_at_ms"@ {
        Some(SqlModel::Integer(millis(record.created_at as int)))
    } else if column == "updated_at_ms"@ {
        Some(SqlModel::Integer(millis(record.updated_at as int)))
    } else if column == "thread_source"@ {
        Some(SqlModel::Text(record.thread_source@))
    } else if column == "preview"@ {
        Some(SqlModel::Text(record.first_user_message@))
    } else if column == "archived_at"@ || column == "git_sha"@ || column == "git_branch"@ || column == "git_origin_url"@ || column == "agent_nickname"@ || column == "agent_role"@ || column == "agent_path"@ {
        Some(SqlModel::Null)
    } else {
        None
    }
}

pub open spec fn opt_sql(value: Option<SqlValue>) -> Option<SqlModel> {
    match value {
        Some(v) => Some(v@),
        None => None,
    }
}

pub fn sqlite_thread_insert_value(record: &RolloutIndexRecord, column: &str, target: &str) -> (r: Option<SqlValue>)
    ensures
        opt_sql(r) == thread_value(*record, column@, target@),
{
    if same(column, "id") {
        return Some(SqlValue::Text(record.thread_id.clone()));
    }
    if same(column, "rollout_path") {
        return Some(SqlValue::Text(record.path.clone()));
    }
    if same(column, "created_at") {
        return Some(SqlValue::Integer(record.created_at));
    }
    if same(column, "updated_at") {
        return Some(SqlValue::Integer(record.updated_at));
    }
    if same(column, "source") {
        return Some(SqlValue::Text(record.source.clone()));
    }
    if same(column, "model_provider") {
        return Some(SqlValue::Text(target.to_owned()));
    }
    if same(column, "cwd") {
        return Some(SqlValue::Text(record.cwd.clone()));
    }
    if same(column, "title") {
        return Some(SqlValue::Text(record.title.clone()));
    }
    if same(column, "sandbox_policy") {
        return Some(SqlValue::Text(record.sandbox_policy.clone()));
    }
    if same(column, "approval_mode") {
        return Some(SqlValue::Text(record.approval_mode.clone()));
    }
    if same(column, "tokens_used") {
        return Some(SqlValue::Integer(0));
    }
    if same(column, "has_user_event") {
        return Some(flag_value(record.has_user_event));
    }
    if same(column, "archived") {
        return Some(flag_value(record.archived));
    }
    if same(column, "cli_version") {
        return Some(SqlValue::Text(record.cli_version.clone()));
    }
    if same(column, "first_user_message") {
        return Some(SqlValue::Text(record.first_user_message.clone()));
    }
    if same(column, "memory_mode") {
        return Some(SqlValue::Text("enabled".to_owned()));
    }
    if same(column, "model") {
        return Some(sql_text_or_null(&record.model));
    }
    if same(column, "reasoning_effort") {
        return Some(sql_text_or_null(&record.reasoning_effort));
    }
    if same(column, "created_at_ms") {
        return Some(SqlValue::Integer(to_millis(record.created_at)));
    }
    if same(column, "updated_at_ms") {
        return Some(SqlValue::Integer(to_millis(record.updated_at)));
    }
    if same(column, "thread_source") {
        return Some(SqlValue::Text(record.thread_source.clone()));
    }
    if same(column, "preview") {
        return Some(SqlValue::Text(record.first_user_message.clone()));
    }
    if same(column, "archived_at") || same(column, "git_sha") || same(column, "git_branch") || same(column, "git_origin_url") || same(column, "agent_nickname") || same(column, "agent_role") || same(column, "agent_path") {
        return Some(SqlValue::Null);
    }
    None
}

/// An identifier in quotes.
pub open spec fn quoted_identifier(name: Seq<char>) -> Seq<char> {
    "\""@ + replaced(name, '"', "\"\""@) + "\""@
}

pub fn sqlite_quote_identifier(value: &str) -> (r: String)
    ensures
        r@ == quoted_identifier(value@),
{
    "\"".to_owned().concat(replace_char(value, '"', "\"\"").as_str()).concat("\"")
}

/// The statement that lists the columns of a table.
pub fn table_info_query(table: &str) -> (r: String)
    ensures
        r@ == "PRAGMA table_info("@ + quoted_identifier(table@) + ")"@,
{
    "PRAGMA table_info(".to_owned().concat(sqlite_quote_identifier(table).as_str()).concat(")")
}

/// Whether a column is among those of the table.
pub open spec fn has_column(columns: Seq<String>, name: Seq<char>) -> bool {
    texts(columns).contains(name)
}

pub fn contains_column(columns: &Vec<String>, name: &str) -> (r: bool)
    ensures
        r == has_column(columns@, name@),
{
    let ghost all = texts(columns@);
    for i in 0..columns.len()
        invariant
            all == texts(columns@),
            forall|k: int| 0 <= k < i ==> #[trigger] all[k] != name@,
    {
        if same(columns[i].as_str(), name) {
            assert(all[i as int] == name@);
            return true;
        }
        assert(all[i as int] == columns@[i as int]@);
    }
    false
}

/// The names that are columns of the table, in the order of the names.
pub open spec fn known_columns(names: Seq<Seq<char>>, columns: Seq<String>) -> Seq<Seq<char>>
    decreases names.len(),
{
    if names.len() == 0 {
        names
    } else if has_column(columns, names.last()) {
        known_columns(names.drop_last(), columns).push(names.last())
    } else {
        known_columns(names.drop_last(), columns)
    }
}

/// The columns that a new row of the thread index fills in this table. None
/// are filled where the table has no ids.
pub open spec fn filled_columns(columns: Seq<String>) -> Seq<Seq<char>> {
    if has_column(columns, "id"@) {
        known_columns(thread_columns(), columns)
    } else {
        Seq::empty()
    }
}

pub fn insert_columns(columns: &Vec<String>) -> (r: Vec<String>)
    ensures
        texts(r@) == filled_columns(columns@),
{
    let mut out: Vec<String> = Vec::new();
    if !contains_column(columns, "id") {
        assert(texts(out@) =~= Seq::empty());
        return out;
    }
    let names = thread_insert_columns();
    let ghost all = texts(names@);
    for i in 0..names.len()
        invariant
            all == texts(names@),
            texts(out@) == known_columns(all.take(i as int), columns@),
    {
        assert(all.take(i + 1).drop_last() =~= all.take(i as int));
        assert(all[i as int] == names@[i as int]@);
        if contains_column(columns, names[i].as_str()) {
            let ghost before = texts(out@);
            out.push(names[i].clone());
            assert(texts(out@) =~= before.push(all[i as int]));
        }
    }
    assert(all.take(all.len() as int) =~= all);
    out
}

/// The marks of `n` values of a statement.
pub open spec fn placeholders(n: nat) -> Seq<Seq<char>> {
    Seq::new(n, |i: int| "?"@ + decimal((i + 1) as nat))
}

/// The statement that puts a row into the thread index.
pub open spec fn insert_statement(columns: Seq<Seq<char>>) -> Seq<char> {
    "INSERT INTO threads ("@ + joined(columns.map_values(|c: Seq<char>| quoted_identifier(c)), ", "@) + ") VALUES ("@
        + joined(placeholders(columns.len()), ", "@) + ")"@
}

pub fn insert_sql(columns: &Vec<String>) -> (r: String)
    ensures
        r@ == insert_statement(texts(columns@)),
{
    let ghost names = texts(columns@).map_values(|c: Seq<char>| quoted_identifier(c));
    let ghost marks = placeholders(columns@.len());
    let mut escaped: Vec<String> = Vec::new();
    let mut values: Vec<String> = Vec::new();
    for i in 0..columns.len()
        invariant
            names == texts(columns@).map_values(|c: Seq<char>| quoted_identifier(c)),
            marks == placeholders(columns@.len()),
            texts(escaped@) == names.take(i as int),
            texts(values@) == marks.take(i as int),
    {
        let ghost e = texts(escaped@);
        let ghost v = texts(values@);
        escaped.push(sqlite_quote_identifier(columns[i].as_str()));
        values.push("?".to_owned().concat(decimal_text(i as u128 + 1).as_str()));
        assert(texts(columns@)[i as int] == columns@[i as int]@);
        assert(texts(escaped@) =~= e.push(names[i as int]));
        assert(texts(values@) =~= v.push(marks[i as int]));
        assert(names.take(i + 1) =~= names.take(i as int).push(names[i as int]));
        assert(marks.take(i + 1) =~= marks.take(i as int).push(marks[i as int]));
    }
    assert(names.take(names.len() as int) =~= names);
    assert(marks.take(marks.len() as int) =~= marks);
    "INSERT INTO threads (".to_owned().concat(join(escaped.as_slice(), ", ").as_str()).concat(") VALUES (").concat(
        join(values.as_slice(), ", ").as_str(),
    ).concat(")")
}

pub open spec fn sql_models(values: Seq<SqlValue>) -> Seq<SqlModel> {
    values.map_values(|v: SqlValue| v@)
}

/// The values of a new row for a session, if all columns are known.
pub open spec fn thread_row(record: RolloutIndexRecord, columns: Seq<Seq<char>>, target: Seq<char>) -> Option<
    Seq<SqlModel>,
>
    decreases columns.len(),
{
    if columns.len() == 0 {
        Some(Seq::empty())
    } else {
        match (thread_row(record, columns.drop_last(), target), thread_value(record, columns.last(), target)) {
            (Some(before), Some(v)) => Some(before.push(v)),
            _ => None,
        }
    }
}

/// The values of a new row for a session. There is none for a session without
/// an id, nor for one that has a row.
pub fn insert_row(record: &RolloutIndexRecord, columns: &Vec<String>, target: &str, has_row: bool) -> (r: Option<
    Vec<SqlValue>,
>)
    ensures
        match r {
            Some(values) => !has_row && !is_blank(record.thread_id@) && thread_row(
                *record,
                texts(columns@),
                target@,
            ) == Some(sql_models(values@)),
            None => has_row || is_blank(record.thread_id@) || thread_row(*record, texts(columns@), target@) is None,
        },
{
    if has_row || blank(record.thread_id.as_str()) {
        return None;
    }
    let ghost all = texts(columns@);
    let mut values: Vec<SqlValue> = Vec::new();
    let mut known: bool = true;
    assert(sql_models(values@) =~= Seq::empty());
    for i in 0..columns.len()
        invariant
            all == texts(columns@),
            known ==> thread_row(*record, all.take(i as int), target@) == Some(sql_models(values@)),
            !known ==> thread_row(*record, all.take(i as int), target@) is None,
    {
        assert(all.take(i + 1).drop_last() =~= all.take(i as int));
        assert(all[i as int] == columns@[i as int]@);
        let ghost before = sql_models(values@);
        match sqlite_thread_insert_value(record, columns[i].as_str(), target) {
            Some(v) => {
                let ghost model = v@;
                values.push(v);
                assert(sql_models(values@) =~= before.push(model));
            },
            None => {
                known = false;
            },
        }
    }
    assert(all.take(all.len() as int) =~= all);
    if known {
        Some(values)
    } else {
        None
    }
}

proof fn lemma_thread_row(record: RolloutIndexRecord, columns: Seq<Seq<char>>, target: Seq<char>)
    requires
        forall|i: int| 0 <= i < columns.len() ==> thread_columns().contains(#[trigger] columns[i]),
    ensures
        thread_row(record, columns, target) matches Some(row) && row.len() == columns.len(),
    decreases columns.len(),
{
    if columns.len() > 0 {
        let rest = columns.drop_last();
        assert forall|i: int| 0 <= i < rest.len() implies thread_columns().contains(#[trigger] rest[i]) by {
            assert(rest[i] == columns[i]);
        }
        lemma_thread_row(record, rest, target);
        assert(thread_columns().contains(columns[columns.len() - 1]));
    }
}

proof fn lemma_known_columns(names: Seq<Seq<char>>, columns: Seq<String>)
    ensures
        forall|i: int| 0 <= i < known_columns(names, columns).len() ==> names.contains(
            #[trigger] known_columns(names, columns)[i],
        ) && has_column(columns, known_columns(names, columns)[i]),
    decreases names.len(),
{
    if names.len() > 0 {
        let rest = names.drop_last();
        lemma_known_columns(rest, columns);
        let all = known_columns(names, columns);
        let before = known_columns(rest, columns);
        assert forall|i: int| 0 <= i < all.len() implies names.contains(#[trigger] all[i]) && has_column(
            columns,
            all[i],
        ) by {
            if i < before.len() {
                assert(rest.contains(before[i]));
                let k = choose|k: int| 0 <= k < rest.len() && rest[k] == before[i];
                assert(names[k] == all[i]);
            } else {
                assert(names[names.len() - 1] == all[i]);
            }
        }
    }
}

/// Every session has a row for the columns that are filled, with one value
/// for each of them.
pub proof fn law_row_fits(record: RolloutIndexRecord, columns: Seq<String>, target: Seq<char>)
    ensures
        thread_row(record, filled_columns(columns), target) matches Some(row) && row.len() == filled_columns(columns).len(),
        forall|i: int| 0 <= i < filled_columns(columns).len() ==> has_column(columns, #[trigger] filled_columns(columns)[i]),
{
    lemma_known_columns(thread_columns(), columns);
    lemma_thread_row(record, filled_columns(columns), target);
}

/// Whether an error, in lower case, says that the database is in use.
pub open spec fn says_locked(lower: Seq<char>) -> bool {
    has_text(lower, "database is locked"@) || has_text(lower, "busy"@) || has_text(lower, "locked"@)
}

/// Whether an error, in lower case, says that the database is damaged.
pub open spec fn says_damaged(lower: Seq<char>) -> bool {
    has_text(lower, "malformed"@) || has_text(lower, "not a database"@) || has_text(lower, "corrupt"@)
}

/// What to tell of an error whose lower case is `lower`.
pub open spec fn sqlite_reason(action: Seq<char>, message: Seq<char>, lower: Seq<char>) -> Seq<char> {
    if says_locked(lower) {
        action + " 失败：state_5.sqlite 正在被 Codex 占用。请关闭 Codex App / Codex CLI 后重试。原始错误："@ + message
    } else if says_damaged(lower) {
        action + " 失败：state_5.sqlite 损坏或不可读。请先备份/修复数据库。原始错误："@ + message
    } else {
        action + " 失败："@ + message
    }
}

/// What to tell of an error, given its lower case.
pub fn sqlite_error_of(action: &str, message: &str, lower: &str) -> (r: String)
    ensures
        r@ == sqlite_reason(action@, message@, lower@),
{
    if contains(lower, "database is locked") || contains(lower, "busy") || contains(lower, "locked") {
        return action.to_owned().concat(
            " 失败：state_5.sqlite 正在被 Codex 占用。请关闭 Codex App / Codex CLI 后重试。原始错误：",
        ).concat(message);
    }
    if contains(lower, "malformed") || contains(lower, "not a database") || contains(lower, "corrupt") {
        return action.to_owned().concat(
            " 失败：state_5.sqlite 损坏或不可读。请先备份/修复数据库。原始错误：",
        ).concat(message);
    }
    action.to_owned().concat(" 失败：").concat(message)
}

/// What to tell of an error.
pub fn sqlite_error(action: &str, message: &str) -> (r: String)
    ensures
        r@ == sqlite_reason(action@, message@, unicode_lower(message@)),
        is_ascii_text(message@) ==> r@ == sqlite_reason(action@, message@, ascii_lowered(message@)),
{
    let lower = to_lowercase(message);
    sqlite_error_of(action, message, lower.as_str())
}

/// The statement that counts threads by provider.
pub open spec fn provider_statement(columns: Seq<String>) -> Seq<char> {
    "SELECT "@ + (if has_column(columns, "model_provider"@) {
        "CASE WHEN model_provider IS NULL OR model_provider = '' THEN '(missing)' ELSE model_provider END"@
    } else {
        "'(missing)'"@
    }) + " AS provider, "@ + (if has_column(columns, "archived"@) {
        "COALESCE(archived, 0)"@
    } else {
        "0"@
    })
        + " AS archived, COUNT(*) AS count FROM threads GROUP BY provider, archived ORDER BY archived, provider"@
}

pub fn provider_counts_sql(columns: &Vec<String>) -> (r: String)
    ensures
        r@ == provider_statement(columns@),
{
    let provider = if contains_column(columns, "model_provider") {
        "CASE WHEN model_provider IS NULL OR model_provider = '' THEN '(missing)' ELSE model_provider END"
    } else {
        "'(missing)'"
    };
    let archived = if contains_column(columns, "archived") {
        "COALESCE(archived, 0)"
    } else {
        "0"
    };
    "SELECT ".to_owned().concat(provider).concat(" AS provider, ").concat(archived).concat(
        " AS archived, COUNT(*) AS count FROM threads GROUP BY provider, archived ORDER BY archived, provider",
    )
}

/// A row of the count of threads by provider.
pub struct ProviderRow {
    pub provider: String,
    pub archived: i64,
    pub count: i64,
}

pub open spec fn not_negative(n: int) -> nat {
    if n < 0 {
        0
    } else {
        n as nat
    }
}

/// The key under which a row counts.
pub open spec fn provider_key(row: ProviderRow) -> Seq<char> {
    (if row.archived == 0 {
        "sessions"@
    } else {
        "archived_sessions"@
    }) + "/"@ + row.provider@
}

/// The counts that the rows say, the last of each key.
pub open spec fn provider_row_counts(rows: Seq<ProviderRow>) -> Map<Seq<char>, nat>
    decreases rows.len(),
{
    if rows.len() == 0 {
        Map::empty()
    } else {
        provider_row_counts(rows.drop_last()).insert(provider_key(rows.last()), not_negative(rows.last().count as int))
    }
}

fn count_from(n: i64) -> (r: usize)
    requires
        n <= usize::MAX,
    ensures
        r == not_negative(n as int),
{
    if n < 0 {
        0
    } else {
        n as usize
    }
}

/// The counts by provider that the rows say.
pub fn provider_counts_from_rows(rows: &Vec<ProviderRow>) -> (r: Counts)
    requires
        forall|i: int| 0 <= i < rows@.len() ==> (#[trigger] rows@[i]).count <= usize::MAX,
    ensures
        r@ == provider_row_counts(rows@),
{
    let mut counts = Counts::new();
    for i in 0..rows.len()
        invariant
            forall|i: int| 0 <= i < rows@.len() ==> (#[trigger] rows@[i]).count <= usize::MAX,
            counts@ == provider_row_counts(rows@.take(i as int)),
    {
        assert(rows@.take(i + 1).drop_last() =~= rows@.take(i as int));
        let row = &rows[i];
        let scope = if row.archived == 0 {
            "sessions"
        } else {
            "archived_sessions"
        };
        let key = scope.to_owned().concat("/").concat(row.provider.as_str());
        counts.set(key, count_from(row.count));
    }
    assert(rows@.take(rows@.len() as int) =~= rows@);
    counts
}

/// The parts that give the time of a thread, as far as the columns go.
pub open spec fn time_parts(columns: Seq<String>) -> Seq<Seq<char>> {
    (if has_column(columns, "updated_at_ms"@) {
        seq!["updated_at_ms"@]
    } else {
        Seq::empty()
    }) + (if has_column(columns, "updated_at"@) {
        seq!["updated_at * 1000"@]
    } else {
        Seq::empty()
    }) + (if has_column(columns, "created_at_ms"@) {
        seq!["created_at_ms"@]
    } else {
        Seq::empty()
    }) + (if has_column(columns, "created_at"@) {
        seq!["created_at * 1000"@]
    } else {
        Seq::empty()
    }) + seq!["0"@]
}

pub fn build_time_expression(columns: &Vec<String>) -> (r: String)
    ensures
        r@ == "COALESCE("@ + joined(time_parts(columns@), ", "@) + ")"@,
{
    let mut parts: Vec<String> = Vec::new();
    if contains_column(columns, "updated_at_ms") {
        parts.push("updated_at_ms".to_owned());
    }
    if contains_column(columns, "updated_at") {
        parts.push("updated_at * 1000".to_owned());
    }
    if contains_column(columns, "created_at_ms") {
        parts.push("created_at_ms".to_owned());
    }
    if contains_column(columns, "created_at") {
        parts.push("created_at * 1000".to_owned());
    }
    parts.push("0".to_owned());
    assert(texts(parts@) =~= time_parts(columns@));
    "COALESCE(".to_owned().concat(join(parts.as_slice(), ", ").as_str()).concat(")")
}

/// The statement that counts threads by working directory, if the table
/// knows those.
pub open spec fn cwd_statement(columns: Seq<String>) -> Option<Seq<char>> {
    if !has_column(columns, "cwd"@) {
        None
    } else {
        Some(
            "SELECT cwd, COUNT(*) AS count, "@ + (if has_column(columns, "updated_at_ms"@) {
                if has_column(columns, "updated_at"@) {
                    "COALESCE(MAX(updated_at_ms), MAX(updated_at) * 1000, 0)"@
                } else {
                    "COALESCE(MAX(updated_at_ms), 0)"@
                }
            } else if has_column(columns, "updated_at"@) {
                "COALESCE(MAX(updated_at) * 1000, 0)"@
            } else {
                "0"@
            })
                + " AS updated_at_ms FROM threads WHERE cwd IS NOT NULL AND cwd <> '' GROUP BY cwd ORDER BY count DESC, updated_at_ms DESC, cwd"@,
        )
    }
}

pub fn cwd_stats_sql(columns: &Vec<String>) -> (r: Option<String>)
    ensures
        opt_text(r) == cwd_statement(columns@),
{
    if !contains_column(columns, "cwd") {
        return None;
    }
    let updated = if contains_column(columns, "updated_at_ms") {
        if contains_column(columns, "updated_at") {
            "COALESCE(MAX(updated_at_ms), MAX(updated_at) * 1000, 0)"
        } else {
            "COALESCE(MAX(updated_at_ms), 0)"
        }
    } else if contains_column(columns, "updated_at") {
        "COALESCE(MAX(updated_at) * 1000, 0)"
    } else {
        "0"
    };
    Some(
        "SELECT cwd, COUNT(*) AS count, ".to_owned().concat(updated).concat(
            " AS updated_at_ms FROM threads WHERE cwd IS NOT NULL AND cwd <> '' GROUP BY cwd ORDER BY count DESC, updated_at_ms DESC, cwd",
        ),
    )
}

/// What an entry for a working directory says.
pub struct CwdStatModel {
    pub cwd: Seq<char>,
    pub normalized_cwd: Seq<char>,
    pub count: nat,
    pub updated_at_ms: int,
}

impl View for ThreadCwdStat {
    type V = CwdStatModel;

    open spec fn view(&self) -> CwdStatModel {
        CwdStatModel {
            cwd: self.cwd@,
            normalized_cwd: self.normalized_cwd@,
            count: self.count as nat,
            updated_at_ms: self.updated_at_ms as int,
        }
    }
}

/// The entries that the rows say: those of directories that can be compared.
pub open spec fn cwd_row_stats(rows: Seq<CwdRow>) -> Seq<CwdStatModel>
    decreases rows.len(),
{
    if rows.len() == 0 {
        Seq::empty()
    } else {
        let before = cwd_row_stats(rows.drop_last());
        let row = rows.last();
        match comparable(row.cwd@) {
            Some(c) => before.push(
                CwdStatModel {
                    cwd: row.cwd@,
                    normalized_cwd: c,
                    count: not_negative(row.count as int),
                    updated_at_ms: row.updated_at_ms as int,
                },
            ),
            None => before,
        }
    }
}

pub fn cwd_stats_from_rows(rows: &Vec<CwdRow>) -> (r: Vec<ThreadCwdStat>)
    requires
        forall|i: int| 0 <= i < rows@.len() ==> (#[trigger] rows@[i]).count <= usize::MAX,
    ensures
        r@.map_values(|s: ThreadCwdStat| s@) == cwd_row_stats(rows@),
{
    let mut stats: Vec<ThreadCwdStat> = Vec::new();
    for i in 0..rows.len()
        invariant
            forall|i: int| 0 <= i < rows@.len() ==> (#[trigger] rows@[i]).count <= usize::MAX,
            stats@.map_values(|s: ThreadCwdStat| s@) == cwd_row_stats(rows@.take(i as int)),
    {
        assert(rows@.take(i + 1).drop_last() =~= rows@.take(i as int));
        let row = &rows[i];
        if let Some(normalized_cwd) = normalize_comparable_path(row.cwd.as_str()) {
            let ghost before = stats@.map_values(|s: ThreadCwdStat| s@);
            let stat = ThreadCwdStat {
                cwd: row.cwd.clone(),
                normalized_cwd,
                count: count_from(row.count),
                updated_at_ms: row.updated_at_ms,
            };
            let ghost model = stat@;
            stats.push(stat);
            assert(stats@.map_values(|s: ThreadCwdStat| s@) =~= before.push(model));
        }
    }
    assert(rows@.take(rows@.len() as int) =~= rows@);
    stats
}

/// The statement that lists the threads that the sidebar shows, the latest
/// first, if the table knows working directories.
pub open spec fn visibility_statement(columns: Seq<String>) -> Option<Seq<char>> {
    if !has_column(columns, "cwd"@) {
        None
    } else {
        Some(
            "SELECT id, cwd, "@ + (if has_column(columns, "model_provider"@) {
                "model_provider"@
            } else {
                "'' AS model_provider"@
            }) + ", COALESCE("@ + joined(time_parts(columns), ", "@)
                + ") AS sort_ts FROM threads WHERE cwd IS NOT NULL AND cwd <> '' "@ + (if has_column(
                columns,
                "archived"@,
            ) {
                "AND archived = 0"@
            } else {
                ""@
            }) + " "@ + (if has_column(columns, "first_user_message"@) {
                "AND first_user_message <> ''"@
            } else {
                ""@
            }) + " "@ + (if has_column(columns, "source"@) {
                "AND source IN ('cli', 'vscode')"@
            } else {
                ""@
            }) + " ORDER BY sort_ts DESC, id DESC"@,
        )
    }
}

pub fn visibility_sql(columns: &Vec<String>) -> (r: Option<String>)
    ensures
        opt_text(r) == visibility_statement(columns@),
{
    if !contains_column(columns, "cwd") {
        return None;
    }
    let source = if contains_column(columns, "source") {
        "AND source IN ('cli', 'vscode')"
    } else {
        ""
    };
    let archived = if contains_column(columns, "archived") {
        "AND archived = 0"
    } else {
        ""
    };
    let first_user = if contains_column(columns, "first_user_message") {
        "AND first_user_message <> ''"
    } else {
        ""
    };
    let provider = if contains_column(columns, "model_provider") {
        "model_provider"
    } else {
        "'' AS model_provider"
    };
    let time = build_time_expression(columns);
    let r = "SELECT id, cwd, ".to_owned().concat(provider).concat(", ").concat(time.as_str()).concat(
        " AS sort_ts FROM threads WHERE cwd IS NOT NULL AND cwd <> '' ",
    ).concat(archived).concat(" ").concat(first_user).concat(" ").concat(source).concat(
        " ORDER BY sort_ts DESC, id DESC",
    );
    proof {
        reveal_strlit(", ");
        reveal_strlit("COALESCE(");
        reveal_strlit(", COALESCE(");
        reveal_strlit(")");
        reveal_strlit(" AS sort_ts FROM threads WHERE cwd IS NOT NULL AND cwd <> '' ");
        reveal_strlit(") AS sort_ts FROM threads WHERE cwd IS NOT NULL AND cwd <> '' ");
        assert(r@ =~= visibility_statement(columns@)->0);
    }
    Some(r)
}

/// Which rows of the thread index a statement updates.
#[derive(Clone, Copy, Debug, PartialEq, Eq, Structural)]
pub enum UpdateKind {
    Provider,
    UserEvent,
    Cwd,
}

/// A statement on the thread index with its values.
pub struct ThreadUpdate {
    pub kind: UpdateKind,
    pub sql: String,
    pub params: Vec<String>,
}

pub struct UpdateModel {
    pub kind: UpdateKind,
    pub sql: Seq<char>,
    pub params: Seq<Seq<char>>,
}

impl View for ThreadUpdate {
    type V = UpdateModel;

    open spec fn view(&self) -> UpdateModel {
        UpdateModel { kind: self.kind, sql: self.sql@, params: texts(self.params@) }
    }
}

pub open spec fn update_models(updates: Seq<ThreadUpdate>) -> Seq<UpdateModel> {
    updates.map_values(|u: ThreadUpdate| u@)
}

/// All sessions are those of the provider.
pub open spec fn provider_update(target: Seq<char>) -> UpdateModel {
    UpdateModel {
        kind: UpdateKind::Provider,
        sql: "UPDATE threads SET model_provider = ?1 WHERE COALESCE(model_provider, '') <> ?1"@,
        params: seq![target],
    }
}

/// A session has a user event.
pub open spec fn event_update(id: Seq<char>) -> UpdateModel {
    UpdateModel {
        kind: UpdateKind::UserEvent,
        sql: "UPDATE threads SET has_user_event = 1 WHERE id = ?1 AND COALESCE(has_user_event, 0) <> 1"@,
        params: seq![id],
    }
}

/// A session has a working directory.
pub open spec fn cwd_update(id: Seq<char>, cwd: Seq<char>) -> UpdateModel {
    UpdateModel {
        kind: UpdateKind::Cwd,
        sql: "UPDATE threads SET cwd = ?1 WHERE id = ?2 AND COALESCE(cwd, '') <> ?1"@,
        params: seq![cwd, id],
    }
}

/// The updates of the working directories of sessions, as far as neither the
/// session nor the directory is blank.
pub open spec fn cwd_updates(ids: Seq<Seq<char>>, cwds: Map<Seq<char>, Seq<char>>) -> Seq<UpdateModel>
    decreases ids.len(),
{
    if ids.len() == 0 {
        Seq::empty()
    } else {
        let before = cwd_updates(ids.drop_last(), cwds);
        let id = ids.last();
        if is_blank(id) || is_blank(cwds[id]) {
            before
        } else {
            before.push(cwd_update(id, cwds[id]))
        }
    }
}

/// The updates that bring the thread index in line with a scan, as far as the
/// table has the columns.
pub open spec fn scan_updates(columns: Seq<String>, target: Seq<char>, scan: RolloutScan) -> Seq<UpdateModel> {
    let providers = if has_column(columns, "model_provider"@) {
        seq![provider_update(target)]
    } else {
        Seq::empty()
    };
    let events = if has_column(columns, "has_user_event"@) {
        ascending(texts(scan.user_event_thread_ids@).to_set()).map_values(|id: Seq<char>| event_update(id))
    } else {
        Seq::empty()
    };
    let cwds = entries(scan.thread_cwds@);
    providers + events + if has_column(columns, "cwd"@) {
        cwd_updates(ascending(cwds.dom()), cwds)
    } else {
        Seq::empty()
    }
}

fn push_update(updates: &mut Vec<ThreadUpdate>, kind: UpdateKind, sql: &str, params: Vec<String>)
    ensures
        update_models(final(updates)@) == update_models(old(updates)@).push(
            (UpdateModel { kind, sql: sql@, params: texts(params@) }),
        ),
{
    updates.push(ThreadUpdate { kind, sql: sql.to_owned(), params });
    assert(update_models(updates@) =~= update_models(old(updates)@).push(
        (UpdateModel { kind, sql: sql@, params: texts(params@) }),
    ));
}

fn push_event_updates(updates: &mut Vec<ThreadUpdate>, scan: &RolloutScan)
    ensures
        update_models(final(updates)@) == update_models(old(updates)@) + ascending(
            texts(scan.user_event_thread_ids@).to_set(),
        ).map_values(|id: Seq<char>| event_update(id)),
{
    let ids = sort_distinct(&scan.user_event_thread_ids);
    let ghost all = texts(ids@).map_values(|id: Seq<char>| event_update(id));
    let ghost start = update_models(updates@);
    assert(start + all.take(0) =~= start);
    for i in 0..ids.len()
        invariant
            all == texts(ids@).map_values(|id: Seq<char>| event_update(id)),
            update_models(updates@) == start + all.take(i as int),
    {
        let mut params: Vec<String> = Vec::new();
        params.push(ids[i].clone());
        assert(texts(params@) =~= seq![ids@[i as int]@]);
        push_update(
            updates,
            UpdateKind::UserEvent,
            "UPDATE threads SET has_user_event = 1 WHERE id = ?1 AND COALESCE(has_user_event, 0) <> 1",
            params,
        );
        assert(texts(ids@)[i as int] == ids@[i as int]@);
        assert(start + all.take(i + 1) =~= (start + all.take(i as int)).push(all[i as int]));
    }
    assert(all.take(all.len() as int) =~= all);
}

fn push_cwd_updates(updates: &mut Vec<ThreadUpdate>, scan: &RolloutScan)
    ensures
        update_models(final(updates)@) == update_models(old(updates)@) + cwd_updates(
            ascending(entries(scan.thread_cwds@).dom()),
            entries(scan.thread_cwds@),
        ),
{
    let pairs = scan.cwds();
    let ghost cwds = entries(scan.thread_cwds@);
    let ghost ids = pair_keys(pairs@);
    let ghost start = update_models(updates@);
    proof {
        lemma_entries(pairs@);
    }
    assert(start + cwd_updates(ids.take(0), cwds) =~= start);
    for i in 0..pairs.len()
        invariant
            cwds == entries(scan.thread_cwds@),
            cwds == entries(pairs@),
            ids == pair_keys(pairs@),
            forall|key: Seq<char>| #[trigger] entries(pairs@).dom().contains(key) <==> exists|i: int|
                0 <= i < pairs@.len() && (#[trigger] pairs@[i]).0@ == key,
            update_models(updates@) == start + cwd_updates(ids.take(i as int), cwds),
    {
        let ghost id = ids[i as int];
        assert(id == pairs@[i as int].0@);
        assert(cwds.dom().contains(id));
        assert(ids.take(i + 1).drop_last() =~= ids.take(i as int));
        assert(ids.take(i + 1).last() == id);
        if let Some(cwd) = lookup(&scan.thread_cwds, pairs[i].0.as_str()) {
            if !blank(pairs[i].0.as_str()) && !blank(cwd.as_str()) {
                let mut params: Vec<String> = Vec::new();
                params.push(cwd.clone());
                params.push(pairs[i].0.clone());
                assert(texts(params@) =~= seq![cwds[id], id]);
                let ghost before = update_models(updates@);
                push_update(
                    updates,
                    UpdateKind::Cwd,
                    "UPDATE threads SET cwd = ?1 WHERE id = ?2 AND COALESCE(cwd, '') <> ?1",
                    params,
                );
                assert(start + cwd_updates(ids.take(i + 1), cwds) =~= before.push(cwd_update(id, cwds[id])));
            }
        }
    }
    assert(ids.take(ids.len() as int) =~= ids);
}

/// The updates that bring the thread index in line with a scan.
pub fn thread_updates(columns: &Vec<String>, target: &str, scan: &RolloutScan) -> (r: Vec<ThreadUpdate>)
    ensures
        update_models(r@) == scan_updates(columns@, target@, *scan),
{
    let mut updates: Vec<ThreadUpdate> = Vec::new();
    assert(update_models(updates@) =~= Seq::empty());
    if contains_column(columns, "model_provider") {
        let mut params: Vec<String> = Vec::new();
        params.push(target.to_owned());
        assert(texts(params@) =~= seq![target@]);
        push_update(
            &mut updates,
            UpdateKind::Provider,
            "UPDATE threads SET model_provider = ?1 WHERE COALESCE(model_provider, '') <> ?1",
            params,
        );
        assert(update_models(updates@) =~= seq![provider_update(target@)]);
    }
    let ghost providers = update_models(updates@);
    if contains_column(columns, "has_user_event") {
        push_event_updates(&mut updates, scan);
    } else {
        assert(providers =~= providers + Seq::empty());
    }
    let ghost events = update_models(updates@);
    if contains_column(columns, "cwd") {
        push_cwd_updates(&mut updates, scan);
    } else {
        assert(events =~= events + Seq::empty());
    }
    updates
}

/// What an update failed on is called.
pub fn update_action(kind: UpdateKind) -> (r: &'static str)
    ensures
        r@ == match kind {
            UpdateKind::Provider => "更新 SQLite provider"@,
            UpdateKind::UserEvent => "更新 SQLite user-event 标记"@,
            UpdateKind::Cwd => "更新 SQLite cwd"@,
        },
{
    match kind {
        UpdateKind::Provider => "更新 SQLite provider",
        UpdateKind::UserEvent => "更新 SQLite user-event 标记",
        UpdateKind::Cwd => "更新 SQLite cwd",
    }
}

/// What each column of a new row holds.
pub proof fn lemma_thread_values(record: RolloutIndexRecord, target: Seq<char>)
    ensures
        thread_value(record, "id"@, target) == Some(SqlModel::Text(record.thread_id@)),
        thread_value(record, "rollout_path"@, target) == Some(SqlModel::Text(record.path@)),
        thread_value(record, "created_at"@, target) == Some(SqlModel::Integer(record.created_at as int)),
        thread_value(record, "updated_at"@, target) == Some(SqlModel::Integer(record.updated_at as int)),
        thread_value(record, "source"@, target) == Some(SqlModel::Text(record.source@)),
        thread_value(record, "model_provider"@, target) == Some(SqlModel::Text(target)),
        thread_value(record, "cwd"@, target) == Some(SqlModel::Text(record.cwd@)),
        thread_value(record, "title"@, target) == Some(SqlModel::Text(record.title@)),
        thread_value(record, "sandbox_policy"@, target) == Some(SqlModel::Text(record.sandbox_policy@)),
        thread_value(record, "approval_mode"@, target) == Some(SqlModel::Text(record.approval_mode@)),
        thread_value(record, "tokens_used"@, target) == Some(SqlModel::Integer(0)),
        thread_value(record, "has_user_event"@, target) == Some(SqlModel::Integer(if record.has_user_event { 1int } else { 0int })),
        thread_value(record, "archived"@, target) == Some(SqlModel::Integer(if record.archived { 1int } else { 0int })),
        thread_value(record, "archived_at"@, target) == Some(SqlModel::Null),
        thread_value(record, "git_sha"@, target) == Some(SqlModel::Null),
        thread_value(record, "git_branch"@, target) == Some(SqlModel::Null),
        thread_value(record, "git_origin_url"@, target) == Some(SqlModel::Null),
        thread_value(record, "cli_version"@, target) == Some(SqlModel::Text(record.cli_version@)),
        thread_value(record, "first_user_message"@, target) == Some(SqlModel::Text(record.first_user_message@)),
        thread_value(record, "agent_nickname"@, target) == Some(SqlModel::Null),
        thread_value(record, "agent_role"@, target) == Some(SqlModel::Null),
        thread_value(record, "memory_mode"@, target) == Some(SqlModel::Text("enabled"@)),
        thread_value(record, "model"@, target) == Some(text_or_null_model(opt_text(record.model))),
        thread_value(record, "reasoning_effort"@, target) == Some(text_or_null_model(opt_text(record.reasoning_effort))),
        thread_value(record, "agent_path"@, target) == Some(SqlModel::Null),
        thread_value(record, "created_at_ms"@, target) == Some(SqlModel::Integer(millis(record.created_at as int))),
        thread_value(record, "updated_at_ms"@, target) == Some(SqlModel::Integer(millis(record.updated_at as int))),
        thread_value(record, "thread_source"@, target) == Some(SqlModel::Text(record.thread_source@)),
        thread_value(record, "preview"@, target) == Some(SqlModel::Text(record.first_user_message@)),
{
    reveal_strlit("id");
    assert("id"@.len() == 2);
    reveal_strlit("rollout_path");
    assert("rollout_path"@.len() == 12);
    reveal_strlit("created_at");
    assert("created_at"@.len() == 10);
    reveal_strlit("updated_at");
    assert("updated_at"@.len() == 10);
    reveal_strlit("source");
    assert("source"@.len() == 6);
    reveal_strlit("model_provider");
    assert("model_provider"@.len() == 14);
    reveal_strlit("cwd");
    assert("cwd"@.len() == 3);
    reveal_strlit("title");
    assert("title"@.len() == 5);
    reveal_strlit("sandbox_policy");
    assert("sandbox_policy"@.len() == 14);
    reveal_strlit("approval_mode");
    assert("approval_mode"@.len() == 13);
    reveal_strlit("tokens_used");
    assert("tokens_used"@.len() == 11);
    reveal_strlit("has_user_event");
    assert("has_user_event"@.len() == 14);
    reveal_strlit("archived");
    assert("archived"@.len() == 8);
    reveal_strlit("archived_at");
    assert("archived_at"@.len() == 11);
    reveal_strlit("git_sha");
    assert("git_sha"@.len() == 7);
    reveal_strlit("git_branch");
    assert("git_branch"@.len() == 10);
    reveal_strlit("git_origin_url");
    assert("git_origin_url"@.len() == 14);
    reveal_strlit("cli_version");
    assert("cli_version"@.len() == 11);
    reveal_strlit("first_user_message");
    assert("first_user_message"@.len() == 18);
    reveal_strlit("agent_nickname");
    assert("agent_nickname"@.len() == 14);
    reveal_strlit("agent_role");
    assert("agent_role"@.len() == 10);
    reveal_strlit("memory_mode");
    assert("memory_mode"@.len() == 11);
    reveal_strlit("model");
    assert("model"@.len() == 5);
    reveal_strlit("reasoning_effort");
    assert("reasoning_effort"@.len() == 16);
    reveal_strlit("agent_path");
    assert("agent_path"@.len() == 10);
    reveal_strlit("created_at_ms");
    assert("created_at_ms"@.len() == 13);
    reveal_strlit("updated_at_ms");
    assert("updated_at_ms"@.len() == 13);
    reveal_strlit("thread_source");
    assert("thread_source"@.len() == 13);
    reveal_strlit("preview");
    assert("preview"@.len() == 7);
    assert("created_at"@[0] != "updated_at"@[0]);
    assert("created_at"@[0] != "git_branch"@[0]);
    assert("created_at"@[0] != "agent_role"@[0]);
    assert("created_at"@[0] != "agent_path"@[0]);
    assert("updated_at"@[0] != "git_branch"@[0]);
    assert("updated_at"@[0] != "agent_role"@[0]);
    assert("updated_at"@[0] != "agent_path"@[0]);
    assert("model_provider"@[0] != "sandbox_policy"@[0]);
    assert("model_provider"@[0] != "has_user_event"@[0]);
    assert("model_provider"@[0] != "git_origin_url"@[0]);
    assert("model_provider"@[0] != "agent_nickname"@[0]);
    assert("title"@[0] != "model"@[0]);
    assert("sandbox_policy"@[0] != "has_user_event"@[0]);
    assert("sandbox_policy"@[0] != "git_origin_url"@[0]);
    assert("sandbox_policy"@[0] != "agent_nickname"@[0]);
    assert("approval_mode"@[0] != "created_at_ms"@[0]);
    assert("approval_mode"@[0] != "updated_at_ms"@[0]);
    assert("approval_mode"@[0] != "thread_source"@[0]);
    assert("tokens_used"@[0] != "archived_at"@[0]);
    assert("tokens_used"@[0] != "cli_version"@[0]);
    assert("tokens_used"@[0] != "memory_mode"@[0]);
    assert("has_user_event"@[0] != "git_origin_url"@[0]);
    assert("has_user_event"@[0] != "agent_nickname"@[0]);
    assert("archived_at"@[0] != "cli_version"@[0]);
    assert("archived_at"@[0] != "memory_mode"@[0]);
    assert("git_sha"@[0] != "preview"@[0]);
    assert("git_branch"@[0] != "agent_role"@[0]);
    assert("git_branch"@[0] != "agent_path"@[0]);
    assert("git_origin_url"@[0] != "agent_nickname"@[0]);
    assert("cli_version"@[0] != "memory_mode"@[0]);
    assert("agent_role"@[6] != "agent_path"@[6]);
    assert("created_at_ms"@[0] != "updated_at_ms"@[0]);
    assert("created_at_ms"@[0] != "thread_source"@[0]);
    assert("updated_at_ms"@[0] != "thread_source"@[0]);
}

} // verus!
