use codex_tools::json::{json_text, parse_json};
use codex_tools::report::SqliteUpdateStats;
use codex_tools::rollout::{
    apply_rollout_change, collect_rollout_content_details, extract_text_from_content, file_has_user_event, looks_like_environment_context,
    parse_session_meta_record, read_first_line_record, record_has_user_event, session_has_id, session_id_unix_seconds,
    session_index_record, session_is_moved, session_provider, user_message_text, RolloutFile, RolloutScan,
};
use codex_tools::sqlite::{
    build_time_expression, cwd_stats_from_rows, cwd_stats_sql, insert_columns, insert_row, insert_sql,
    provider_counts_from_rows, provider_counts_sql, sqlite_error, sqlite_error_of, sqlite_quote_identifier,
    table_info_query, thread_updates, update_action, visibility_sql, ProviderRow, SqlValue, UpdateKind,
};
use codex_tools::counts::format_counts;
use codex_tools::paths::CwdRow;
use rusqlite::types::Value;
use rusqlite::Connection;

const THREAD_ID: &str = "019cbf7c-1db4-7922-a155-d68fff7b82da";
const PATH: &str = "/home/codex/sessions/2026/03/06/rollout-test.jsonl";

fn object(fields: Vec<(&str, serde_json::Value)>) -> serde_json::Value {
    let mut map = serde_json::Map::new();
    for (key, value) in fields {
        map.insert(key.to_string(), value);
    }
    serde_json::Value::Object(map)
}

fn test_rollout(provider: &str) -> String {
    let records = vec![
        object(vec![
            ("timestamp", "2026-03-06T03:31:48.000Z".into()),
            ("type", "session_meta".into()),
            (
                "payload",
                object(vec![
                    ("id", THREAD_ID.into()),
                    ("timestamp", "2026-03-06T03:31:48.000Z".into()),
                    ("cwd", "/Users/example/project".into()),
                    ("source", "vscode".into()),
                    ("cli_version", "0.137.0-alpha.4".into()),
                    ("model_provider", provider.into()),
                ]),
            ),
        ]),
        object(vec![
            ("timestamp", "2026-03-06T03:31:49.000Z".into()),
            ("type", "turn_context".into()),
            (
                "payload",
                object(vec![
                    ("cwd", "/Users/example/project".into()),
                    ("approval_policy", "never".into()),
                    ("sandbox_policy", object(vec![("type", "disabled".into())])),
                    ("model", "gpt-5.3-codex".into()),
                    ("effort", "xhigh".into()),
                ]),
            ),
        ]),
        object(vec![
            ("timestamp", "2026-03-06T03:31:50.000Z".into()),
            ("type", "event_msg".into()),
            (
                "payload",
                object(vec![("type", "user_message".into()), ("message", "请同步这个会话".into())]),
            ),
        ]),
    ];
    records.iter().map(|record| serde_json::to_string(record).unwrap()).collect::<Vec<_>>().join("\n") + "\n"
}

fn scan_of(text: &str, target: &str) -> RolloutScan {
    let mut scan = RolloutScan::new();
    let first = read_first_line_record(text.as_bytes());
    let meta = parse_session_meta_record(&first.first_line).unwrap();
    let lines: Vec<String> = text.lines().map(ToString::to_string).collect();
    let details = collect_rollout_content_details(&lines);
    let record = session_index_record(PATH, "sessions", &meta, details, Some(1), 2);
    let file = RolloutFile {
        dir_name: "sessions".to_string(),
        path: PATH.to_string(),
        first,
        size: text.len() as u64,
        mtime_seconds: 11,
        mtime_nanos: 22,
    };
    scan.collect(file, &meta, record, Some(target));
    scan
}

#[test]
fn rollout_scan_collects_index_record_for_restored_session() {
    let scan = scan_of(&test_rollout("openai"), "simplaj");

    assert_eq!(scan.index_records.len(), 1);
    assert_eq!(scan.changes.len(), 1);
    assert_eq!(scan.provider_counts().get("sessions/openai"), Some(1));
    let record = &scan.index_records[0];
    assert_eq!(record.path, PATH);
    assert_eq!(record.thread_id, "019cbf7c-1db4-7922-a155-d68fff7b82da");
    assert_eq!(record.cwd, "/Users/example/project");
    assert_eq!(record.source, "vscode");
    assert_eq!(record.cli_version, "0.137.0-alpha.4");
    assert_eq!(record.first_user_message, "请同步这个会话");
    assert_eq!(record.title, "请同步这个会话");
    assert_eq!(record.model.as_deref(), Some("gpt-5.3-codex"));
    assert_eq!(record.reasoning_effort.as_deref(), Some("xhigh"));
    assert_eq!(record.approval_mode, "never");
    assert!(record.has_user_event);
}

const THREADS: &str = "CREATE TABLE threads (
    id TEXT PRIMARY KEY,
    rollout_path TEXT NOT NULL,
    created_at INTEGER NOT NULL,
    updated_at INTEGER NOT NULL,
    source TEXT NOT NULL,
    model_provider TEXT NOT NULL,
    cwd TEXT NOT NULL,
    title TEXT NOT NULL,
    sandbox_policy TEXT NOT NULL,
    approval_mode TEXT NOT NULL,
    tokens_used INTEGER NOT NULL DEFAULT 0,
    has_user_event INTEGER NOT NULL DEFAULT 0,
    archived INTEGER NOT NULL DEFAULT 0,
    archived_at INTEGER,
    cli_version TEXT NOT NULL DEFAULT '',
    first_user_message TEXT NOT NULL DEFAULT '',
    memory_mode TEXT NOT NULL DEFAULT 'enabled',
    model TEXT,
    reasoning_effort TEXT,
    created_at_ms INTEGER,
    updated_at_ms INTEGER,
    thread_source TEXT,
    preview TEXT NOT NULL DEFAULT ''
);";

fn column_names(conn: &Connection) -> Vec<String> {
    let mut stmt = conn.prepare(&table_info_query("threads")).unwrap();
    let rows = stmt.query_map([], |row| row.get::<_, String>(1)).unwrap();
    rows.map(|row| row.unwrap()).collect()
}

fn sql_value(value: &SqlValue) -> Value {
    match value {
        SqlValue::Null => Value::Null,
        SqlValue::Integer(n) => Value::Integer(*n),
        SqlValue::Text(text) => Value::Text(text.clone()),
    }
}

fn update_index(conn: &Connection, target: &str, scan: &RolloutScan) -> SqliteUpdateStats {
    let columns = column_names(conn);
    let mut stats = SqliteUpdateStats::absent();
    stats.database_present = true;
    let filled = insert_columns(&columns);
    for record in &scan.index_records {
        let known = conn
            .prepare("SELECT 1 FROM threads WHERE id = ?1 LIMIT 1")
            .unwrap()
            .exists([&record.thread_id])
            .unwrap();
        if let Some(row) = insert_row(record, &filled, target, known) {
            let values: Vec<Value> = row.iter().map(sql_value).collect();
            conn.execute(&insert_sql(&filled), rusqlite::params_from_iter(values)).unwrap();
            stats.count_inserted(1);
        }
    }
    for update in thread_updates(&columns, target, scan) {
        let rows = conn.execute(&update.sql, rusqlite::params_from_iter(update.params.iter())).unwrap();
        stats.count_updated(update.kind, rows);
    }
    stats
}

#[test]
fn provider_sync_inserts_missing_sqlite_thread_index() {
    let conn = Connection::open_in_memory().unwrap();
    conn.execute_batch(THREADS).unwrap();
    let scan = scan_of(&test_rollout("openai"), "simplaj");

    let stats = update_index(&conn, "simplaj", &scan);

    assert!(stats.database_present);
    assert_eq!(stats.thread_rows_inserted, 1);
    let row = conn
        .query_row(
            "SELECT model_provider, source, cwd, first_user_message, preview, has_user_event, model, reasoning_effort \
             FROM threads WHERE id = ?1",
            ["019cbf7c-1db4-7922-a155-d68fff7b82da"],
            |row| {
                Ok((
                    row.get::<_, String>(0)?,
                    row.get::<_, String>(1)?,
                    row.get::<_, String>(2)?,
                    row.get::<_, String>(3)?,
                    row.get::<_, String>(4)?,
                    row.get::<_, i64>(5)?,
                    row.get::<_, Option<String>>(6)?,
                    row.get::<_, Option<String>>(7)?,
                ))
            },
        )
        .unwrap();
    assert_eq!(row.0, "simplaj");
    assert_eq!(row.1, "vscode");
    assert_eq!(row.2, "/Users/example/project");
    assert_eq!(row.3, "请同步这个会话");
    assert_eq!(row.4, "请同步这个会话");
    assert_eq!(row.5, 1);
    assert_eq!(row.6.as_deref(), Some("gpt-5.3-codex"));
    assert_eq!(row.7.as_deref(), Some("xhigh"));

    let second = update_index(&conn, "simplaj", &scan);
    assert_eq!(second.thread_rows_inserted, 0);
}

#[test]
fn rows_of_other_sessions_are_updated() {
    let conn = Connection::open_in_memory().unwrap();
    conn.execute_batch(
        "CREATE TABLE threads (id TEXT, model_provider TEXT, has_user_event INTEGER, cwd TEXT);
         INSERT INTO threads VALUES ('a', 'openai', 0, '/old'), ('b', 'simplaj', 1, '/b'), ('c', NULL, NULL, NULL);",
    )
    .unwrap();
    let mut scan = RolloutScan::new();
    scan.user_event_thread_ids = vec!["c".to_string(), "a".to_string(), "a".to_string()];
    scan.thread_cwds = vec![
        ("a".to_string(), "/first".to_string()),
        (" ".to_string(), "/blank".to_string()),
        ("a".to_string(), "/new".to_string()),
        ("b".to_string(), "/b".to_string()),
        ("c".to_string(), " ".to_string()),
    ];
    let stats = update_index(&conn, "simplaj", &scan);
    assert_eq!(stats.provider_rows_updated, 2);
    assert_eq!(stats.user_event_rows_updated, 2);
    assert_eq!(stats.cwd_rows_updated, 1);
    let cwd: String = conn.query_row("SELECT cwd FROM threads WHERE id = 'a'", [], |row| row.get(0)).unwrap();
    assert_eq!(cwd, "/new");
    let none = thread_updates(&vec!["id".to_string()], "simplaj", &scan);
    assert_eq!(none.len(), 0);
    assert_eq!(update_action(UpdateKind::Provider), "更新 SQLite provider");
    assert_eq!(update_action(UpdateKind::UserEvent), "更新 SQLite user-event 标记");
    assert_eq!(update_action(UpdateKind::Cwd), "更新 SQLite cwd");
}

#[test]
fn a_change_rewrites_the_first_line_and_nothing_else() {
    let text = test_rollout("openai");
    let scan = scan_of(&text, "simplaj");
    let change = &scan.changes[0];
    assert_eq!(change.thread_id.as_deref(), Some(THREAD_ID));
    assert_eq!(change.cwd.as_deref(), Some("/Users/example/project"));
    assert!(change.has_user_event);
    assert_eq!((change.original_mtime_seconds, change.original_mtime_nanos), (11, 22));
    let current = read_first_line_record(text.as_bytes());
    let next = apply_rollout_change(change, text.len() as u64, &current, text.as_bytes()).unwrap();
    let next_text = String::from_utf8(next.clone()).unwrap();
    assert_eq!(next_text.lines().skip(1).collect::<Vec<_>>(), text.lines().skip(1).collect::<Vec<_>>());
    assert!(next_text.ends_with('\n'));
    let meta = parse_session_meta_record(&read_first_line_record(&next).first_line).unwrap();
    assert_eq!(session_provider(&meta), "simplaj");
    assert!(!session_is_moved(&meta, Some("simplaj")));
    assert_eq!(scan_of(&next_text, "simplaj").changes.len(), 0);

    assert!(apply_rollout_change(change, 1, &current, text.as_bytes()).is_none());
    assert!(apply_rollout_change(change, text.len() as u64, &read_first_line_record(&next), text.as_bytes()).is_none());
    assert!(apply_rollout_change(change, text.len() as u64, &current, b"short").is_none());
}

#[test]
fn the_first_line_is_read_with_what_ends_it() {
    let record = read_first_line_record(b"one\r\ntwo\n");
    assert_eq!((record.first_line.as_str(), record.separator.as_str(), record.offset), ("one", "\r\n", 5));
    let record = read_first_line_record(b"one\ntwo");
    assert_eq!((record.first_line.as_str(), record.separator.as_str(), record.offset), ("one", "\n", 4));
    let record = read_first_line_record(b"one");
    assert_eq!((record.first_line.as_str(), record.separator.as_str(), record.offset), ("one", "", 3));
    let record = read_first_line_record(b"\xff\n");
    assert_eq!(record.first_line, "\u{fffd}");
}

#[test]
fn messages_of_users_are_found() {
    let event = parse_json("{\"type\":\"event_msg\",\"payload\":{\"type\":\"user_message\",\"message\":\"hi\"}}").unwrap();
    assert!(record_has_user_event(&event));
    assert_eq!(user_message_text(&event).as_deref(), Some("hi"));
    let other = parse_json("{\"type\":\"event_msg\",\"payload\":{\"type\":\"agent_message\",\"message\":\"hi\"}}").unwrap();
    assert!(!record_has_user_event(&other));
    assert_eq!(user_message_text(&other), None);
    let lines = |list: &[&str]| list.iter().map(|line| line.to_string()).collect::<Vec<_>>();
    assert!(file_has_user_event(&lines(&["", "x", "{\"msg\":{\"type\":\"message\",\"role\":\"user\"}}"])));
    assert!(!file_has_user_event(&lines(&["{\"msg\":{\"type\":\"user_message\"}}"])));
    assert!(!file_has_user_event(&lines(&["{}", "  "])));
    assert!(session_has_id(&parse_session_meta_record("{\"type\":\"session_meta\",\"payload\":{\"id\":\"a\"}}").unwrap()));
    assert!(!session_has_id(&parse_session_meta_record("{\"type\":\"session_meta\",\"payload\":{}}").unwrap()));
    let content = parse_json("[{\"text\":\"a\"},{\"text\":\"b\"}]").unwrap();
    assert_eq!(extract_text_from_content(&content).as_deref(), Some("a\nb"));
    assert!(looks_like_environment_context("<environment_context>\n</environment_context>"));
    assert!(!looks_like_environment_context("hello"));
}

#[test]
fn the_time_of_a_session_is_in_its_id() {
    assert_eq!(session_id_unix_seconds(THREAD_ID), Some(0x019cbf7c1db4 / 1000));
    assert_eq!(session_id_unix_seconds("no-time"), None);
}

#[test]
fn statements_follow_the_columns() {
    let columns: Vec<String> = vec!["cwd".to_string(), "id".to_string(), "other".to_string()];
    assert_eq!(insert_columns(&columns), vec!["id".to_string(), "cwd".to_string()]);
    assert_eq!(insert_sql(&insert_columns(&columns)), "INSERT INTO threads (\"id\", \"cwd\") VALUES (?1, ?2)");
    assert_eq!(insert_columns(&vec!["cwd".to_string()]).len(), 0);
    assert_eq!(sqlite_quote_identifier("a\"b"), "\"a\"\"b\"");
    let conn = Connection::open_in_memory().unwrap();
    conn.execute_batch(THREADS).unwrap();
    let known = column_names(&conn);
    assert!(conn.prepare(&provider_counts_sql(&known)).is_ok());
    assert!(conn.prepare(&cwd_stats_sql(&known).unwrap()).is_ok());
    assert!(conn.prepare(&visibility_sql(&known).unwrap()).is_ok());
    assert!(cwd_stats_sql(&vec!["id".to_string()]).is_none());
    assert!(visibility_sql(&vec!["id".to_string()]).is_none());
    assert!(!build_time_expression(&known).is_empty());
}

#[test]
fn counts_and_directories_come_from_rows() {
    let row = |provider: &str, archived: i64, count: i64| ProviderRow { provider: provider.to_string(), archived, count };
    let counts = provider_counts_from_rows(&vec![row("b", 0, 2), row("a", 1, 3), row("c", 0, -1)]);
    assert_eq!(counts.get("sessions/b"), Some(2));
    assert_eq!(counts.get("archived_sessions/a"), Some(3));
    assert_eq!(counts.get("sessions/c"), Some(0));
    assert!(!format_counts(&counts).is_empty());
    let rows = vec![
        CwdRow { cwd: "/a/B/".to_string(), count: 2, updated_at_ms: 7 },
        CwdRow { cwd: "  ".to_string(), count: 1, updated_at_ms: 8 },
    ];
    let stats = cwd_stats_from_rows(&rows);
    assert_eq!(stats.len(), 1);
    assert_eq!(stats[0].cwd, "/a/B/");
    assert_eq!((stats[0].count, stats[0].updated_at_ms), (2, 7));
}

#[test]
fn errors_of_the_index_are_explained() {
    assert_eq!(
        sqlite_error("x", "Database IS locked"),
        "x 失败：state_5.sqlite 正在被 Codex 占用。请关闭 Codex App / Codex CLI 后重试。原始错误：Database IS locked"
    );
    assert_eq!(
        sqlite_error("x", "file is not a database"),
        "x 失败：state_5.sqlite 损坏或不可读。请先备份/修复数据库。原始错误：file is not a database"
    );
    assert_eq!(sqlite_error("x", "other"), "x 失败：other");
    assert_eq!(
        sqlite_error_of("x", "M", "it is corrupt"),
        "x 失败：state_5.sqlite 损坏或不可读。请先备份/修复数据库。原始错误：M"
    );
}

#[test]
fn json_is_read_and_written() {
    let value = parse_json("{\"b\":[1,2.5,null,true,\"x\\n\"],\"a\":{}}").unwrap();
    assert_eq!(json_text(&value).unwrap(), "{\"a\":{},\"b\":[1,2.5,null,true,\"x\\n\"]}");
    assert!(parse_json("{").is_err());
}
