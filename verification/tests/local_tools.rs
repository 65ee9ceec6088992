use base64::Engine;
use codex_tools::auth::{
    chatgpt_auth, chatgpt_id_token, collect_strings_from_json, decode_jwt_payload, extract_sk_tokens, jwt_payload_part, mask_email,
    quota_request_headers, token_candidate, token_to_write, tokens_in_backup, AuthClaims, AuthFile, AuthTokens,
    JwtClaims, LocalChatGptAuth,
};
use codex_tools::backup::{backup_manifest, sync_backup_file_names, sync_backup_manifest, timestamp_for_path, BackupFile};
use codex_tools::config::{
    assignment_value, escape_toml_string, mask_secret, parse_config, parse_provider_sections, parse_root_provider,
    set_root_provider, split_lines, strip_toml_quotes,
};
use codex_tools::counts::{format_counts, Counts};
use codex_tools::inspect::{inspect, inspect_text, newest_first, runtime_status, InspectFacts};
use codex_tools::json::{equal_json, json_int, json_text, json_text_pretty, parse_json};
use codex_tools::order::{sort_distinct, sort_texts, text_leq};
use codex_tools::paths::{
    count_array_changes, dedupe_paths, normalize_comparable_path, resolve_stored_path, to_normal_workspace_path,
    ThreadCwdStat,
};
use codex_tools::process::{
    detect_codex_processes, detection_failure_text, ensure_codex_stopped_for_write, quit_codex_text,
    quit_command_texts, quit_first_step, signed_text, try_quit_codex, CodexProcess, QuitStep, System,
};
use codex_tools::provider::{
    apply_experimental_token, apply_experimental_token_text, plan_openai_repair, plan_repair, provider_id_from_lower,
    repair_provider, repair_provider_text, sanitize_provider_id,
};
use codex_tools::quota::{
    human_duration, parse_quota_payload, quota_http_error, quota_outcome, quota_readable_json, quota_result,
    quota_result_unavailable, quota_text, reset_summary, Percent, QuotaBucketView, QuotaCreditsView, QuotaWindowView,
    SpendControlView, UsageAnswer,
};
use codex_tools::relay::{plan_relay_toggle, relay_toggle_text, set_relay_lines_commented};
use codex_tools::report::{
    backup_remove_auth, backup_remove_auth_text, native_shell_result, plan_provider_sync, provider_choices,
    provider_status_text, provider_switch_text, provider_sync_text, resolve_sync_target, ProviderCommand,
    ProviderPlan, ProviderStatus, SqliteUpdateStats, SyncReport,
};
use codex_tools::text::{decimal_text, is_whitespace, join, split_char, to_ascii_lowercase, trim};
use codex_tools::workspace::{
    project_visibility, project_visibility_without_index, sync_workspace_roots, workspace_roots_in, VisibleThread,
    WorkspaceRootSyncStats,
};
use codex_tools::writes::{
    backup_file_names, backup_reason, next_step, write_action, write_steps, WriteCommand, WriteStep, WriteTarget,
};

const CONFIG: &str = "# top\nmodel_provider = \"OpenAI\"\n\n[model_providers.openai-x]\nname = \"OpenAI\"\nbase_url = \"https://r\"\nexperimental_bearer_token = \"sk-123456789012345\"\nrequires_openai_auth = true\n\n[other]\nx = 1\n";

fn text(value: &str) -> Option<String> {
    Some(value.to_string())
}

fn strings(list: &[&str]) -> Vec<String> {
    list.iter().map(|item| item.to_string()).collect()
}

#[test]
fn white_space_is_that_of_std() {
    for code in 0..=0x10ffffu32 {
        if let Some(c) = char::from_u32(code) {
            assert_eq!(is_whitespace(c), c.is_whitespace(), "{code:x}");
        }
    }
    assert_eq!(trim("\u{3000} a b \u{85}"), "a b");
    assert_eq!(split_char("a,,b", ','), vec!["a", "", "b"]);
    assert_eq!(join(&strings(&["a", "", "b"]), ", "), "a, , b");
    assert_eq!(to_ascii_lowercase("AÉz"), "aÉz");
    assert_eq!(decimal_text(u128::MAX), u128::MAX.to_string());
    assert_eq!(decimal_text(0), "0");
}

#[test]
fn texts_are_ordered_as_std_orders_them() {
    let words = ["", "a", "B", "ab", "é", "z", "a\0", "文"];
    for a in words {
        for b in words {
            assert_eq!(text_leq(a, b), a <= b, "{a} {b}");
        }
    }
    let mut sorted = strings(&words);
    sorted.sort();
    assert_eq!(sort_texts(strings(&words)), sorted);
    assert_eq!(sort_distinct(&strings(&["b", "a", "b"])), vec!["a", "b"]);
    assert_eq!(newest_first(strings(&["a", "c", "b"])), vec!["c", "b", "a"]);
}

#[test]
fn a_configuration_is_read() {
    assert_eq!(parse_root_provider(CONFIG), "OpenAI");
    assert_eq!(parse_root_provider("[a]\nmodel_provider = \"x\""), "openai");
    let sections = parse_provider_sections(CONFIG);
    assert_eq!(sections.len(), 1);
    assert_eq!((sections[0].id.as_str(), sections[0].start, sections[0].end), ("openai-x", 3, 9));
    let config = parse_config(CONFIG);
    assert_eq!(config.providers[0].name, "OpenAI");
    assert_eq!(config.providers[0].base_url, "https://r");
    assert_eq!(config.providers[0].experimental_bearer_token_masked, "sk-1234...2345");
    assert!(config.providers[0].has_experimental_bearer_token);
    assert_eq!(config.providers[0].requires_openai_auth, "true");
    assert_eq!(mask_secret(""), "");
    assert_eq!(mask_secret("abc"), "abc...");
    assert_eq!(mask_secret("12345678901234"), "1234...");
    assert_eq!(mask_secret("123456789012345"), "1234567...2345");
    assert_eq!(strip_toml_quotes(" 'a' "), "a");
    assert_eq!(strip_toml_quotes("\"a'"), "\"a'");
    assert_eq!(escape_toml_string("a\"b\\c"), "a\\\"b\\\\c");
    assert_eq!(split_lines("a\r\nb\n"), vec!["a", "b", ""]);
    assert_eq!(assignment_value("name = \"x\"", "name"), text("x"));
    assert_eq!(assignment_value("# name = \"x\"", "name"), None);
}

#[test]
fn the_selected_provider_is_set() {
    assert_eq!(set_root_provider("a = 1\nmodel_provider = \"x\"\n", "y"), "a = 1\nmodel_provider = \"y\"\n");
    assert_eq!(set_root_provider("# c\n[s]\n", "y"), "# c\nmodel_provider = \"y\"\n[s]\n");
    let next = set_root_provider(CONFIG, "p.q-1");
    assert_eq!(parse_root_provider(&next), "p.q-1");
    assert_eq!(parse_root_provider(&set_root_provider("", "p")), "p");
}

#[test]
fn provider_names_become_ids() {
    let id = |name: &str| sanitize_provider_id(text(name));
    assert_eq!(sanitize_provider_id(None), Ok("simplaj".to_string()));
    assert_eq!(id("  My  Relay! v2 "), Ok("my-relay-v2".to_string()));
    assert_eq!(id("--a--"), Ok("a".to_string()));
    assert_eq!(id("ÄB"), Ok("b".to_string()));
    assert_eq!(id("!!"), Err("Provider 名称不能为空。".to_string()));
    assert_eq!(id("._x"), Err("Provider 名称需以字母或数字开头。".to_string()));
    assert_eq!(provider_id_from_lower("a b"), Ok("a-b".to_string()));
}

#[test]
fn a_provider_is_repaired() {
    let edit = plan_repair(CONFIG, "simplaj").ok().unwrap();
    let next = edit.next_text.clone().unwrap();
    assert_eq!(parse_root_provider(&next), "simplaj");
    assert!(next.contains("[model_providers.simplaj]\nname = \"simplaj\"\nbase_url = \"https://r\""));
    assert_eq!(edit.message, "已将 provider openai-x / OpenAI 重命名为 simplaj，并将 root provider 指向 simplaj。");
    assert_eq!(
        plan_repair("model_provider = \"q\"\n", "simplaj").err().unwrap(),
        "config.toml 里没有找到 OpenAI provider，也没有找到当前 provider q 对应的 [model_providers.*] section。请先确认 config.toml。"
    );
    let taken = format!("{CONFIG}[model_providers.simplaj]\n");
    assert_eq!(
        plan_repair(&taken, "simplaj").err().unwrap(),
        "config.toml 已存在 [model_providers.simplaj]，为避免覆盖没有自动合并。"
    );
    assert!(plan_openai_repair("a = 1", "simplaj").ok().unwrap().next_text.is_none());
    let sync = native_shell_result(10, 25, "c".to_string(), Err("boom".to_string()));
    assert_eq!((sync.ok, sync.code, sync.duration_ms), (false, Some(1), 15));
    let result = repair_provider(edit, text("/b"), Some(sync));
    assert_eq!(
        repair_provider_text(result),
        "已将 provider openai-x / OpenAI 重命名为 simplaj，并将 root provider 指向 simplaj。\nBackup: /b\nSync failed: boom"
    );
}

#[test]
fn a_token_is_written() {
    let edit = apply_experimental_token(CONFIG, text("OpenAI X"), "sk-new-token-0001".to_string()).ok().unwrap();
    assert_eq!(edit.provider_id, "openai-x");
    assert!(edit.next_text.contains("experimental_bearer_token = \"sk-new-token-0001\"\nrequires_openai_auth = true"));
    assert_eq!(
        apply_experimental_token_text(&edit, "/b"),
        "Applied experimental_bearer_token for provider openai-x.\nToken: sk-new-...0001\nBackup: /b"
    );
    let fails = |provider: &str, token: &str| {
        apply_experimental_token(CONFIG, text(provider), token.to_string()).err().unwrap()
    };
    assert_eq!(fails("openai-x", "key"), "API Key 需以 sk- 开头。");
    assert_eq!(fails("none", "sk-1"), "config.toml 中没有找到 [model_providers.none]。");
    assert_eq!(fails("!", "sk-1"), "Provider 名称不能为空。");
}

#[test]
fn relay_lines_are_switched_off_and_on() {
    let off = plan_relay_toggle(CONFIG, None, true).ok().unwrap();
    assert_eq!(off.changed_keys, vec!["base_url", "experimental_bearer_token"]);
    let commented = off.next_text.clone();
    let result = set_relay_lines_commented(off, text("/b"));
    assert!(result.changed);
    assert_eq!(
        relay_toggle_text(result),
        "已注释 [model_providers.OpenAI] 中的 base_url、experimental_bearer_token；重启 Codex 后会优先使用当前 ChatGPT/GPT 订阅登录态。\nBackup: /b"
    );
    assert_eq!(plan_relay_toggle(&commented, None, true).ok().unwrap().changed_keys.len(), 0);
    let on = plan_relay_toggle(&commented, text("openai-x"), false).ok().unwrap();
    assert_eq!(on.next_text, CONFIG);
    let nothing = plan_relay_toggle(CONFIG, text("openai-x"), false).ok().unwrap();
    assert_eq!(
        relay_toggle_text(set_relay_lines_commented(nothing, text("/b"))),
        "没有找到需要恢复的 base_url 或 experimental_bearer_token 行。"
    );
    assert_eq!(plan_relay_toggle(CONFIG, text(" "), true).err().unwrap(), "目标 Provider 不能为空。");
    assert_eq!(
        plan_relay_toggle(CONFIG, text("z"), true).err().unwrap(),
        "config.toml 中没有找到 [model_providers.z]。"
    );
}

fn stat(cwd: &str, count: usize, updated_at_ms: i64) -> ThreadCwdStat {
    ThreadCwdStat {
        cwd: cwd.to_string(),
        normalized_cwd: normalize_comparable_path(cwd).unwrap(),
        count,
        updated_at_ms,
    }
}

#[test]
fn paths_are_compared_and_resolved() {
    assert_eq!(to_normal_workspace_path("\\\\?\\C:/a"), "C:\\a");
    assert_eq!(to_normal_workspace_path("\\\\?\\UNC\\h\\s"), "\\\\h\\s");
    assert_eq!(to_normal_workspace_path(" /a "), " /a ");
    assert_eq!(normalize_comparable_path("/A/b/"), text("\\a\\b"));
    assert_eq!(normalize_comparable_path("C:\\"), text("c:\\"));
    assert_eq!(normalize_comparable_path(" / "), None);
    assert_eq!(dedupe_paths(&strings(&["/a", "/A/", "", "/b"])), vec!["/a", "/b"]);
    let stats = vec![stat("/Work", 1, 9), stat("/work/", 3, 1), stat("/WORK", 3, 5)];
    assert_eq!(resolve_stored_path("/work", &stats), "/WORK");
    assert_eq!(resolve_stored_path("\\\\?\\D:/x", &stats), "D:\\x");
    assert_eq!(count_array_changes(&strings(&["a"]), &strings(&["a"])), 0);
}

#[test]
fn workspace_roots_are_synced() {
    let state = "{\"electron-saved-workspace-roots\":[\"/Work\",\"/other\"],\"project-order\":[],\"active-workspace-roots\":[\"/work\"],\"keep\":{\"x\":1}}";
    let stats = vec![stat("/work", 2, 2)];
    let sync = sync_workspace_roots(state, &stats, false, "/f").unwrap_or_else(|_| panic!());
    assert!(sync.stats.present && sync.stats.updated);
    assert_eq!(sync.stats.saved_workspace_root_count, 2);
    let next = parse_json(&sync.next_text.clone().unwrap()).unwrap();
    assert_eq!(
        json_text(&next).unwrap(),
        "{\"active-workspace-roots\":[\"/work\"],\"electron-saved-workspace-roots\":[\"/work\",\"/other\"],\"keep\":{\"x\":1},\"project-order\":[\"/work\",\"/other\"]}"
    );
    let again = sync_workspace_roots(&sync.next_text.unwrap(), &stats, false, "/f").unwrap_or_else(|_| panic!());
    assert!(!again.stats.updated && again.next_text.is_none());
    assert_eq!(
        sync_workspace_roots("[]", &stats, false, "/f").err().unwrap(),
        "/f 不是 JSON object，无法同步项目根路径缓存。"
    );
    assert!(sync_workspace_roots("{", &stats, false, "/f").is_err());
    assert_eq!(workspace_roots_in(state).unwrap(), vec!["/Work", "/other"]);
}

#[test]
fn the_visibility_of_projects_is_told() {
    let row = |cwd: &str, provider: Option<&str>| VisibleThread {
        cwd: cwd.to_string(),
        provider: provider.map(ToString::to_string),
    };
    let rows = vec![row("/w", Some("a")), row("/x", Some("a")), row("/W/", None), row("/w", Some("a"))];
    assert_eq!(
        project_visibility(&strings(&["/w", "/none"]), &rows),
        vec![
            "/w: interactive 3, first page 3/50, ranks 1, 3, 4, exact cwd 2/3, verbatim cwd 0, providers (missing): 1, a: 2",
            "/none: interactive 0, first page 0/50, ranks (none), exact cwd 0/0, verbatim cwd 0, providers (none)",
        ]
    );
    let many: Vec<VisibleThread> = (0..60).map(|_| row("\\\\?\\C:\\p", Some("a"))).collect();
    assert_eq!(
        project_visibility(&strings(&["C:\\p"]), &many),
        vec!["C:\\p: interactive 60, first page 50/50, ranks 1, 2, 3, 4, 5, 6, 7, 8, 9, 10, 11, 12 (+48 more), exact cwd 0/60, verbatim cwd 60, providers a: 60"]
    );
    assert_eq!(
        project_visibility_without_index(&strings(&["/w"])),
        vec!["/w: interactive 0, first page 0/50, ranks (none), exact cwd 0/0, providers (none)"]
    );
}

fn counts(list: &[(&str, usize)]) -> Counts {
    let mut counts = Counts::new();
    for (key, count) in list {
        counts.set(key.to_string(), *count);
    }
    counts
}

#[test]
fn counts_are_kept_by_key() {
    let mut c = counts(&[("b", 1), ("a", 2)]);
    c.set("b".to_string(), 5);
    assert_eq!(format_counts(&c), "a: 2, b: 5");
    assert_eq!(format_counts(&Counts::new()), "(none)");
    assert_eq!(Counts::tally_of(&strings(&["x", "y", "x"])).get("x"), Some(2));
}

#[test]
fn providers_are_chosen() {
    let choices = provider_choices(
        Some(CONFIG),
        &counts(&[("sessions/z", 1), ("sessions/(missing)", 1)]),
        Some(&counts(&[("archived_sessions/b", 1), ("odd", 1)])),
    );
    assert_eq!(choices, vec!["OpenAI", "b", "openai", "openai-x", "z"]);
    assert_eq!(resolve_sync_target(text(" p "), Some(CONFIG)), "p");
    assert_eq!(resolve_sync_target(text(" "), Some(CONFIG)), "OpenAI");
    assert_eq!(resolve_sync_target(None, None), "openai");
    match plan_provider_sync(text("sync"), "p", true) {
        ProviderPlan::Run(ProviderCommand::Sync, told) => {
            assert_eq!(told, "native-rust-rusqlite sync --provider p --force")
        }
        _ => panic!(),
    }
    assert!(matches!(plan_provider_sync(None, "p", false), ProviderPlan::Run(ProviderCommand::Status, _)));
    match plan_provider_sync(text("x"), "p", false) {
        ProviderPlan::Refuse(told, why) => {
            assert_eq!(told, "native-rust-rusqlite x");
            assert_eq!(why, "不支持的同步命令：x。可用命令：status / sync / switch。");
        }
        _ => panic!(),
    }
}

#[test]
fn a_sync_is_reported() {
    let report = SyncReport {
        target_provider: "p".to_string(),
        backup_dir: "/b".to_string(),
        applied_rollouts: 3,
        skipped_rollouts: strings(&["1", "2", "3", "4", "5", "6", "7"]),
        sqlite_present: true,
        sqlite: SqliteUpdateStats {
            thread_rows_inserted: 1,
            provider_rows_updated: 2,
            user_event_rows_updated: 0,
            cwd_rows_updated: 4,
            database_present: true,
        },
        workspace: WorkspaceRootSyncStats {
            present: true,
            updated: false,
            updated_workspace_roots: 0,
            saved_workspace_root_count: 2,
        },
        forced: true,
        counts_before: counts(&[("sessions/o", 3)]),
    };
    assert_eq!(
        provider_sync_text(report),
        "Target provider: p\nBackup: /b\nUpdated rollout files: 3\nUpdated SQLite rows: 7\nUpdated workspace roots: 0 (saved roots 2, unchanged)\nProcess preflight skipped by --force; SQLite write lock was still checked.\nInserted SQLite thread indexes: 1\nUpdated SQLite cwd paths: 4\nSkipped changed or locked rollout files: 7\n  1\n  2\n  3\n  4\n  5\n  (+2 more)\n\nRollout files before sync:\n  sessions/o: 3"
    );
    let bare = SyncReport {
        target_provider: "p".to_string(),
        backup_dir: "/b".to_string(),
        applied_rollouts: 0,
        skipped_rollouts: vec![],
        sqlite_present: false,
        sqlite: SqliteUpdateStats::absent(),
        workspace: WorkspaceRootSyncStats::absent(),
        forced: false,
        counts_before: Counts::new(),
    };
    assert_eq!(
        provider_sync_text(bare),
        "Target provider: p\nBackup: /b\nUpdated rollout files: 0\nUpdated SQLite rows: 0 (state_5.sqlite not found)\nUpdated workspace roots: 0 (.codex-global-state.json not found)\n\nRollout files before sync:\n  (none)"
    );
    assert_eq!(
        provider_switch_text("p", "/b", "done"),
        "Switched root provider to p.\nConfig backup: /b\n\ndone"
    );
}

#[test]
fn the_status_of_providers_is_told() {
    let status = ProviderStatus {
        codex_home: "/h".to_string(),
        current_provider: "p".to_string(),
        configured_providers: strings(&["a", "b"]),
        rollout_counts: counts(&[("sessions/o", 3)]),
        sqlite_counts: None,
        user_event_count: 1,
        cwd_count: 2,
        project_visibility: strings(&["x"]),
    };
    assert_eq!(
        provider_status_text(&status),
        "Codex home: /h\nCurrent provider: p\nConfigured providers: a, b\nSync engine: native-rust-rusqlite\n\nRollout files:\n  sessions/o: 3\n\nSQLite state:\n  state_5.sqlite not found\nRepair hints: user-event thread ids 1, cwd rows 2\n\nProject visibility:\n  x"
    );
}

#[test]
fn auth_is_removed_once() {
    assert_eq!(
        backup_remove_auth_text(backup_remove_auth("/a".to_string(), text("/b"))),
        "已备份并移除 auth.json。\nAuth path: /a\nBackup: /b"
    );
    assert_eq!(
        backup_remove_auth_text(backup_remove_auth("/a".to_string(), None)),
        "auth.json 不存在，无需移除。\nAuth path: /a"
    );
}

fn process(pid: u32, command: &str) -> CodexProcess {
    CodexProcess { pid, command: command.to_string() }
}

#[test]
fn processes_are_found_in_listings() {
    let listing = "  30 /Applications/Codex.app/Contents/MacOS/Codex\n\n 7 codex app-server\n 8 codex app-server\n x codex\n 9 vim\n";
    let found = detect_codex_processes(listing, false, 8);
    assert_eq!(found.iter().map(|p| p.pid).collect::<Vec<_>>(), vec![7, 30]);
    assert_eq!(found[0].command, "codex app-server");
    let found = detect_codex_processes("12\tC:\\Codex\\Codex.exe\r\n13 codex\n", true, 0);
    assert_eq!(found.iter().map(|p| p.pid).collect::<Vec<_>>(), vec![12]);
    assert_eq!(detection_failure_text(" e ", "o", Some(1)), "Codex 进程检测命令失败：e");
    assert_eq!(detection_failure_text("", " o ", Some(1)), "Codex 进程检测命令失败：o");
    assert_eq!(detection_failure_text("", "", Some(-9)), "Codex 进程检测命令失败：退出码 Some(-9)");
    assert_eq!(detection_failure_text("", "", None), "Codex 进程检测命令失败：退出码 None");
    assert_eq!(signed_text(i64::MIN), i64::MIN.to_string());
}

#[test]
fn writing_waits_for_codex_to_end() {
    assert!(ensure_codex_stopped_for_write("x", &Ok(vec![])).is_ok());
    let many: Vec<CodexProcess> = (1..8).map(|i| process(i, "codex")).collect();
    assert_eq!(
        ensure_codex_stopped_for_write("写", &Ok(many)).unwrap_err(),
        "写 前必须完全退出 Codex App、Codex CLI 和 app-server。当前仍检测到 7 个相关进程：1 codex; 2 codex; 3 codex; 4 codex; 5 codex"
    );
    assert_eq!(
        ensure_codex_stopped_for_write("写", &Err("e".to_string())).unwrap_err(),
        "写 前无法确认 Codex 是否已完全退出。请手动关闭 Codex App、Codex CLI 和 app-server 后重试。检测错误：e"
    );
}

#[test]
fn codex_is_asked_to_end() {
    match quit_first_step(&Ok(vec![])) {
        Ok(QuitStep::Done(result)) => {
            assert_eq!(quit_codex_text(result), "未检测到 Codex App / Codex CLI / app-server，可以写入配置和历史索引。")
        }
        _ => panic!(),
    }
    assert!(matches!(quit_first_step(&Ok(vec![process(1, "codex")])), Ok(QuitStep::Ask)));
    assert!(quit_first_step(&Err("e".to_string())).is_err());
    let commands = quit_command_texts(System::Windows);
    assert_eq!(commands, vec!["taskkill /IM Codex.exe", "taskkill /IM codex.exe"]);
    let result = try_quit_codex(commands, Ok(vec![process(1, "codex")])).ok().unwrap();
    assert!(result.attempted && result.still_running);
    assert_eq!(
        quit_codex_text(result),
        "已尝试退出 Codex，但仍检测到 1 个相关进程。请手动完全关闭 Codex App、Codex CLI 和 app-server 后再写入。\nCommands: taskkill /IM Codex.exe; taskkill /IM codex.exe\n仍有 1 个 Codex 相关进程，请手动完全退出后再继续。"
    );
    let result = try_quit_codex(quit_command_texts(System::Other), Ok(vec![])).ok().unwrap();
    assert_eq!(
        quit_codex_text(result),
        "已请求 Codex 退出，当前未检测到相关进程。可以勾选确认后写入。\nCommands: pkill -TERM -f 'codex app-server'"
    );
    assert!(try_quit_codex(vec![], Err("e".to_string())).is_err());
}

fn facts(config: Option<&str>, processes: Result<Vec<CodexProcess>, String>, dirs: usize) -> InspectFacts {
    InspectFacts {
        codex_home: "/h".to_string(),
        config_path: "/h/config.toml".to_string(),
        auth_path: "/h/auth.json".to_string(),
        config_text: config.map(ToString::to_string),
        auth_exists: true,
        processes,
        backup_root: "/h/b".to_string(),
        backup_dirs: (0..dirs).map(|i| format!("/h/b/{i}")).collect(),
        rollout_counts: Counts::new(),
        sqlite_counts: None,
    }
}

#[test]
fn the_state_is_inspected() {
    let state = inspect(facts(Some(CONFIG), Ok(vec![]), 10));
    assert!(!state.codex_running && state.config_exists);
    assert_eq!(state.backup_dirs.len(), 8);
    assert_eq!(state.backup_dirs[0], "/h/b/9");
    assert_eq!(
        inspect_text(&state),
        "Codex 状态\n  运行状态：已退出\n  配置写入：可以安全执行 provider/auth/relay 修改\n\n本机配置\n  Codex 目录：/h\n  config.toml：/h/config.toml\n  auth.json：已登录/存在\n\nProvider\n  当前 provider：OpenAI\n  显示名称：OpenAI\n  中转 URL：已配置\n  中转 Key：已配置\n  OpenAI 登录态：需要\n\n最近备份：/h/b/9\n  另外还有 7 个备份"
    );
    let state = inspect(facts(None, Err("e".to_string()), 0));
    assert!(state.codex_running);
    assert_eq!(
        inspect_text(&state),
        "Codex 状态\n  运行状态：无法确认\n  配置写入：不建议继续，请手动完全退出 Codex 后再操作\n  检测错误：e\n\n本机配置\n  Codex 目录：/h\n  config.toml：未找到\n  auth.json：已登录/存在"
    );
    let state = inspect(facts(None, Ok(vec![process(1, "codex")]), 0));
    assert!(inspect_text(&state).contains("  运行状态：运行中（检测到 1 个相关进程）"));
    assert_eq!(runtime_status().sync_engine, "native-rust-rusqlite");
}

#[test]
fn backups_are_recorded() {
    assert_eq!(timestamp_for_path(12), "backup-12");
    let files = vec![BackupFile { source: "/a".to_string(), backup: "/b/a".to_string() }];
    assert_eq!(
        json_text(&backup_manifest("why", 5, "/h", &files)).unwrap(),
        "{\"codexHome\":\"/h\",\"createdAtUnixMs\":\"5\",\"files\":[{\"backup\":\"/b/a\",\"source\":\"/a\"}],\"reason\":\"why\",\"tool\":\"Codex API Tools\"}"
    );
    assert_eq!(
        json_text(&sync_backup_manifest(&vec![], "p", 5)).unwrap(),
        "{\"changedSessionFiles\":0,\"createdAtUnixMs\":\"5\",\"engine\":\"native-rust-rusqlite\",\"files\":[],\"targetProvider\":\"p\",\"tool\":\"Codex API Tools\",\"version\":1}"
    );
    assert_eq!(
        sync_backup_file_names(),
        vec![
            "config.toml",
            "state_5.sqlite",
            "state_5.sqlite-shm",
            "state_5.sqlite-wal",
            ".codex-global-state.json",
            ".codex-global-state.json.bak",
        ]
    );
}

#[test]
fn addresses_are_masked() {
    assert_eq!(mask_email("alice@x.y"), "a***e@x.y");
    assert_eq!(mask_email("bob@x.y"), "b***@x.y");
    assert_eq!(mask_email("@x.y"), "****@x.y");
    assert_eq!(mask_email("no address"), "no a...");
}

#[test]
fn the_payload_of_a_token_is_decoded() {
    let payload = "{\"email\":\"é>?\"}".as_bytes();
    let bare = base64::engine::general_purpose::URL_SAFE_NO_PAD.encode(payload);
    let padded = base64::engine::general_purpose::URL_SAFE.encode(payload);
    assert_eq!(decode_jwt_payload(&format!("h.{bare}.s")).unwrap(), payload);
    assert_eq!(decode_jwt_payload(&format!("h.{padded}.s")).unwrap(), payload);
    assert_eq!(decode_jwt_payload("h.s").unwrap_err(), "JWT 格式无效。");
    assert_eq!(decode_jwt_payload("h..s").unwrap_err(), "JWT 格式无效。");
    assert!(decode_jwt_payload("h.!.s").unwrap_err().starts_with("JWT payload base64 解码失败："));
    assert_eq!(jwt_payload_part("a.b.c").unwrap(), "b");
}

fn auth_file(key: Option<&str>, mode: Option<&str>, access: &str, account: Option<&str>) -> AuthFile {
    AuthFile {
        auth_mode: mode.map(ToString::to_string),
        openai_api_key: key.map(ToString::to_string),
        tokens: Some(AuthTokens {
            id_token: "id".to_string(),
            access_token: access.to_string(),
            account_id: account.map(ToString::to_string),
        }),
        last_refresh: text("then"),
    }
}

fn claims(account: Option<&str>) -> JwtClaims {
    JwtClaims {
        email: None,
        profile_email: text("p@x"),
        auth: Some(AuthClaims {
            chatgpt_plan_type: text("plus"),
            chatgpt_account_id: account.map(ToString::to_string),
            chatgpt_account_is_fedramp: true,
        }),
    }
}

#[test]
fn the_account_is_read_from_the_login() {
    assert_eq!(chatgpt_id_token(&auth_file(None, Some("chatgpt"), "at", None)).unwrap(), "id");
    let key = "当前 auth.json 是 API Key 登录，不是 ChatGPT 登录，无法查询 GPT 订阅额度。";
    assert_eq!(chatgpt_id_token(&auth_file(Some("sk"), None, "at", None)).unwrap_err(), key);
    assert_eq!(chatgpt_id_token(&auth_file(None, Some("ApiKey"), "at", None)).unwrap_err(), key);
    assert_eq!(
        chatgpt_id_token(&auth_file(None, None, " ", None)).unwrap_err(),
        "auth.json 缺少 access_token，请在 Codex 中重新登录 ChatGPT。"
    );
    let mut none = auth_file(None, None, "at", None);
    none.tokens = None;
    assert_eq!(
        chatgpt_id_token(&none).unwrap_err(),
        "auth.json 缺少 ChatGPT tokens，请在 Codex 中重新登录 ChatGPT。"
    );
    let auth = chatgpt_auth(auth_file(None, None, "at", None), claims(Some("acc"))).ok().unwrap();
    assert_eq!((auth.account_id.as_str(), auth.fedramp), ("acc", true));
    assert_eq!(auth.email, text("p@x"));
    let headers = quota_request_headers(&auth);
    let shown: Vec<(&str, &str)> = headers.iter().map(|h| (h.name.as_str(), h.value.as_str())).collect();
    assert!(shown.contains(&("authorization", "Bearer at")));
    assert!(shown.contains(&("chatgpt-account-id", "acc")));
    assert!(shown.contains(&("x-openai-fedramp", "true")));
    assert!(chatgpt_auth(auth_file(None, None, "at", None), claims(None)).is_err());
    assert_eq!(chatgpt_auth(auth_file(None, None, "at", Some("b")), claims(Some("acc"))).ok().unwrap().account_id, "b");
}

#[test]
fn tokens_are_found_in_backups() {
    assert_eq!(extract_sk_tokens("x sk-abc_1-2 y"), Vec::<String>::new());
    let long = ["sk-head", &"_".repeat(12), "tail"].concat();
    assert_eq!(extract_sk_tokens(&format!("key={long}, again")), vec![long.clone()]);
    let shortest = ["sk-", &"x".repeat(12)].concat();
    assert_eq!(extract_sk_tokens(&format!("{long} {shortest} {long}")), vec![long.clone(), shortest.clone()]);
    assert_eq!(extract_sk_tokens(&shortest[..14]), Vec::<String>::new());
    assert_eq!(tokens_in_backup(&format!("{{\"a\":[\"{long}\"],\"b\":\"{long}\"}}")), vec![long.clone()]);
    let candidate = token_candidate(&long, "d", 2, "/p", "/d");
    assert_eq!(candidate.masked, "sk-head...tail");
    assert_eq!(candidate.length, long.len());
    assert!(token_to_write(None).is_err());
}

fn percent(value: i128, text: &str) -> Option<Percent> {
    Some(Percent { value: json_int(value), text: text.to_string() })
}

fn chatgpt() -> LocalChatGptAuth {
    LocalChatGptAuth {
        auth_mode: text("chatgpt"),
        account_id: "account-0123456789".to_string(),
        email: text("alice@x.y"),
        plan_type: text("plus"),
        access_token: "at".to_string(),
        last_refresh: None,
        fedramp: false,
    }
}

fn bucket(reached: Option<bool>) -> QuotaBucketView {
    QuotaBucketView {
        limit_id: "codex".to_string(),
        limit_name: text(" "),
        allowed: Some(true),
        limit_reached: reached,
        primary: Some(QuotaWindowView {
            label: "primary".to_string(),
            used_percent: percent(40, "40.0%"),
            remaining_percent: percent(60, "60.0%"),
            window_minutes: Some(300),
            resets_at: None,
            reset_after_seconds: Some(3600),
        }),
        secondary: None,
    }
}

#[test]
fn a_quota_is_told() {
    let spend = SpendControlView {
        limit: None,
        used: None,
        remaining: text("9"),
        used_percent: percent(10, "10.0%"),
        remaining_percent: None,
        resets_at: Some(100),
        reset_after_seconds: None,
    };
    let credits = QuotaCreditsView { has_credits: Some(true), unlimited: None, balance: text("3") };
    let result = quota_result(chatgpt(), None, vec![bucket(Some(false))], Some(credits), Some(spend), None, 7);
    assert!(result.ok);
    assert_eq!(
        quota_text(&result, 40),
        format!(
            "OpenAI 额度\n  账号：a***e@x.y\n  订阅：plus\n  Account：account...6789\n  查询结果：当前未显示额度限制\n\n额度窗口\n  codex：可用\n    短周期：已用 40.0%，剩余 60.0%，窗口 5 小时，恢复：约 1 小时后\n\n消费限制\n  剩余：9\n  已用：10.0%\n  恢复：约 1 分钟后\n\n{}",
            result.recommendation
        )
    );
    let json = parse_json(&json_text(&quota_readable_json(&result, 40)).unwrap()).unwrap();
    let expected = format!(
        "{{\"title\":\"OpenAI 额度\",\"account\":{{\"email\":\"a***e@x.y\",\"subscription\":\"plus\",\"accountId\":\"account...6789\",\"authMode\":\"chatgpt\",\"lastRefresh\":null}},\"query\":{{\"ok\":true,\"status\":\"available\",\"result\":\"当前未显示额度限制\",\"message\":\"已读取当前 ChatGPT 账号额度。\",\"limitReachedType\":null}},\"quotaWindows\":[{{\"name\":\"codex\",\"id\":\"codex\",\"state\":\"可用\",\"allowed\":true,\"limitReached\":false,\"windows\":[{{\"label\":\"短周期\",\"summary\":\"短周期：已用 40.0%，剩余 60.0%，窗口 5 小时，恢复：约 1 小时后\",\"usedPercent\":40,\"remainingPercent\":60,\"windowMinutes\":300,\"recovery\":\"约 1 小时后\"}}]}}],\"credits\":{{\"summary\":\"有可用余额：3\",\"hasCredits\":true,\"unlimited\":null,\"balance\":\"3\"}},\"spendControl\":{{\"summary\":\"已用 10.0%，剩余 9\",\"limit\":null,\"used\":null,\"remaining\":\"9\",\"usedPercent\":10,\"remainingPercent\":null,\"recovery\":\"约 1 分钟后\"}},\"recommendation\":\"{}\"}}",
        result.recommendation
    );
    assert!(equal_json(&json, &parse_json(&expected).unwrap()));
    let reached = quota_result(chatgpt(), text("pro"), vec![bucket(Some(true))], None, None, text("t"), 7);
    assert_eq!(reached.message, "已读取当前 ChatGPT 账号额度，存在已触发的使用限制。");
    assert_eq!(reached.plan_type, text("pro"));
    let told = quota_text(&reached, 0);
    assert!(told.contains("  查询结果：已触发额度限制\n  限制类型：t\n"));
    assert!(told.contains("  codex：已用尽\n"));
    let none = quota_result_unavailable("error", "why".to_string(), None, 7);
    assert!(quota_text(&none, 0).starts_with("OpenAI 额度\n  查询结果：无法查询\n  原因：why\n"));
    assert_eq!(
        quota_http_error("401 Unauthorized", "text/html", "b"),
        "OpenAI usage 接口返回 HTTP 401 Unauthorized，content-type=text/html，响应摘要：b"
    );
}

#[test]
fn a_usage_answer_is_read() {
    let payload = parse_json("{\"plan_type\":\"plus\",\"rate_limit\":{\"allowed\":true,\"limit_reached\":false,\"primary_window\":{\"used_percent\":12.5,\"limit_window_seconds\":\"301\",\"reset_at\":9,\"reset_after_seconds\":8},\"secondary_window\":null},\"additional_rate_limits\":[{\"limit_name\":\"n\"},{}],\"credits\":{\"balance\":5},\"spend_control\":{\"individual_limit\":{\"limit\":\"1\"}},\"rate_limit_reached_type\":{\"type\":\"t\"}}").unwrap();
    let quota = parse_quota_payload(&payload);
    assert_eq!(quota.plan_type, text("plus"));
    assert_eq!(quota.rate_limit_reached_type, text("t"));
    assert_eq!(quota.buckets.iter().map(|b| b.limit_id.as_str()).collect::<Vec<_>>(), vec!["codex", "n", "additional"]);
    let window = quota.buckets[0].primary.as_ref().unwrap();
    assert_eq!(json_text(window.used_percent.as_ref().unwrap()).unwrap(), "12.5");
    assert_eq!((window.window_minutes, window.resets_at, window.reset_after_seconds), (Some(6), Some(9), Some(8)));
    assert!(quota.buckets[0].secondary.is_none());
    assert_eq!(quota.credits.unwrap().balance, text("5"));
    assert_eq!(quota.spend_control.unwrap().limit, text("1"));
}

#[test]
fn durations_are_told() {
    assert_eq!(human_duration(-5), "不到 1 分钟");
    assert_eq!(human_duration(59), "不到 1 分钟");
    assert_eq!(human_duration(61), "2 分钟");
    assert_eq!(human_duration(3600), "1 小时");
    assert_eq!(human_duration(3661), "1 小时 2 分钟");
    assert_eq!(human_duration(86400), "1 天");
    assert_eq!(human_duration(90000), "1 天 1 小时");
    assert_eq!(reset_summary(Some(-1), Some(10), 20), text("随时可能恢复"));
    assert_eq!(reset_summary(None, Some(3620), 20), text("约 1 小时后"));
    assert_eq!(reset_summary(None, None, 20), None);
}

#[test]
fn json_is_written_with_indentation() {
    let value = parse_json("{\"b\":[1],\"a\":null}").unwrap();
    assert_eq!(json_text_pretty(&value).unwrap(), "{\n  \"a\": null,\n  \"b\": [\n    1\n  ]\n}");
    assert!(equal_json(&parse_json("[1,\"a\"]").unwrap(), &parse_json("[ 1 , \"a\" ]").unwrap()));
    assert!(!equal_json(&parse_json("[1]").unwrap(), &parse_json("[1.0]").unwrap()));
}

#[test]
fn writes_come_after_checks_and_backups() {
    let commands = [
        WriteCommand::Sync { forced: false },
        WriteCommand::Switch,
        WriteCommand::Repair { sync: true },
        WriteCommand::Repair { sync: false },
        WriteCommand::RemoveAuth,
        WriteCommand::Token,
        WriteCommand::Relay,
    ];
    let first = |steps: &Vec<WriteStep>, wanted: fn(&WriteStep) -> bool| steps.iter().position(wanted).unwrap();
    for command in commands {
        let steps = write_steps(command);
        assert!(matches!(steps[0], WriteStep::CheckProcesses));
        let backup = first(&steps, |step| matches!(step, WriteStep::Backup));
        assert!(backup < first(&steps, |step| matches!(step, WriteStep::Write(_))));
    }
    let forced = write_steps(WriteCommand::Sync { forced: true });
    assert!(matches!(forced[0], WriteStep::Read));
    assert!(matches!(
        forced[3..],
        [
            WriteStep::Write(WriteTarget::Sessions),
            WriteStep::Write(WriteTarget::Index),
            WriteStep::Write(WriteTarget::Roots)
        ]
    ));
    let syncs = |command: WriteCommand| matches!(write_steps(command).last(), Some(WriteStep::Sync));
    assert!(syncs(WriteCommand::Switch) && syncs(WriteCommand::Repair { sync: true }));
    assert!(!syncs(WriteCommand::Repair { sync: false }) && !syncs(WriteCommand::Token));
    assert_eq!(backup_file_names(WriteCommand::RemoveAuth), vec!["auth.json"]);
    assert_eq!(backup_file_names(WriteCommand::Relay), vec!["config.toml"]);
    assert_eq!(backup_file_names(WriteCommand::Sync { forced: false }), sync_backup_file_names());
    assert_eq!(backup_reason(WriteCommand::Token), "apply-experimental-bearer-token");
    assert_eq!(write_action(WriteCommand::RemoveAuth), "备份并移除 auth.json");
}

#[test]
fn nothing_is_written_where_nothing_was_found() {
    let relay = WriteCommand::Relay;
    assert!(matches!(next_step(relay, 0, 1), Some(WriteStep::CheckProcesses)));
    assert!(matches!(next_step(relay, 1, 1), Some(WriteStep::Read)));
    assert!(next_step(relay, 2, 0).is_none());
    assert!(matches!(next_step(relay, 2, 2), Some(WriteStep::Backup)));
    assert!(matches!(next_step(relay, 3, 2), Some(WriteStep::Write(WriteTarget::Config))));
    assert!(next_step(relay, 4, 2).is_none());
    assert!(next_step(WriteCommand::RemoveAuth, 1, 0).is_none());
    assert!(matches!(next_step(WriteCommand::RemoveAuth, 1, 1), Some(WriteStep::Backup)));
    assert!(matches!(next_step(WriteCommand::RemoveAuth, 0, 0), Some(WriteStep::CheckProcesses)));
}

#[test]
fn a_usage_query_has_a_status() {
    let fault = |answer: UsageAnswer| quota_outcome(&answer).err().unwrap();
    assert_eq!(
        fault(UsageAnswer::NoLogin { reason: "why".to_string() }),
        ("unavailable".to_string(), "why".to_string())
    );
    assert_eq!(
        fault(UsageAnswer::NotSent { error: "down".to_string() }),
        ("error".to_string(), "无法连接 OpenAI ChatGPT usage 接口：down".to_string())
    );
    let answered = |success: bool, body: &str| UsageAnswer::Answered {
        success,
        status: "500 Internal Server Error".to_string(),
        content_type: "t".to_string(),
        body: body.to_string(),
    };
    assert_eq!(
        fault(answered(false, "b")),
        (
            "error".to_string(),
            "OpenAI usage 接口返回 HTTP 500 Internal Server Error，content-type=t，响应摘要：b".to_string()
        )
    );
    let (status, message) = fault(answered(true, "<"));
    assert_eq!(status, "error");
    assert!(message.starts_with("OpenAI usage 响应不是可识别 JSON：expected value"));
    let quota = quota_outcome(&answered(true, "{\"plan_type\":\"plus\"}")).ok().unwrap();
    assert_eq!(quota.plan_type, text("plus"));
}

#[test]
fn texts_of_a_value_come_in_order() {
    let value = parse_json("{\"b\":[\"x\",{\"z\":\"y\"},1],\"a\":\"w\",\"c\":\"x\"}").unwrap();
    let mut found = vec!["v".to_string()];
    collect_strings_from_json(&value, &mut found);
    assert_eq!(found, vec!["v", "w", "x", "y", "x"]);
}

#[test]
fn sanitized_ids_stay() {
    for name in ["Simplaj", " \u{212a}elvin X ", "\u{130}d", "a--B"] {
        let id = sanitize_provider_id(text(name)).unwrap();
        assert!(!id.chars().any(|c| c.is_ascii_uppercase()));
        assert_eq!(sanitize_provider_id(Some(id.clone())), Ok(id));
    }
    assert_eq!(sanitize_provider_id(text("\u{212a}elvin X")), Ok("kelvin-x".to_string()));
}

#[test]
fn selecting_a_provider_keeps_the_sections() {
    let once = set_root_provider(CONFIG, "x");
    assert_eq!(parse_root_provider(&once), "x");
    assert_eq!(set_root_provider(&once, "x"), once);
    let ids = |config: &str| parse_provider_sections(config).iter().map(|s| s.id.clone()).collect::<Vec<_>>();
    assert_eq!(ids(&once), ids(CONFIG));
}

#[test]
fn the_access_token_is_not_told() {
    let tell = |token: &str| {
        let login = LocalChatGptAuth { access_token: token.to_string(), ..chatgpt() };
        let result = quota_result(login, None, vec![bucket(None)], None, None, None, 7);
        (quota_text(&result, 20), json_text(&quota_readable_json(&result, 20)).unwrap())
    };
    assert_eq!(tell("one"), tell("two"));
}
