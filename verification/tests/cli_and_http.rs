use codex_tools::cli::{
    concurrency_option, confirmed_sync_key, default_device_name, default_platform, filled_setting, flag, help_text,
    option_usize, option_value, parse_command, Command,
};
use codex_tools::cloud::{
    check_login_key, cloud_settings, cloud_status, login_api_url, login_config, login_text, logout_text, mask_token,
    push_options, registration_json, registration_request, select_sessions, service_root, smoke_text,
    ApiRegisterResponse, ApiStatusResponse, CloudConfig, CloudEnvironment, CloudSettings, DEFAULT_API_URL,
};
use codex_tools::digest::sha256_hex;
use codex_tools::http::{
    after_attempt, api_error, blob_path, check_answer, chunk_manifest_path, chunk_path, complete_path, header_value,
    http_error, invalid_answer,
    latest_version_path, max_attempts, network_error_message, percent_encode_path, retry_wait_ms, service_url,
    sessions_path, should_retry_status, timeout_secs, version_path, AfterAttempt, Attempt, NetworkFault, SessionPages,
};
use codex_tools::json::json_text;
use codex_tools::listing::{cloud_list_text, list_options, local_list_text};
use codex_tools::number::{parse_signed, parse_unsigned, parse_usize};
use codex_tools::sessions::{LocalSessionMeta, SessionManifest};
use codex_tools::transfer::pull_options;

fn args(list: &[&str]) -> Vec<String> {
    list.iter().map(|arg| arg.to_string()).collect()
}

fn text(value: &str) -> Option<String> {
    Some(value.to_string())
}

#[test]
fn options_and_flags_are_found() {
    let list = args(&["--a", "1", "--b", "--a", "2", "--c"]);
    assert_eq!(option_value(&list, "--a"), text("1"));
    assert_eq!(option_value(&list, "--b"), text("--a"));
    assert_eq!(option_value(&list, "--c"), None);
    assert!(flag(&list, "--c"));
    assert!(!flag(&list, "--d"));
    assert_eq!(option_usize(&list, "--a"), Ok(Some(1)));
    assert_eq!(option_usize(&list, "--d"), Ok(None));
    assert_eq!(option_usize(&list, "--b"), Err("invalid digit found in string".to_string()));
    assert_eq!(filled_setting(&text("  x ")), text("x"));
    assert_eq!(filled_setting(&text("  ")), None);
    assert_eq!(filled_setting(&None), None);
}

#[test]
fn numbers_are_read_as_std_reads_them() {
    let cases = [
        "", "0", "7", "+7", "-7", "+", "-", " 7", "7 ", "007", "18446744073709551615", "18446744073709551616",
        "18446744073709551616x", "x18446744073709551616", "99999999999999999999999", "12a", "1_000", "٣", "+18446744073709551615",
        "++1", "+-1",
    ];
    for case in cases {
        let expected = case.parse::<usize>().map_err(|error| error.to_string());
        assert_eq!(parse_usize(case), expected, "{case}");
        assert_eq!(parse_unsigned(case, 10, u64::MAX), case.parse::<u64>().ok(), "{case}");
        assert_eq!(parse_signed(case), case.parse::<i64>().ok(), "{case}");
    }
    assert_eq!(parse_signed("-9223372036854775808"), Some(i64::MIN));
    assert_eq!(parse_signed("9223372036854775808"), None);
    assert_eq!(parse_unsigned("ff", 16, 255), Some(255));
    assert_eq!(parse_unsigned("100", 16, 255), None);
}

#[test]
fn a_concurrency_is_checked_and_capped() {
    let call = |list: &[&str], env: Option<String>| {
        concurrency_option(&args(list), &["--specific"], &["-n", "--n"], "ENV_KEY", env, 2, 8)
    };
    assert_eq!(call(&[], None), Ok(2));
    assert_eq!(call(&[], text(" 5 ")), Ok(5));
    assert_eq!(call(&["--n", "3"], text("5")), Ok(3));
    assert_eq!(call(&["-n", "100"], None), Ok(8));
    assert_eq!(
        call(&["-n", "0"], None),
        Err("concurrency value for --specific, -n, --n / ENV_KEY must be greater than 0".to_string())
    );
    assert_eq!(
        call(&["-n", "many"], None),
        Err("invalid concurrency value for --specific, -n, --n / ENV_KEY: many".to_string())
    );
}

#[test]
fn commands_are_told_apart() {
    let parse = |list: &[&str]| parse_command(&args(list));
    assert!(matches!(parse(&[]), Ok(Command::Help)));
    assert!(matches!(parse(&["-h"]), Ok(Command::Help)));
    assert!(matches!(parse(&["status"]), Ok(Command::Status)));
    assert!(matches!(parse(&["provider"]), Ok(Command::ProviderStatus)));
    match parse(&["provider", "switch", "simplaj"]) {
        Ok(Command::ProviderSwitch { provider }) => assert_eq!(provider, text("simplaj")),
        _ => panic!(),
    }
    match parse(&["provider", "switch", "a", "--provider", "b"]) {
        Ok(Command::ProviderSwitch { provider }) => assert_eq!(provider, text("b")),
        _ => panic!(),
    }
    match parse(&["provider", "repair", "--provider", "p", "--no-sync"]) {
        Ok(Command::ProviderRepair { name, sync }) => assert_eq!((name, sync), (text("p"), false)),
        _ => panic!(),
    }
    match parse(&["provider", "sync"]) {
        Ok(Command::ProviderSync { provider }) => assert_eq!(provider, None),
        _ => panic!(),
    }
    assert!(matches!(parse(&["auth", "reset"]), Ok(Command::AuthUnlock)));
    match parse(&["auth", "token", "--key", "sk-1"]) {
        Ok(Command::AuthToken { provider, key }) => assert_eq!((provider, key), (None, text("sk-1"))),
        _ => panic!(),
    }
    assert!(matches!(parse(&["relay", "off"]), Ok(Command::Relay { commented: true, .. })));
    assert!(matches!(parse(&["relay", "restore"]), Ok(Command::Relay { commented: false, .. })));
    assert!(matches!(parse(&["quota", "--raw-json"]), Ok(Command::Quota { json: false, raw_json: true })));
    assert!(matches!(parse(&["codex", "quit"]), Ok(Command::CodexQuit)));
    assert!(matches!(parse(&["sessions", "list"]), Ok(Command::SessionsList)));
    assert!(matches!(parse(&["cloud", "pull"]), Ok(Command::CloudPull)));
    assert!(matches!(parse(&["cloud", "login"]), Ok(Command::CloudLogin)));
    assert!(matches!(parse(&["cloud", "smoke"]), Ok(Command::CloudSmoke)));
    let error = |list: &[&str]| parse(list).err().unwrap();
    assert_eq!(error(&["x"]), format!("unknown command: x\n\n{}", help_text()));
    assert_eq!(error(&["provider", "x"]), format!("unknown provider command: x\n\n{}", help_text()));
    assert_eq!(error(&["auth"]), format!("missing auth command\n\n{}", help_text()));
    assert_eq!(error(&["auth", "x"]), format!("unknown auth command: x\n\n{}", help_text()));
    assert_eq!(error(&["relay"]), format!("missing relay command\n\n{}", help_text()));
    assert_eq!(error(&["codex", "x"]), format!("unknown codex command: x\n\n{}", help_text()));
    assert_eq!(error(&["sessions"]), "missing sessions command. Try: codex-tools sessions list");
    assert_eq!(error(&["sessions", "x"]), "unknown sessions command: x");
    assert_eq!(error(&["cloud"]), "missing cloud command. Try: codex-tools cloud smoke");
    assert_eq!(error(&["cloud", "x"]), "unknown cloud command: x");
    assert!(help_text().starts_with("Codex API Tools CLI\n\nUsage:\n  codex-tools status\n"));
    assert!(help_text().ends_with("use --force to re-upload.\n"));
}

#[test]
fn a_device_has_a_name_and_a_platform() {
    assert_eq!(default_device_name(text("a"), text("b"), text("c")), "a");
    assert_eq!(default_device_name(text(" "), text("b"), text("c")), "b");
    assert_eq!(default_device_name(None, None, text("c")), "c");
    assert_eq!(default_device_name(None, None, None), "unknown-device");
    assert_eq!(default_platform("linux", "x86_64"), "linux-x86_64");
    assert_eq!(confirmed_sync_key("k".to_string(), &text(" k ")), text("k"));
    assert_eq!(confirmed_sync_key("k".to_string(), &text("l")), None);
    assert_eq!(confirmed_sync_key("k".to_string(), &None), text("k"));
}

fn fault(timeout: bool, connect: bool, request: bool, body: bool) -> NetworkFault {
    NetworkFault { timeout, connect, request, body, text: "why".to_string() }
}

#[test]
fn network_faults_are_named() {
    let tail = ": why. This can happen before the request reaches the Worker, so the server may not show an error log. Retry, or set HTTP_PROXY/HTTPS_PROXY if your network needs a proxy.";
    let start = |f: NetworkFault| network_error_message(&f).strip_suffix(tail).unwrap().to_string();
    assert_eq!(start(fault(true, true, true, true)), "network timeout");
    assert_eq!(start(fault(false, true, true, true)), "network connect/TLS failure");
    assert_eq!(start(fault(false, false, true, true)), "network stream/body interrupted");
    assert_eq!(start(fault(false, false, true, false)), "network request failure");
    assert_eq!(start(fault(false, false, false, false)), "network failure");
}

#[test]
fn requests_are_repeated_and_given_up() {
    for status in [408, 425, 429, 500, 502, 503, 504, 520, 521, 522, 523, 524, 525, 526] {
        assert!(should_retry_status(status));
    }
    for status in [200, 400, 401, 404, 501, 505, 519, 527] {
        assert!(!should_retry_status(status));
    }
    assert_eq!((1..8).map(retry_wait_ms).collect::<Vec<_>>(), vec![500, 1000, 2000, 4000, 8000, 8000, 8000]);
    assert_eq!(max_attempts(&None), 5);
    assert_eq!(max_attempts(&text("0")), 1);
    assert_eq!(max_attempts(&text("x")), 5);
    assert_eq!(max_attempts(&text("18446744073709551615")), usize::MAX);
    assert_eq!(timeout_secs(&text("7"), 180), 7);
    assert_eq!(timeout_secs(&text("-7"), 180), 180);
    assert_eq!(timeout_secs(&None, 180), 180);

    let answered = |status: u16| Attempt::Answered { status, status_text: format!("{status} Text") };
    match after_attempt("list", &answered(503), 2, 5) {
        AfterAttempt::Again { notice, wait_ms } => {
            assert_eq!(notice, "list: HTTP 503 Text, retrying (2/5)...");
            assert_eq!(wait_ms, 1000);
        }
        _ => panic!(),
    }
    assert!(matches!(after_attempt("list", &answered(503), 5, 5), AfterAttempt::Take));
    assert!(matches!(after_attempt("list", &answered(404), 1, 5), AfterAttempt::Take));
    let failed = Attempt::Failed { fault: fault(true, false, false, false) };
    match after_attempt("list", &failed, 1, 5) {
        AfterAttempt::Again { notice, .. } => assert!(notice.starts_with("list: network timeout: why.")),
        _ => panic!(),
    }
    assert!(matches!(after_attempt("list", &failed, 5, 5), AfterAttempt::GiveUp { .. }));
    let lasting = Attempt::Failed { fault: fault(false, false, false, false) };
    match after_attempt("list", &lasting, 1, 5) {
        AfterAttempt::GiveUp { error } => assert!(error.starts_with("network failure: why.")),
        _ => panic!(),
    }
}

#[test]
fn failures_of_the_service_are_told() {
    assert_eq!(api_error("push", &text("e"), &text("m")), "push failed: e: m");
    assert_eq!(api_error("push", &text("e"), &None), "push failed: e");
    assert_eq!(api_error("push", &None, &text("m")), "push failed: m");
    assert_eq!(api_error("push", &None, &None), "push failed");
    assert_eq!(http_error("get blob", "404 Not Found", "gone"), "get blob failed: HTTP 404 Not Found: gone");
    assert_eq!(invalid_answer("register", "eof"), "register returned invalid JSON: eof");
}

#[test]
fn paths_are_encoded() {
    assert_eq!(percent_encode_path("aZ09-_.~"), "aZ09-_.~");
    assert_eq!(percent_encode_path("a/b %é"), "a%2Fb%20%25%C3%A9");
    assert_eq!(version_path("a/b", "h"), "/v1/sessions/a%2Fb/versions/h");
    assert_eq!(latest_version_path("s"), "/v1/sessions/s/versions/latest");
    assert_eq!(blob_path("s", "h"), "/v1/sessions/s/versions/h/blob");
    assert_eq!(chunk_path("s", "h", 12), "/v1/sessions/s/versions/h/chunks/12");
    assert_eq!(complete_path("s", "h"), "/v1/sessions/s/versions/h/chunks/complete");
    assert_eq!(chunk_manifest_path("s", "h"), "/v1/sessions/s/versions/h/chunks/manifest");
    assert_eq!(sessions_path(0, 3), "/v1/sessions?limit=1&offset=3");
    assert_eq!(sessions_path(9999, 0), "/v1/sessions?limit=500&offset=0");
    assert_eq!(service_url("https://x", "/v1"), "https://x/v1");
}

#[test]
fn sessions_are_fetched_page_by_page() {
    let mut pages = SessionPages::new(Some(700));
    assert_eq!(pages.next_page(), Some((500, 0)));
    pages.page_came(500);
    assert_eq!(pages.next_page(), Some((200, 500)));
    pages.page_came(200);
    assert_eq!(pages.next_page(), None);
    let mut pages = SessionPages::new(None);
    pages.page_came(500);
    assert_eq!(pages.next_page(), Some((500, 500)));
    pages.page_came(499);
    assert_eq!(pages.next_page(), None);
    assert_eq!(SessionPages::new(Some(0)).next_page(), None);
}

fn settings(token: Option<&str>, key: Option<&str>, email: Option<&str>) -> CloudSettings {
    CloudSettings {
        api_url: "https://x".to_string(),
        device_token: token.map(ToString::to_string),
        sync_key: key.map(ToString::to_string),
        email: email.map(ToString::to_string),
    }
}

#[test]
fn every_request_needs_the_token_and_the_proof() {
    let (token, proof) = settings(Some("t"), Some("k"), Some("A@b")).required_auth_headers().unwrap();
    assert_eq!(token, "t");
    assert_eq!(proof, sha256_hex("codex-tools-sync-login-proof-v1\0a@b\0k".as_bytes()));
    let error = |s: CloudSettings| s.required_auth_headers().unwrap_err();
    assert_eq!(error(settings(None, Some("k"), Some("a"))), "not logged in. Run: codex-tools cloud login");
    assert_eq!(error(settings(Some("t"), Some("k"), None)), "missing cloud email. Run: codex-tools cloud login");
    assert_eq!(error(settings(Some("t"), None, Some("a"))), "missing sync key. Run: codex-tools cloud login");
    assert_eq!(settings(None, Some("k"), None).required_sync_key().unwrap(), "k");
}

#[test]
fn settings_of_the_environment_come_first() {
    let mut config = CloudConfig::empty();
    config.api_url = text("https://saved");
    config.email = text("saved@x");
    let env = CloudEnvironment { api_url: text(" "), device_token: text(" tok "), sync_key: None, email: text("env@x") };
    let held = cloud_settings(&config, &env);
    assert_eq!(held.api_url, "https://saved");
    assert_eq!(held.device_token, text("tok"));
    assert_eq!(held.sync_key, None);
    assert_eq!(held.email, text("env@x"));
    assert_eq!(service_root("https://x//"), "https://x");
    let empty = CloudEnvironment { api_url: None, device_token: None, sync_key: None, email: None };
    assert_eq!(cloud_settings(&CloudConfig::empty(), &empty).api_url, DEFAULT_API_URL);
    assert_eq!(login_api_url(&text("https://o/"), &text("https://e"), &config), "https://o");
    assert_eq!(login_api_url(&None, &text("https://e/"), &config), "https://e");
    assert_eq!(login_api_url(&None, &None, &config), "https://saved");
    assert_eq!(login_api_url(&None, &None, &CloudConfig::empty()), DEFAULT_API_URL);
}

#[test]
fn the_status_of_the_account_is_shown() {
    assert_eq!(mask_token("123456789012"), "***");
    assert_eq!(mask_token("1234567890123"), "123456...0123");
    let mut config = CloudConfig::empty();
    config.device_id = text("dev");
    let lines = cloud_status(&config, &settings(Some("1234567890123"), Some("k"), Some("a@b")), "/c.json");
    assert_eq!(
        lines,
        vec![
            "api: https://x",
            "config: /c.json",
            "email: a@b",
            "device: dev",
            "device token: 123456...0123",
            "sync key: saved",
            "auth: ready (device token + sync key proof)",
        ]
    );
    let lines = cloud_status(&CloudConfig::empty(), &settings(None, None, None), "/c.json");
    assert_eq!(
        lines[2..],
        [
            "email: not saved",
            "device: not saved",
            "device token: missing",
            "sync key: missing",
            "auth: incomplete; run `codex-tools cloud login` again",
        ]
    );
}

fn registered(user: Option<&str>, device: Option<&str>, token: Option<&str>) -> ApiRegisterResponse {
    ApiRegisterResponse {
        ok: true,
        error: None,
        message: None,
        user_id: user.map(ToString::to_string),
        device_id: device.map(ToString::to_string),
        device_token: token.map(ToString::to_string),
    }
}

#[test]
fn a_login_saves_what_the_service_answers() {
    let login = |r: ApiRegisterResponse| login_config(r, "https://x", "key", "a@b", "host", 9);
    let config = login(registered(Some("u"), Some("d"), Some("t"))).ok().unwrap();
    assert_eq!(config.user_id, text("u"));
    assert_eq!(config.device_id, text("d"));
    assert_eq!(config.device_token, text("t"));
    assert_eq!(config.sync_key, text("key"));
    assert_eq!(config.saved_at_ms, Some(9));
    assert_eq!(login(registered(None, None, None)).err().unwrap(), "login response missing userId");
    assert_eq!(login(registered(Some("u"), None, None)).err().unwrap(), "login response missing deviceId");
    assert_eq!(login(registered(Some("u"), Some("d"), None)).err().unwrap(), "login response missing deviceToken");
    let mut refused = registered(None, None, None);
    refused.ok = false;
    refused.error = text("bad");
    assert_eq!(login(refused).err().unwrap(), "login failed: bad");
    assert_eq!(check_login_key("  ").unwrap_err(), "cloud login requires a non-empty sync key");
    assert!(check_login_key("k").is_ok());
    assert_eq!(login_text("u", "d", "x", "/c"), "cloud login ok\nuser: u\ndevice: d\napi: x\nconfig: /c");
    assert_eq!(logout_text(true, "/c"), "cloud logout ok: removed /c");
    assert_eq!(logout_text(false, "/c"), "cloud logout ok: no local config at /c");
}

#[test]
fn a_registration_carries_the_invite_code() {
    let request = |list: &[&str], env: Option<String>| {
        registration_request(&args(list), "a@b".to_string(), "host".to_string(), "os".to_string(), text("p"), &env)
    };
    assert_eq!(request(&["--invite-code", "c"], text("e")).invite_code, text("c"));
    assert_eq!(request(&[], text(" e ")).invite_code, text("e"));
    assert_eq!(
        json_text(&registration_json(&request(&[], None))).unwrap(),
        "{\"deviceName\":\"host\",\"email\":\"a@b\",\"inviteCode\":\"sub2api.simplaj.top\",\"platform\":\"os\",\"syncKeyProof\":\"p\"}"
    );
}

#[test]
fn a_smoke_test_tells_the_address() {
    let status = |ok: bool| ApiStatusResponse { ok, error: None, message: text("m") };
    assert_eq!(smoke_text(&status(true), "https://x").unwrap(), "API smoke test ok: https://x");
    assert_eq!(smoke_text(&status(false), "https://x").unwrap_err(), "health failed: m");
}

fn session(id: &str) -> LocalSessionMeta {
    LocalSessionMeta {
        session_id: id.to_string(),
        relative_path: format!("sessions/{id}"),
        source_dir: "sessions".to_string(),
        title: None,
        cwd: None,
        provider_name: text("p"),
        model: None,
        modified_at_ms: 1,
        size: 1,
    }
}

#[test]
fn a_push_selects_sessions() {
    let ids = |list: Vec<LocalSessionMeta>| list.into_iter().map(|s| s.session_id).collect::<Vec<_>>();
    let all = || vec![session("a"), session("b"), session("a")];
    assert_eq!(ids(select_sessions(all(), &None, None).ok().unwrap()), vec!["a", "b", "a"]);
    assert_eq!(ids(select_sessions(all(), &text("a"), None).ok().unwrap()), vec!["a", "a"]);
    assert_eq!(ids(select_sessions(all(), &text("a"), Some(1)).ok().unwrap()), vec!["a"]);
    assert_eq!(
        select_sessions(all(), &text("c"), None).err().unwrap(),
        "no local sessions matched the push filter"
    );
    assert!(select_sessions(all(), &None, Some(0)).is_err());
}

#[test]
fn pushes_and_pulls_check_their_arguments() {
    let push = |list: &[&str]| push_options(&args(list), None, text("3"));
    let options = push(&["push", "--all", "-n", "100", "--limit", "5", "--force"]).ok().unwrap();
    assert_eq!((options.session_concurrency, options.chunk_concurrency), (8, 16));
    assert_eq!((options.limit, options.force), (Some(5), true));
    let options = push(&["push", "--session-id", "s", "--session-threads", "4"]).ok().unwrap();
    assert_eq!((options.session_concurrency, options.chunk_concurrency), (4, 3));
    assert_eq!(options.session_id, text("s"));
    assert_eq!(push(&["push"]).err().unwrap(), "cloud push requires --all or --session-id <id>");
    assert_eq!(push(&["push", "--limit", ""]).err().unwrap(), "cannot parse integer from empty string");
    assert_eq!(
        push(&["push", "--all", "--chunk-threads", "x"]).err().unwrap(),
        "invalid concurrency value for --chunk-concurrency, --chunk-threads, -n, --n, --threads / CODEX_TOOLS_CHUNK_UPLOAD_CONCURRENCY: x"
    );
    let pull = |list: &[&str]| pull_options(&args(list), None);
    let options = pull(&["pull", "--all", "--dry-run"]).ok().unwrap();
    assert_eq!((options.dry_run, options.force, options.download_concurrency), (true, false, 4));
    assert_eq!(pull(&["pull", "--session-id", "s", "-n", "2"]).ok().unwrap().download_concurrency, 2);
    let both = "cloud pull requires exactly one of --all or --session-id <id>";
    assert_eq!(pull(&["pull"]).err().unwrap(), both);
    assert_eq!(pull(&["pull", "--all", "--session-id", "s"]).err().unwrap(), both);
    assert_eq!(pull(&["pull", "--all", "--limit", "x"]).err().unwrap(), "invalid digit found in string");
}

#[test]
fn sessions_are_listed() {
    let options = list_options(&args(&["list", "--limit", "1", "--json"]), 50).ok().unwrap();
    assert_eq!((options.limit, options.json), (1, true));
    assert_eq!(list_options(&args(&["list"]), 50).ok().unwrap().limit, 50);
    assert!(list_options(&args(&["list", "--limit", "x"]), 50).is_err());
    assert_eq!(
        local_list_text(&vec![session("a"), session("b"), session("c")], 2),
        vec!["local sessions: 3", "a  p  -  sessions/a", "b  p  -  sessions/b", "... 1 more"]
    );
    assert_eq!(local_list_text(&vec![], 2), vec!["local sessions: 0"]);
}

#[test]
fn versions_in_the_cloud_are_listed() {
    let manifest = SessionManifest {
        format: "f".to_string(),
        session_id: "s".to_string(),
        relative_path: "sessions/x".to_string(),
        source_dir: "sessions".to_string(),
        title: text("T"),
        cwd: None,
        provider_name: None,
        model: text("m"),
        raw_sha256: "0123456789abcdef".to_string(),
        encrypted_sha256: "e".to_string(),
        encrypted_size: 42,
        blob_key: String::new(),
        uploaded_at_ms: 7,
        device_name: "d".to_string(),
    };
    assert_eq!(
        cloud_list_text(&vec![manifest]),
        vec![
            "cloud sessions: 1 latest version(s)",
            "s",
            "  provider/model: -/m",
            "  title: T",
            "  path: sessions/x",
            "  raw/encrypted: 0123456789ab / 42 bytes",
            "  uploaded_at_ms: 7",
            "  pull: codex-tools cloud pull --session-id s",
            "Use `codex-tools cloud pull --all` to restore every listed latest session.",
        ]
    );
}

#[test]
fn answers_are_checked() {
    assert_eq!(check_answer("list", true, &None, &None), Ok(()));
    assert_eq!(check_answer("list", false, &Some("e".to_string()), &None), Err("list failed: e".to_string()));
    assert_eq!(header_value(b"{\"a\":1}"), "eyJhIjoxfQ==");
}
