use codex_tools::config::{find_provider_section_by_id_or_name, parse_provider_sections};
use codex_tools::process::is_codex_process_command;
use codex_tools::relay::relay_config_lines_with_comment_state;

#[test]
fn relay_comment_state_only_toggles_target_provider_relay_lines() {
    let config = r#"model_provider = "simplaj"

[model_providers.simplaj]
name = "simplaj"
base_url = "https://relay.example/v1"
wire_api = "responses"
experimental_bearer_token = "sk-relay"
requires_openai_auth = true

[model_providers.other]
name = "other"
base_url = "https://other.example/v1"
experimental_bearer_token = "sk-other"
"#;
    let sections = parse_provider_sections(config);
    let target = find_provider_section_by_id_or_name(&sections, "simplaj").unwrap();
    let (commented, changed_keys) = relay_config_lines_with_comment_state(config, &target, true);

    assert_eq!(changed_keys, vec!["base_url".to_string(), "experimental_bearer_token".to_string()]);
    assert!(commented.contains("# base_url = \"https://relay.example/v1\""));
    assert!(commented.contains("# experimental_bearer_token = \"sk-relay\""));
    assert!(commented.contains("requires_openai_auth = true"));
    assert!(commented.contains("base_url = \"https://other.example/v1\""));
    assert!(commented.contains("experimental_bearer_token = \"sk-other\""));
}

#[test]
fn relay_comment_state_can_uncomment_target_provider_relay_lines() {
    let config = r#"model_provider = "simplaj"

[model_providers.simplaj]
name = "simplaj"
# base_url = "https://relay.example/v1"
wire_api = "responses"
# experimental_bearer_token = "sk-relay"
requires_openai_auth = true
"#;
    let sections = parse_provider_sections(config);
    let target = find_provider_section_by_id_or_name(&sections, "simplaj").unwrap();
    let (uncommented, changed_keys) = relay_config_lines_with_comment_state(config, &target, false);

    assert_eq!(changed_keys, vec!["base_url".to_string(), "experimental_bearer_token".to_string()]);
    assert!(uncommented.contains("base_url = \"https://relay.example/v1\""));
    assert!(uncommented.contains("experimental_bearer_token = \"sk-relay\""));
    assert!(!uncommented.contains("# base_url = \"https://relay.example/v1\""));
    assert!(!uncommented.contains("# experimental_bearer_token = \"sk-relay\""));
}

#[test]
fn codex_process_detection_matches_real_codex_processes() {
    assert!(is_codex_process_command("/Applications/Codex.app/Contents/MacOS/Codex"));
    assert!(is_codex_process_command(
        "/Applications/Codex.app/Contents/Resources/codex app-server --analytics-default-enabled"
    ));
    assert!(is_codex_process_command(r#"C:\Users\user\AppData\Local\Programs\Codex\Codex.exe"#));
    assert!(is_codex_process_command(
        r#""C:\Users\user\AppData\Local\Programs\Codex\codex.exe" app-server"#
    ));
}

#[test]
fn codex_process_detection_ignores_this_tool_and_related_helpers() {
    assert!(!is_codex_process_command("/Applications/Codex API Tools.app/Contents/MacOS/Codex API Tools"));
    assert!(!is_codex_process_command("/Users/user/.local/bin/codex-tools cloud push --all"));
    assert!(!is_codex_process_command(
        r#"C:\Users\user\AppData\Local\CodexTools\bin\codex-tools.exe cloud status"#
    ));
    assert!(!is_codex_process_command(
        "/Users/user/.codex/computer-use/Codex Computer Use.app/Contents/MacOS/SkyComputerUseService"
    ));
    assert!(!is_codex_process_command(
        "/Applications/Codex.app/Contents/Frameworks/Codex Framework.framework/Versions/149.0.7827.54/Helpers/browser_crashpad_handler --monitor-self --database=/Users/user/Library/Application Support/com.openai.codex/web/Crashpad"
    ));
    assert!(!is_codex_process_command(
        "/Users/user/.vscode/extensions/openai.chatgpt-26.5602.71036-darwin-arm64/bin/macos-aarch64/codex app-server --analytics-default-enabled"
    ));
}

#[test]
fn the_case_of_letters_does_not_decide() {
    for command in [
        "/Applications/Codex.app/Contents/MacOS/Codex",
        "\"C:\\Program Files\\Codex.EXE\" app-server",
        "codex-tools status",
        "vim notes",
    ] {
        let found = is_codex_process_command(command);
        assert_eq!(is_codex_process_command(&command.to_ascii_uppercase()), found);
        assert_eq!(is_codex_process_command(&command.to_ascii_lowercase()), found);
    }
}

#[test]
fn an_empty_section_has_no_relay_lines() {
    let config = "base_url = \"x\"\n[model_providers.a]";
    let mut section = parse_provider_sections(config).remove(0);
    section.end = section.start;
    let (text, keys) = relay_config_lines_with_comment_state(config, &section, true);
    assert_eq!((text.as_str(), keys.len()), (config, 0));
}
