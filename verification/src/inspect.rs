//! The state of Codex on this machine, and how it is told.

use vstd::prelude::*;

use crate::config::{
    parse_config, provider_sections, providers_show, root_provider, ConfigView, ProviderView,
};
use crate::counts::Counts;
use crate::order::{is_ascending, sort_with, sorted_by, text_le, text_leq};
use crate::process::CodexProcess;
use crate::report::{is_choice, provider_choices, NATIVE_SYNC_ENGINE};
use crate::text::{decimal, decimal_text, join, joined, opt_text, same, texts};

verus! {

/// What a sync needs of the machine.
pub struct RuntimeStatus {
    pub node_version: String,
    pub node_ok_for_provider_sync: bool,
    pub npx_version: String,
    pub sync_package: String,
    pub sync_engine: String,
    pub node_required_for_sync: bool,
}

/// Whether nothing but this tool is needed.
pub open spec fn needs_nothing(runtime: RuntimeStatus) -> bool {
    &&& runtime.node_version@ == "not required"@
    &&& runtime.node_ok_for_provider_sync
    &&& runtime.npx_version@ == "not required"@
    &&& runtime.sync_package@ == NATIVE_SYNC_ENGINE@
    &&& runtime.sync_engine@ == NATIVE_SYNC_ENGINE@
    &&& !runtime.node_required_for_sync
}

/// A sync needs nothing but this tool.
pub fn runtime_status() -> (r: RuntimeStatus)
    ensures
        needs_nothing(r),
{
    RuntimeStatus {
        node_version: "not required".to_owned(),
        node_ok_for_provider_sync: true,
        npx_version: "not required".to_owned(),
        sync_package: NATIVE_SYNC_ENGINE.to_owned(),
        sync_engine: NATIVE_SYNC_ENGINE.to_owned(),
        node_required_for_sync: false,
    }
}

/// The order in which the later text comes first.
pub open spec fn later_first() -> spec_fn(String, String) -> bool {
    |a: String, b: String| text_le(b@, a@)
}

/// The backup directories, the newest first: their names hold their times.
pub fn newest_first(dirs: Vec<String>) -> (r: Vec<String>)
    ensures
        r@ == sorted_by(dirs@, later_first()),
{
    let f = |a: &String, b: &String| -> (r: bool)
        ensures
            r == later_first()(*a, *b),
        { text_leq(b.as_str(), a.as_str()) };
    sort_with(dirs, f, Ghost(later_first()))
}

/// The state of Codex on this machine.
pub struct InspectState {
    pub codex_home: String,
    pub config_path: String,
    pub auth_path: String,
    pub config_exists: bool,
    pub auth_exists: bool,
    pub codex_running: bool,
    pub codex_processes: Vec<CodexProcess>,
    pub codex_process_detection_error: Option<String>,
    pub backup_root: String,
    pub backup_dirs: Vec<String>,
    pub provider_choices: Vec<String>,
    pub config: Option<ConfigView>,
    pub runtime: RuntimeStatus,
}

/// What was found on the machine.
pub struct InspectFacts {
    pub codex_home: String,
    pub config_path: String,
    pub auth_path: String,
    pub config_text: Option<String>,
    pub auth_exists: bool,
    pub processes: Result<Vec<CodexProcess>, String>,
    pub backup_root: String,
    pub backup_dirs: Vec<String>,
    pub rollout_counts: Counts,
    pub sqlite_counts: Option<Counts>,
}

/// The first eight.
pub open spec fn first_eight(dirs: Seq<String>) -> Seq<String> {
    if dirs.len() > 8 {
        dirs.take(8)
    } else {
        dirs
    }
}

/// The state that was found.
pub fn inspect(facts: InspectFacts) -> (r: InspectState)
    ensures
        r.codex_home == facts.codex_home,
        r.config_path == facts.config_path,
        r.auth_path == facts.auth_path,
        r.config_exists == (facts.config_text is Some),
        r.auth_exists == facts.auth_exists,
        r.codex_running == (match facts.processes {
            Ok(processes) => processes@.len() > 0,
            Err(_) => true,
        }),
        match facts.processes {
            Ok(processes) => r.codex_processes == processes && r.codex_process_detection_error is None,
            Err(error) => r.codex_processes@.len() == 0 && r.codex_process_detection_error == Some(error),
        },
        r.backup_root == facts.backup_root,
        texts(r.backup_dirs@) == texts(first_eight(sorted_by(facts.backup_dirs@, later_first()))),
        is_ascending(texts(r.provider_choices@)),
        forall|p: Seq<char>| #[trigger] texts(r.provider_choices@).contains(p) <==> is_choice(
            p,
            opt_text(facts.config_text),
            facts.rollout_counts@,
            match facts.sqlite_counts {
                Some(c) => Some(c@),
                None => None,
            },
        ),
        match (facts.config_text, r.config) {
            (Some(text), Some(config)) => config.root_provider@ == root_provider(text@) && providers_show(
                config.providers@,
                provider_sections(text@),
            ),
            (None, None) => true,
            _ => false,
        },
        needs_nothing(r.runtime),
{
    let config_text = match &facts.config_text {
        Some(text) => Some(text.as_str()),
        None => None,
    };
    let sqlite = match &facts.sqlite_counts {
        Some(counts) => Some(counts),
        None => None,
    };
    let provider_choices = provider_choices(config_text, &facts.rollout_counts, sqlite);
    let config = match config_text {
        Some(text) => Some(parse_config(text)),
        None => None,
    };
    let (codex_processes, codex_process_detection_error) = match facts.processes {
        Ok(processes) => (processes, None),
        Err(error) => (Vec::new(), Some(error)),
    };
    let sorted = newest_first(facts.backup_dirs);
    let ghost kept = first_eight(sorted@);
    let n: usize = if sorted.len() > 8 {
        8
    } else {
        sorted.len()
    };
    let mut backup_dirs: Vec<String> = Vec::new();
    for i in 0..n
        invariant
            n <= sorted@.len(),
            kept.len() == n,
            forall|k: int| 0 <= k < n ==> #[trigger] kept[k] == sorted@[k],
            texts(backup_dirs@) == texts(kept.take(i as int)),
    {
        let ghost before = texts(backup_dirs@);
        backup_dirs.push(sorted[i].clone());
        assert(texts(backup_dirs@) =~= before.push(kept[i as int]@));
        assert(kept.take(i + 1) =~= kept.take(i as int).push(kept[i as int]));
        assert(texts(kept.take(i + 1)) =~= texts(kept.take(i as int)).push(kept[i as int]@));
    }
    assert(kept.take(kept.len() as int) =~= kept);
    let codex_running = codex_process_detection_error.is_some() || codex_processes.len() > 0;
    InspectState {
        codex_home: facts.codex_home,
        config_path: facts.config_path,
        auth_path: facts.auth_path,
        config_exists: facts.config_text.is_some(),
        auth_exists: facts.auth_exists,
        codex_running,
        codex_processes,
        codex_process_detection_error,
        backup_root: facts.backup_root,
        backup_dirs,
        provider_choices,
        config,
        runtime: runtime_status(),
    }
}

/// The lines on whether Codex runs.
pub open spec fn running_lines(state: InspectState) -> Seq<Seq<char>> {
    match state.codex_process_detection_error {
        Some(error) => seq![
            "  运行状态：无法确认"@,
            "  配置写入：不建议继续，请手动完全退出 Codex 后再操作"@,
            "  检测错误："@ + error@,
        ],
        None => if state.codex_running {
            seq![
                "  运行状态：运行中（检测到 "@ + decimal(state.codex_processes@.len()) + " 个相关进程）"@,
                "  配置写入：暂不可写，先执行 `codex-tools codex quit` 或手动完全退出 Codex"@,
            ]
        } else {
            seq!["  运行状态：已退出"@, "  配置写入：可以安全执行 provider/auth/relay 修改"@]
        },
    }
}

/// The lines on the files of Codex.
pub open spec fn file_lines(state: InspectState) -> Seq<Seq<char>> {
    seq![
        Seq::empty(),
        "本机配置"@,
        "  Codex 目录："@ + state.codex_home@,
        "  config.toml："@ + (if state.config_exists {
            state.config_path@
        } else {
            "未找到"@
        }),
        "  auth.json："@ + (if state.auth_exists {
            "已登录/存在"@
        } else {
            "不存在"@
        }),
    ]
}

/// Whether a provider is the selected one, by its id or by its name.
pub open spec fn is_selected(provider: ProviderView, config: ConfigView) -> bool {
    provider.id@ == config.root_provider@ || provider.name@ == config.root_provider@
}

/// The first provider from `i` on that is the selected one.
pub open spec fn selected_from(config: ConfigView, i: int) -> Option<ProviderView>
    decreases config.providers@.len() - i,
{
    if i >= config.providers@.len() {
        None
    } else if is_selected(config.providers@[i], config) {
        Some(config.providers@[i])
    } else {
        selected_from(config, i + 1)
    }
}

pub open spec fn configured_word(configured: bool) -> Seq<char> {
    if configured {
        "已配置"@
    } else {
        "未配置"@
    }
}

pub open spec fn auth_word(requires_auth: Seq<char>) -> Seq<char> {
    if requires_auth == "true"@ {
        "需要"@
    } else if requires_auth == "false"@ {
        "不需要"@
    } else {
        "未声明"@
    }
}

/// The lines on the selected provider.
pub open spec fn selected_lines(provider: Option<ProviderView>) -> Seq<Seq<char>> {
    match provider {
        Some(p) => seq![
            "  显示名称："@ + p.name@,
            "  中转 URL："@ + configured_word(p.base_url@.len() > 0),
            "  中转 Key："@ + configured_word(p.has_experimental_bearer_token),
            "  OpenAI 登录态："@ + auth_word(p.requires_openai_auth@),
        ],
        None => Seq::empty(),
    }
}

pub open spec fn provider_ids(providers: Seq<ProviderView>) -> Seq<Seq<char>> {
    providers.map_values(|p: ProviderView| p.id@)
}

/// The lines on the providers.
pub open spec fn provider_lines(config: Option<ConfigView>) -> Seq<Seq<char>> {
    match config {
        Some(c) => seq![Seq::empty(), "Provider"@, "  当前 provider："@ + c.root_provider@] + selected_lines(
            selected_from(c, 0),
        ) + (if c.providers@.len() > 1 {
            seq!["  可用 provider："@ + joined(provider_ids(c.providers@), ", "@)]
        } else {
            Seq::empty()
        }),
        None => Seq::empty(),
    }
}

/// The lines on the backups.
pub open spec fn backup_lines(dirs: Seq<Seq<char>>) -> Seq<Seq<char>> {
    if dirs.len() == 0 {
        Seq::empty()
    } else if dirs.len() == 1 {
        seq![Seq::empty(), "最近备份："@ + dirs[0]]
    } else {
        seq![
            Seq::empty(),
            "最近备份："@ + dirs[0],
            "  另外还有 "@ + decimal((dirs.len() - 1) as nat) + " 个备份"@,
        ]
    }
}

/// The lines that tell the state of Codex.
pub open spec fn inspect_lines(state: InspectState) -> Seq<Seq<char>> {
    seq!["Codex 状态"@] + running_lines(state) + file_lines(state) + provider_lines(state.config) + backup_lines(
        texts(state.backup_dirs@),
    )
}

pub fn current_provider(config: &ConfigView) -> (r: Option<&ProviderView>)
    ensures
        match r {
            Some(p) => selected_from(*config, 0) == Some(*p),
            None => selected_from(*config, 0) is None,
        },
{
    let mut i: usize = 0;
    while i < config.providers.len()
        invariant
            i <= config.providers@.len(),
            selected_from(*config, 0) == selected_from(*config, i as int),
        decreases config.providers@.len() - i,
    {
        let p = &config.providers[i];
        if same(p.id.as_str(), config.root_provider.as_str()) || same(
            p.name.as_str(),
            config.root_provider.as_str(),
        ) {
            return Some(p);
        }
        i += 1;
    }
    None
}

pub fn configured_label(configured: bool) -> (r: &'static str)
    ensures
        r@ == configured_word(configured),
{
    if configured {
        "已配置"
    } else {
        "未配置"
    }
}

fn auth_label(requires_auth: &str) -> (r: &'static str)
    ensures
        r@ == auth_word(requires_auth@),
{
    if same(requires_auth, "true") {
        "需要"
    } else if same(requires_auth, "false") {
        "不需要"
    } else {
        "未声明"
    }
}

fn push_provider_lines(lines: &mut Vec<String>, config: &ConfigView)
    ensures
        texts(final(lines)@) == texts(old(lines)@) + provider_lines(Some(*config)),
{
    let ghost before = texts(lines@);
    lines.push(String::new());
    lines.push("Provider".to_owned());
    lines.push("  当前 provider：".to_owned().concat(config.root_provider.as_str()));
    let ghost head = seq![Seq::<char>::empty(), "Provider"@, "  当前 provider："@ + config.root_provider@];
    assert(texts(lines@) =~= before + head);
    let selected = current_provider(config);
    let ghost shown = selected_lines(selected_from(*config, 0));
    if let Some(p) = selected {
        let ghost so_far = texts(lines@);
        lines.push("  显示名称：".to_owned().concat(p.name.as_str()));
        lines.push("  中转 URL：".to_owned().concat(configured_label(!p.base_url.as_str().is_empty())));
        lines.push("  中转 Key：".to_owned().concat(configured_label(p.has_experimental_bearer_token)));
        lines.push("  OpenAI 登录态：".to_owned().concat(auth_label(p.requires_openai_auth.as_str())));
        assert(texts(lines@) =~= so_far + shown);
    }
    assert(texts(lines@) =~= before + head + shown);
    let n: usize = config.providers.len();
    if n > 1 {
        let ghost ids = provider_ids(config.providers@);
        let mut names: Vec<String> = Vec::new();
        for i in 0..n
            invariant
                n == config.providers@.len(),
                ids == provider_ids(config.providers@),
                texts(names@) == ids.take(i as int),
        {
            let ghost so_far = texts(names@);
            names.push(config.providers[i].id.clone());
            assert(texts(names@) =~= so_far.push(ids[i as int]));
            assert(ids.take(i + 1) =~= ids.take(i as int).push(ids[i as int]));
        }
        assert(ids.take(ids.len() as int) =~= ids);
        let ghost so_far = texts(lines@);
        let line = "  可用 provider：".to_owned().concat(join(names.as_slice(), ", ").as_str());
        lines.push(line);
        assert(texts(lines@) =~= so_far + seq![line@]);
        assert(texts(lines@) =~= before + provider_lines(Some(*config)));
    } else {
        assert(texts(lines@) =~= before + provider_lines(Some(*config)));
    }
}

/// Tells the state of Codex.
pub fn inspect_text(state: &InspectState) -> (r: String)
    ensures
        r@ == joined(inspect_lines(*state), "\n"@),
{
    let mut lines: Vec<String> = Vec::new();
    lines.push("Codex 状态".to_owned());
    let ghost head = seq!["Codex 状态"@];
    match &state.codex_process_detection_error {
        Some(error) => {
            lines.push("  运行状态：无法确认".to_owned());
            lines.push("  配置写入：不建议继续，请手动完全退出 Codex 后再操作".to_owned());
            lines.push("  检测错误：".to_owned().concat(error.as_str()));
        },
        None => {
            if state.codex_running {
                lines.push(
                    "  运行状态：运行中（检测到 ".to_owned().concat(
                        decimal_text(state.codex_processes.len() as u128).as_str(),
                    ).concat(" 个相关进程）"),
                );
                lines.push(
                    "  配置写入：暂不可写，先执行 `codex-tools codex quit` 或手动完全退出 Codex".to_owned(),
                );
            } else {
                lines.push("  运行状态：已退出".to_owned());
                lines.push("  配置写入：可以安全执行 provider/auth/relay 修改".to_owned());
            }
        },
    }
    assert(texts(lines@) =~= head + running_lines(*state));
    let ghost so_far = texts(lines@);
    lines.push(String::new());
    lines.push("本机配置".to_owned());
    lines.push("  Codex 目录：".to_owned().concat(state.codex_home.as_str()));
    let config = if state.config_exists {
        state.config_path.as_str()
    } else {
        "未找到"
    };
    lines.push("  config.toml：".to_owned().concat(config));
    let auth = if state.auth_exists {
        "已登录/存在"
    } else {
        "不存在"
    };
    lines.push("  auth.json：".to_owned().concat(auth));
    assert(texts(lines@) =~= so_far + file_lines(*state));
    let ghost so_far = texts(lines@);
    if let Some(config) = &state.config {
        push_provider_lines(&mut lines, config);
    }
    assert(texts(lines@) =~= so_far + provider_lines(state.config));
    let ghost so_far = texts(lines@);
    let ghost dirs = texts(state.backup_dirs@);
    let n: usize = state.backup_dirs.len();
    if n > 0 {
        assert(dirs[0] == state.backup_dirs@[0]@);
        lines.push(String::new());
        lines.push("最近备份：".to_owned().concat(state.backup_dirs[0].as_str()));
        if n > 1 {
            lines.push(
                "  另外还有 ".to_owned().concat(decimal_text((n - 1) as u128).as_str()).concat(" 个备份"),
            );
        }
    }
    assert(texts(lines@) =~= so_far + backup_lines(dirs));
    join(lines.as_slice(), "\n")
}

} // verus!
