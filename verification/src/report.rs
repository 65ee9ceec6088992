//! What the commands on providers and on the local state report.

use vstd::prelude::*;

use crate::config::{
    opt_str, parse_provider_sections, parse_root_provider, provider_sections, root_provider, section_models,
    SectionModel, DEFAULT_CODEX_PROVIDER,
};
use crate::counts::{counts_line, format_counts, Counts};
use crate::order::{ascending, by_text, is_ascending, sort_distinct, sort_texts, sorted_by};
use crate::sqlite::{UpdateKind, DB_FILE_BASENAME};
use crate::text::{
    blank, decimal, decimal_text, is_blank, join, joined, opt_text, same, split_once, split_once_at, texts,
    trim, trimmed,
};
use crate::workspace::WorkspaceRootSyncStats;

verus! {

/// The outcome of a provider command.
pub struct ShellResult {
    pub ok: bool,
    pub code: Option<i32>,
    pub stdout: String,
    pub stderr: String,
    pub command: String,
    pub duration_ms: u128,
    pub node_requirement: String,
}

pub const NATIVE_SYNC_ENGINE: &'static str = "native-rust-rusqlite";

/// The time from `started` to `now`, none if the clock went back.
pub open spec fn elapsed(started: u128, now: u128) -> u128 {
    if now >= started {
        (now - started) as u128
    } else {
        0
    }
}

/// The outcome of a command that began at `started` and ended at `now`.
pub fn native_shell_result(started_at: u128, now: u128, command_text: String, outcome: Result<String, String>) -> (r:
    ShellResult)
    ensures
        r.ok == (outcome is Ok),
        r.code == Some(
            if outcome is Ok {
                0i32
            } else {
                1i32
            },
        ),
        r.stdout@ == (match outcome {
            Ok(text) => text@,
            Err(_) => Seq::empty(),
        }),
        r.stderr@ == (match outcome {
            Ok(_) => Seq::empty(),
            Err(text) => text@,
        }),
        r.command == command_text,
        r.duration_ms == elapsed(started_at, now),
        r.node_requirement@.len() == 0,
{
    let duration_ms: u128 = if now >= started_at {
        now - started_at
    } else {
        0
    };
    match outcome {
        Ok(stdout) => ShellResult {
            ok: true,
            code: Some(0),
            stdout,
            stderr: String::new(),
            command: command_text,
            duration_ms,
            node_requirement: String::new(),
        },
        Err(stderr) => ShellResult {
            ok: false,
            code: Some(1),
            stdout: String::new(),
            stderr,
            command: command_text,
            duration_ms,
            node_requirement: String::new(),
        },
    }
}

/// The provider commands.
#[derive(Clone, Copy, PartialEq, Eq, Structural)]
pub enum ProviderCommand {
    Status,
    Sync,
    Switch,
}

/// The provider command of a name, without one `status`.
pub open spec fn provider_command(name: Option<Seq<char>>) -> Option<ProviderCommand> {
    match name {
        None => Some(ProviderCommand::Status),
        Some(s) => if s == "status"@ {
            Some(ProviderCommand::Status)
        } else if s == "sync"@ {
            Some(ProviderCommand::Sync)
        } else if s == "switch"@ {
            Some(ProviderCommand::Switch)
        } else {
            None
        },
    }
}

/// A provider command, as it is told.
pub open spec fn provider_command_text(command: ProviderCommand, target: Seq<char>, force: bool) -> Seq<char> {
    match command {
        ProviderCommand::Status => NATIVE_SYNC_ENGINE@ + " status"@,
        ProviderCommand::Sync => NATIVE_SYNC_ENGINE@ + " sync --provider "@ + target + (if force {
            " --force"@
        } else {
            ""@
        }),
        ProviderCommand::Switch => NATIVE_SYNC_ENGINE@ + " switch "@ + target,
    }
}

/// What a provider command comes to.
pub enum ProviderPlan {
    /// A command to run, and how it is told.
    Run(ProviderCommand, String),
    /// A command that there is not: how it is told, and why it is refused.
    Refuse(String, String),
}

/// Chooses the provider command of a name.
pub fn plan_provider_sync(command: Option<String>, target: &str, force: bool) -> (r: ProviderPlan)
    ensures
        match (provider_command(opt_text(command)), r) {
            (Some(c), ProviderPlan::Run(chosen, text)) => chosen == c && text@ == provider_command_text(
                c,
                target@,
                force,
            ),
            (None, ProviderPlan::Refuse(text, reason)) => {
                &&& text@ == NATIVE_SYNC_ENGINE@ + " "@ + command->0@
                &&& reason@ == "不支持的同步命令："@ + command->0@ + "。可用命令：status / sync / switch。"@
            },
            _ => false,
        },
{
    let name = match command {
        Some(name) => name,
        None => "status".to_owned(),
    };
    if same(name.as_str(), "status") {
        return ProviderPlan::Run(ProviderCommand::Status, NATIVE_SYNC_ENGINE.to_owned().concat(" status"));
    }
    if same(name.as_str(), "sync") {
        let ending = if force {
            " --force"
        } else {
            ""
        };
        return ProviderPlan::Run(
            ProviderCommand::Sync,
            NATIVE_SYNC_ENGINE.to_owned().concat(" sync --provider ").concat(target).concat(ending),
        );
    }
    if same(name.as_str(), "switch") {
        return ProviderPlan::Run(
            ProviderCommand::Switch,
            NATIVE_SYNC_ENGINE.to_owned().concat(" switch ").concat(target),
        );
    }
    ProviderPlan::Refuse(
        NATIVE_SYNC_ENGINE.to_owned().concat(" ").concat(name.as_str()),
        "不支持的同步命令：".to_owned().concat(name.as_str()).concat("。可用命令：status / sync / switch。"),
    )
}

/// The provider that a configuration selects, if it can be read and selects
/// one; else the default.
pub open spec fn provider_in_use(config_text: Option<Seq<char>>) -> Seq<char> {
    match config_text {
        Some(text) => if is_blank(root_provider(text)) {
            DEFAULT_CODEX_PROVIDER@
        } else {
            root_provider(text)
        },
        None => DEFAULT_CODEX_PROVIDER@,
    }
}

pub fn current_provider_from_config(config_text: Option<&str>) -> (r: String)
    ensures
        r@ == provider_in_use(opt_str(config_text)),
{
    match config_text {
        Some(text) => {
            let provider = parse_root_provider(text);
            if blank(provider.as_str()) {
                DEFAULT_CODEX_PROVIDER.to_owned()
            } else {
                provider
            }
        },
        None => DEFAULT_CODEX_PROVIDER.to_owned(),
    }
}

/// The provider to which sessions are moved: the given one, else the one in
/// use.
pub open spec fn sync_target(named: Option<Seq<char>>, config_text: Option<Seq<char>>) -> Seq<char> {
    match named {
        Some(name) => if trimmed(name).len() > 0 {
            trimmed(name)
        } else {
            provider_in_use(config_text)
        },
        None => provider_in_use(config_text),
    }
}

pub fn resolve_sync_target(provider_id: Option<String>, config_text: Option<&str>) -> (r: String)
    ensures
        r@ == sync_target(opt_text(provider_id), opt_str(config_text)),
{
    match provider_id {
        Some(name) => {
            let t = trim(name.as_str());
            if t.is_empty() {
                current_provider_from_config(config_text)
            } else {
                t.to_owned()
            }
        },
        None => current_provider_from_config(config_text),
    }
}

/// The providers that the keys of counts name.
pub open spec fn key_providers(keys: Seq<Seq<char>>) -> Seq<Seq<char>>
    decreases keys.len(),
{
    if keys.len() == 0 {
        Seq::empty()
    } else {
        let before = key_providers(keys.drop_last());
        match split_once_at(keys.last(), '/') {
            Some((_, provider)) => if provider != "(missing)"@ {
                before.push(provider)
            } else {
                before
            },
            None => before,
        }
    }
}

pub open spec fn section_ids(sections: Seq<SectionModel>) -> Seq<Seq<char>> {
    sections.map_values(|s: SectionModel| s.id)
}

/// Whether a provider is one of those that can be chosen: the default, one of
/// the configuration, or one that sessions name.
pub open spec fn is_choice(
    provider: Seq<char>,
    config_text: Option<Seq<char>>,
    rollout_counts: Map<Seq<char>, nat>,
    sqlite_counts: Option<Map<Seq<char>, nat>>,
) -> bool {
    &&& !is_blank(provider)
    &&& {
        ||| provider == DEFAULT_CODEX_PROVIDER@
        ||| config_text matches Some(text) && (provider == root_provider(text) || section_ids(
            provider_sections(text),
        ).contains(provider))
        ||| key_providers(ascending(rollout_counts.dom())).contains(provider)
        ||| sqlite_counts matches Some(counts) && key_providers(ascending(counts.dom())).contains(provider)
    }
}

fn push_key_providers(out: &mut Vec<String>, counts: &Counts)
    ensures
        texts(final(out)@) == texts(old(out)@) + key_providers(ascending(counts@.dom())),
{
    let ghost before = texts(out@);
    let keys = counts.keys();
    let ghost all = texts(keys@);
    assert(before + key_providers(all.take(0)) =~= before);
    for i in 0..keys.len()
        invariant
            all == texts(keys@),
            texts(out@) == before + key_providers(all.take(i as int)),
    {
        assert(all.take(i + 1).drop_last() =~= all.take(i as int));
        assert(all[i as int] == keys@[i as int]@);
        if let Some((_scope, provider)) = split_once(keys[i].as_str(), '/') {
            if !same(provider, "(missing)") {
                let ghost so_far = texts(out@);
                out.push(provider.to_owned());
                assert(texts(out@) =~= so_far.push(provider@));
                assert(texts(out@) =~= before + key_providers(all.take(i + 1)));
            }
        }
    }
    assert(all.take(all.len() as int) =~= all);
}

pub open spec fn opt_counts(counts: Option<&Counts>) -> Option<Map<Seq<char>, nat>> {
    match counts {
        Some(c) => Some(c@),
        None => None,
    }
}

/// The providers that can be chosen, in order.
pub fn provider_choices(config_text: Option<&str>, rollout_counts: &Counts, sqlite_counts: Option<&Counts>) -> (r: Vec<
    String,
>)
    ensures
        is_ascending(texts(r@)),
        forall|p: Seq<char>| #[trigger] texts(r@).contains(p) <==> is_choice(
            p,
            opt_str(config_text),
            rollout_counts@,
            opt_counts(sqlite_counts),
        ),
{
    let ghost config = opt_str(config_text);
    let ghost sqlite = opt_counts(sqlite_counts);
    let mut all: Vec<String> = Vec::new();
    all.push(DEFAULT_CODEX_PROVIDER.to_owned());
    let ghost one = texts(all@);
    assert(one =~= seq![DEFAULT_CODEX_PROVIDER@]);
    let ghost mut from_config: Seq<Seq<char>> = Seq::empty();
    if let Some(text) = config_text {
        all.push(parse_root_provider(text));
        let sections = parse_provider_sections(text);
        let ghost ids = section_ids(provider_sections(text@));
        let ghost root = seq![root_provider(text@)];
        assert(texts(all@) =~= one + root + ids.take(0));
        for i in 0..sections.len()
            invariant
                ids == section_ids(section_models(sections@)),
                texts(all@) == one + root + ids.take(i as int),
        {
            let ghost so_far = texts(all@);
            all.push(sections[i].id.clone());
            assert(ids[i as int] == sections@[i as int].id@);
            assert(texts(all@) =~= so_far.push(ids[i as int]));
            assert(texts(all@) =~= one + root + ids.take(i + 1));
        }
        proof {
            from_config = root + ids;
            assert(texts(all@) =~= one + from_config);
        }
    }
    assert(texts(all@) =~= one + from_config);
    push_key_providers(&mut all, rollout_counts);
    let ghost from_rollouts = key_providers(ascending(rollout_counts@.dom()));
    let ghost mut from_sqlite: Seq<Seq<char>> = Seq::empty();
    if let Some(counts) = sqlite_counts {
        push_key_providers(&mut all, counts);
        proof {
            from_sqlite = key_providers(ascending(counts@.dom()));
        }
    }
    let ghost listed = one + from_config + from_rollouts + from_sqlite;
    assert(texts(all@) =~= listed);
    let mut filled: Vec<String> = Vec::new();
    for i in 0..all.len()
        invariant
            listed == texts(all@),
            forall|p: Seq<char>| #[trigger] texts(filled@).contains(p) <==> !is_blank(p) && listed.take(
                i as int,
            ).contains(p),
    {
        let ghost x = listed[i as int];
        assert(x == all@[i as int]@);
        let ghost before = texts(filled@);
        assert(listed.take(i + 1) =~= listed.take(i as int).push(x));
        if !blank(all[i].as_str()) {
            filled.push(all[i].clone());
            assert(texts(filled@) =~= before.push(x));
        }
        assert forall|p: Seq<char>| #[trigger] texts(filled@).contains(p) <==> !is_blank(p) && listed.take(
            i + 1,
        ).contains(p) by {
            lemma_push_contains(listed.take(i as int), x, p);
            lemma_push_contains(before, x, p);
            assert(before.contains(p) <==> !is_blank(p) && listed.take(i as int).contains(p));
        }
    }
    assert(listed.take(listed.len() as int) =~= listed);
    let sorted = sort_distinct(&filled);
    proof {
        assert forall|p: Seq<char>| #[trigger] texts(sorted@).contains(p) <==> is_choice(
            p,
            config,
            rollout_counts@,
            sqlite,
        ) by {
            assert(texts(sorted@).to_set().contains(p) <==> texts(filled@).to_set().contains(p));
            assert(texts(filled@).contains(p) <==> !is_blank(p) && listed.contains(p));
            lemma_concat_contains(one, from_config, p);
            lemma_concat_contains(one + from_config, from_rollouts, p);
            lemma_concat_contains(one + from_config + from_rollouts, from_sqlite, p);
            assert(one.contains(p) <==> p == DEFAULT_CODEX_PROVIDER@) by {
                assert(one[0] == DEFAULT_CODEX_PROVIDER@);
            }
            if let Some(text) = config_text {
                let root = seq![root_provider(text@)];
                lemma_concat_contains(root, section_ids(provider_sections(text@)), p);
                assert(root.contains(p) <==> p == root_provider(text@)) by {
                    assert(root[0] == root_provider(text@));
                }
            }
        }
    }
    sorted
}

pub proof fn lemma_push_contains(s: Seq<Seq<char>>, x: Seq<char>, p: Seq<char>)
    ensures
        s.push(x).contains(p) <==> s.contains(p) || p == x,
{
    if s.contains(p) {
        let m = choose|m: int| 0 <= m < s.len() && s[m] == p;
        assert(s.push(x)[m] == p);
    }
    if p == x {
        assert(s.push(x)[s.len() as int] == p);
    }
    if s.push(x).contains(p) && p != x {
        let m = choose|m: int| 0 <= m < s.push(x).len() && s.push(x)[m] == p;
        assert(s[m] == p);
    }
}

pub proof fn lemma_concat_contains(a: Seq<Seq<char>>, b: Seq<Seq<char>>, p: Seq<char>)
    ensures
        (a + b).contains(p) <==> a.contains(p) || b.contains(p),
{
    if a.contains(p) {
        let m = choose|m: int| 0 <= m < a.len() && a[m] == p;
        assert((a + b)[m] == p);
    }
    if b.contains(p) {
        let m = choose|m: int| 0 <= m < b.len() && b[m] == p;
        assert((a + b)[a.len() + m] == p);
    }
    if (a + b).contains(p) {
        let m = choose|m: int| 0 <= m < (a + b).len() && (a + b)[m] == p;
        if m < a.len() {
            assert(a[m] == p);
        } else {
            assert(b[m - a.len()] == p);
        }
    }
}

/// What is known of the providers of sessions.
pub struct ProviderStatus {
    pub codex_home: String,
    pub current_provider: String,
    pub configured_providers: Vec<String>,
    pub rollout_counts: Counts,
    pub sqlite_counts: Option<Counts>,
    pub user_event_count: usize,
    pub cwd_count: usize,
    pub project_visibility: Vec<String>,
}

/// The ids of the providers that a configuration has sections for.
pub fn configured_providers(config_text: Option<&str>) -> (r: Vec<String>)
    ensures
        texts(r@) == (match config_text {
            Some(text) => section_ids(provider_sections(text@)),
            None => Seq::empty(),
        }),
{
    let mut out: Vec<String> = Vec::new();
    assert(texts(out@) =~= Seq::empty());
    if let Some(text) = config_text {
        let sections = parse_provider_sections(text);
        let ghost ids = section_ids(section_models(sections@));
        for i in 0..sections.len()
            invariant
                ids == section_ids(section_models(sections@)),
                texts(out@) == ids.take(i as int),
        {
            let ghost before = texts(out@);
            out.push(sections[i].id.clone());
            assert(ids[i as int] == sections@[i as int].id@);
            assert(texts(out@) =~= before.push(ids[i as int]));
            assert(ids.take(i + 1) =~= ids.take(i as int).push(ids[i as int]));
        }
        assert(ids.take(ids.len() as int) =~= ids);
    }
    out
}

/// A list with commas, or that there is none.
pub open spec fn listed_or_none(items: Seq<Seq<char>>) -> Seq<char> {
    if items.len() == 0 {
        "(none)"@
    } else {
        joined(items, ", "@)
    }
}

pub open spec fn indented(lines: Seq<Seq<char>>) -> Seq<Seq<char>> {
    lines.map_values(|line: Seq<char>| "  "@ + line)
}

/// The lines that tell what is known of the providers of sessions.
pub open spec fn status_lines(status: ProviderStatus) -> Seq<Seq<char>> {
    seq![
        "Codex home: "@ + status.codex_home@,
        "Current provider: "@ + status.current_provider@,
        "Configured providers: "@ + listed_or_none(texts(status.configured_providers@)),
        "Sync engine: "@ + NATIVE_SYNC_ENGINE@,
        Seq::empty(),
        "Rollout files:"@,
        "  "@ + counts_line(status.rollout_counts@),
        Seq::empty(),
        "SQLite state:"@,
        match status.sqlite_counts {
            Some(counts) => "  "@ + counts_line(counts@),
            None => "  "@ + DB_FILE_BASENAME@ + " not found"@,
        },
        "Repair hints: user-event thread ids "@ + decimal(status.user_event_count as nat) + ", cwd rows "@ + decimal(
            status.cwd_count as nat,
        ),
    ] + (if status.project_visibility@.len() > 0 {
        seq![Seq::empty(), "Project visibility:"@] + indented(texts(status.project_visibility@))
    } else {
        Seq::empty()
    })
}

fn push_indented(lines: &mut Vec<String>, more: &Vec<String>, count: usize)
    requires
        count <= more@.len(),
    ensures
        texts(final(lines)@) == texts(old(lines)@) + indented(texts(more@).take(count as int)),
{
    let ghost before = texts(lines@);
    let ghost shown = indented(texts(more@).take(count as int));
    for i in 0..count
        invariant
            count <= more@.len(),
            shown == indented(texts(more@).take(count as int)),
            texts(lines@) == before + shown.take(i as int),
    {
        let ghost so_far = texts(lines@);
        lines.push("  ".to_owned().concat(more[i].as_str()));
        assert(shown[i as int] == "  "@ + more@[i as int]@);
        assert(texts(lines@) =~= so_far.push(shown[i as int]));
        assert(texts(lines@) =~= before + shown.take(i + 1));
    }
    assert(shown.take(shown.len() as int) =~= shown);
}

/// Tells what is known of the providers of sessions.
pub fn provider_status_text(status: &ProviderStatus) -> (r: String)
    ensures
        r@ == joined(status_lines(*status), "\n"@),
{
    let configured = if status.configured_providers.len() == 0 {
        "(none)".to_owned()
    } else {
        join(status.configured_providers.as_slice(), ", ")
    };
    let mut lines: Vec<String> = Vec::new();
    lines.push("Codex home: ".to_owned().concat(status.codex_home.as_str()));
    lines.push("Current provider: ".to_owned().concat(status.current_provider.as_str()));
    lines.push("Configured providers: ".to_owned().concat(configured.as_str()));
    lines.push("Sync engine: ".to_owned().concat(NATIVE_SYNC_ENGINE));
    lines.push(String::new());
    lines.push("Rollout files:".to_owned());
    lines.push("  ".to_owned().concat(format_counts(&status.rollout_counts).as_str()));
    lines.push(String::new());
    lines.push("SQLite state:".to_owned());
    match &status.sqlite_counts {
        Some(counts) => {
            lines.push("  ".to_owned().concat(format_counts(counts).as_str()));
        },
        None => {
            lines.push("  ".to_owned().concat(DB_FILE_BASENAME).concat(" not found"));
        },
    }
    lines.push(
        "Repair hints: user-event thread ids ".to_owned().concat(
            decimal_text(status.user_event_count as u128).as_str(),
        ).concat(", cwd rows ").concat(decimal_text(status.cwd_count as u128).as_str()),
    );
    if status.project_visibility.len() > 0 {
        lines.push(String::new());
        lines.push("Project visibility:".to_owned());
        let n: usize = status.project_visibility.len();
        let ghost before = texts(lines@);
        push_indented(&mut lines, &status.project_visibility, n);
        let ghost all = texts(status.project_visibility@);
        assert(all.take(n as int) =~= all);
    }
    assert(texts(lines@) =~= status_lines(*status));
    join(lines.as_slice(), "\n")
}

/// What writing the thread index did.
pub struct SqliteUpdateStats {
    pub thread_rows_inserted: usize,
    pub provider_rows_updated: usize,
    pub user_event_rows_updated: usize,
    pub cwd_rows_updated: usize,
    pub database_present: bool,
}

impl SqliteUpdateStats {
    /// What it did where there is no thread index.
    pub fn absent() -> (r: SqliteUpdateStats)
        ensures
            r.thread_rows_inserted == 0,
            r.provider_rows_updated == 0,
            r.user_event_rows_updated == 0,
            r.cwd_rows_updated == 0,
            !r.database_present,
    {
        SqliteUpdateStats {
            thread_rows_inserted: 0,
            provider_rows_updated: 0,
            user_event_rows_updated: 0,
            cwd_rows_updated: 0,
            database_present: false,
        }
    }

    /// Rows were put in.
    pub fn count_inserted(&mut self, rows: usize)
        requires
            old(self).thread_rows_inserted + rows <= usize::MAX,
        ensures
            *final(self) == (SqliteUpdateStats {
                thread_rows_inserted: (old(self).thread_rows_inserted + rows) as usize,
                ..*old(self)
            }),
    {
        self.thread_rows_inserted = self.thread_rows_inserted + rows;
    }

    /// A statement updated rows.
    pub fn count_updated(&mut self, kind: UpdateKind, rows: usize)
        requires
            match kind {
                UpdateKind::Provider => old(self).provider_rows_updated,
                UpdateKind::UserEvent => old(self).user_event_rows_updated,
                UpdateKind::Cwd => old(self).cwd_rows_updated,
            } + rows <= usize::MAX,
        ensures
            *final(self) == (match kind {
                UpdateKind::Provider => SqliteUpdateStats {
                    provider_rows_updated: (old(self).provider_rows_updated + rows) as usize,
                    ..*old(self)
                },
                UpdateKind::UserEvent => SqliteUpdateStats {
                    user_event_rows_updated: (old(self).user_event_rows_updated + rows) as usize,
                    ..*old(self)
                },
                UpdateKind::Cwd => SqliteUpdateStats {
                    cwd_rows_updated: (old(self).cwd_rows_updated + rows) as usize,
                    ..*old(self)
                },
            }),
    {
        match kind {
            UpdateKind::Provider => {
                self.provider_rows_updated = self.provider_rows_updated + rows;
            },
            UpdateKind::UserEvent => {
                self.user_event_rows_updated = self.user_event_rows_updated + rows;
            },
            UpdateKind::Cwd => {
                self.cwd_rows_updated = self.cwd_rows_updated + rows;
            },
        }
    }
}

/// What a sync did.
pub struct SyncReport {
    pub target_provider: String,
    pub backup_dir: String,
    pub applied_rollouts: usize,
    pub skipped_rollouts: Vec<String>,
    pub sqlite_present: bool,
    pub sqlite: SqliteUpdateStats,
    pub workspace: WorkspaceRootSyncStats,
    pub forced: bool,
    pub counts_before: Counts,
}

pub open spec fn changed_rows(stats: SqliteUpdateStats) -> nat {
    (stats.thread_rows_inserted + stats.provider_rows_updated + stats.user_event_rows_updated
        + stats.cwd_rows_updated) as nat
}

pub open spec fn workspace_note(stats: WorkspaceRootSyncStats) -> Seq<char> {
    if stats.present {
        " (saved roots "@ + decimal(stats.saved_workspace_root_count as nat) + ", "@ + (if stats.updated {
            "changed"@
        } else {
            "unchanged"@
        }) + ")"@
    } else {
        " (.codex-global-state.json not found)"@
    }
}

/// A line for a count, if there is something to count.
pub open spec fn count_lines(label: Seq<char>, count: nat) -> Seq<Seq<char>> {
    if count > 0 {
        seq![label + decimal(count)]
    } else {
        Seq::empty()
    }
}

/// The files that were passed over: how many, and the first five by name.
pub open spec fn skipped_lines(skipped: Seq<Seq<char>>) -> Seq<Seq<char>> {
    if skipped.len() == 0 {
        Seq::empty()
    } else if skipped.len() > 5 {
        seq!["Skipped changed or locked rollout files: "@ + decimal(skipped.len())] + indented(skipped.take(5))
            + seq!["  (+"@ + decimal((skipped.len() - 5) as nat) + " more)"@]
    } else {
        seq!["Skipped changed or locked rollout files: "@ + decimal(skipped.len())] + indented(skipped)
    }
}

/// The lines that tell what a sync did. The files that were passed over come
/// in order.
pub open spec fn sync_report_lines(report: SyncReport) -> Seq<Seq<char>> {
    seq![
        "Target provider: "@ + report.target_provider@,
        "Backup: "@ + report.backup_dir@,
        "Updated rollout files: "@ + decimal(report.applied_rollouts as nat),
        "Updated SQLite rows: "@ + decimal(changed_rows(report.sqlite)) + (if report.sqlite_present
            && report.sqlite.database_present {
            ""@
        } else {
            " (state_5.sqlite not found)"@
        }),
        "Updated workspace roots: "@ + decimal(report.workspace.updated_workspace_roots as nat) + workspace_note(
            report.workspace,
        ),
    ] + (if report.forced {
        seq!["Process preflight skipped by --force; SQLite write lock was still checked."@]
    } else {
        Seq::empty()
    }) + count_lines("Inserted SQLite thread indexes: "@, report.sqlite.thread_rows_inserted as nat) + count_lines(
        "Updated SQLite user-event flags: "@,
        report.sqlite.user_event_rows_updated as nat,
    ) + count_lines("Updated SQLite cwd paths: "@, report.sqlite.cwd_rows_updated as nat) + skipped_lines(
        texts(sorted_by(report.skipped_rollouts@, by_text())),
    ) + seq![Seq::empty(), "Rollout files before sync:"@, "  "@ + counts_line(report.counts_before@)]
}

fn push_count(lines: &mut Vec<String>, label: &str, count: usize)
    ensures
        texts(final(lines)@) == texts(old(lines)@) + count_lines(label@, count as nat),
{
    let ghost before = texts(lines@);
    if count > 0 {
        lines.push(label.to_owned().concat(decimal_text(count as u128).as_str()));
    }
    assert(texts(lines@) =~= before + count_lines(label@, count as nat));
}

fn push_skipped(lines: &mut Vec<String>, skipped: &Vec<String>)
    ensures
        texts(final(lines)@) == texts(old(lines)@) + skipped_lines(texts(skipped@)),
{
    let ghost before = texts(lines@);
    let ghost all = texts(skipped@);
    let n: usize = skipped.len();
    if n > 0 {
        let head = "Skipped changed or locked rollout files: ".to_owned().concat(decimal_text(n as u128).as_str());
        lines.push(head);
        let ghost headed = texts(lines@);
        assert(headed =~= before + seq![head@]);
        if n > 5 {
            push_indented(lines, skipped, 5);
            let ghost so_far = texts(lines@);
            let tail = "  (+".to_owned().concat(decimal_text((n - 5) as u128).as_str()).concat(" more)");
            lines.push(tail);
            assert(texts(lines@) =~= so_far + seq![tail@]);
            assert(texts(lines@) =~= before + skipped_lines(all));
        } else {
            push_indented(lines, skipped, n);
            assert(all.take(n as int) =~= all);
            assert(texts(lines@) =~= before + skipped_lines(all));
        }
    } else {
        assert(texts(lines@) =~= before + skipped_lines(all));
    }
}

/// Tells what a sync did.
pub fn provider_sync_text(report: SyncReport) -> (r: String)
    ensures
        r@ == joined(sync_report_lines(report), "\n"@),
{
    let ghost whole = sync_report_lines(report);
    let rows: u128 = report.sqlite.thread_rows_inserted as u128 + report.sqlite.provider_rows_updated as u128
        + report.sqlite.user_event_rows_updated as u128 + report.sqlite.cwd_rows_updated as u128;
    let sqlite_note = if report.sqlite_present && report.sqlite.database_present {
        ""
    } else {
        " (state_5.sqlite not found)"
    };
    let roots_note = if report.workspace.present {
        let changed = if report.workspace.updated {
            "changed"
        } else {
            "unchanged"
        };
        " (saved roots ".to_owned().concat(
            decimal_text(report.workspace.saved_workspace_root_count as u128).as_str(),
        ).concat(", ").concat(changed).concat(")")
    } else {
        " (.codex-global-state.json not found)".to_owned()
    };
    let mut lines: Vec<String> = Vec::new();
    lines.push("Target provider: ".to_owned().concat(report.target_provider.as_str()));
    lines.push("Backup: ".to_owned().concat(report.backup_dir.as_str()));
    lines.push("Updated rollout files: ".to_owned().concat(decimal_text(report.applied_rollouts as u128).as_str()));
    lines.push("Updated SQLite rows: ".to_owned().concat(decimal_text(rows).as_str()).concat(sqlite_note));
    lines.push(
        "Updated workspace roots: ".to_owned().concat(
            decimal_text(report.workspace.updated_workspace_roots as u128).as_str(),
        ).concat(roots_note.as_str()),
    );
    if report.forced {
        lines.push("Process preflight skipped by --force; SQLite write lock was still checked.".to_owned());
    }
    let ghost head = texts(lines@);
    assert(head =~= seq![
        "Target provider: "@ + report.target_provider@,
        "Backup: "@ + report.backup_dir@,
        "Updated rollout files: "@ + decimal(report.applied_rollouts as nat),
        "Updated SQLite rows: "@ + decimal(changed_rows(report.sqlite)) + (if report.sqlite_present
            && report.sqlite.database_present {
            ""@
        } else {
            " (state_5.sqlite not found)"@
        }),
        "Updated workspace roots: "@ + decimal(report.workspace.updated_workspace_roots as nat) + workspace_note(
            report.workspace,
        ),
    ] + (if report.forced {
        seq!["Process preflight skipped by --force; SQLite write lock was still checked."@]
    } else {
        Seq::empty()
    }));
    push_count(&mut lines, "Inserted SQLite thread indexes: ", report.sqlite.thread_rows_inserted);
    push_count(&mut lines, "Updated SQLite user-event flags: ", report.sqlite.user_event_rows_updated);
    push_count(&mut lines, "Updated SQLite cwd paths: ", report.sqlite.cwd_rows_updated);
    let skipped = sort_texts(report.skipped_rollouts);
    push_skipped(&mut lines, &skipped);
    let ghost so_far = texts(lines@);
    lines.push(String::new());
    lines.push("Rollout files before sync:".to_owned());
    lines.push("  ".to_owned().concat(format_counts(&report.counts_before).as_str()));
    assert(texts(lines@) =~= so_far + seq![
        Seq::empty(),
        "Rollout files before sync:"@,
        "  "@ + counts_line(report.counts_before@),
    ]);
    assert(texts(lines@) =~= whole);
    join(lines.as_slice(), "\n")
}

/// Tells what a switch of the selected provider did, and the sync after it.
pub fn provider_switch_text(target_provider: &str, backup_dir: &str, sync_output: &str) -> (r: String)
    ensures
        r@ == "Switched root provider to "@ + target_provider@ + ".\nConfig backup: "@ + backup_dir@ + "\n\n"@
            + sync_output@,
{
    "Switched root provider to ".to_owned().concat(target_provider).concat(".\nConfig backup: ").concat(
        backup_dir,
    ).concat("\n\n").concat(sync_output)
}

/// What removing the login did.
pub struct AuthRemoveResult {
    pub removed: bool,
    pub auth_path: String,
    pub backup_dir: Option<String>,
    pub message: String,
}

/// The result of removing the login: `backup_dir` is where it was saved
/// before it was removed; none, if there was no login.
pub fn backup_remove_auth(auth_path: String, backup_dir: Option<String>) -> (r: AuthRemoveResult)
    ensures
        r.removed == (backup_dir is Some),
        r.auth_path == auth_path,
        r.backup_dir == backup_dir,
        r.message@ == (if backup_dir is Some {
            "已备份并移除 auth.json。"@
        } else {
            "auth.json 不存在，无需移除。"@
        }),
{
    match backup_dir {
        Some(dir) => AuthRemoveResult {
            removed: true,
            auth_path,
            backup_dir: Some(dir),
            message: "已备份并移除 auth.json。".to_owned(),
        },
        None => AuthRemoveResult {
            removed: false,
            auth_path,
            backup_dir: None,
            message: "auth.json 不存在，无需移除。".to_owned(),
        },
    }
}

pub open spec fn auth_lines(result: AuthRemoveResult) -> Seq<Seq<char>> {
    seq![result.message@, "Auth path: "@ + result.auth_path@] + (match result.backup_dir {
        Some(dir) => seq!["Backup: "@ + dir@],
        None => Seq::empty(),
    })
}

pub fn backup_remove_auth_text(result: AuthRemoveResult) -> (r: String)
    ensures
        r@ == joined(auth_lines(result), "\n"@),
{
    let ghost shown = auth_lines(result);
    let mut lines: Vec<String> = Vec::new();
    lines.push(result.message);
    lines.push("Auth path: ".to_owned().concat(result.auth_path.as_str()));
    if let Some(dir) = result.backup_dir {
        lines.push("Backup: ".to_owned().concat(dir.as_str()));
    }
    assert(texts(lines@) =~= shown);
    join(lines.as_slice(), "\n")
}

} // verus!
