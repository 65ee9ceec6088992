//! What is told of sessions and syncs, and what the index is asked.

use vstd::prelude::*;

use crate::counts::{counts_line, format_counts, tally};
use crate::inspect::{file_lines, inspect_lines, inspect_text, running_lines, InspectState};
use crate::listing::{
    all_version_lines, cloud_list_lines, cloud_list_text, local_list, local_list_text, local_session_line,
    or_dash, version_lines,
};
use crate::order::{by_text, sorted_by};
use crate::paths::{comparable, normal_path};
use crate::report::{
    changed_rows, count_lines, provider_status_text, provider_sync_text, skipped_lines, status_lines,
    sync_report_lines, ProviderStatus, SyncReport,
};
use crate::sessions::{LocalSessionMeta, SessionManifest};
use crate::sqlite::{
    build_time_expression, cwd_statement, cwd_stats_sql, has_column, provider_counts_sql, time_parts,
    visibility_sql, visibility_statement,
};
use crate::text::{decimal, has_text, joined, opt_text, texts};
use crate::workspace::{
    belongs, exact_of, first_page_of, project_visibility, providers_of, rank_preview, ranks_of, verbatim_of,
    visibility_line, VisibleThread,
};

verus! {

proof fn lemma_text_at_end(before: Seq<char>, text: Seq<char>)
    ensures
        has_text(before + text, text),
{
    let s = before + text;
    let i = before.len() as int;
    assert(s.subrange(i, i + text.len()) =~= text);
}

proof fn lemma_text_before(s: Seq<char>, more: Seq<char>, text: Seq<char>)
    requires
        has_text(s, text),
    ensures
        has_text(s + more, text),
{
    let i = choose|i: int| 0 <= i <= s.len() - text.len() && #[trigger] s.subrange(i, i + text.len()) == text;
    assert((s + more).subrange(i, i + text.len()) =~= text) by {
        assert forall|j: int| 0 <= j < text.len() implies #[trigger] (s + more).subrange(i, i + text.len())[j] == text[j] by {
            assert(s.subrange(i, i + text.len())[j] == text[j]);
        }
    }
}

proof fn lemma_from_clause()
    ensures
        ") AS sort_ts FROM threads WHERE cwd IS NOT NULL AND cwd <> '' "@ == ") AS sort_ts "@
            + "FROM threads WHERE cwd IS NOT NULL AND cwd <> '' "@,
{
    reveal_strlit(") AS sort_ts FROM threads WHERE cwd IS NOT NULL AND cwd <> '' ");
    reveal_strlit(") AS sort_ts ");
    reveal_strlit("FROM threads WHERE cwd IS NOT NULL AND cwd <> '' ");
    assert(") AS sort_ts FROM threads WHERE cwd IS NOT NULL AND cwd <> '' "@ =~= ") AS sort_ts "@
        + "FROM threads WHERE cwd IS NOT NULL AND cwd <> '' "@);
}

/// The index is asked for its providers by whether a thread is archived, in so
/// far as it has the columns.
pub proof fn law_provider_query(columns: Vec<String>, r: String)
    requires
        call_ensures(provider_counts_sql, (&columns,), r),
    ensures
        r@ == "SELECT "@ + (if texts(columns@).contains("model_provider"@) {
            "CASE WHEN model_provider IS NULL OR model_provider = '' THEN '(missing)' ELSE model_provider END"@
        } else {
            "'(missing)'"@
        }) + " AS provider, "@ + (if texts(columns@).contains("archived"@) {
            "COALESCE(archived, 0)"@
        } else {
            "0"@
        }) + " AS archived, COUNT(*) AS count FROM threads GROUP BY provider, archived ORDER BY archived, provider"@,
{
}

/// The threads of a project are those that are not archived, that a user wrote
/// in and that come from the command line or the editor, the newest first.
pub proof fn law_visibility_query(columns: Vec<String>, r: Option<String>)
    requires
        call_ensures(visibility_sql, (&columns,), r),
    ensures
        r is Some <==> texts(columns@).contains("cwd"@),
        r matches Some(sql) ==> {
            &&& texts(columns@).contains("archived"@) ==> has_text(sql@, "AND archived = 0"@)
            &&& texts(columns@).contains("first_user_message"@) ==> has_text(sql@, "AND first_user_message <> ''"@)
            &&& texts(columns@).contains("source"@) ==> has_text(sql@, "AND source IN ('cli', 'vscode')"@)
            &&& has_text(sql@, "FROM threads WHERE cwd IS NOT NULL AND cwd <> '' "@)
            &&& has_text(sql@, " ORDER BY sort_ts DESC, id DESC"@)
        },
{
    let c = columns@;
    assert(opt_text(r) == visibility_statement(c));
    if r is Some {
        let head = "SELECT id, cwd, "@ + (if has_column(c, "model_provider"@) {
            "model_provider"@
        } else {
            "'' AS model_provider"@
        }) + ", COALESCE("@ + joined(time_parts(c), ", "@);
        let from = ") AS sort_ts FROM threads WHERE cwd IS NOT NULL AND cwd <> '' "@;
        let a = if has_column(c, "archived"@) {
            "AND archived = 0"@
        } else {
            ""@
        };
        let b = if has_column(c, "first_user_message"@) {
            "AND first_user_message <> ''"@
        } else {
            ""@
        };
        let d = if has_column(c, "source"@) {
            "AND source IN ('cli', 'vscode')"@
        } else {
            ""@
        };
        let end = " ORDER BY sort_ts DESC, id DESC"@;
        let where_clause = "FROM threads WHERE cwd IS NOT NULL AND cwd <> '' "@;
        lemma_from_clause();
        let p0 = head + from;
        assert(p0 =~= (head + ") AS sort_ts "@) + where_clause);
        lemma_text_at_end(head + ") AS sort_ts "@, where_clause);
        let p1 = p0 + a;
        let p2 = p1 + " "@;
        let p3 = p2 + b;
        let p4 = p3 + " "@;
        let p5 = p4 + d;
        let p6 = p5 + end;
        assert(r->0@ == p6);
        lemma_text_before(p0, a, where_clause);
        lemma_text_before(p1, " "@, where_clause);
        lemma_text_before(p2, b, where_clause);
        lemma_text_before(p3, " "@, where_clause);
        lemma_text_before(p4, d, where_clause);
        lemma_text_before(p5, end, where_clause);
        lemma_text_at_end(p0, a);
        lemma_text_before(p1, " "@, a);
        lemma_text_before(p2, b, a);
        lemma_text_before(p3, " "@, a);
        lemma_text_before(p4, d, a);
        lemma_text_before(p5, end, a);
        lemma_text_at_end(p2, b);
        lemma_text_before(p3, " "@, b);
        lemma_text_before(p4, d, b);
        lemma_text_before(p5, end, b);
        lemma_text_at_end(p4, d);
        lemma_text_before(p5, end, d);
        lemma_text_at_end(p5, end);
    }
}

/// The time of a thread is the first that the index has of: when it was updated
/// in milliseconds and in seconds, and when it was created.
pub proof fn law_time_expression(columns: Vec<String>, r: String)
    requires
        call_ensures(build_time_expression, (&columns,), r),
    ensures
        exists|parts: Seq<Seq<char>>|
            #![trigger joined(parts, ", "@)]
            {
                &&& r@ == "COALESCE("@ + joined(parts, ", "@) + ")"@
                &&& parts.len() > 0 && parts.last() == "0"@
                &&& texts(columns@).contains("updated_at_ms"@) ==> parts[0] == "updated_at_ms"@
                &&& !texts(columns@).contains("updated_at_ms"@) && texts(columns@).contains("updated_at"@) ==> parts[0]
                    == "updated_at * 1000"@
                &&& texts(columns@).contains("created_at"@) ==> parts.len() > 1 && parts[parts.len() - 2]
                    == "created_at * 1000"@
                &&& !texts(columns@).contains("created_at"@) && texts(columns@).contains("created_at_ms"@)
                    ==> parts.len() > 1 && parts[parts.len() - 2] == "created_at_ms"@
            },
{
    let parts = time_parts(columns@);
    assert(r@ == "COALESCE("@ + joined(parts, ", "@) + ")"@);
}

/// Folders are counted by the threads that they have, the most used first.
pub proof fn law_folder_query(columns: Vec<String>, r: Option<String>)
    requires
        call_ensures(cwd_stats_sql, (&columns,), r),
    ensures
        r is Some <==> texts(columns@).contains("cwd"@),
        r matches Some(sql) ==> sql@ == "SELECT cwd, COUNT(*) AS count, "@ + (if texts(columns@).contains(
            "updated_at_ms"@,
        ) && texts(columns@).contains("updated_at"@) {
            "COALESCE(MAX(updated_at_ms), MAX(updated_at) * 1000, 0)"@
        } else if texts(columns@).contains("updated_at_ms"@) {
            "COALESCE(MAX(updated_at_ms), 0)"@
        } else if texts(columns@).contains("updated_at"@) {
            "COALESCE(MAX(updated_at) * 1000, 0)"@
        } else {
            "0"@
        })
            + " AS updated_at_ms FROM threads WHERE cwd IS NOT NULL AND cwd <> '' GROUP BY cwd ORDER BY count DESC, updated_at_ms DESC, cwd"@,
{
    assert(opt_text(r) == cwd_statement(columns@));
}

/// What a sync tells: its target, its backup, and how many sessions, rows and
/// roots it changed, the rows of every sort added up.
pub proof fn law_sync_told(report: SyncReport, r: String)
    requires
        call_ensures(provider_sync_text, (report,), r),
    ensures
        exists|lines: Seq<Seq<char>>|
            #![trigger joined(lines, "\n"@)]
            {
                &&& r@ == joined(lines, "\n"@)
                &&& lines.len() >= 5
                &&& lines[0] == "Target provider: "@ + report.target_provider@
                &&& lines[1] == "Backup: "@ + report.backup_dir@
                &&& lines[2] == "Updated rollout files: "@ + decimal(report.applied_rollouts as nat)
                &&& report.sqlite_present && report.sqlite.database_present ==> lines[3] == "Updated SQLite rows: "@
                    + decimal(
                    (report.sqlite.thread_rows_inserted + report.sqlite.provider_rows_updated
                        + report.sqlite.user_event_rows_updated + report.sqlite.cwd_rows_updated) as nat,
                )
                &&& report.forced <==> lines.contains(
                    "Process preflight skipped by --force; SQLite write lock was still checked."@,
                )
            },
{
    let lines = sync_report_lines(report);
    assert(r@ == joined(lines, "\n"@));
    reveal_strlit("");
    assert(lines[3] =~= "Updated SQLite rows: "@ + decimal(changed_rows(report.sqlite)) + (if report.sqlite_present
        && report.sqlite.database_present {
        ""@
    } else {
        " (state_5.sqlite not found)"@
    }));
    if report.sqlite_present && report.sqlite.database_present {
        assert(lines[3] =~= "Updated SQLite rows: "@ + decimal(changed_rows(report.sqlite)));
    }
    let notice = "Process preflight skipped by --force; SQLite write lock was still checked."@;
    if report.forced {
        assert(lines[5] == notice);
    } else {
        lemma_no_notice(report);
    }
}

proof fn lemma_no_notice(report: SyncReport)
    requires
        !report.forced,
    ensures
        !sync_report_lines(report).contains(
            "Process preflight skipped by --force; SQLite write lock was still checked."@,
        ),
{
    let lines = sync_report_lines(report);
    let notice = "Process preflight skipped by --force; SQLite write lock was still checked."@;
    reveal_strlit("Process preflight skipped by --force; SQLite write lock was still checked.");
    reveal_strlit("Target provider: ");
    reveal_strlit("Backup: ");
    reveal_strlit("Updated rollout files: ");
    reveal_strlit("Updated SQLite rows: ");
    reveal_strlit("Updated workspace roots: ");
    reveal_strlit("Inserted SQLite thread indexes: ");
    reveal_strlit("Updated SQLite user-event flags: ");
    reveal_strlit("Updated SQLite cwd paths: ");
    reveal_strlit("Skipped changed or locked rollout files: ");
    reveal_strlit("Rollout files before sync:");
    reveal_strlit("  ");
    reveal_strlit("  (+");
    assert(notice[0] == 'P');
    let head = lines.take(5);
    let inserted = count_lines("Inserted SQLite thread indexes: "@, report.sqlite.thread_rows_inserted as nat);
    let flags = count_lines("Updated SQLite user-event flags: "@, report.sqlite.user_event_rows_updated as nat);
    let cwds = count_lines("Updated SQLite cwd paths: "@, report.sqlite.cwd_rows_updated as nat);
    let skipped = texts(sorted_by(report.skipped_rollouts@, by_text()));
    let left = skipped_lines(skipped);
    let tail = seq![Seq::empty(), "Rollout files before sync:"@, "  "@ + counts_line(report.counts_before@)];
    assert(lines =~= head + inserted + flags + cwds + left + tail);
    assert forall|i: int| 0 <= i < lines.len() implies #[trigger] lines[i] != notice by {
        let a = 5 + inserted.len() as int;
        let b = a + flags.len();
        let c = b + cwds.len();
        let d = c + left.len();
        if i < 5 {
            assert(lines[i].len() > 0 && lines[i][0] != 'P');
        } else if i < a {
            assert(lines[i] == inserted[i - 5]);
            assert(lines[i][0] == 'I');
        } else if i < b {
            assert(lines[i] == flags[i - a]);
            assert(lines[i][0] == 'U');
        } else if i < c {
            assert(lines[i] == cwds[i - b]);
            assert(lines[i][0] == 'U');
        } else if i < d {
            assert(lines[i] == left[i - c]);
            assert(lines[i].len() > 0 && lines[i][0] != 'P');
        } else {
            assert(lines[i] == tail[i - d]);
            if i - d == 0 {
                assert(lines[i].len() == 0);
            } else {
                assert(lines[i][0] != 'P');
            }
        }
    }
}

/// What the status of the providers tells: the one in use, those that have a
/// section, and what the sessions and the index count.
pub proof fn law_status_told(status: ProviderStatus, counted: String, r: String)
    requires
        call_ensures(format_counts, (&status.rollout_counts,), counted),
        call_ensures(provider_status_text, (&status,), r),
    ensures
        exists|lines: Seq<Seq<char>>|
            #![trigger joined(lines, "\n"@)]
            {
                &&& r@ == joined(lines, "\n"@)
                &&& lines.len() >= 11
                &&& lines[0] == "Codex home: "@ + status.codex_home@
                &&& lines[1] == "Current provider: "@ + status.current_provider@
                &&& lines[6] == "  "@ + counted@
                &&& status.sqlite_counts is None ==> lines[9] == "  "@ + "state_5.sqlite"@ + " not found"@
                &&& lines[10] == "Repair hints: user-event thread ids "@ + decimal(status.user_event_count as nat)
                    + ", cwd rows "@ + decimal(status.cwd_count as nat)
            },
{
    let lines = status_lines(status);
    assert(r@ == joined(lines, "\n"@));
    assert(counted@ == counts_line(status.rollout_counts@));
}

/// What the state of Codex tells: whether it can be written to, and the files.
pub proof fn law_codex_state_told(state: InspectState, r: String)
    requires
        call_ensures(inspect_text, (&state,), r),
    ensures
        exists|lines: Seq<Seq<char>>|
            #![trigger joined(lines, "\n"@)]
            {
                &&& r@ == joined(lines, "\n"@)
                &&& lines.len() > 2
                &&& state.codex_process_detection_error is Some ==> lines[1] == "  运行状态：无法确认"@
                &&& state.codex_process_detection_error is None && state.codex_running ==> lines[1]
                    == "  运行状态：运行中（检测到 "@ + decimal(state.codex_processes@.len()) + " 个相关进程）"@
                &&& state.codex_process_detection_error is None && !state.codex_running ==> lines[1]
                    == "  运行状态：已退出"@ && lines[2] == "  配置写入：可以安全执行 provider/auth/relay 修改"@
                &&& lines.contains("  Codex 目录："@ + state.codex_home@)
                &&& lines.contains(
                    "  config.toml："@ + (if state.config_exists {
                        state.config_path@
                    } else {
                        "未找到"@
                    }),
                )
                &&& state.config matches Some(config) ==> lines.contains("  当前 provider："@ + config.root_provider@)
            },
{
    let lines = inspect_lines(state);
    assert(r@ == joined(lines, "\n"@));
    let head = running_lines(state);
    let n = 1 + head.len() as int;
    assert(lines[1] == head[0] && lines[2] == head[1]);
    assert(lines[n + 2] == "  Codex 目录："@ + state.codex_home@);
    assert(lines[n + 3] == file_lines(state)[3]);
    if state.config is Some {
        assert(lines[n + 7] == "  当前 provider："@ + state.config->0.root_provider@);
    }
}

/// A list of sessions says how many there are, shows each up to the limit under
/// its id and path, and how many more there are.
pub proof fn law_local_list(sessions: Vec<LocalSessionMeta>, limit: usize, r: Vec<String>, i: int)
    requires
        call_ensures(local_list_text, (&sessions, limit), r),
    ensures
        r@.len() > 0 && r@[0]@ == "local sessions: "@ + decimal(sessions@.len()),
        0 <= i < sessions@.len() && i < limit ==> i + 1 < r@.len() && exists|middle: Seq<char>|
            r@[i + 1]@ == #[trigger] (sessions@[i].session_id@ + middle) + sessions@[i].relative_path@,
        sessions@.len() <= limit ==> r@.len() == sessions@.len() + 1,
        sessions@.len() > limit ==> r@.len() == limit + 2 && r@.last()@ == "... "@ + decimal(
            (sessions@.len() - limit) as nat,
        ) + " more"@,
{
    let lines = local_list(sessions@, limit as int);
    assert(texts(r@) == lines);
    assert(texts(r@)[0] == r@[0]@);
    if 0 <= i < sessions@.len() && i < limit {
        let s = sessions@[i];
        assert(lines[i + 1] == local_session_line(s));
        assert(texts(r@)[i + 1] == r@[i + 1]@);
        let middle = "  "@ + or_dash(s.provider_name) + "  "@ + or_dash(s.model) + "  "@;
        assert(r@[i + 1]@ =~= (s.session_id@ + middle) + s.relative_path@);
    }
    if sessions@.len() > limit {
        assert(texts(r@)[r@.len() - 1] == r@.last()@);
    }
}

/// A list of the cloud shows every session with its path and how to fetch it.
pub proof fn law_cloud_list(latest: Vec<SessionManifest>, r: Vec<String>, i: int)
    requires
        call_ensures(cloud_list_text, (&latest,), r),
    ensures
        r@.len() > 0 && r@[0]@ == "cloud sessions: "@ + decimal(latest@.len()) + " latest version(s)"@,
        0 <= i < latest@.len() ==> texts(r@).contains(latest@[i].session_id@) && texts(r@).contains(
            "  path: "@ + latest@[i].relative_path@,
        ) && texts(r@).contains("  pull: codex-tools cloud pull --session-id "@ + latest@[i].session_id@),
{
    let lines = cloud_list_lines(latest@);
    assert(texts(r@) == lines);
    assert(texts(r@)[0] == r@[0]@);
    if 0 <= i < latest@.len() {
        let all = all_version_lines(latest@);
        let own = version_lines(latest@[i]);
        let at = lemma_version_lines(latest@, i);
        let k = own.len() as int;
        assert(all[at + 0] == own[0]);
        assert(lines[1 + at] == own[0]);
        assert(own[k - 4] == "  path: "@ + latest@[i].relative_path@);
        assert(own[k - 1] == "  pull: codex-tools cloud pull --session-id "@ + latest@[i].session_id@);
        assert(all[at + (k - 4)] == own[k - 4]);
        assert(all[at + (k - 1)] == own[k - 1]);
        assert(lines[1 + at + (k - 4)] == own[k - 4]);
        assert(lines[1 + at + (k - 1)] == own[k - 1]);
    }
}

proof fn lemma_version_lines(manifests: Seq<SessionManifest>, i: int) -> (at: int)
    requires
        0 <= i < manifests.len(),
    ensures
        0 <= at,
        at + version_lines(manifests[i]).len() <= all_version_lines(manifests).len(),
        forall|j: int|
            0 <= j < version_lines(manifests[i]).len() ==> #[trigger] all_version_lines(manifests)[at + j]
                == version_lines(manifests[i])[j],
    decreases manifests.len(),
{
    let before = all_version_lines(manifests.drop_last());
    let all = all_version_lines(manifests);
    if i == manifests.len() - 1 {
        before.len() as int
    } else {
        let at = lemma_version_lines(manifests.drop_last(), i);
        let own = version_lines(manifests[i]);
        assert forall|j: int| 0 <= j < own.len() implies #[trigger] all[at + j] == own[j] by {
            assert(all[at + j] == before[at + j]);
        }
        at
    }
}

proof fn lemma_ranks(rows: Seq<VisibleThread>, root: Seq<char>, k: nat)
    ensures
        ranks_of(rows, root).contains(k) <==> 1 <= k <= rows.len() && comparable(rows[k - 1].cwd@) == comparable(root),
        forall|i: int| 0 <= i < ranks_of(rows, root).len() ==> #[trigger] ranks_of(rows, root)[i] <= rows.len(),
        forall|i: int, j: int|
            0 <= i < j < ranks_of(rows, root).len() ==> #[trigger] ranks_of(rows, root)[i] < #[trigger] ranks_of(
                rows,
                root,
            )[j],
    decreases rows.len(),
{
    let all = ranks_of(rows, root);
    if rows.len() > 0 {
        let rest = rows.drop_last();
        let before = ranks_of(rest, root);
        lemma_ranks(rest, root, k);
        if 1 <= k <= rest.len() {
            assert(rest[k - 1] == rows[k - 1]);
        }
        if belongs(rows.last(), root) {
            assert(all == before.push(rows.len()));
            assert(all[all.len() - 1] == rows.len());
            if before.contains(k) {
                let i = choose|i: int| 0 <= i < before.len() && before[i] == k;
                assert(all[i] == k);
            }
            if all.contains(k) && k != rows.len() {
                let i = choose|i: int| 0 <= i < all.len() && all[i] == k;
                assert(before[i] == k);
            }
        }
    }
}

proof fn lemma_first_page(ranks: Seq<nat>)
    requires
        forall|a: int, b: int| 0 <= a < b < ranks.len() ==> ranks[a] < ranks[b],
    ensures
        first_page_of(ranks) <= ranks.len(),
        forall|i: int| 0 <= i < first_page_of(ranks) ==> #[trigger] ranks[i] <= 50,
        forall|i: int| first_page_of(ranks) <= i < ranks.len() ==> #[trigger] ranks[i] > 50,
    decreases ranks.len(),
{
    if ranks.len() > 0 {
        let rest = ranks.drop_last();
        lemma_first_page(rest);
        let f = first_page_of(rest) as int;
        if ranks.last() <= 50 && f < rest.len() {
            assert(rest[rest.len() - 1] > 50);
            assert(ranks[ranks.len() - 2] < ranks[ranks.len() - 1]);
        }
        assert forall|i: int| 0 <= i < first_page_of(ranks) implies #[trigger] ranks[i] <= 50 by {
            if i < rest.len() {
                assert(rest[i] == ranks[i]);
            }
        }
        assert forall|i: int| first_page_of(ranks) <= i < ranks.len() implies #[trigger] ranks[i] > 50 by {
            if i < rest.len() {
                assert(rest[i] == ranks[i]);
            }
        }
    }
}

proof fn lemma_exact(rows: Seq<VisibleThread>, root: Seq<char>, cwd: Seq<char>)
    ensures
        exact_of(rows, root, cwd) <= ranks_of(rows, root).len(),
        exact_of(rows, root, cwd) == ranks_of(rows, root).len() <==> forall|k: int|
            0 <= k < rows.len() && comparable((#[trigger] rows[k]).cwd@) == comparable(root) ==> rows[k].cwd@ == cwd,
    decreases rows.len(),
{
    if rows.len() > 0 {
        let rest = rows.drop_last();
        lemma_exact(rest, root, cwd);
        assert(forall|k: int| 0 <= k < rest.len() ==> #[trigger] rest[k] == rows[k]);
        assert(rows[rows.len() - 1] == rows.last());
        if exact_of(rest, root, cwd) == ranks_of(rest, root).len() && (!belongs(rows.last(), root) || rows.last().cwd@
            == cwd) {
            assert forall|k: int| 0 <= k < rows.len() && comparable((#[trigger] rows[k]).cwd@) == comparable(root) implies
                rows[k].cwd@ == cwd by {
                if k < rest.len() {
                    assert(rest[k] == rows[k]);
                }
            }
        }
        if forall|k: int|
            0 <= k < rows.len() && comparable((#[trigger] rows[k]).cwd@) == comparable(root) ==> rows[k].cwd@ == cwd {
            assert forall|k: int| 0 <= k < rest.len() && comparable((#[trigger] rest[k]).cwd@) == comparable(root) implies
                rest[k].cwd@ == cwd by {
                assert(rest[k] == rows[k]);
            }
        }
    }
}

/// What is told of a project counts the threads that lie in its place, whatever
/// way that place is written, those among the first fifty of all threads, and
/// those that name the place the way it is shown.
pub proof fn law_project_told(roots: Vec<String>, rows: Vec<VisibleThread>, r: Vec<String>, i: int)
    requires
        call_ensures(project_visibility, (&roots, &rows), r),
        0 <= i < roots@.len(),
    ensures
        r@.len() == roots@.len(),
        exists|ranks: Seq<nat>, first: nat, exact: nat, told: Seq<char>, rest: Seq<char>|
            r@[i]@ == normal_path(roots@[i]@) + ": interactive "@ + #[trigger] decimal(ranks.len()) + ", first page "@
                + #[trigger] decimal(first) + #[trigger] ("/50, ranks "@ + told) + ", exact cwd "@ + #[trigger] decimal(exact)
                + "/"@ + decimal(ranks.len()) + #[trigger] (", verbatim cwd "@ + rest) && (forall|a: int, b: int|
                0 <= a < b < ranks.len() ==> ranks[a] < ranks[b]) && (forall|k: nat|
                ranks.contains(k) <==> 1 <= k <= rows@.len() && comparable((#[trigger] rows@[k - 1]).cwd@) == comparable(
                    roots@[i]@,
                )) && first <= ranks.len() && (forall|a: int| 0 <= a < first ==> #[trigger] ranks[a] <= 50) && (forall|a: int|
                first <= a < ranks.len() ==> #[trigger] ranks[a] > 50) && (exact == ranks.len() <==> forall|k: int|
                0 <= k < rows@.len() && comparable((#[trigger] rows@[k]).cwd@) == comparable(roots@[i]@)
                    ==> rows@[k].cwd@ == normal_path(roots@[i]@)),
{
    let root = roots@[i]@;
    let lines = texts(roots@).map_values(|root: Seq<char>| visibility_line(root, rows@));
    assert(texts(r@) == lines);
    assert(texts(r@).len() == r@.len());
    assert(texts(roots@)[i] == root);
    assert(texts(r@)[i] == r@[i]@);
    assert(lines[i] == visibility_line(root, rows@));
    let ranks = ranks_of(rows@, root);
    let shown = normal_path(root);
    let first = first_page_of(ranks);
    let exact = exact_of(rows@, root, shown);
    let told = rank_preview(ranks);
    let rest = decimal(verbatim_of(rows@, root)) + ", providers "@ + counts_line(tally(providers_of(rows@, root)));
    assert(r@[i]@ =~= shown + ": interactive "@ + decimal(ranks.len()) + ", first page "@ + decimal(first) + (
    "/50, ranks "@ + told) + ", exact cwd "@ + decimal(exact) + "/"@ + decimal(ranks.len()) + (", verbatim cwd "@
        + rest));
    lemma_ranks(rows@, root, 0);
    assert forall|k: nat|
        ranks.contains(k) <==> 1 <= k <= rows@.len() && comparable((#[trigger] rows@[k - 1]).cwd@) == comparable(
            root,
        ) by {
        lemma_ranks(rows@, root, k);
    }
    lemma_first_page(ranks);
    lemma_exact(rows@, root, shown);
}

} // verus!
