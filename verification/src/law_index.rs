//! What a sync promises of the thread index.

use vstd::prelude::*;

use crate::config::entries;
use crate::counts::Counts;
use crate::order::{ascending, law_ascending_exists};
use crate::paths::{comparable, CwdRow, ThreadCwdStat};
use crate::rollout::{RolloutIndexRecord, RolloutScan};
use crate::sqlite::{
    cwd_row_stats, cwd_stats_from_rows, cwd_update, cwd_updates, event_update, filled_columns, has_column,
    insert_columns, insert_row, insert_sql, known_columns, law_row_fits, opt_sql, placeholders,
    provider_counts_from_rows, provider_key, provider_row_counts, provider_update, quoted_identifier,
    scan_updates, sql_models, sqlite_error_of, sqlite_quote_identifier, sqlite_reason,
    sqlite_thread_insert_value, thread_columns, thread_row, thread_updates, thread_value, update_models,
    CwdStatModel, ProviderRow, SqlValue, ThreadUpdate, UpdateModel,
};
use crate::text::{decimal, has_text, is_blank, joined, lemma_replaced_absent, texts, trimmed};

verus! {

/// Whether the index has a column that a session fills.
pub open spec fn is_session_column(name: Seq<char>) -> bool {
    name == "id"@ || name == "rollout_path"@ || name == "created_at"@ || name == "updated_at"@ || name == "source"@ || name == "model_provider"@ || name == "cwd"@ || name == "title"@ || name == "sandbox_policy"@ || name == "approval_mode"@ || name == "tokens_used"@ || name == "has_user_event"@ || name == "archived"@ || name == "archived_at"@ || name == "git_sha"@ || name == "git_branch"@ || name == "git_origin_url"@ || name == "cli_version"@ || name == "first_user_message"@ || name == "agent_nickname"@ || name == "agent_role"@ || name == "memory_mode"@ || name == "model"@ || name == "reasoning_effort"@ || name == "agent_path"@ || name == "created_at_ms"@ || name == "updated_at_ms"@ || name == "thread_source"@ || name == "preview"@
}

proof fn lemma_known_columns(names: Seq<Seq<char>>, columns: Seq<String>, name: Seq<char>)
    ensures
        known_columns(names, columns).contains(name) <==> names.contains(name) && has_column(columns, name),
    decreases names.len(),
{
    let all = known_columns(names, columns);
    if names.len() > 0 {
        let rest = names.drop_last();
        let before = known_columns(rest, columns);
        lemma_known_columns(rest, columns, name);
        assert(names[names.len() - 1] == names.last());
        if rest.contains(name) {
            let i = choose|i: int| 0 <= i < rest.len() && rest[i] == name;
            assert(names[i] == name);
        }
        if names.contains(name) && name != names.last() {
            let i = choose|i: int| 0 <= i < names.len() && names[i] == name;
            assert(rest[i] == name);
        }
        if has_column(columns, names.last()) {
            assert(all[all.len() - 1] == names.last());
            if before.contains(name) {
                let i = choose|i: int| 0 <= i < before.len() && before[i] == name;
                assert(all[i] == name);
            }
            if all.contains(name) && name != names.last() {
                let i = choose|i: int| 0 <= i < all.len() && all[i] == name;
                assert(before[i] == name);
            }
        }
    }
}

proof fn lemma_thread_columns(name: Seq<char>)
    ensures
        thread_columns().contains(name) <==> is_session_column(name),
{
    let names = thread_columns();
    assert(names[0] == "id"@);
    assert(names[1] == "rollout_path"@);
    assert(names[2] == "created_at"@);
    assert(names[3] == "updated_at"@);
    assert(names[4] == "source"@);
    assert(names[5] == "model_provider"@);
    assert(names[6] == "cwd"@);
    assert(names[7] == "title"@);
    assert(names[8] == "sandbox_policy"@);
    assert(names[9] == "approval_mode"@);
    assert(names[10] == "tokens_used"@);
    assert(names[11] == "has_user_event"@);
    assert(names[12] == "archived"@);
    assert(names[13] == "archived_at"@);
    assert(names[14] == "git_sha"@);
    assert(names[15] == "git_branch"@);
    assert(names[16] == "git_origin_url"@);
    assert(names[17] == "cli_version"@);
    assert(names[18] == "first_user_message"@);
    assert(names[19] == "agent_nickname"@);
    assert(names[20] == "agent_role"@);
    assert(names[21] == "memory_mode"@);
    assert(names[22] == "model"@);
    assert(names[23] == "reasoning_effort"@);
    assert(names[24] == "agent_path"@);
    assert(names[25] == "created_at_ms"@);
    assert(names[26] == "updated_at_ms"@);
    assert(names[27] == "thread_source"@);
    assert(names[28] == "preview"@);
    if names.contains(name) {
        let i = choose|i: int| 0 <= i < names.len() && names[i] == name;
    }
}

/// A new row fills every column of a session that the index has, and no other;
/// an index without ids gets none.
pub proof fn law_insert_columns(columns: Vec<String>, chosen: Vec<String>, name: Seq<char>)
    requires
        call_ensures(insert_columns, (&columns,), chosen),
    ensures
        texts(columns@).contains("id"@) ==> (texts(chosen@).contains(name) <==> texts(columns@).contains(name)
            && is_session_column(name)),
        !texts(columns@).contains("id"@) ==> chosen@.len() == 0,
{
    assert(texts(chosen@) == filled_columns(columns@));
    lemma_known_columns(thread_columns(), columns@, name);
    lemma_thread_columns(name);
}

/// A session gets a row exactly when the index has none of it yet, and under
/// each column stands what the session has for it.
pub proof fn law_insert_row(
    columns: Vec<String>,
    chosen: Vec<String>,
    record: RolloutIndexRecord,
    target: &str,
    has_row: bool,
    r: Option<Vec<SqlValue>>,
    i: int,
    column: &str,
    value: Option<SqlValue>,
)
    requires
        call_ensures(insert_columns, (&columns,), chosen),
        call_ensures(insert_row, (&record, &chosen, target, has_row), r),
        0 <= i < chosen@.len() ==> column@ == chosen@[i]@,
        call_ensures(sqlite_thread_insert_value, (&record, column, target), value),
    ensures
        r is Some <==> !has_row && trimmed(record.thread_id@).len() > 0,
        r matches Some(values) ==> values@.len() == chosen@.len() && (0 <= i < chosen@.len() ==> opt_sql(value)
            == Some(values@[i]@)),
{
    assert(texts(chosen@) == filled_columns(columns@));
    law_row_fits(record, columns@, target@);
    let row = thread_row(record, texts(chosen@), target@);
    assert(r is Some == (!has_row && !is_blank(record.thread_id@)));
    assert(opt_sql(value) == thread_value(record, column@, target@));
    match r {
        Some(values) => {
            assert(row == Some(sql_models(values@)));
            assert(sql_models(values@).len() == values@.len());
            if 0 <= i < chosen@.len() {
                lemma_row_value(record, texts(chosen@), target@, i);
                assert(texts(chosen@)[i] == chosen@[i]@);
                assert(sql_models(values@)[i] == values@[i]@);
            }
        },
        None => {},
    }
}

proof fn lemma_row_value(record: RolloutIndexRecord, columns: Seq<Seq<char>>, target: Seq<char>, i: int)
    requires
        thread_row(record, columns, target) is Some,
        0 <= i < columns.len(),
    ensures
        thread_row(record, columns, target)->0.len() == columns.len(),
        thread_value(record, columns[i], target) == Some(thread_row(record, columns, target)->0[i]),
    decreases columns.len(),
{
    lemma_row_len(record, columns, target);
    lemma_row_len(record, columns.drop_last(), target);
    if i < columns.len() - 1 {
        lemma_row_value(record, columns.drop_last(), target, i);
    }
}

proof fn lemma_row_len(record: RolloutIndexRecord, columns: Seq<Seq<char>>, target: Seq<char>)
    ensures
        thread_row(record, columns, target) matches Some(row) ==> row.len() == columns.len(),
    decreases columns.len(),
{
    if columns.len() > 0 {
        lemma_row_len(record, columns.drop_last(), target);
    }
}

/// A name without quotes is quoted as it is.
pub proof fn law_quoted_name(name: &str, r: String)
    requires
        !name@.contains('"'),
        call_ensures(sqlite_quote_identifier, (name,), r),
    ensures
        r@ == seq!['"'] + name@ + seq!['"'],
{
    assert(r@ == quoted_identifier(name@));
    reveal_strlit("\"");
    lemma_replaced_absent(name@, '"', "\"\""@);
}

proof fn lemma_cwd_updates(ids: Seq<Seq<char>>, cwds: Map<Seq<char>, Seq<char>>, u: UpdateModel)
    ensures
        cwd_updates(ids, cwds).contains(u) <==> exists|i: int|
            0 <= i < ids.len() && !is_blank(#[trigger] ids[i]) && !is_blank(cwds[ids[i]]) && u == cwd_update(
                ids[i],
                cwds[ids[i]],
            ),
    decreases ids.len(),
{
    let all = cwd_updates(ids, cwds);
    if ids.len() > 0 {
        let rest = ids.drop_last();
        let before = cwd_updates(rest, cwds);
        lemma_cwd_updates(rest, cwds, u);
        let id = ids.last();
        assert(ids[ids.len() - 1] == id);
        assert(forall|i: int| 0 <= i < rest.len() ==> #[trigger] rest[i] == ids[i]);
        if before.contains(u) {
            let k = choose|k: int| 0 <= k < before.len() && before[k] == u;
            assert(all[k] == u);
            let i = choose|i: int|
                0 <= i < rest.len() && !is_blank(#[trigger] rest[i]) && !is_blank(cwds[rest[i]]) && u == cwd_update(
                    rest[i],
                    cwds[rest[i]],
                );
            assert(!is_blank(ids[i]));
        }
        if !is_blank(id) && !is_blank(cwds[id]) {
            assert(all[all.len() - 1] == cwd_update(id, cwds[id]));
            if all.contains(u) && u != cwd_update(id, cwds[id]) {
                let k = choose|k: int| 0 <= k < all.len() && all[k] == u;
                assert(before[k] == u);
            }
        }
        if exists|i: int|
            0 <= i < ids.len() && !is_blank(#[trigger] ids[i]) && !is_blank(cwds[ids[i]]) && u == cwd_update(
                ids[i],
                cwds[ids[i]],
            ) {
            let i = choose|i: int|
                0 <= i < ids.len() && !is_blank(#[trigger] ids[i]) && !is_blank(cwds[ids[i]]) && u == cwd_update(
                    ids[i],
                    cwds[ids[i]],
                );
            if i < rest.len() {
                assert(!is_blank(rest[i]));
            }
        }
    }
}

/// Whether an update sets the provider of every row to `target`.
pub open spec fn sets_provider(u: ThreadUpdate, target: Seq<char>) -> bool {
    u.kind is Provider && u.sql@ == "UPDATE threads SET model_provider = ?1 WHERE COALESCE(model_provider, '') <> ?1"@
        && texts(u.params@) == seq![target]
}

/// Whether an update marks a session as one with a user.
pub open spec fn marks_user(u: ThreadUpdate, id: Seq<char>) -> bool {
    u.kind is UserEvent && u.sql@
        == "UPDATE threads SET has_user_event = 1 WHERE id = ?1 AND COALESCE(has_user_event, 0) <> 1"@ && texts(
        u.params@,
    ) == seq![id]
}

/// Whether an update sets the folder of a session.
pub open spec fn sets_cwd(u: ThreadUpdate, id: Seq<char>, cwd: Seq<char>) -> bool {
    u.kind is Cwd && u.sql@ == "UPDATE threads SET cwd = ?1 WHERE id = ?2 AND COALESCE(cwd, '') <> ?1"@ && texts(
        u.params@,
    ) == seq![cwd, id]
}

/// A sync points every row to the target, marks exactly the sessions found with
/// a user, and sets for each session the folder that was found for it, in so
/// far as the index has the columns; it updates nothing else.
pub proof fn law_thread_updates(
    columns: Vec<String>,
    target: &str,
    scan: RolloutScan,
    r: Vec<ThreadUpdate>,
    id: Seq<char>,
)
    requires
        call_ensures(thread_updates, (&columns, target, &scan), r),
    ensures
        texts(columns@).contains("model_provider"@) <==> exists|k: int|
            0 <= k < r@.len() && sets_provider(#[trigger] r@[k], target@),
        texts(columns@).contains("has_user_event"@) && texts(scan.user_event_thread_ids@).contains(id) <==> exists|k: int|
            0 <= k < r@.len() && marks_user(#[trigger] r@[k], id),
        texts(columns@).contains("cwd"@) && entries(scan.thread_cwds@).dom().contains(id) && trimmed(id).len() > 0
            && trimmed(entries(scan.thread_cwds@)[id]).len() > 0 ==> exists|k: int|
            0 <= k < r@.len() && sets_cwd(#[trigger] r@[k], id, entries(scan.thread_cwds@)[id]),
        forall|k: int|
            0 <= k < r@.len() && #[trigger] r@[k].kind is Provider ==> sets_provider(r@[k], target@),
        forall|k: int|
            0 <= k < r@.len() && #[trigger] r@[k].kind is Cwd ==> exists|who: Seq<char>| #[trigger]
                entries(scan.thread_cwds@).dom().contains(who) && sets_cwd(
                    r@[k],
                    who,
                    entries(scan.thread_cwds@)[who],
                ),
{
    let models = update_models(r@);
    let cwds = entries(scan.thread_cwds@);
    let set = texts(scan.user_event_thread_ids@).to_set();
    let providers = if has_column(columns@, "model_provider"@) {
        seq![provider_update(target@)]
    } else {
        Seq::empty()
    };
    let events = if has_column(columns@, "has_user_event"@) {
        ascending(set).map_values(|id: Seq<char>| event_update(id))
    } else {
        Seq::empty()
    };
    let moves = if has_column(columns@, "cwd"@) {
        cwd_updates(ascending(cwds.dom()), cwds)
    } else {
        Seq::empty()
    };
    assert(models == scan_updates(columns@, target@, scan));
    assert(models =~= providers + events + moves);
    assert(forall|k: int| 0 <= k < r@.len() ==> #[trigger] models[k] == r@[k]@);
    vstd::seq_lib::seq_to_set_is_finite(texts(scan.user_event_thread_ids@));
    law_ascending_exists(set);
    lemma_entries_finite(scan.thread_cwds@);
    law_ascending_exists(cwds.dom());
    assert(forall|x: Seq<char>| #[trigger] ascending(set).contains(x) == ascending(set).to_set().contains(x));
    assert(forall|x: Seq<char>| #[trigger]
        ascending(cwds.dom()).contains(x) == ascending(cwds.dom()).to_set().contains(x));
    assert(forall|x: Seq<char>| #[trigger] texts(scan.user_event_thread_ids@).contains(x) == set.contains(x));
    let p = providers.len() as int;
    let e = events.len() as int;
    assert forall|k: int| 0 <= k < moves.len() implies #[trigger] moves[k].kind is Cwd && exists|who: Seq<char>|
        #[trigger] cwds.dom().contains(who) && moves[k] == cwd_update(who, cwds[who]) by {
        assert(moves.contains(moves[k]));
        lemma_cwd_updates(ascending(cwds.dom()), cwds, moves[k]);
        let ids = ascending(cwds.dom());
        let i = choose|i: int|
            0 <= i < ids.len() && !is_blank(#[trigger] ids[i]) && !is_blank(cwds[ids[i]]) && moves[k] == cwd_update(
                ids[i],
                cwds[ids[i]],
            );
        assert(ids.contains(ids[i]));
        assert(cwds.dom().contains(ids[i]));
    }
    assert forall|k: int| 0 <= k < r@.len() implies (#[trigger] r@[k].kind is Provider ==> k < p) && (r@[k].kind is UserEvent
        ==> p <= k < p + e) && (r@[k].kind is Cwd ==> p + e <= k) by {
        assert(models[k] == r@[k]@);
        if k < p {
            assert(models[k] == providers[k]);
        } else if k < p + e {
            assert(models[k] == events[k - p]);
        } else {
            assert(models[k] == moves[k - p - e]);
            assert(moves[k - p - e].kind is Cwd);
        }
    }
    if p > 0 {
        assert(models[0] == provider_update(target@));
        assert(sets_provider(r@[0], target@));
    }
    if has_column(columns@, "has_user_event"@) && set.contains(id) {
        assert(ascending(set).contains(id));
        let i = choose|i: int| 0 <= i < ascending(set).len() && ascending(set)[i] == id;
        assert(events[i] == event_update(id));
        assert(models[p + i] == event_update(id));
        assert(marks_user(r@[p + i], id));
    }
    if exists|k: int| 0 <= k < r@.len() && marks_user(#[trigger] r@[k], id) {
        let k = choose|k: int| 0 <= k < r@.len() && marks_user(#[trigger] r@[k], id);
        assert(r@[k].kind is UserEvent);
        assert(models[k] == events[k - p]);
        assert(events[k - p] == event_update(ascending(set)[k - p]));
        assert(seq![id][0] == seq![ascending(set)[k - p]][0]);
        assert(ascending(set).contains(ascending(set)[k - p]));
    }
    if has_column(columns@, "cwd"@) && cwds.dom().contains(id) && !is_blank(id) && !is_blank(cwds[id]) {
        let ids = ascending(cwds.dom());
        assert(ids.contains(id));
        let i = choose|i: int| 0 <= i < ids.len() && ids[i] == id;
        lemma_cwd_updates(ids, cwds, cwd_update(id, cwds[id]));
        assert(!is_blank(ids[i]));
        assert(moves.contains(cwd_update(id, cwds[id])));
        let k = choose|k: int| 0 <= k < moves.len() && moves[k] == cwd_update(id, cwds[id]);
        assert(models[p + e + k] == moves[k]);
        assert(sets_cwd(r@[p + e + k], id, cwds[id]));
    }
    assert forall|k: int| 0 <= k < r@.len() && #[trigger] r@[k].kind is Provider implies sets_provider(r@[k], target@) by {
        assert(models[k] == providers[k]);
    }
    assert forall|k: int| 0 <= k < r@.len() && #[trigger] r@[k].kind is Cwd implies exists|who: Seq<char>| #[trigger]
        cwds.dom().contains(who) && sets_cwd(r@[k], who, cwds[who]) by {
        assert(models[k] == moves[k - p - e]);
        assert(moves[k - p - e].kind is Cwd);
        let who = choose|who: Seq<char>| #[trigger]
            cwds.dom().contains(who) && moves[k - p - e] == cwd_update(who, cwds[who]);
        assert(sets_cwd(r@[k], who, cwds[who]));
    }
}

proof fn lemma_entries_finite(s: Seq<(String, String)>)
    ensures
        entries(s).dom().finite(),
    decreases s.len(),
{
    if s.len() > 0 {
        lemma_entries_finite(s.drop_last());
    }
}

/// Rows of the index are counted under the directory that their files lie in
/// and their provider.
pub proof fn law_row_counts(rows: Vec<ProviderRow>, r: Counts, i: int)
    requires
        forall|k: int| 0 <= k < rows@.len() ==> (#[trigger] rows@[k]).count <= usize::MAX,
        call_ensures(provider_counts_from_rows, (&rows,), r),
        0 <= i < rows@.len(),
        0 <= rows@[i].count,
        forall|k: int|
            0 <= k < rows@.len() && k != i ==> (#[trigger] rows@[k]).provider@ != rows@[i].provider@ || (rows@[k].archived
                == 0) != (rows@[i].archived == 0),
    ensures
        ({
            let key = if rows@[i].archived == 0 {
                "sessions/"@ + rows@[i].provider@
            } else {
                "archived_sessions/"@ + rows@[i].provider@
            };
            r@.dom().contains(key) && r@[key] == rows@[i].count
        }),
{
    assert(r@ == provider_row_counts(rows@));
    lemma_row_keys(rows@[i]);
    lemma_row_counts(rows@, i);
}

proof fn lemma_row_keys(row: ProviderRow)
    ensures
        row.archived == 0 ==> provider_key(row) == "sessions/"@ + row.provider@,
        row.archived != 0 ==> provider_key(row) == "archived_sessions/"@ + row.provider@,
{
    reveal_strlit("sessions");
    reveal_strlit("archived_sessions");
    reveal_strlit("sessions/");
    reveal_strlit("archived_sessions/");
    reveal_strlit("/");
    assert("sessions/"@ =~= "sessions"@ + "/"@);
    assert("archived_sessions/"@ =~= "archived_sessions"@ + "/"@);
}

proof fn lemma_row_counts(rows: Seq<ProviderRow>, i: int)
    requires
        0 <= i < rows.len(),
        0 <= rows[i].count,
        forall|k: int|
            0 <= k < rows.len() && k != i ==> (#[trigger] rows[k]).provider@ != rows[i].provider@ || (rows[k].archived
                == 0) != (rows[i].archived == 0),
    ensures
        provider_row_counts(rows).dom().contains(provider_key(rows[i])),
        provider_row_counts(rows)[provider_key(rows[i])] == rows[i].count,
    decreases rows.len(),
{
    if i < rows.len() - 1 {
        let rest = rows.drop_last();
        assert forall|k: int| 0 <= k < rest.len() && k != i implies (#[trigger] rest[k]).provider@ != rest[i].provider@ || (
        rest[k].archived == 0) != (rest[i].archived == 0) by {
            assert(rest[k] == rows[k]);
        }
        lemma_row_counts(rest, i);
        let last = rows.last();
        assert(rows[rows.len() - 1] == last);
        assert(last.provider@ != rows[i].provider@ || (last.archived == 0) != (rows[i].archived == 0));
        lemma_row_keys(last);
        lemma_row_keys(rows[i]);
        reveal_strlit("sessions/");
        reveal_strlit("archived_sessions/");
        assert("sessions/"@.len() == 9);
        assert("archived_sessions/"@.len() == 18);
        let a = provider_key(last);
        let b = provider_key(rows[i]);
        if a == b {
            if (last.archived == 0) == (rows[i].archived == 0) {
                let n = if last.archived == 0 {
                    9int
                } else {
                    18int
                };
                assert(a.skip(n) =~= last.provider@);
                assert(b.skip(n) =~= rows[i].provider@);
            } else {
                assert(a[0] == b[0]);
            }
        }
    }
}

/// Every folder of the index that is a place is counted with the rows that it
/// has, under that place.
pub proof fn law_cwd_stats(rows: Vec<CwdRow>, r: Vec<ThreadCwdStat>, i: int)
    requires
        forall|k: int| 0 <= k < rows@.len() ==> (#[trigger] rows@[k]).count <= usize::MAX,
        call_ensures(cwd_stats_from_rows, (&rows,), r),
    ensures
        0 <= i < rows@.len() && comparable(rows@[i].cwd@) is Some ==> exists|k: int|
            0 <= k < r@.len() && (#[trigger] r@[k]).cwd@ == rows@[i].cwd@ && comparable(rows@[i].cwd@) == Some(
                r@[k].normalized_cwd@,
            ) && r@[k].updated_at_ms == rows@[i].updated_at_ms && (rows@[i].count >= 0 ==> r@[k].count == rows@[i].count),
        0 <= i < r@.len() ==> comparable(r@[i].cwd@) == Some(r@[i].normalized_cwd@),
{
    let models = r@.map_values(|s: ThreadCwdStat| s@);
    assert(models == cwd_row_stats(rows@));
    assert(forall|k: int| 0 <= k < r@.len() ==> #[trigger] models[k] == r@[k]@);
    lemma_cwd_row_stats(rows@);
    if 0 <= i < rows@.len() && comparable(rows@[i].cwd@) is Some {
        let k = choose|k: int| 0 <= k < models.len() && is_stat_of(#[trigger] models[k], rows@[i]);
        assert(models[k] == r@[k]@);
    }
    if 0 <= i < r@.len() {
        assert(comparable(models[i].cwd) == Some(models[i].normalized_cwd));
    }
}

spec fn is_stat_of(stat: CwdStatModel, row: CwdRow) -> bool {
    stat.cwd == row.cwd@ && comparable(row.cwd@) == Some(stat.normalized_cwd) && stat.updated_at_ms == row.updated_at_ms
        && (row.count >= 0 ==> stat.count == row.count)
}

proof fn lemma_cwd_row_stats(rows: Seq<CwdRow>)
    ensures
        forall|i: int|
            0 <= i < rows.len() && comparable((#[trigger] rows[i]).cwd@) is Some ==> exists|k: int|
                0 <= k < cwd_row_stats(rows).len() && is_stat_of(#[trigger] cwd_row_stats(rows)[k], rows[i]),
        forall|k: int|
            0 <= k < cwd_row_stats(rows).len() ==> comparable((#[trigger] cwd_row_stats(rows)[k]).cwd) == Some(
                cwd_row_stats(rows)[k].normalized_cwd,
            ),
    decreases rows.len(),
{
    if rows.len() > 0 {
        let rest = rows.drop_last();
        let before = cwd_row_stats(rest);
        let all = cwd_row_stats(rows);
        lemma_cwd_row_stats(rest);
        assert forall|i: int| 0 <= i < rows.len() && comparable((#[trigger] rows[i]).cwd@) is Some implies exists|k: int|
            0 <= k < all.len() && is_stat_of(#[trigger] all[k], rows[i]) by {
            if i < rest.len() {
                assert(rest[i] == rows[i]);
                let k = choose|k: int| 0 <= k < before.len() && is_stat_of(#[trigger] before[k], rest[i]);
                assert(all[k] == before[k]);
            } else {
                assert(is_stat_of(all[all.len() - 1], rows[i]));
            }
        }
        assert forall|k: int| 0 <= k < all.len() implies comparable((#[trigger] all[k]).cwd) == Some(
            all[k].normalized_cwd,
        ) by {
            if k < before.len() {
                assert(all[k] == before[k]);
            }
        }
    }
}

/// What is told of a failure names what was tried and gives the message; that
/// the index is in use, or damaged, is told where the message says so.
pub proof fn law_index_error(action: &str, message: &str, lower: &str, r: String)
    requires
        call_ensures(sqlite_error_of, (action, message, lower), r),
    ensures
        has_text(lower@, "locked"@) || has_text(lower@, "busy"@) ==> r@ == action@
            + " 失败：state_5.sqlite 正在被 Codex 占用。请关闭 Codex App / Codex CLI 后重试。原始错误："@ + message@,
        !has_text(lower@, "locked"@) && !has_text(lower@, "busy"@) && (has_text(lower@, "malformed"@) || has_text(
            lower@,
            "not a database"@,
        ) || has_text(lower@, "corrupt"@)) ==> r@ == action@
            + " 失败：state_5.sqlite 损坏或不可读。请先备份/修复数据库。原始错误："@ + message@,
        !has_text(lower@, "locked"@) && !has_text(lower@, "busy"@) && !has_text(lower@, "malformed"@) && !has_text(
            lower@,
            "not a database"@,
        ) && !has_text(lower@, "corrupt"@) ==> r@ == action@ + " 失败："@ + message@,
{
    assert(r@ == sqlite_reason(action@, message@, lower@));
    if has_text(lower@, "database is locked"@) {
        reveal_strlit("database is locked");
        reveal_strlit("locked");
        let i = choose|i: int|
            0 <= i <= lower@.len() - 18 && #[trigger] lower@.subrange(i, i + 18) == "database is locked"@;
        assert(lower@.subrange(i + 12, i + 12 + "locked"@.len()) =~= "locked"@) by {
            assert forall|j: int| 0 <= j < 6 implies #[trigger] lower@.subrange(i + 12, i + 18)[j] == "locked"@[j] by {
                assert(lower@.subrange(i, i + 18)[12 + j] == "database is locked"@[12 + j]);
            }
        }
    }
}

/// A new row is put in with one numbered place for each of its columns, in
/// their order.
pub proof fn law_insert_statement(columns: Vec<String>, r: String)
    requires
        call_ensures(insert_sql, (&columns,), r),
    ensures
        exists|names: Seq<Seq<char>>, places: Seq<Seq<char>>|
            r@ == "INSERT INTO threads ("@ + #[trigger] joined(names, ", "@) + ") VALUES ("@ + #[trigger] joined(
                places,
                ", "@,
            ) + ")"@ && names.len() == columns@.len() && places.len() == columns@.len() && (forall|i: int|
                0 <= i < columns@.len() ==> #[trigger] places[i] == "?"@ + decimal((i + 1) as nat)) && (forall|i: int|
                0 <= i < columns@.len() && !(#[trigger] columns@[i])@.contains('"') ==> names[i] == seq!['"']
                    + columns@[i]@ + seq!['"']),
{
    let all = texts(columns@);
    let names = all.map_values(|c: Seq<char>| quoted_identifier(c));
    let places = placeholders(all.len());
    assert(r@ == "INSERT INTO threads ("@ + joined(names, ", "@) + ") VALUES ("@ + joined(places, ", "@) + ")"@);
    assert forall|i: int| 0 <= i < columns@.len() && !(#[trigger] columns@[i])@.contains('"') implies names[i] == seq![
        '"',
    ] + columns@[i]@ + seq!['"'] by {
        assert(all[i] == columns@[i]@);
        reveal_strlit("\"");
        lemma_replaced_absent(all[i], '"', "\"\""@);
        assert(names[i] == quoted_identifier(all[i]));
        assert("\""@ =~= seq!['"']);
    }
}

} // verus!
