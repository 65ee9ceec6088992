//! What is counted and kept while sessions are read, sent and fetched.

use vstd::prelude::*;

use crate::config::{entries, opt_str};
use crate::counts::{law_tally, tally, Counts};
use crate::http::{next_page_size, SessionPages};
use crate::json::{equal_json, field, same_json, Json, JsonModel};
use crate::order::{ascending, law_ascending_exists};
use crate::paths::normal_path;
use crate::report::SqliteUpdateStats;
use crate::rollout::{
    is_change, is_moved, is_session_meta, meta_payload, meta_provider, pair_keys, session_is_moved,
    session_provider, RolloutFile, RolloutIndexRecord, RolloutScan,
};
use crate::sqlite::UpdateKind;
use crate::text::{decimal, is_blank, texts};
use crate::transfer::{
    version_key, PullTally, PushSessionOutcome, PushTally, RestoreOutcome, SeenVersions,
};

verus! {

/// A session that was pushed counts once, under what became of it.
pub proof fn law_push_tally(tally: &mut PushTally, outcome: PushSessionOutcome)
    requires
        old(tally).uploaded < usize::MAX,
        old(tally).skipped < usize::MAX,
        call_ensures(PushTally::count, (tally, &outcome), ()),
    ensures
        outcome is Uploaded ==> final(tally).uploaded == old(tally).uploaded + 1 && final(tally).skipped == old(
            tally,
        ).skipped,
        outcome is Skipped ==> final(tally).skipped == old(tally).skipped + 1 && final(tally).uploaded == old(
            tally,
        ).uploaded,
{
}

/// The counts of a group are added to those of all.
pub proof fn law_push_group(tally: &mut PushTally, group: PushTally)
    requires
        old(tally).uploaded + group.uploaded <= usize::MAX,
        old(tally).skipped + group.skipped <= usize::MAX,
        call_ensures(PushTally::count_group, (tally, &group), ()),
    ensures
        final(tally).uploaded == old(tally).uploaded + group.uploaded,
        final(tally).skipped == old(tally).skipped + group.skipped,
{
}

/// What a push tells at its end are its two counts.
pub proof fn law_push_told(tally: PushTally, r: String)
    requires
        call_ensures(PushTally::text, (&tally,), r),
    ensures
        r@ == "cloud push ok: uploaded "@ + decimal(tally.uploaded as nat) + ", skipped "@ + decimal(
            tally.skipped as nat,
        ),
{
}

/// A version that was pulled counts once, under what became of it.
pub proof fn law_pull_tally(tally: &mut PullTally, outcome: RestoreOutcome)
    requires
        old(tally).restored < usize::MAX,
        old(tally).skipped < usize::MAX,
        old(tally).planned < usize::MAX,
        call_ensures(PullTally::count, (tally, &outcome), ()),
    ensures
        final(tally).restored == old(tally).restored + (if outcome is Restored {
            1int
        } else {
            0int
        }),
        final(tally).skipped == old(tally).skipped + (if outcome is Skipped {
            1int
        } else {
            0int
        }),
        final(tally).planned == old(tally).planned + (if outcome is DryRun {
            1int
        } else {
            0int
        }),
{
}

/// The rows of an index that were updated count under their kind alone.
pub proof fn law_update_stats(stats: &mut SqliteUpdateStats, kind: UpdateKind, rows: usize)
    requires
        old(stats).provider_rows_updated + rows <= usize::MAX,
        old(stats).user_event_rows_updated + rows <= usize::MAX,
        old(stats).cwd_rows_updated + rows <= usize::MAX,
        call_ensures(SqliteUpdateStats::count_updated, (stats, kind, rows), ()),
    ensures
        final(stats).provider_rows_updated == old(stats).provider_rows_updated + (if kind is Provider {
            rows as int
        } else {
            0int
        }),
        final(stats).user_event_rows_updated == old(stats).user_event_rows_updated + (if kind is UserEvent {
            rows as int
        } else {
            0int
        }),
        final(stats).cwd_rows_updated == old(stats).cwd_rows_updated + (if kind is Cwd {
            rows as int
        } else {
            0int
        }),
        final(stats).thread_rows_inserted == old(stats).thread_rows_inserted,
        final(stats).database_present == old(stats).database_present,
{
}

/// Rows that were inserted count as that and as nothing else.
pub proof fn law_insert_stats(stats: &mut SqliteUpdateStats, rows: usize)
    requires
        old(stats).thread_rows_inserted + rows <= usize::MAX,
        call_ensures(SqliteUpdateStats::count_inserted, (stats, rows), ()),
    ensures
        final(stats).thread_rows_inserted == old(stats).thread_rows_inserted + rows,
        final(stats).provider_rows_updated == old(stats).provider_rows_updated,
        final(stats).user_event_rows_updated == old(stats).user_event_rows_updated,
        final(stats).cwd_rows_updated == old(stats).cwd_rows_updated,
        final(stats).database_present == old(stats).database_present,
{
}

/// A version comes for the first time exactly once: noted again it is not new,
/// and noting it makes no other version known.
pub proof fn law_noted(
    seen: &mut SeenVersions,
    id: &str,
    hash: &str,
    first: bool,
    later: &mut SeenVersions,
    other_id: &str,
    other_hash: &str,
    again: bool,
)
    requires
        call_ensures(SeenVersions::note, (seen, id, hash), first),
        old(later)@ == final(seen)@,
        call_ensures(SeenVersions::note, (later, other_id, other_hash), again),
    ensures
        other_id@ == id@ && other_hash@ == hash@ ==> !again,
        !other_id@.contains('\0') && !id@.contains('\0') && (other_id@ != id@ || other_hash@ != hash@) ==> again
            == !old(seen)@.contains(version_key(other_id@, other_hash@)),
{
    let a = version_key(id@, hash@);
    let b = version_key(other_id@, other_hash@);
    assert(final(seen)@ == old(seen)@.insert(a));
    assert(again == !old(later)@.contains(b));
    if !other_id@.contains('\0') && !id@.contains('\0') && a == b {
        reveal_strlit("\0");
        let m = id@.len() as int;
        let n = other_id@.len() as int;
        assert(a[m] == '\0' && b[n] == '\0');
        if m < n {
            assert(other_id@[m] == b[m]);
            assert(other_id@.contains('\0'));
        } else if n < m {
            assert(id@[n] == a[n]);
            assert(id@.contains('\0'));
        } else {
            assert(a.take(m) =~= id@);
            assert(b.take(m) =~= other_id@);
            assert(a.skip(m + 1) =~= hash@);
            assert(b.skip(m + 1) =~= other_hash@);
        }
    }
}

/// A page that came short is the last one, and what came is counted.
pub proof fn law_page_came(pages: &mut SessionPages, asked: Option<(usize, usize)>, count: usize)
    requires
        old(pages).fetched + count <= usize::MAX,
        !old(pages).done,
        call_ensures(SessionPages::next_page, (old(pages),), asked),
        call_ensures(SessionPages::page_came, (pages, count), ()),
    ensures
        final(pages).fetched == old(pages).fetched + count,
        final(pages).limit == old(pages).limit,
        asked matches Some((size, _)) ==> (final(pages).done <==> count < size),
{
    assert(asked is None == (next_page_size(*old(pages)) == 0));
}

/// What a scan keeps of a session: its row for the index, its id where a user
/// takes part, its folder under its id, the directory and provider that it
/// counts under, and its move where its provider is another than the target.
pub proof fn law_collect(
    scan: &mut RolloutScan,
    file: RolloutFile,
    meta: &Json,
    payload: Map<Seq<char>, JsonModel>,
    record: RolloutIndexRecord,
    target: &str,
    provider: String,
    moved: bool,
)
    requires
        field(meta@, "type"@) == Some(JsonModel::Text("session_meta"@)),
        field(meta@, "payload"@) == Some(JsonModel::Object(payload)),
        call_ensures(session_provider, (meta,), provider),
        call_ensures(session_is_moved, (meta, Some(target)), moved),
        call_ensures(RolloutScan::collect, (scan, file, meta, Some(record), Some(target)), ()),
    ensures
        final(scan).index_records@ == old(scan).index_records@.push(record),
        texts(final(scan).provider_keys@) == texts(old(scan).provider_keys@).push(file.dir_name@ + "/"@ + provider@),
        record.has_user_event ==> texts(final(scan).user_event_thread_ids@) == texts(
            old(scan).user_event_thread_ids@,
        ).push(record.thread_id@),
        !record.has_user_event ==> texts(final(scan).user_event_thread_ids@) == texts(old(scan).user_event_thread_ids@),
        payload.dom().contains("id"@) && payload.dom().contains("cwd"@) ==> (payload["id"@] matches JsonModel::Text(id)
            ==> (payload["cwd"@] matches JsonModel::Text(cwd) ==> !is_blank(id) && !is_blank(cwd) ==> entries(
            final(scan).thread_cwds@,
        ) == entries(old(scan).thread_cwds@).insert(id, normal_path(cwd)))),
        !payload.dom().contains("id"@) || !payload.dom().contains("cwd"@) ==> entries(final(scan).thread_cwds@)
            == entries(old(scan).thread_cwds@),
        !moved ==> final(scan).changes@ == old(scan).changes@,
        moved ==> final(scan).changes@.len() == old(scan).changes@.len() + 1,
        moved ==> final(scan).changes@.drop_last() == old(scan).changes@,
        moved ==> ({
            let change = final(scan).changes@.last();
            &&& change.path@ == file.path@
            &&& change.has_user_event == record.has_user_event
            &&& change.original_first_line@ == file.first.first_line@
            &&& change.original_separator@ == file.first.separator@
            &&& change.original_offset == file.first.offset
            &&& change.original_size == file.size
            &&& change.original_mtime_seconds == file.mtime_seconds
            &&& change.original_mtime_nanos == file.mtime_nanos
            &&& is_change(change, file, meta@, record.has_user_event, target@)
        }),
{
    assert(is_session_meta(meta@));
    assert(provider@ == meta_provider(meta@));
    assert(moved == is_moved(meta@, Some(target@)));
    assert(opt_str(Some(target)) == Some(target@));
    assert(meta_payload(meta@) == JsonModel::Object(payload));
    if moved {
        assert(is_change(final(scan).changes@.last(), file, meta@, record.has_user_event, target@));
    }
}

/// Sessions are counted under the directory and the provider that they were
/// found with, and those with a user once each.
pub proof fn law_scan_counts(scan: RolloutScan, counts: Counts, users: usize, key: Seq<char>)
    requires
        call_ensures(RolloutScan::provider_counts, (&scan,), counts),
        call_ensures(RolloutScan::user_event_count, (&scan,), users),
    ensures
        counts@.dom().contains(key) <==> texts(scan.provider_keys@).contains(key),
        counts@.dom().contains(key) ==> counts@[key] == texts(scan.provider_keys@).filter(
            |k: Seq<char>| k == key,
        ).len(),
        users <= scan.user_event_thread_ids@.len(),
        texts(scan.user_event_thread_ids@).no_duplicates() ==> users == scan.user_event_thread_ids@.len(),
{
    assert(counts@ == tally(texts(scan.provider_keys@)));
    law_tally(texts(scan.provider_keys@), key);
    let ids = texts(scan.user_event_thread_ids@);
    assert(users == ids.to_set().len());
    ids.lemma_cardinality_of_set();
    if ids.no_duplicates() {
        ids.unique_seq_to_set();
    }
}

/// Every session's folder is told once, the last that was found.
pub proof fn law_scan_cwds(scan: RolloutScan, r: Vec<(String, String)>)
    requires
        call_ensures(RolloutScan::cwds, (&scan,), r),
    ensures
        entries(r@) == entries(scan.thread_cwds@),
        forall|i: int, j: int| 0 <= i < j < r@.len() ==> (#[trigger] r@[i]).0@ != (#[trigger] r@[j]).0@,
{
    let keys = pair_keys(r@);
    lemma_pairs_finite(scan.thread_cwds@);
    law_ascending_exists(entries(scan.thread_cwds@).dom());
    assert(keys == ascending(entries(scan.thread_cwds@).dom()));
    assert forall|i: int, j: int| 0 <= i < j < r@.len() implies (#[trigger] r@[i]).0@ != (#[trigger] r@[j]).0@ by {
        assert(keys[i] == r@[i].0@ && keys[j] == r@[j].0@);
        assert(keys[i] != keys[j]);
    }
}

proof fn lemma_pairs_finite(s: Seq<(String, String)>)
    ensures
        entries(s).dom().finite(),
    decreases s.len(),
{
    if s.len() > 0 {
        lemma_pairs_finite(s.drop_last());
    }
}

/// Values count as the same exactly when they are alike: texts by their
/// characters, lists in their order, and values of different sorts never.
pub proof fn law_same_values(a: &Json, b: &Json, r: bool)
    requires
        call_ensures(equal_json, (a, b), r),
    ensures
        a@ matches JsonModel::Text(x) ==> b@ matches JsonModel::Text(y) ==> r == (x == y),
        a@ matches JsonModel::Bool(x) ==> b@ matches JsonModel::Bool(y) ==> r == (x == y),
        a@ matches JsonModel::Array(x) ==> b@ matches JsonModel::Array(y) ==> x.len() != y.len() ==> !r,
        a@ matches JsonModel::Object(x) ==> b@ matches JsonModel::Object(y) ==> x.dom() != y.dom() ==> !r,
        a@ is Text && !(b@ is Text) ==> !r,
        a@ is Array && !(b@ is Array) ==> !r,
        a@ is Object && !(b@ is Object) ==> !r,
        a@ is Null && b@ is Null ==> r,
        a@ is Null && !(b@ is Null) ==> !r,
        a@ is Bool && !(b@ is Bool) ==> !r,
        a@ is Number && !(b@ is Number) ==> !r,
{
    assert(r == same_json(a@, b@));
}

} // verus!
