//! What a sync of the project roots promises, said of the state before and
//! after it.

use vstd::prelude::*;

use crate::json::{field, json_read, json_text_pretty, Json, JsonModel};
use crate::order::{ascending, law_ascending_exists};
use crate::paths::{
    comparable, count_array_changes, deduped, differences, has_comparable, law_deduped, longer, normal_path,
    resolved, ThreadCwdStat,
};
use crate::text::{law_trim_is_idempotent, texts, trimmed};
use crate::workspace::{
    all_roots, filled_texts, law_sync_keeps_fields, read_workspace_roots_from_global_state, resolved_all,
    resolved_targets, stored, sync_changes, sync_workspace_roots, sync_workspace_state, synced_active,
    synced_fields, synced_order, synced_saved, text_array, with_resolved_keys, workspace_roots, SyncedState,
    WorkspaceSync,
};

verus! {

/// The paths that a field of the state holds: those of a list that are not
/// blank, without white space around them, or the one that stands there alone.
pub open spec fn holds_path(state: JsonModel, key: Seq<char>, path: Seq<char>) -> bool {
    match field(state, key) {
        Some(JsonModel::Array(items)) => trimmed(path) == path && path.len() > 0 && exists|i: int|
            0 <= i < items.len() && (#[trigger] items[i] matches JsonModel::Text(s) && trimmed(s) == path),
        Some(JsonModel::Text(s)) => s == path && trimmed(s).len() > 0,
        _ => false,
    }
}

/// Whether a path of the state is a root of a project, open or not.
pub open spec fn is_root(state: JsonModel, path: Seq<char>) -> bool {
    holds_path(state, "project-order"@, path) || holds_path(state, "electron-saved-workspace-roots"@, path)
        || holds_path(state, "active-workspace-roots"@, path)
}

proof fn lemma_filled_texts(items: Seq<JsonModel>, path: Seq<char>)
    ensures
        filled_texts(items).contains(path) <==> trimmed(path) == path && path.len() > 0 && exists|i: int|
            0 <= i < items.len() && (#[trigger] items[i] matches JsonModel::Text(s) && trimmed(s) == path),
    decreases items.len(),
{
    let all = filled_texts(items);
    if items.len() > 0 {
        let rest = items.drop_last();
        let before = filled_texts(rest);
        lemma_filled_texts(rest, path);
        assert forall|i: int| 0 <= i < rest.len() implies #[trigger] rest[i] == items[i] by {}
        if before.contains(path) {
            let k = choose|k: int| 0 <= k < before.len() && before[k] == path;
            assert(all[k] == path);
            let i = choose|i: int|
                0 <= i < rest.len() && (#[trigger] rest[i] matches JsonModel::Text(s) && trimmed(s) == path);
            assert(items[i] == rest[i]);
        }
        if items.last() is Text && trimmed(items.last()->Text_0).len() > 0 {
            let s = items.last()->Text_0;
            law_trim_is_idempotent(s);
            assert(all == before.push(trimmed(s)));
            assert(all.last() == trimmed(s));
            if trimmed(s) == path {
                assert(all[all.len() - 1] == path);
                assert(items[items.len() - 1] == JsonModel::Text(s));
            } else if all.contains(path) {
                let k = choose|k: int| 0 <= k < all.len() && all[k] == path;
                assert(before[k] == path);
            }
        } else {
            assert(all == before);
        }
        if exists|i: int|
            0 <= i < items.len() && (#[trigger] items[i] matches JsonModel::Text(s) && trimmed(s) == path) {
            let i = choose|i: int|
                0 <= i < items.len() && (#[trigger] items[i] matches JsonModel::Text(s) && trimmed(s) == path);
            if i < rest.len() {
                assert(rest[i] == items[i]);
            }
        }
    }
}

proof fn lemma_stored(state: JsonModel, key: Seq<char>, path: Seq<char>)
    ensures
        stored(state, key).contains(path) <==> holds_path(state, key, path),
{
    match field(state, key) {
        Some(JsonModel::Array(items)) => {
            lemma_filled_texts(items, path);
        },
        Some(JsonModel::Text(s)) => {
            if trimmed(s).len() > 0 {
                assert(seq![s][0] == s);
            }
        },
        _ => {},
    }
}

/// Whether a field of the state is a list with a text that means the place
/// `c`.
pub open spec fn lists_place(state: JsonModel, key: Seq<char>, c: Seq<char>) -> bool {
    field(state, key) matches Some(JsonModel::Array(items)) && exists|i: int|
        0 <= i < items.len() && (#[trigger] items[i] matches JsonModel::Text(s) && comparable(s) == Some(c))
}

proof fn lemma_lists_place(values: Seq<Seq<char>>, state: JsonModel, key: Seq<char>, c: Seq<char>)
    requires
        field(state, key) == Some(text_array(values)),
    ensures
        lists_place(state, key, c) <==> has_comparable(values, c),
{
    let items = text_array(values)->Array_0;
    assert(forall|i: int| 0 <= i < values.len() ==> #[trigger] items[i] == JsonModel::Text(values[i]));
    if has_comparable(values, c) {
        let i = choose|i: int| 0 <= i < values.len() && comparable(#[trigger] values[i]) == Some(c);
        assert(items[i] == JsonModel::Text(values[i]));
    }
    if lists_place(state, key, c) {
        let i = choose|i: int|
            0 <= i < items.len() && (#[trigger] items[i] matches JsonModel::Text(s) && comparable(s) == Some(c));
        assert(comparable(values[i]) == Some(c));
    }
}

pub proof fn lemma_from_input(paths: Seq<Seq<char>>, c: Seq<char>)
    ensures
        has_comparable(deduped(paths), c) <==> has_comparable(paths, c),
    decreases paths.len(),
{
    law_deduped(paths);
    if has_comparable(paths, c) {
        let i = choose|i: int| 0 <= i < paths.len() && comparable(#[trigger] paths[i]) == Some(c);
        assert(has_comparable(deduped(paths), comparable(paths[i])->0));
    }
    if paths.len() > 0 && has_comparable(deduped(paths), c) {
        let rest = paths.drop_last();
        lemma_from_input(rest, c);
        let all = deduped(paths);
        let k = choose|k: int| 0 <= k < all.len() && comparable(#[trigger] all[k]) == Some(c);
        if k < deduped(rest).len() {
            assert(all[k] == deduped(rest)[k]);
            assert(has_comparable(deduped(rest), c));
            let i = choose|i: int| 0 <= i < rest.len() && comparable(#[trigger] rest[i]) == Some(c);
            assert(comparable(paths[i]) == Some(c));
        } else {
            assert(comparable(paths[paths.len() - 1]) == Some(c));
        }
    }
}

/// Whether a path of the three lists resolves to the place `c`.
pub open spec fn leads_to(state: JsonModel, stats: Seq<ThreadCwdStat>, path: Seq<char>, c: Seq<char>) -> bool {
    is_root(state, path) && comparable(resolved(path, stats)) == Some(c)
}

proof fn lemma_resolved_all(paths: Seq<Seq<char>>, stats: Seq<ThreadCwdStat>, c: Seq<char>)
    ensures
        has_comparable(resolved_all(paths, stats), c) <==> exists|path: Seq<char>|
            #[trigger] paths.contains(path) && comparable(resolved(path, stats)) == Some(c),
{
    let all = resolved_all(paths, stats);
    if has_comparable(all, c) {
        let i = choose|i: int| 0 <= i < all.len() && comparable(#[trigger] all[i]) == Some(c);
        assert(paths.contains(paths[i]));
        assert(all[i] == resolved(paths[i], stats));
    }
    if exists|path: Seq<char>| #[trigger] paths.contains(path) && comparable(resolved(path, stats)) == Some(c) {
        let path = choose|path: Seq<char>| #[trigger]
            paths.contains(path) && comparable(resolved(path, stats)) == Some(c);
        let i = choose|i: int| 0 <= i < paths.len() && paths[i] == path;
        assert(all[i] == resolved(path, stats));
    }
}

proof fn lemma_sum_contains(a: Seq<Seq<char>>, b: Seq<Seq<char>>, path: Seq<char>)
    ensures
        (a + b).contains(path) <==> a.contains(path) || b.contains(path),
{
    let all = a + b;
    if a.contains(path) {
        let i = choose|i: int| 0 <= i < a.len() && a[i] == path;
        assert(all[i] == path);
    }
    if b.contains(path) {
        let i = choose|i: int| 0 <= i < b.len() && b[i] == path;
        assert(all[a.len() + i] == path);
    }
    if all.contains(path) {
        let i = choose|i: int| 0 <= i < all.len() && all[i] == path;
        if i < a.len() {
            assert(a[i] == path);
        } else {
            assert(b[i - a.len()] == path);
        }
    }
}

proof fn lemma_all_roots(state: JsonModel, path: Seq<char>)
    ensures
        all_roots(state).contains(path) <==> is_root(state, path),
{
    let order = stored(state, "project-order"@);
    let saved = stored(state, "electron-saved-workspace-roots"@);
    let active = stored(state, "active-workspace-roots"@);
    lemma_stored(state, "project-order"@, path);
    lemma_stored(state, "electron-saved-workspace-roots"@, path);
    lemma_stored(state, "active-workspace-roots"@, path);
    lemma_sum_contains(saved, active, path);
    lemma_sum_contains(order, saved, path);
    lemma_sum_contains(order + saved, active, path);
}

proof fn lemma_state_keys()
    ensures
        "electron-saved-workspace-roots"@ != "project-order"@,
        "electron-saved-workspace-roots"@ != "active-workspace-roots"@,
        "electron-saved-workspace-roots"@ != "electron-workspace-root-labels"@,
        "electron-saved-workspace-roots"@ != "open-in-target-preferences"@,
        "project-order"@ != "active-workspace-roots"@,
        "project-order"@ != "electron-workspace-root-labels"@,
        "project-order"@ != "open-in-target-preferences"@,
        "active-workspace-roots"@ != "electron-workspace-root-labels"@,
        "active-workspace-roots"@ != "open-in-target-preferences"@,
        "electron-workspace-root-labels"@ != "open-in-target-preferences"@,
{
    reveal_strlit("electron-saved-workspace-roots");
    assert("electron-saved-workspace-roots"@.len() == 30);
    reveal_strlit("project-order");
    assert("project-order"@.len() == 13);
    reveal_strlit("active-workspace-roots");
    assert("active-workspace-roots"@.len() == 22);
    reveal_strlit("electron-workspace-root-labels");
    assert("electron-workspace-root-labels"@.len() == 30);
    assert("electron-saved-workspace-roots"@[9] != "electron-workspace-root-labels"@[9]);
    reveal_strlit("open-in-target-preferences");
    assert("open-in-target-preferences"@.len() == 26);
}

/// A sync loses no root and invents none: afterwards the saved roots are a list
/// that holds, once each, exactly the places that the ordered, the saved and the
/// open roots led to, and the count that is told is their number.
pub proof fn law_no_root_is_lost(
    state: &Json,
    cwd_stats: Vec<ThreadCwdStat>,
    backup_missing: bool,
    file_path: &str,
    out: SyncedState,
    c: Seq<char>,
)
    requires
        call_ensures(sync_workspace_state, (state, &cwd_stats, backup_missing, file_path), Ok(out)),
    ensures
        lists_place(out.state@, "electron-saved-workspace-roots"@, c) <==> exists|path: Seq<char>| #[trigger]
            leads_to(state@, cwd_stats@, path, c),
        field(out.state@, "electron-saved-workspace-roots"@) matches Some(JsonModel::Array(items)) && items.len()
            == out.stats.saved_workspace_root_count && (forall|i: int, j: int|
            0 <= i < j < items.len() && #[trigger] items[i] is Text && #[trigger] items[j] is Text ==> comparable(
                items[i]->Text_0,
            ) != comparable(items[j]->Text_0)) && (forall|i: int|
            0 <= i < items.len() ==> (#[trigger] items[i] matches JsonModel::Text(s) && comparable(s) is Some)),
{
    let map = state@->Object_0;
    let stats = cwd_stats@;
    assert(out.state@ == JsonModel::Object(synced_fields(map, stats)));
    lemma_state_keys();
    let saved = synced_saved(state@, stats);
    assert(field(out.state@, "electron-saved-workspace-roots"@) == Some(text_array(saved)));
    lemma_lists_place(saved, out.state@, "electron-saved-workspace-roots"@, c);
    lemma_from_input(resolved_all(all_roots(state@), stats), c);
    lemma_resolved_all(all_roots(state@), stats, c);
    law_deduped(resolved_all(all_roots(state@), stats));
    let items = text_array(saved)->Array_0;
    assert(forall|i: int| 0 <= i < saved.len() ==> #[trigger] items[i] == JsonModel::Text(saved[i]));
    if exists|path: Seq<char>| #[trigger] leads_to(state@, stats, path, c) {
        let path = choose|path: Seq<char>| #[trigger] leads_to(state@, stats, path, c);
        lemma_all_roots(state@, path);
        assert(all_roots(state@).contains(path));
    }
    if exists|path: Seq<char>| #[trigger]
        all_roots(state@).contains(path) && comparable(resolved(path, stats)) == Some(c) {
        let path = choose|path: Seq<char>| #[trigger]
            all_roots(state@).contains(path) && comparable(resolved(path, stats)) == Some(c);
        lemma_all_roots(state@, path);
        assert(leads_to(state@, stats, path, c));
    }
}

/// Where projects have an order, it goes on holding exactly the places that the
/// ordered and the saved roots led to, and the first stays first.
pub proof fn law_order_is_kept(
    state: &Json,
    cwd_stats: Vec<ThreadCwdStat>,
    backup_missing: bool,
    file_path: &str,
    out: SyncedState,
    items: Seq<JsonModel>,
    first: Seq<char>,
    c: Seq<char>,
)
    requires
        call_ensures(sync_workspace_state, (state, &cwd_stats, backup_missing, file_path), Ok(out)),
        field(state@, "project-order"@) == Some(JsonModel::Array(items)),
        items.len() > 0,
        items[0] == JsonModel::Text(first),
        comparable(resolved(trimmed(first), cwd_stats@)) is Some,
        trimmed(first).len() > 0,
    ensures
        lists_place(out.state@, "project-order"@, c) <==> exists|path: Seq<char>|
            #![trigger resolved(path, cwd_stats@)]
            (holds_path(state@, "project-order"@, path) || holds_path(
                state@,
                "electron-saved-workspace-roots"@,
                path,
            )) && comparable(resolved(path, cwd_stats@)) == Some(c),
        field(out.state@, "project-order"@) matches Some(JsonModel::Array(next)) && next.len() > 0 && next[0]
            == JsonModel::Text(resolved(trimmed(first), cwd_stats@)),
{
    let map = state@->Object_0;
    let stats = cwd_stats@;
    assert(out.state@ == JsonModel::Object(synced_fields(map, stats)));
    lemma_state_keys();
    let order = stored(state@, "project-order"@);
    let saved = stored(state@, "electron-saved-workspace-roots"@);
    let both = order + saved;
    lemma_first_filled(items, first);
    assert(synced_order(state@, stats) == deduped(resolved_all(both, stats)));
    let next = synced_order(state@, stats);
    assert(field(out.state@, "project-order"@) == Some(text_array(next)));
    lemma_lists_place(next, out.state@, "project-order"@, c);
    lemma_from_input(resolved_all(both, stats), c);
    lemma_resolved_all(both, stats, c);
    assert(resolved_all(both, stats)[0] == resolved(trimmed(first), stats));
    lemma_first_stays(resolved_all(both, stats));
    assert(text_array(next)->Array_0[0] == JsonModel::Text(next[0]));
    if lists_place(out.state@, "project-order"@, c) {
        let path = choose|path: Seq<char>| #[trigger]
            both.contains(path) && comparable(resolved(path, stats)) == Some(c);
        lemma_sum_contains(order, saved, path);
        lemma_stored(state@, "project-order"@, path);
        lemma_stored(state@, "electron-saved-workspace-roots"@, path);
    }
    if exists|path: Seq<char>|
        #![trigger resolved(path, stats)]
        (holds_path(state@, "project-order"@, path) || holds_path(state@, "electron-saved-workspace-roots"@, path))
            && comparable(resolved(path, stats)) == Some(c) {
        let path = choose|path: Seq<char>|
            #![trigger resolved(path, stats)]
            (holds_path(state@, "project-order"@, path) || holds_path(state@, "electron-saved-workspace-roots"@, path))
                && comparable(resolved(path, stats)) == Some(c);
        lemma_sum_contains(order, saved, path);
        lemma_stored(state@, "project-order"@, path);
        lemma_stored(state@, "electron-saved-workspace-roots"@, path);
        assert(both.contains(path));
    }
}

proof fn lemma_first_filled(items: Seq<JsonModel>, first: Seq<char>)
    requires
        items.len() > 0,
        items[0] == JsonModel::Text(first),
        trimmed(first).len() > 0,
    ensures
        filled_texts(items).len() > 0,
        filled_texts(items)[0] == trimmed(first),
    decreases items.len(),
{
    if items.len() == 1 {
        assert(filled_texts(items.drop_last()) =~= Seq::<Seq<char>>::empty());
    } else {
        lemma_first_filled(items.drop_last(), first);
    }
}

pub proof fn lemma_first_stays(paths: Seq<Seq<char>>)
    requires
        paths.len() > 0,
        comparable(paths[0]) is Some,
    ensures
        deduped(paths).len() > 0,
        deduped(paths)[0] == paths[0],
    decreases paths.len(),
{
    if paths.len() == 1 {
        assert(deduped(paths.drop_last()) =~= Seq::<Seq<char>>::empty());
        assert(!has_comparable(deduped(paths.drop_last()), comparable(paths[0])->0));
    } else {
        lemma_first_stays(paths.drop_last());
    }
}

/// The roots that are open stay exactly those that are open, in a list where
/// there was one.
pub proof fn law_open_roots_are_kept(
    state: &Json,
    cwd_stats: Vec<ThreadCwdStat>,
    backup_missing: bool,
    file_path: &str,
    out: SyncedState,
    items: Seq<JsonModel>,
    c: Seq<char>,
)
    requires
        call_ensures(sync_workspace_state, (state, &cwd_stats, backup_missing, file_path), Ok(out)),
        field(state@, "active-workspace-roots"@) == Some(JsonModel::Array(items)),
    ensures
        lists_place(out.state@, "active-workspace-roots"@, c) <==> exists|path: Seq<char>|
            #![trigger resolved(path, cwd_stats@)]
            holds_path(state@, "active-workspace-roots"@, path) && comparable(resolved(path, cwd_stats@)) == Some(c),
{
    let map = state@->Object_0;
    let stats = cwd_stats@;
    assert(out.state@ == JsonModel::Object(synced_fields(map, stats)));
    lemma_state_keys();
    let active = stored(state@, "active-workspace-roots"@);
    let next = synced_active(state@, stats);
    assert(field(out.state@, "active-workspace-roots"@) == Some(text_array(next)));
    lemma_lists_place(next, out.state@, "active-workspace-roots"@, c);
    lemma_from_input(resolved_all(active, stats), c);
    lemma_resolved_all(active, stats, c);
    if lists_place(out.state@, "active-workspace-roots"@, c) {
        let path = choose|path: Seq<char>| #[trigger]
            active.contains(path) && comparable(resolved(path, stats)) == Some(c);
        lemma_stored(state@, "active-workspace-roots"@, path);
    }
    if exists|path: Seq<char>|
        #![trigger resolved(path, stats)]
        holds_path(state@, "active-workspace-roots"@, path) && comparable(resolved(path, stats)) == Some(c) {
        let path = choose|path: Seq<char>|
            #![trigger resolved(path, stats)]
            holds_path(state@, "active-workspace-roots"@, path) && comparable(resolved(path, stats)) == Some(c);
        lemma_stored(state@, "active-workspace-roots"@, path);
        assert(active.contains(path));
    }
}

/// One root that is open by itself stays a text and becomes what it resolves
/// to.
pub proof fn law_open_root_is_kept(
    state: &Json,
    cwd_stats: Vec<ThreadCwdStat>,
    backup_missing: bool,
    file_path: &str,
    out: SyncedState,
    path: Seq<char>,
)
    requires
        call_ensures(sync_workspace_state, (state, &cwd_stats, backup_missing, file_path), Ok(out)),
        field(state@, "active-workspace-roots"@) == Some(JsonModel::Text(path)),
        trimmed(path).len() > 0,
        comparable(resolved(path, cwd_stats@)) is Some,
    ensures
        field(out.state@, "active-workspace-roots"@) == Some(JsonModel::Text(resolved(path, cwd_stats@))),
{
    let map = state@->Object_0;
    let stats = cwd_stats@;
    assert(out.state@ == JsonModel::Object(synced_fields(map, stats)));
    lemma_state_keys();
    let active = stored(state@, "active-workspace-roots"@);
    assert(active =~= seq![path]);
    assert(resolved_all(active, stats)[0] == resolved(path, stats));
    lemma_first_stays(resolved_all(active, stats));
}

/// A sync changes nothing but the roots, their labels and what opens them.
pub proof fn law_other_fields_stay(
    state: &Json,
    cwd_stats: Vec<ThreadCwdStat>,
    backup_missing: bool,
    file_path: &str,
    out: SyncedState,
    key: Seq<char>,
)
    requires
        call_ensures(sync_workspace_state, (state, &cwd_stats, backup_missing, file_path), Ok(out)),
        key != "electron-saved-workspace-roots"@,
        key != "project-order"@,
        key != "active-workspace-roots"@,
        key != "electron-workspace-root-labels"@,
        key != "open-in-target-preferences"@,
    ensures
        field(out.state@, key) == field(state@, key),
{
    let map = state@->Object_0;
    assert(out.state@ == JsonModel::Object(synced_fields(map, cwd_stats@)));
    law_sync_keeps_fields(map, cwd_stats@, key);
}

/// Every label is kept under the place that its root resolves to, and there is
/// no label that was none before. A root that resolves to itself keeps its own.
pub proof fn law_labels_are_kept(
    state: &Json,
    cwd_stats: Vec<ThreadCwdStat>,
    backup_missing: bool,
    file_path: &str,
    out: SyncedState,
    labels: Map<Seq<char>, JsonModel>,
    root: Seq<char>,
)
    requires
        call_ensures(sync_workspace_state, (state, &cwd_stats, backup_missing, file_path), Ok(out)),
        field(state@, "electron-workspace-root-labels"@) == Some(JsonModel::Object(labels)),
        labels.dom().finite(),
    ensures
        field(out.state@, "electron-workspace-root-labels"@) matches Some(JsonModel::Object(next)) && {
            &&& labels.dom().contains(root) ==> next.dom().contains(resolved(root, cwd_stats@))
            &&& labels.dom().contains(root) && resolved(root, cwd_stats@) == root ==> next[root] == labels[root]
            &&& next.dom().contains(root) ==> exists|from: Seq<char>|
                #![trigger resolved(from, cwd_stats@)]
                labels.dom().contains(from) && resolved(from, cwd_stats@) == root && next[root] == labels[from]
        },
{
    let map = state@->Object_0;
    let stats = cwd_stats@;
    assert(out.state@ == JsonModel::Object(synced_fields(map, stats)));
    lemma_state_keys();
    let keys = ascending(labels.dom());
    law_ascending_exists(labels.dom());
    lemma_resolved_keys(labels, keys, stats, root);
    let next = with_resolved_keys(labels, keys, stats);
    assert(field(out.state@, "electron-workspace-root-labels"@) == Some(JsonModel::Object(next)));
    assert(forall|key: Seq<char>| keys.to_set().contains(key) == labels.dom().contains(key));
    assert(forall|key: Seq<char>| #[trigger] keys.contains(key) == keys.to_set().contains(key));
    if next.dom().contains(root) {
        let from = choose|from: Seq<char>|
            #![trigger resolved(from, stats)]
            keys.contains(from) && resolved(from, stats) == root && next[root] == labels[from];
        assert(labels.dom().contains(from) && resolved(from, stats) == root);
    }
}

proof fn lemma_resolved_keys(
    map: Map<Seq<char>, JsonModel>,
    keys: Seq<Seq<char>>,
    stats: Seq<ThreadCwdStat>,
    root: Seq<char>,
)
    ensures
        ({
            let next = with_resolved_keys(map, keys, stats);
            &&& keys.contains(root) ==> next.dom().contains(resolved(root, stats))
            &&& keys.contains(root) && resolved(root, stats) == root ==> next[root] == map[root]
            &&& next.dom().contains(root) ==> exists|from: Seq<char>|
                #![trigger resolved(from, stats)]
                keys.contains(from) && resolved(from, stats) == root && next[root] == map[from]
        }),
    decreases keys.len(),
{
    let next = with_resolved_keys(map, keys, stats);
    if keys.len() > 0 {
        let rest = keys.drop_last();
        let before = with_resolved_keys(map, rest, stats);
        lemma_resolved_keys(map, rest, stats, root);
        let key = keys.last();
        if keys.contains(root) && root != key {
            let i = choose|i: int| 0 <= i < keys.len() && keys[i] == root;
            assert(rest[i] == root);
        }
        if keys.contains(root) && resolved(root, stats) == root && root != key {
            assert(before.dom().contains(root));
        }
        if next.dom().contains(root) {
            if before.dom().contains(root) && next[root] == before[root] {
                let from = choose|from: Seq<char>|
                    #![trigger resolved(from, stats)]
                    rest.contains(from) && resolved(from, stats) == root && before[root] == map[from];
                let i = choose|i: int| 0 <= i < rest.len() && rest[i] == from;
                assert(keys[i] == from);
                assert(resolved(from, stats) == root);
            } else {
                assert(keys[keys.len() - 1] == key);
                assert(resolved(key, stats) == root);
            }
        }
    }
}

/// The roots that are read are, once each, the places of the ordered, the saved
/// and the open ones.
pub proof fn law_roots_read(state: &Json, r: Vec<String>, c: Seq<char>)
    requires
        call_ensures(read_workspace_roots_from_global_state, (state,), r),
    ensures
        (exists|i: int| 0 <= i < r@.len() && comparable((#[trigger] r@[i])@) == Some(c)) <==> (exists|path: Seq<char>|
            is_root(state@, path) && comparable(#[trigger] normal_path(path)) == Some(c)),
        forall|i: int, j: int| 0 <= i < j < r@.len() ==> comparable((#[trigger] r@[i])@) != comparable((#[trigger] r@[j])@),
{
    let roots = all_roots(state@);
    let plain = roots.map_values(|p: Seq<char>| normal_path(p));
    let to = texts(r@);
    assert(to == workspace_roots(state@));
    assert(to == deduped(plain));
    lemma_from_input(plain, c);
    law_deduped(plain);
    assert(forall|i: int| 0 <= i < to.len() ==> #[trigger] to[i] == r@[i]@);
    if exists|i: int| 0 <= i < r@.len() && comparable((#[trigger] r@[i])@) == Some(c) {
        let i = choose|i: int| 0 <= i < r@.len() && comparable((#[trigger] r@[i])@) == Some(c);
        assert(comparable(to[i]) == Some(c));
        let k = choose|k: int| 0 <= k < plain.len() && comparable(#[trigger] plain[k]) == Some(c);
        assert(plain[k] == normal_path(roots[k]));
        assert(roots.contains(roots[k]));
        lemma_all_roots(state@, roots[k]);
    }
    if exists|path: Seq<char>| is_root(state@, path) && comparable(#[trigger] normal_path(path)) == Some(c) {
        let path = choose|path: Seq<char>| is_root(state@, path) && comparable(#[trigger] normal_path(path)) == Some(c);
        lemma_all_roots(state@, path);
        let k = choose|k: int| 0 <= k < roots.len() && roots[k] == path;
        assert(comparable(plain[k]) == Some(c));
        let i = choose|i: int| 0 <= i < to.len() && comparable(#[trigger] to[i]) == Some(c);
        assert(comparable(r@[i]@) == Some(c));
    }
    assert forall|i: int, j: int| 0 <= i < j < r@.len() implies comparable((#[trigger] r@[i])@) != comparable(
        (#[trigger] r@[j])@,
    ) by {
        assert(comparable(to[i]) != comparable(to[j]));
    }
}

/// Two lists are told as changed in no place exactly when they are the same.
pub proof fn law_changes_counted(previous: Vec<String>, next: Vec<String>, r: usize)
    requires
        call_ensures(count_array_changes, (&previous, &next), r),
    ensures
        r == 0 <==> texts(previous@) == texts(next@),
        r <= previous@.len() || r <= next@.len(),
{
    let a = texts(previous@);
    let b = texts(next@);
    let n = longer(a.len(), b.len());
    lemma_differences(a, b, n);
    if r == 0 {
        if a.len() < b.len() {
            assert(is_same_at(a, b, a.len() as int));
        } else if b.len() < a.len() {
            assert(is_same_at(a, b, b.len() as int));
        } else {
            assert forall|k: int| 0 <= k < a.len() implies a[k] == b[k] by {
                assert(is_same_at(a, b, k));
            }
        }
        assert(a =~= b);
    }
}

spec fn is_same_at(a: Seq<Seq<char>>, b: Seq<Seq<char>>, k: int) -> bool {
    k < a.len() && k < b.len() && a[k] == b[k]
}

proof fn lemma_differences(a: Seq<Seq<char>>, b: Seq<Seq<char>>, n: nat)
    requires
        n <= longer(a.len(), b.len()),
    ensures
        differences(a, b, n) <= n,
        differences(a, b, n) == 0 <==> forall|k: int| 0 <= k < n ==> #[trigger] is_same_at(a, b, k),
    decreases n,
{
    if n > 0 {
        lemma_differences(a, b, (n - 1) as nat);
        let k = n - 1;
        if differences(a, b, n) == 0 {
            assert(is_same_at(a, b, k));
        }
        if forall|k: int| 0 <= k < n ==> #[trigger] is_same_at(a, b, k) {
            assert(is_same_at(a, b, n - 1));
        }
    }
}

/// The file of the state is written exactly when something changed or its copy
/// is missing, and then it holds the synced state.
pub proof fn law_state_file(
    text: &str,
    state: &Json,
    cwd_stats: Vec<ThreadCwdStat>,
    backup_missing: bool,
    file_path: &str,
    out: SyncedState,
    pretty: Result<String, String>,
    r: Result<WorkspaceSync, String>,
)
    requires
        json_read(text@) == Ok::<JsonModel, Seq<char>>(state@),
        call_ensures(sync_workspace_state, (state, &cwd_stats, backup_missing, file_path), Ok(out)),
        call_ensures(json_text_pretty, (&out.state,), pretty),
        call_ensures(sync_workspace_roots, (text, &cwd_stats, backup_missing, file_path), r),
    ensures
        r matches Ok(sync) && pretty matches Ok(written) && {
            &&& sync.stats.updated == out.stats.updated
            &&& sync.stats.saved_workspace_root_count == out.stats.saved_workspace_root_count
            &&& sync.stats.updated_workspace_roots == out.stats.updated_workspace_roots
            &&& sync.next_text is Some <==> sync.stats.updated
            &&& sync.next_text matches Some(next) ==> next@ == written@ + "\n"@
        },
        backup_missing ==> out.stats.updated,
{
    let map = state@->Object_0;
    assert(out.state@ == JsonModel::Object(synced_fields(map, cwd_stats@)));
    assert(JsonModel::Object(map) == state@);
}

/// A sync that is told as changing nothing leaves the saved roots what they
/// were.
pub proof fn law_unchanged(
    state: &Json,
    cwd_stats: Vec<ThreadCwdStat>,
    file_path: &str,
    out: SyncedState,
    items: Seq<JsonModel>,
)
    requires
        call_ensures(sync_workspace_state, (state, &cwd_stats, false, file_path), Ok(out)),
        !out.stats.updated,
        field(out.state@, "electron-saved-workspace-roots"@) == Some(JsonModel::Array(items)),
    ensures
        out.stats.updated_workspace_roots == 0,
        forall|i: int|
            0 <= i < items.len() ==> (#[trigger] items[i] matches JsonModel::Text(path) && holds_path(
                state@,
                "electron-saved-workspace-roots"@,
                path,
            )),
{
    let map = state@->Object_0;
    let stats = cwd_stats@;
    assert(out.state@ == JsonModel::Object(synced_fields(map, stats)));
    lemma_state_keys();
    let before = stored(state@, "electron-saved-workspace-roots"@);
    let saved = synced_saved(state@, stats);
    assert(!sync_changes(state@, stats));
    assert(before == saved);
    lemma_differences(before, saved, longer(before.len(), saved.len()));
    assert(forall|k: int| 0 <= k < before.len() ==> #[trigger] is_same_at(before, saved, k));
    assert(items == text_array(saved)->Array_0);
    assert forall|i: int| 0 <= i < items.len() implies (#[trigger] items[i] matches JsonModel::Text(path) && holds_path(
        state@,
        "electron-saved-workspace-roots"@,
        path,
    )) by {
        assert(items[i] == JsonModel::Text(saved[i]));
        assert(before.contains(saved[i]));
        lemma_stored(state@, "electron-saved-workspace-roots"@, saved[i]);
    }
}

/// Where projects have no order yet, they get one of the saved roots, in so far
/// as these resolve to themselves.
pub proof fn law_order_is_made(
    state: &Json,
    cwd_stats: Vec<ThreadCwdStat>,
    backup_missing: bool,
    file_path: &str,
    out: SyncedState,
    c: Seq<char>,
)
    requires
        call_ensures(sync_workspace_state, (state, &cwd_stats, backup_missing, file_path), Ok(out)),
        field(state@, "project-order"@) is None,
        forall|path: Seq<char>|
            is_root(state@, path) && comparable(#[trigger] resolved(path, cwd_stats@)) is Some ==> resolved(
                resolved(path, cwd_stats@),
                cwd_stats@,
            ) == resolved(path, cwd_stats@),
    ensures
        lists_place(out.state@, "project-order"@, c) <==> lists_place(
            out.state@,
            "electron-saved-workspace-roots"@,
            c,
        ),
{
    let map = state@->Object_0;
    let stats = cwd_stats@;
    assert(out.state@ == JsonModel::Object(synced_fields(map, stats)));
    lemma_state_keys();
    let saved = synced_saved(state@, stats);
    let order = synced_order(state@, stats);
    assert(stored(state@, "project-order"@).len() == 0);
    let again = resolved_all(saved, stats);
    law_deduped(resolved_all(all_roots(state@), stats));
    assert(again =~= saved) by {
        assert forall|i: int| 0 <= i < saved.len() implies again[i] == saved[i] by {
            lemma_deduped_from(resolved_all(all_roots(state@), stats), i);
            let k = choose|k: int|
                0 <= k < all_roots(state@).len() && #[trigger] resolved_all(all_roots(state@), stats)[k] == saved[i];
            assert(all_roots(state@).contains(all_roots(state@)[k]));
            lemma_all_roots(state@, all_roots(state@)[k]);
            assert(saved[i] == resolved(all_roots(state@)[k], stats));
            assert(comparable(saved[i]) is Some);
        }
    }
    assert(field(out.state@, "project-order"@) == Some(text_array(order)));
    assert(field(out.state@, "electron-saved-workspace-roots"@) == Some(text_array(saved)));
    lemma_lists_place(order, out.state@, "project-order"@, c);
    lemma_lists_place(saved, out.state@, "electron-saved-workspace-roots"@, c);
    lemma_from_input(saved, c);
}

proof fn lemma_deduped_from(paths: Seq<Seq<char>>, i: int)
    requires
        0 <= i < deduped(paths).len(),
    ensures
        exists|k: int| 0 <= k < paths.len() && #[trigger] paths[k] == deduped(paths)[i],
    decreases paths.len(),
{
    let rest = paths.drop_last();
    if i < deduped(rest).len() {
        lemma_deduped_from(rest, i);
        let k = choose|k: int| 0 <= k < rest.len() && #[trigger] rest[k] == deduped(rest)[i];
        assert(paths[k] == deduped(paths)[i]);
    } else {
        assert(paths[paths.len() - 1] == deduped(paths)[i]);
    }
}

/// What opens a project is kept under the place that its root resolves to, and
/// the other preferences stay.
pub proof fn law_open_targets_are_kept(
    state: &Json,
    cwd_stats: Vec<ThreadCwdStat>,
    backup_missing: bool,
    file_path: &str,
    out: SyncedState,
    prefs: Map<Seq<char>, JsonModel>,
    targets: Map<Seq<char>, JsonModel>,
    root: Seq<char>,
    key: Seq<char>,
)
    requires
        call_ensures(sync_workspace_state, (state, &cwd_stats, backup_missing, file_path), Ok(out)),
        field(state@, "open-in-target-preferences"@) == Some(JsonModel::Object(prefs)),
        prefs.dom().contains("perPath"@) && prefs["perPath"@] == JsonModel::Object(targets),
        targets.dom().finite(),
    ensures
        field(out.state@, "open-in-target-preferences"@) matches Some(next) && {
            &&& key != "perPath"@ ==> field(next, key) == field(JsonModel::Object(prefs), key)
            &&& field(next, "perPath"@) matches Some(JsonModel::Object(moved)) && {
                &&& targets.dom().contains(root) ==> moved.dom().contains(resolved(root, cwd_stats@))
                &&& targets.dom().contains(root) && resolved(root, cwd_stats@) == root ==> moved[root] == targets[root]
                &&& moved.dom().contains(root) ==> exists|from: Seq<char>|
                    #![trigger resolved(from, cwd_stats@)]
                    targets.dom().contains(from) && resolved(from, cwd_stats@) == root && moved[root] == targets[from]
            }
        },
{
    let map = state@->Object_0;
    let stats = cwd_stats@;
    assert(out.state@ == JsonModel::Object(synced_fields(map, stats)));
    lemma_state_keys();
    let keys = ascending(targets.dom());
    law_ascending_exists(targets.dom());
    lemma_resolved_keys(targets, keys, stats, root);
    let moved = with_resolved_keys(targets, keys, stats);
    assert(field(out.state@, "open-in-target-preferences"@) == Some(resolved_targets(JsonModel::Object(prefs), stats)));
    assert(forall|key: Seq<char>| keys.to_set().contains(key) == targets.dom().contains(key));
    assert(forall|key: Seq<char>| #[trigger] keys.contains(key) == keys.to_set().contains(key));
    if moved.dom().contains(root) {
        let from = choose|from: Seq<char>|
            #![trigger resolved(from, stats)]
            keys.contains(from) && resolved(from, stats) == root && moved[root] == targets[from];
        assert(targets.dom().contains(from) && resolved(from, stats) == root);
    }
}

} // verus!
