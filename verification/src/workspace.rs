//! The workspace roots in the global state of Codex.

use vstd::prelude::*;

use crate::counts::{counts_line, format_counts, tally, Counts};
use crate::json::{
    equal_json, field, fields_model, json_model, json_pretty, json_read, json_text_pretty,
    lemma_fields_finite, lemma_models, models, opt_json, parse_json, same_json, set_field, Json, JsonModel,
};
use crate::order::{ascending, sort_distinct};
use crate::paths::{
    comparable, count_array_changes, dedupe_paths, deduped, differences, is_verbatim, longer, normal_path,
    normalize_comparable_path, resolve_stored_path, resolved, to_normal_workspace_path, ThreadCwdStat,
};
use crate::text::{
    blank, decimal, decimal_text, is_blank, join, joined, opt_text, same, starts_with, texts, trim, trimmed,
};

verus! {

pub const GLOBAL_STATE_FILE_BASENAME: &'static str = ".codex-global-state.json";

pub const GLOBAL_STATE_BACKUP_FILE_BASENAME: &'static str = ".codex-global-state.json.bak";

pub const SAVED_ROOTS: &'static str = "electron-saved-workspace-roots";

pub const PROJECT_ORDER: &'static str = "project-order";

pub const ACTIVE_ROOTS: &'static str = "active-workspace-roots";

pub const ROOT_LABELS: &'static str = "electron-workspace-root-labels";

pub const OPEN_TARGETS: &'static str = "open-in-target-preferences";

/// The texts among the values, trimmed, those without white space alone.
pub open spec fn filled_texts(items: Seq<JsonModel>) -> Seq<Seq<char>>
    decreases items.len(),
{
    if items.len() == 0 {
        Seq::empty()
    } else {
        let before = filled_texts(items.drop_last());
        match items.last() {
            JsonModel::Text(s) => if trimmed(s).len() > 0 {
                before.push(trimmed(s))
            } else {
                before
            },
            _ => before,
        }
    }
}

/// The paths that a stored value lists: those of an array, or a single one.
pub open spec fn path_list(value: Option<JsonModel>) -> Seq<Seq<char>> {
    match value {
        Some(JsonModel::Array(items)) => filled_texts(items),
        Some(JsonModel::Text(s)) => if trimmed(s).len() > 0 {
            seq![s]
        } else {
            Seq::empty()
        },
        _ => Seq::empty(),
    }
}

pub fn to_path_array(value: Option<&Json>) -> (r: Vec<String>)
    ensures
        texts(r@) == path_list(opt_json(value)),
{
    let mut out: Vec<String> = Vec::new();
    match value {
        Some(Json::Array(items)) => {
            let ghost all = models(items@);
            proof {
                lemma_models(items@);
            }
            for i in 0..items.len()
                invariant
                    all == models(items@),
                    all.len() == items@.len(),
                    forall|k: int| 0 <= k < items@.len() ==> #[trigger] all[k] == items@[k]@,
                    texts(out@) == filled_texts(all.take(i as int)),
            {
                assert(all.take(i + 1).drop_last() =~= all.take(i as int));
                let ghost before = texts(out@);
                if let Json::Text(s) = &items[i] {
                    let t = trim(s.as_str());
                    if !t.is_empty() {
                        out.push(t.to_owned());
                        assert(texts(out@) =~= before.push(t@));
                    }
                }
            }
            assert(all.take(all.len() as int) =~= all);
        },
        Some(Json::Text(s)) => {
            if !trim(s.as_str()).is_empty() {
                out.push(s.clone());
                assert(texts(out@) =~= seq![s@]);
            }
        },
        _ => {},
    }
    out
}

/// The array of the texts.
pub open spec fn text_array(values: Seq<Seq<char>>) -> JsonModel {
    JsonModel::Array(values.map_values(|s: Seq<char>| JsonModel::Text(s)))
}

pub fn strings_to_json_array(values: &Vec<String>) -> (r: Json)
    ensures
        r@ == text_array(texts(values@)),
{
    let mut out: Vec<Json> = Vec::new();
    let ghost all = texts(values@).map_values(|s: Seq<char>| JsonModel::Text(s));
    for i in 0..values.len()
        invariant
            all == texts(values@).map_values(|s: Seq<char>| JsonModel::Text(s)),
            models(out@) == all.take(i as int),
    {
        let ghost before = out@;
        out.push(Json::Text(values[i].clone()));
        assert(out@.drop_last() =~= before);
        assert(json_model(out@.last()) == all[i as int]);
        assert(models(out@) == models(before).push(all[i as int]));
        assert(all.take(i + 1) =~= all.take(i as int).push(all[i as int]));
    }
    assert(all.take(all.len() as int) =~= all);
    Json::Array(out)
}

/// The values of `map` under their resolved keys. Where two keys lead to one,
/// the value of the first stays, unless the later key is that key itself.
pub open spec fn with_resolved_keys(
    map: Map<Seq<char>, JsonModel>,
    keys: Seq<Seq<char>>,
    stats: Seq<ThreadCwdStat>,
) -> Map<Seq<char>, JsonModel>
    decreases keys.len(),
{
    if keys.len() == 0 {
        Map::empty()
    } else {
        let before = with_resolved_keys(map, keys.drop_last(), stats);
        let key = keys.last();
        let target = resolved(key, stats);
        if !before.dom().contains(target) || target == key {
            before.insert(target, map[key])
        } else {
            before
        }
    }
}

/// A value with its keys resolved, if it is an object.
pub open spec fn resolved_object(value: JsonModel, stats: Seq<ThreadCwdStat>) -> JsonModel {
    match value {
        JsonModel::Object(map) => JsonModel::Object(with_resolved_keys(map, ascending(map.dom()), stats)),
        other => other,
    }
}

fn keys_of(fields: &Vec<(String, Json)>) -> (r: Vec<String>)
    ensures
        texts(r@) == ascending(fields_model(fields@).dom()),
        texts(r@).to_set() == fields_model(fields@).dom(),
{
    let mut keys: Vec<String> = Vec::new();
    for i in 0..fields.len()
        invariant
            keys@.len() == i,
            forall|k: int| 0 <= k < i ==> (#[trigger] keys@[k])@ == fields@[k].0@,
    {
        keys.push(fields[i].0.clone());
    }
    proof {
        lemma_fields_finite(fields@);
        let all = texts(keys@);
        let dom = fields_model(fields@).dom();
        assert forall|t: Seq<char>| #[trigger] all.to_set().contains(t) <==> dom.contains(t) by {
            if all.contains(t) {
                let k = choose|k: int| 0 <= k < all.len() && all[k] == t;
                assert(keys@[k]@ == fields@[k].0@);
                assert(fields@[k].0@ == t);
            }
            if dom.contains(t) {
                let k = choose|k: int| 0 <= k < fields@.len() && (#[trigger] fields@[k]).0@ == t;
                assert(keys@[k]@ == t);
                assert(all[k] == t);
            }
        }
        assert(all.to_set() =~= dom);
    }
    sort_distinct(&keys)
}

pub fn copy_resolved_object_keys(input: &Json, cwd_stats: &Vec<ThreadCwdStat>) -> (r: Json)
    ensures
        r@ == resolved_object(input@, cwd_stats@),
{
    match input {
        Json::Object(fields) => {
            let ghost map = fields_model(fields@);
            let keys = keys_of(fields);
            let ghost order = texts(keys@);
            let mut out: Vec<(String, Json)> = Vec::new();
            for i in 0..keys.len()
                invariant
                    *input == Json::Object(*fields),
                    map == fields_model(fields@),
                    order == texts(keys@),
                    order.to_set() == map.dom(),
                    fields_model(out@) == with_resolved_keys(map, order.take(i as int), cwd_stats@),
            {
                assert(order.take(i + 1).drop_last() =~= order.take(i as int));
                assert(order[i as int] == keys@[i as int]@);
                assert(order.to_set().contains(order[i as int]));
                let target = resolve_stored_path(keys[i].as_str(), cwd_stats);
                let so_far = Json::Object(out);
                let known = so_far.get(target.as_str()).is_some();
                out = match so_far {
                    Json::Object(inner) => inner,
                    _ => Vec::new(),
                };
                if !known || same(target.as_str(), keys[i].as_str()) {
                    if let Some(value) = input.get(keys[i].as_str()) {
                        set_field(&mut out, target.as_str(), value.duplicate());
                    }
                }
            }
            assert(order.take(order.len() as int) =~= order);
            Json::Object(out)
        },
        _ => input.duplicate(),
    }
}

/// The paths under which the places of stored paths are used most.
pub open spec fn resolved_all(paths: Seq<Seq<char>>, stats: Seq<ThreadCwdStat>) -> Seq<Seq<char>> {
    paths.map_values(|p: Seq<char>| resolved(p, stats))
}

fn resolve_all(paths: &Vec<String>, cwd_stats: &Vec<ThreadCwdStat>) -> (r: Vec<String>)
    ensures
        texts(r@) == resolved_all(texts(paths@), cwd_stats@),
{
    let mut out: Vec<String> = Vec::new();
    let ghost all = resolved_all(texts(paths@), cwd_stats@);
    for i in 0..paths.len()
        invariant
            all == resolved_all(texts(paths@), cwd_stats@),
            texts(out@) == all.take(i as int),
    {
        let ghost before = texts(out@);
        out.push(resolve_stored_path(paths[i].as_str(), cwd_stats));
        assert(texts(out@) =~= before.push(all[i as int]));
        assert(all.take(i + 1) =~= all.take(i as int).push(all[i as int]));
    }
    assert(all.take(all.len() as int) =~= all);
    out
}

fn concat_paths(a: &Vec<String>, b: &Vec<String>) -> (r: Vec<String>)
    ensures
        texts(r@) == texts(a@) + texts(b@),
{
    let mut out: Vec<String> = Vec::new();
    for i in 0..a.len()
        invariant
            texts(out@) == texts(a@).take(i as int),
    {
        let ghost before = texts(out@);
        out.push(a[i].clone());
        assert(texts(out@) =~= before.push(a@[i as int]@));
        assert(texts(a@).take(i + 1) =~= texts(a@).take(i as int).push(a@[i as int]@));
    }
    for i in 0..b.len()
        invariant
            texts(out@) == texts(a@) + texts(b@).take(i as int),
    {
        let ghost before = texts(out@);
        out.push(b[i].clone());
        assert(texts(out@) =~= before.push(b@[i as int]@));
        assert(texts(out@) =~= texts(a@) + texts(b@).take(i + 1));
    }
    assert(texts(out@) =~= texts(a@) + texts(b@));
    out
}

/// The paths stored under a key of the global state.
pub open spec fn stored(state: JsonModel, key: Seq<char>) -> Seq<Seq<char>> {
    path_list(field(state, key))
}

/// All workspace roots of the global state: in the order of the projects,
/// where there is one, then the saved ones and the active ones.
pub open spec fn all_roots(state: JsonModel) -> Seq<Seq<char>> {
    let order = stored(state, PROJECT_ORDER@);
    if order.len() == 0 {
        stored(state, SAVED_ROOTS@) + stored(state, ACTIVE_ROOTS@)
    } else {
        order + stored(state, SAVED_ROOTS@) + stored(state, ACTIVE_ROOTS@)
    }
}

/// The workspace roots that the global state names, each place once.
pub open spec fn workspace_roots(state: JsonModel) -> Seq<Seq<char>> {
    deduped(all_roots(state).map_values(|p: Seq<char>| normal_path(p)))
}

pub open spec fn synced_saved(state: JsonModel, stats: Seq<ThreadCwdStat>) -> Seq<Seq<char>> {
    deduped(resolved_all(all_roots(state), stats))
}

pub open spec fn synced_order(state: JsonModel, stats: Seq<ThreadCwdStat>) -> Seq<Seq<char>> {
    let order = stored(state, PROJECT_ORDER@);
    deduped(
        resolved_all(
            if order.len() == 0 {
                synced_saved(state, stats)
            } else {
                order + stored(state, SAVED_ROOTS@)
            },
            stats,
        ),
    )
}

pub open spec fn synced_active(state: JsonModel, stats: Seq<ThreadCwdStat>) -> Seq<Seq<char>> {
    deduped(resolved_all(stored(state, ACTIVE_ROOTS@), stats))
}

/// The active roots in the form in which they were stored: an array stays an
/// array, a single path stays one.
pub open spec fn synced_active_value(state: JsonModel, stats: Seq<ThreadCwdStat>) -> JsonModel {
    let original = field(state, ACTIVE_ROOTS@);
    let next = synced_active(state, stats);
    if original matches Some(JsonModel::Array(_)) {
        text_array(next)
    } else if next.len() > 0 {
        JsonModel::Text(next[0])
    } else {
        match original {
            Some(v) => v,
            None => JsonModel::Null,
        }
    }
}

pub open spec fn synced_labels(state: JsonModel, stats: Seq<ThreadCwdStat>) -> Option<JsonModel> {
    match field(state, ROOT_LABELS@) {
        Some(v) => Some(resolved_object(v, stats)),
        None => None,
    }
}

/// Preferences with the keys of their paths resolved.
pub open spec fn resolved_targets(value: JsonModel, stats: Seq<ThreadCwdStat>) -> JsonModel {
    match value {
        JsonModel::Object(map) => if map.dom().contains("perPath"@) {
            JsonModel::Object(map.insert("perPath"@, resolved_object(map["perPath"@], stats)))
        } else {
            value
        },
        other => other,
    }
}

pub open spec fn synced_targets(state: JsonModel, stats: Seq<ThreadCwdStat>) -> Option<JsonModel> {
    match field(state, OPEN_TARGETS@) {
        Some(v) => Some(resolved_targets(v, stats)),
        None => None,
    }
}

/// `map` with the value under the key, if there is one.
pub open spec fn insert_some(map: Map<Seq<char>, JsonModel>, key: Seq<char>, value: Option<JsonModel>) -> Map<
    Seq<char>,
    JsonModel,
> {
    match value {
        Some(v) => map.insert(key, v),
        None => map,
    }
}

/// The global state with its workspace roots synced.
pub open spec fn synced_fields(map: Map<Seq<char>, JsonModel>, stats: Seq<ThreadCwdStat>) -> Map<
    Seq<char>,
    JsonModel,
> {
    let state = JsonModel::Object(map);
    insert_some(
        insert_some(
            map.insert(SAVED_ROOTS@, text_array(synced_saved(state, stats))).insert(
                PROJECT_ORDER@,
                text_array(synced_order(state, stats)),
            ).insert(ACTIVE_ROOTS@, synced_active_value(state, stats)),
            ROOT_LABELS@,
            synced_labels(state, stats),
        ),
        OPEN_TARGETS@,
        synced_targets(state, stats),
    )
}

/// Whether a value differs from the one that is to replace it, if one is.
pub open spec fn is_replaced(original: Option<JsonModel>, next: Option<JsonModel>) -> bool {
    match (original, next) {
        (_, None) => false,
        (None, Some(_)) => true,
        (Some(a), Some(b)) => !same_json(a, b),
    }
}

/// Whether syncing changes anything in the global state.
pub open spec fn sync_changes(state: JsonModel, stats: Seq<ThreadCwdStat>) -> bool {
    ||| stored(state, SAVED_ROOTS@) != synced_saved(state, stats)
    ||| stored(state, PROJECT_ORDER@) != synced_order(state, stats)
    ||| is_replaced(field(state, ACTIVE_ROOTS@), Some(synced_active_value(state, stats)))
    ||| is_replaced(field(state, ROOT_LABELS@), synced_labels(state, stats))
    ||| is_replaced(field(state, OPEN_TARGETS@), synced_targets(state, stats))
}

/// What syncing the workspace roots did.
pub struct WorkspaceRootSyncStats {
    pub present: bool,
    pub updated: bool,
    pub updated_workspace_roots: usize,
    pub saved_workspace_root_count: usize,
}

impl WorkspaceRootSyncStats {
    /// What it did where there is no global state.
    pub fn absent() -> (r: WorkspaceRootSyncStats)
        ensures
            !r.present,
            !r.updated,
            r.updated_workspace_roots == 0,
            r.saved_workspace_root_count == 0,
    {
        WorkspaceRootSyncStats {
            present: false,
            updated: false,
            updated_workspace_roots: 0,
            saved_workspace_root_count: 0,
        }
    }
}

fn same_texts(a: &Vec<String>, b: &Vec<String>) -> (r: bool)
    ensures
        r == (texts(a@) == texts(b@)),
{
    assert(texts(a@).len() == a@.len() && texts(b@).len() == b@.len());
    if a.len() != b.len() {
        return false;
    }
    for i in 0..a.len()
        invariant
            a@.len() == b@.len(),
            forall|k: int| 0 <= k < i ==> (#[trigger] a@[k])@ == b@[k]@,
    {
        if !same(a[i].as_str(), b[i].as_str()) {
            assert(texts(a@)[i as int] != texts(b@)[i as int]);
            return false;
        }
    }
    assert(texts(a@) =~= texts(b@));
    true
}

fn replaced_by(original: Option<&Json>, next: &Json) -> (r: bool)
    ensures
        r == is_replaced(opt_json(original), Some(next@)),
{
    match original {
        None => true,
        Some(value) => !equal_json(value, next),
    }
}

fn resolve_targets(value: &Json, cwd_stats: &Vec<ThreadCwdStat>) -> (r: Json)
    ensures
        r@ == resolved_targets(value@, cwd_stats@),
{
    match value {
        Json::Object(_) => {
            match value.get("perPath") {
                Some(per_path) => {
                    let next = copy_resolved_object_keys(per_path, cwd_stats);
                    match value.duplicate() {
                        Json::Object(fields) => {
                            let mut fields = fields;
                            set_field(&mut fields, "perPath", next);
                            Json::Object(fields)
                        },
                        other => other,
                    }
                },
                None => value.duplicate(),
            }
        },
        _ => value.duplicate(),
    }
}

/// A global state that is synced, and what that changed.
pub struct SyncedState {
    pub state: Json,
    pub stats: WorkspaceRootSyncStats,
}

/// Syncs the workspace roots of a global state that was read from
/// `file_path`. Where its backup is missing, it counts as updated.
pub fn sync_workspace_state(
    state: &Json,
    cwd_stats: &Vec<ThreadCwdStat>,
    backup_missing: bool,
    file_path: &str,
) -> (r: Result<SyncedState, String>)
    ensures
        match (state@, r) {
            (JsonModel::Object(map), Ok(synced)) => {
                &&& synced.state@ == JsonModel::Object(synced_fields(map, cwd_stats@))
                &&& synced.stats.present
                &&& synced.stats.updated == (sync_changes(state@, cwd_stats@) || backup_missing)
                &&& synced.stats.updated_workspace_roots == differences(
                    stored(state@, SAVED_ROOTS@),
                    synced_saved(state@, cwd_stats@),
                    longer(stored(state@, SAVED_ROOTS@).len(), synced_saved(state@, cwd_stats@).len()),
                )
                &&& synced.stats.saved_workspace_root_count == synced_saved(state@, cwd_stats@).len()
            },
            (JsonModel::Object(_), Err(_)) => false,
            (_, Err(e)) => e@ == file_path@ + " 不是 JSON object，无法同步项目根路径缓存。"@,
            (_, Ok(_)) => false,
        },
{
    let fields = match state.duplicate() {
        Json::Object(fields) => fields,
        _ => {
            return Err(file_path.to_owned().concat(" 不是 JSON object，无法同步项目根路径缓存。"));
        },
    };
    let saved = to_path_array(state.get(SAVED_ROOTS));
    let order = to_path_array(state.get(PROJECT_ORDER));
    let active = to_path_array(state.get(ACTIVE_ROOTS));
    let all = if order.len() == 0 {
        concat_paths(&saved, &active)
    } else {
        concat_paths(&concat_paths(&order, &saved), &active)
    };
    assert(texts(all@) == all_roots(state@));
    let next_saved = dedupe_paths(&resolve_all(&all, cwd_stats));
    let next_order = if order.len() == 0 {
        dedupe_paths(&resolve_all(&next_saved, cwd_stats))
    } else {
        dedupe_paths(&resolve_all(&concat_paths(&order, &saved), cwd_stats))
    };
    let next_active = dedupe_paths(&resolve_all(&active, cwd_stats));
    let original_active = state.get(ACTIVE_ROOTS);
    let active_value = match original_active {
        Some(Json::Array(_)) => strings_to_json_array(&next_active),
        other => if next_active.len() > 0 {
            assert(texts(next_active@)[0] == next_active@[0]@);
            Json::Text(next_active[0].clone())
        } else {
            match other {
                Some(v) => v.duplicate(),
                None => Json::Null,
            }
        },
    };
    assert(active_value@ == synced_active_value(state@, cwd_stats@));
    let mut updated = backup_missing || !same_texts(&saved, &next_saved) || !same_texts(&order, &next_order)
        || replaced_by(original_active, &active_value);
    let mut next = fields;
    set_field(&mut next, SAVED_ROOTS, strings_to_json_array(&next_saved));
    set_field(&mut next, PROJECT_ORDER, strings_to_json_array(&next_order));
    set_field(&mut next, ACTIVE_ROOTS, active_value);
    if let Some(labels) = state.get(ROOT_LABELS) {
        let next_labels = copy_resolved_object_keys(labels, cwd_stats);
        updated = updated || replaced_by(Some(labels), &next_labels);
        set_field(&mut next, ROOT_LABELS, next_labels);
    }
    if let Some(targets) = state.get(OPEN_TARGETS) {
        let next_targets = resolve_targets(targets, cwd_stats);
        updated = updated || replaced_by(Some(targets), &next_targets);
        set_field(&mut next, OPEN_TARGETS, next_targets);
    }
    let stats = WorkspaceRootSyncStats {
        present: true,
        updated,
        updated_workspace_roots: count_array_changes(&saved, &next_saved),
        saved_workspace_root_count: next_saved.len(),
    };
    Ok(SyncedState { state: Json::Object(next), stats })
}

/// A global state to be written, if it is, and what syncing did.
pub struct WorkspaceSync {
    pub next_text: Option<String>,
    pub stats: WorkspaceRootSyncStats,
}

/// Syncs the workspace roots in the text of a global state. The new text is
/// for the state and for its backup alike.
pub fn sync_workspace_roots(
    original_text: &str,
    cwd_stats: &Vec<ThreadCwdStat>,
    backup_missing: bool,
    file_path: &str,
) -> (r: Result<WorkspaceSync, String>)
    ensures
        match json_read(original_text@) {
            Err(reason) => r matches Err(e) && e@ == reason,
            Ok(JsonModel::Object(map)) => {
                let state = JsonModel::Object(map);
                r matches Ok(sync) && {
                    &&& sync.stats.present
                    &&& sync.stats.updated == (sync_changes(state, cwd_stats@) || backup_missing)
                    &&& sync.stats.updated_workspace_roots == differences(
                        stored(state, SAVED_ROOTS@),
                        synced_saved(state, cwd_stats@),
                        longer(stored(state, SAVED_ROOTS@).len(), synced_saved(state, cwd_stats@).len()),
                    )
                    &&& sync.stats.saved_workspace_root_count == synced_saved(state, cwd_stats@).len()
                    &&& opt_text(sync.next_text) == (if sync.stats.updated {
                        Some(json_pretty(JsonModel::Object(synced_fields(map, cwd_stats@))) + "\n"@)
                    } else {
                        None
                    })
                }
            },
            Ok(_) => r matches Err(e) && e@ == file_path@ + " 不是 JSON object，无法同步项目根路径缓存。"@,
        },
{
    let state = match parse_json(original_text) {
        Ok(state) => state,
        Err(e) => {
            return Err(e);
        },
    };
    let synced = match sync_workspace_state(&state, cwd_stats, backup_missing, file_path) {
        Ok(synced) => synced,
        Err(e) => {
            return Err(e);
        },
    };
    if !synced.stats.updated {
        return Ok(WorkspaceSync { next_text: None, stats: synced.stats });
    }
    match json_text_pretty(&synced.state) {
        Ok(text) => Ok(WorkspaceSync { next_text: Some(text.concat("\n")), stats: synced.stats }),
        Err(e) => Err(e),
    }
}

/// Syncing leaves every other field of the global state as it is.
pub proof fn law_sync_keeps_fields(map: Map<Seq<char>, JsonModel>, stats: Seq<ThreadCwdStat>, key: Seq<char>)
    requires
        key != SAVED_ROOTS@,
        key != PROJECT_ORDER@,
        key != ACTIVE_ROOTS@,
        key != ROOT_LABELS@,
        key != OPEN_TARGETS@,
    ensures
        field(JsonModel::Object(synced_fields(map, stats)), key) == field(JsonModel::Object(map), key),
{
}

/// The workspace roots of a global state, each place once.
pub fn read_workspace_roots_from_global_state(state: &Json) -> (r: Vec<String>)
    ensures
        texts(r@) == workspace_roots(state@),
{
    let saved = to_path_array(state.get(SAVED_ROOTS));
    let order = to_path_array(state.get(PROJECT_ORDER));
    let active = to_path_array(state.get(ACTIVE_ROOTS));
    let all = if order.len() == 0 {
        concat_paths(&saved, &active)
    } else {
        concat_paths(&concat_paths(&order, &saved), &active)
    };
    assert(texts(all@) == all_roots(state@));
    let ghost shown = all_roots(state@).map_values(|p: Seq<char>| normal_path(p));
    let mut normal: Vec<String> = Vec::new();
    for i in 0..all.len()
        invariant
            shown == texts(all@).map_values(|p: Seq<char>| normal_path(p)),
            texts(normal@) == shown.take(i as int),
    {
        let ghost before = texts(normal@);
        normal.push(to_normal_workspace_path(all[i].as_str()));
        assert(texts(normal@) =~= before.push(shown[i as int]));
        assert(shown.take(i + 1) =~= shown.take(i as int).push(shown[i as int]));
    }
    assert(shown.take(shown.len() as int) =~= shown);
    dedupe_paths(&normal)
}

/// The workspace roots in the text of a global state.
pub fn workspace_roots_in(state_text: &str) -> (r: Result<Vec<String>, String>)
    ensures
        match json_read(state_text@) {
            Ok(state) => r matches Ok(roots) && texts(roots@) == workspace_roots(state),
            Err(reason) => r matches Err(e) && e@ == reason,
        },
{
    match parse_json(state_text) {
        Ok(state) => Ok(read_workspace_roots_from_global_state(&state)),
        Err(e) => Err(e),
    }
}

/// A thread that the sidebar shows: its working directory and its provider.
pub struct VisibleThread {
    pub cwd: String,
    pub provider: Option<String>,
}

pub open spec fn shown_provider(row: VisibleThread) -> Seq<char> {
    match row.provider {
        Some(p) => if is_blank(p@) {
            "(missing)"@
        } else {
            p@
        },
        None => "(missing)"@,
    }
}

/// Whether a thread belongs to a workspace root.
pub open spec fn belongs(row: VisibleThread, root: Seq<char>) -> bool {
    comparable(row.cwd@) == comparable(root)
}

/// The ranks of the threads of a root, the first thread having rank 1.
pub open spec fn ranks_of(rows: Seq<VisibleThread>, root: Seq<char>) -> Seq<nat>
    decreases rows.len(),
{
    if rows.len() == 0 {
        Seq::empty()
    } else if belongs(rows.last(), root) {
        ranks_of(rows.drop_last(), root).push(rows.len())
    } else {
        ranks_of(rows.drop_last(), root)
    }
}

/// The providers of the threads of a root.
pub open spec fn providers_of(rows: Seq<VisibleThread>, root: Seq<char>) -> Seq<Seq<char>>
    decreases rows.len(),
{
    if rows.len() == 0 {
        Seq::empty()
    } else if belongs(rows.last(), root) {
        providers_of(rows.drop_last(), root).push(shown_provider(rows.last()))
    } else {
        providers_of(rows.drop_last(), root)
    }
}

/// How many threads of a root have exactly the directory `cwd`.
pub open spec fn exact_of(rows: Seq<VisibleThread>, root: Seq<char>, cwd: Seq<char>) -> nat
    decreases rows.len(),
{
    if rows.len() == 0 {
        0
    } else {
        exact_of(rows.drop_last(), root, cwd) + if belongs(rows.last(), root) && rows.last().cwd@ == cwd {
            1nat
        } else {
            0nat
        }
    }
}

/// How many threads of a root have a verbatim path for directory.
pub open spec fn verbatim_of(rows: Seq<VisibleThread>, root: Seq<char>) -> nat
    decreases rows.len(),
{
    if rows.len() == 0 {
        0
    } else {
        verbatim_of(rows.drop_last(), root) + if belongs(rows.last(), root) && is_verbatim(rows.last().cwd@) {
            1nat
        } else {
            0nat
        }
    }
}

/// How many of the ranks are on the first page, which has 50 threads.
pub open spec fn first_page_of(ranks: Seq<nat>) -> nat
    decreases ranks.len(),
{
    if ranks.len() == 0 {
        0
    } else {
        first_page_of(ranks.drop_last()) + if ranks.last() <= 50 {
            1nat
        } else {
            0nat
        }
    }
}

/// The first twelve ranks, and how many more there are.
pub open spec fn rank_preview(ranks: Seq<nat>) -> Seq<char> {
    if ranks.len() == 0 {
        "(none)"@
    } else if ranks.len() > 12 {
        joined(ranks.take(12).map_values(|n: nat| decimal(n)), ", "@) + " (+"@ + decimal((ranks.len() - 12) as nat)
            + " more)"@
    } else {
        joined(ranks.map_values(|n: nat| decimal(n)), ", "@)
    }
}

/// What is told of a workspace root.
pub open spec fn visibility_line(root: Seq<char>, rows: Seq<VisibleThread>) -> Seq<char> {
    let exact_root = normal_path(root);
    let ranks = ranks_of(rows, root);
    exact_root + ": interactive "@ + decimal(ranks.len()) + ", first page "@ + decimal(first_page_of(ranks))
        + "/50, ranks "@ + rank_preview(ranks) + ", exact cwd "@ + decimal(exact_of(rows, root, exact_root)) + "/"@
        + decimal(ranks.len()) + ", verbatim cwd "@ + decimal(verbatim_of(rows, root)) + ", providers "@ + counts_line(
        tally(providers_of(rows, root)),
    )
}

pub open spec fn rank_numbers(ranks: Seq<usize>) -> Seq<nat> {
    ranks.map_values(|n: usize| n as nat)
}

fn preview_ranks(ranks: &Vec<usize>) -> (r: String)
    ensures
        r@ == rank_preview(rank_numbers(ranks@)),
{
    let ghost all = rank_numbers(ranks@);
    if ranks.len() == 0 {
        return "(none)".to_owned();
    }
    let n: usize = if ranks.len() > 12 {
        12
    } else {
        ranks.len()
    };
    let ghost shown = all.take(n as int).map_values(|n: nat| decimal(n));
    let mut parts: Vec<String> = Vec::new();
    for i in 0..n
        invariant
            n <= ranks@.len(),
            all == rank_numbers(ranks@),
            shown == all.take(n as int).map_values(|n: nat| decimal(n)),
            texts(parts@) == shown.take(i as int),
    {
        let ghost before = texts(parts@);
        parts.push(decimal_text(ranks[i] as u128));
        assert(texts(parts@) =~= before.push(shown[i as int]));
        assert(shown.take(i + 1) =~= shown.take(i as int).push(shown[i as int]));
    }
    assert(shown.take(shown.len() as int) =~= shown);
    let preview = join(parts.as_slice(), ", ");
    if ranks.len() > 12 {
        preview.concat(" (+").concat(decimal_text((ranks.len() - 12) as u128).as_str()).concat(" more)")
    } else {
        assert(all.take(n as int) =~= all);
        preview
    }
}

fn same_place(a: &Option<String>, b: &Option<String>) -> (r: bool)
    ensures
        r == (opt_text(*a) == opt_text(*b)),
{
    match (a, b) {
        (Some(x), Some(y)) => same(x.as_str(), y.as_str()),
        (None, None) => true,
        _ => false,
    }
}

fn visibility_of(root: &str, rows: &Vec<VisibleThread>) -> (r: String)
    ensures
        r@ == visibility_line(root@, rows@),
{
    let place = normalize_comparable_path(root);
    let exact_root = to_normal_workspace_path(root);
    let mut ranks: Vec<usize> = Vec::new();
    let mut providers: Vec<String> = Vec::new();
    let mut exact: usize = 0;
    let mut verbatim: usize = 0;
    let mut first_page: usize = 0;
    for i in 0..rows.len()
        invariant
            opt_text(place) == comparable(root@),
            exact_root@ == normal_path(root@),
            rank_numbers(ranks@) == ranks_of(rows@.take(i as int), root@),
            texts(providers@) == providers_of(rows@.take(i as int), root@),
            exact == exact_of(rows@.take(i as int), root@, exact_root@),
            verbatim == verbatim_of(rows@.take(i as int), root@),
            first_page == first_page_of(rank_numbers(ranks@)),
            exact <= i,
            verbatim <= i,
            first_page <= i,
    {
        let ghost now = rows@.take(i + 1);
        assert(now.drop_last() =~= rows@.take(i as int));
        let row = &rows[i];
        let here = normalize_comparable_path(row.cwd.as_str());
        if same_place(&here, &place) {
            let ghost r0 = rank_numbers(ranks@);
            let ghost p0 = texts(providers@);
            let provider = match &row.provider {
                Some(p) => if blank(p.as_str()) {
                    "(missing)".to_owned()
                } else {
                    p.clone()
                },
                None => "(missing)".to_owned(),
            };
            let rank: usize = i + 1;
            ranks.push(rank);
            providers.push(provider);
            assert(rank_numbers(ranks@) =~= r0.push(rank as nat));
            assert(rank_numbers(ranks@).drop_last() =~= r0);
            assert(texts(providers@) =~= p0.push(shown_provider(*row)));
            if same(row.cwd.as_str(), exact_root.as_str()) {
                exact += 1;
            }
            if starts_with(row.cwd.as_str(), "\\\\?\\") {
                verbatim += 1;
            }
            if rank <= 50 {
                first_page += 1;
            }
        }
    }
    assert(rows@.take(rows@.len() as int) =~= rows@);
    let counts = Counts::tally_of(&providers);
    let total = decimal_text(ranks.len() as u128);
    assert(rank_numbers(ranks@).len() == ranks@.len());
    exact_root.concat(": interactive ").concat(total.as_str()).concat(", first page ").concat(
        decimal_text(first_page as u128).as_str(),
    ).concat("/50, ranks ").concat(preview_ranks(&ranks).as_str()).concat(", exact cwd ").concat(
        decimal_text(exact as u128).as_str(),
    ).concat("/").concat(total.as_str()).concat(", verbatim cwd ").concat(
        decimal_text(verbatim as u128).as_str(),
    ).concat(", providers ").concat(format_counts(&counts).as_str())
}

/// What is told of each workspace root, given the threads that the sidebar
/// shows.
pub fn project_visibility(roots: &Vec<String>, rows: &Vec<VisibleThread>) -> (r: Vec<String>)
    ensures
        texts(r@) == texts(roots@).map_values(|root: Seq<char>| visibility_line(root, rows@)),
{
    let ghost shown = texts(roots@).map_values(|root: Seq<char>| visibility_line(root, rows@));
    let mut lines: Vec<String> = Vec::new();
    for i in 0..roots.len()
        invariant
            shown == texts(roots@).map_values(|root: Seq<char>| visibility_line(root, rows@)),
            texts(lines@) == shown.take(i as int),
    {
        let ghost before = texts(lines@);
        lines.push(visibility_of(roots[i].as_str(), rows));
        assert(texts(lines@) =~= before.push(shown[i as int]));
        assert(shown.take(i + 1) =~= shown.take(i as int).push(shown[i as int]));
    }
    assert(shown.take(shown.len() as int) =~= shown);
    lines
}

/// What is told of a workspace root where there is no thread index.
pub open spec fn no_index_line(root: Seq<char>) -> Seq<char> {
    normal_path(root)
        + ": interactive 0, first page 0/50, ranks (none), exact cwd 0/0, providers (none)"@
}

/// What is told of each workspace root where there is no thread index.
pub fn project_visibility_without_index(roots: &Vec<String>) -> (r: Vec<String>)
    ensures
        texts(r@) == texts(roots@).map_values(|root: Seq<char>| no_index_line(root)),
{
    let ghost shown = texts(roots@).map_values(|root: Seq<char>| no_index_line(root));
    let mut lines: Vec<String> = Vec::new();
    for i in 0..roots.len()
        invariant
            shown == texts(roots@).map_values(|root: Seq<char>| no_index_line(root)),
            texts(lines@) == shown.take(i as int),
    {
        let ghost before = texts(lines@);
        lines.push(
            to_normal_workspace_path(roots[i].as_str()).concat(
                ": interactive 0, first page 0/50, ranks (none), exact cwd 0/0, providers (none)",
            ),
        );
        assert(texts(lines@) =~= before.push(shown[i as int]));
        assert(shown.take(i + 1) =~= shown.take(i as int).push(shown[i as int]));
    }
    assert(shown.take(shown.len() as int) =~= shown);
    lines
}

} // verus!
