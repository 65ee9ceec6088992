//! Sessions on this machine and in the cloud.

use vstd::prelude::*;

use crate::json::{as_text, field, json_read, text_of, Json, JsonModel};
use crate::order::{
    is_order, law_text_le_total, law_text_le_transitive, sort_with, sorted_by, text_le, text_leq,
};
use crate::rollout::{is_session_meta, meta_payload, meta_thread_id, parse_session_meta_record};
use crate::text::{
    blank, ends_with, lemma_split_where_nonempty, only, opt_text, same, split_char, split_where, starts_with,
    texts, trim_end_by, trim_end_where,
};

verus! {

/// A session on this machine.
pub struct LocalSessionMeta {
    pub session_id: String,
    pub relative_path: String,
    pub source_dir: String,
    pub title: Option<String>,
    pub cwd: Option<String>,
    pub provider_name: Option<String>,
    pub model: Option<String>,
    pub modified_at_ms: u128,
    pub size: u64,
}

/// A version of a session in the cloud.
pub struct SessionManifest {
    pub format: String,
    pub session_id: String,
    pub relative_path: String,
    pub source_dir: String,
    pub title: Option<String>,
    pub cwd: Option<String>,
    pub provider_name: Option<String>,
    pub model: Option<String>,
    pub raw_sha256: String,
    pub encrypted_sha256: String,
    pub encrypted_size: usize,
    pub blob_key: String,
    pub uploaded_at_ms: u128,
    pub device_name: String,
}

/// The place of the version of a session, or the length.
pub open spec fn place_of(versions: Seq<SessionManifest>, id: Seq<char>) -> nat
    decreases versions.len(),
{
    if versions.len() == 0 || versions[0].session_id@ == id {
        0
    } else {
        1 + place_of(versions.drop_first(), id)
    }
}

/// The list of versions after one more came: it takes the place of an older
/// one of its session.
pub open spec fn with_version(kept: Seq<SessionManifest>, next: SessionManifest) -> Seq<SessionManifest> {
    let k = place_of(kept, next.session_id@) as int;
    if k >= kept.len() {
        kept.push(next)
    } else if next.uploaded_at_ms > kept[k].uploaded_at_ms {
        kept.update(k, next)
    } else {
        kept
    }
}

/// One version of each session, the newest; of versions of the same time the
/// first. The sessions stand in the order in which they came.
pub open spec fn newest(versions: Seq<SessionManifest>) -> Seq<SessionManifest>
    decreases versions.len(),
{
    if versions.len() == 0 {
        versions
    } else {
        with_version(newest(versions.drop_last()), versions.last())
    }
}

/// The order of versions by time, the newest first, then by session id.
pub open spec fn newest_first_order() -> spec_fn(SessionManifest, SessionManifest) -> bool {
    |a: SessionManifest, b: SessionManifest|
        a.uploaded_at_ms > b.uploaded_at_ms || (a.uploaded_at_ms == b.uploaded_at_ms && text_le(
            a.session_id@,
            b.session_id@,
        ))
}

proof fn lemma_place_of(versions: Seq<SessionManifest>, id: Seq<char>)
    ensures
        place_of(versions, id) <= versions.len(),
        place_of(versions, id) < versions.len() ==> versions[place_of(versions, id) as int].session_id@ == id,
        forall|i: int| 0 <= i < place_of(versions, id) ==> (#[trigger] versions[i]).session_id@ != id,
    decreases versions.len(),
{
    if versions.len() > 0 && versions[0].session_id@ != id {
        let rest = versions.drop_first();
        lemma_place_of(rest, id);
        assert forall|i: int| 0 <= i < place_of(versions, id) implies (#[trigger] versions[i]).session_id@ != id by {
            if i > 0 {
                assert(rest[i - 1] == versions[i]);
            }
        }
    }
}

proof fn lemma_place_is(versions: Seq<SessionManifest>, id: Seq<char>, k: int)
    requires
        0 <= k <= versions.len(),
        forall|i: int| 0 <= i < k ==> (#[trigger] versions[i]).session_id@ != id,
        k < versions.len() ==> versions[k].session_id@ == id,
    ensures
        place_of(versions, id) == k,
{
    lemma_place_of(versions, id);
    let p = place_of(versions, id) as int;
    if p < k {
        assert(versions[p].session_id@ != id);
    } else if k < p {
        assert(versions[k].session_id@ != id);
    }
}

/// The newest version of each session, the newest of all first.
pub fn latest_manifests(manifests: Vec<SessionManifest>) -> (r: Vec<SessionManifest>)
    ensures
        r@ == sorted_by(newest(manifests@), newest_first_order()),
{
    let ghost all = manifests@;
    let mut kept: Vec<SessionManifest> = Vec::new();
    for manifest in it: manifests
        invariant
            it.seq() == all,
            kept@ == newest(all.take(it.index() as int)),
    {
        let ghost n = it.index() as int;
        assert(all.take(n + 1).drop_last() =~= all.take(n));
        assert(all.take(n + 1).last() == manifest);
        let mut k: usize = 0;
        while k < kept.len() && !same(kept[k].session_id.as_str(), manifest.session_id.as_str())
            invariant
                k <= kept@.len(),
                forall|i: int| 0 <= i < k ==> (#[trigger] kept@[i]).session_id@ != manifest.session_id@,
            ensures
                k <= kept@.len(),
                forall|i: int| 0 <= i < k ==> (#[trigger] kept@[i]).session_id@ != manifest.session_id@,
                k < kept@.len() ==> kept@[k as int].session_id@ == manifest.session_id@,
            decreases kept@.len() - k,
        {
            k += 1;
        }
        proof {
            lemma_place_is(kept@, manifest.session_id@, k as int);
        }
        if k >= kept.len() {
            kept.push(manifest);
        } else if manifest.uploaded_at_ms > kept[k].uploaded_at_ms {
            kept.set(k, manifest);
        }
    }
    assert(all.take(all.len() as int) =~= all);
    let f = |a: &SessionManifest, b: &SessionManifest| -> (r: bool)
        ensures
            r == newest_first_order()(*a, *b),
        {
            a.uploaded_at_ms > b.uploaded_at_ms || (a.uploaded_at_ms == b.uploaded_at_ms && text_leq(
                a.session_id.as_str(),
                b.session_id.as_str(),
            ))
        };
    sort_with(kept, f, Ghost(newest_first_order()))
}

/// The order of versions in a list of the latest is an order.
pub proof fn law_newest_first_is_order()
    ensures
        is_order(newest_first_order()),
{
    let le = newest_first_order();
    assert forall|a: SessionManifest, b: SessionManifest| #[trigger] le(a, b) || le(b, a) by {
        law_text_le_total(a.session_id@, b.session_id@);
    }
    assert forall|a: SessionManifest, b: SessionManifest, c: SessionManifest| #[trigger] le(a, b) && #[trigger] le(
        b,
        c,
    ) implies le(a, c) by {
        if text_le(a.session_id@, b.session_id@) && text_le(b.session_id@, c.session_id@) {
            law_text_le_transitive(a.session_id@, b.session_id@, c.session_id@);
        }
    }
}

/// Whether no two versions are of the same session.
pub open spec fn one_of_each(kept: Seq<SessionManifest>) -> bool {
    forall|i: int, j: int| 0 <= i < j < kept.len() ==> (#[trigger] kept[i]).session_id@ != (
    #[trigger] kept[j]).session_id@
}

/// Whether a version of the same session is kept that is as new.
pub open spec fn has_as_new(kept: Seq<SessionManifest>, version: SessionManifest) -> bool {
    exists|i: int| 0 <= i < kept.len() && is_as_new(#[trigger] kept[i], version)
}

pub open spec fn is_as_new(a: SessionManifest, b: SessionManifest) -> bool {
    a.session_id@ == b.session_id@ && a.uploaded_at_ms >= b.uploaded_at_ms
}

proof fn lemma_with_version_one_each(kept: Seq<SessionManifest>, next: SessionManifest)
    requires
        one_of_each(kept),
    ensures
        one_of_each(with_version(kept, next)),
{
    let after = with_version(kept, next);
    let id = next.session_id@;
    lemma_place_of(kept, id);
    let k = place_of(kept, id) as int;
    assert forall|i: int, j: int| 0 <= i < j < after.len() implies (#[trigger] after[i]).session_id@ != (
    #[trigger] after[j]).session_id@ by {
        if k >= kept.len() {
            if j < kept.len() {
                assert(kept[i].session_id@ != kept[j].session_id@);
            } else {
                assert(kept[i].session_id@ != id);
            }
        } else {
            assert(kept[i].session_id@ != kept[j].session_id@);
        }
    }
}

proof fn lemma_with_version_as_new(kept: Seq<SessionManifest>, next: SessionManifest, version: SessionManifest)
    requires
        has_as_new(kept, version) || version == next,
    ensures
        has_as_new(with_version(kept, next), version),
{
    let after = with_version(kept, next);
    let id = next.session_id@;
    lemma_place_of(kept, id);
    let k = place_of(kept, id) as int;
    if version == next {
        if k >= kept.len() {
            assert(is_as_new(after[kept.len() as int], version));
        } else {
            assert(is_as_new(after[k], version));
        }
    } else {
        let i = choose|i: int| 0 <= i < kept.len() && is_as_new(#[trigger] kept[i], version);
        assert(is_as_new(after[i], version));
    }
}

/// Of every session one version is kept. It is one of those given, and none
/// given of that session is newer.
pub proof fn law_newest(versions: Seq<SessionManifest>)
    ensures
        one_of_each(newest(versions)),
        forall|i: int| 0 <= i < newest(versions).len() ==> versions.contains(#[trigger] newest(versions)[i]),
        forall|m: int| 0 <= m < versions.len() ==> has_as_new(newest(versions), #[trigger] versions[m]),
    decreases versions.len(),
{
    if versions.len() > 0 {
        let rest = versions.drop_last();
        law_newest(rest);
        let before = newest(rest);
        let next = versions.last();
        let after = newest(versions);
        lemma_with_version_one_each(before, next);
        assert forall|i: int| 0 <= i < after.len() implies versions.contains(#[trigger] after[i]) by {
            if i < before.len() && after[i] == before[i] {
                assert(rest.contains(before[i]));
                let m = choose|m: int| 0 <= m < rest.len() && rest[m] == before[i];
                assert(versions[m] == after[i]);
            } else {
                assert(versions[versions.len() - 1] == after[i]);
            }
        }
        assert forall|m: int| 0 <= m < versions.len() implies has_as_new(after, #[trigger] versions[m]) by {
            if m < rest.len() {
                assert(rest[m] == versions[m]);
                assert(has_as_new(before, rest[m]));
            }
            lemma_with_version_as_new(before, next, versions[m]);
        }
    }
}

/// The order of sessions by time, the latest first, then by path.
pub open spec fn latest_sessions_order() -> spec_fn(LocalSessionMeta, LocalSessionMeta) -> bool {
    |a: LocalSessionMeta, b: LocalSessionMeta|
        a.modified_at_ms > b.modified_at_ms || (a.modified_at_ms == b.modified_at_ms && text_le(
            a.relative_path@,
            b.relative_path@,
        ))
}

/// The sessions, the latest first.
pub fn sort_local_sessions(sessions: Vec<LocalSessionMeta>) -> (r: Vec<LocalSessionMeta>)
    ensures
        r@ == sorted_by(sessions@, latest_sessions_order()),
{
    let f = |a: &LocalSessionMeta, b: &LocalSessionMeta| -> (r: bool)
        ensures
            r == latest_sessions_order()(*a, *b),
        {
            a.modified_at_ms > b.modified_at_ms || (a.modified_at_ms == b.modified_at_ms && text_leq(
                a.relative_path.as_str(),
                b.relative_path.as_str(),
            ))
        };
    sort_with(sessions, f, Ghost(latest_sessions_order()))
}

/// The order of sessions by time, the oldest first, then by path.
pub open spec fn oldest_sessions_order() -> spec_fn(LocalSessionMeta, LocalSessionMeta) -> bool {
    |a: LocalSessionMeta, b: LocalSessionMeta|
        a.modified_at_ms < b.modified_at_ms || (a.modified_at_ms == b.modified_at_ms && text_le(
            a.relative_path@,
            b.relative_path@,
        ))
}

/// The place of the group of a session, or the length.
pub open spec fn group_place(groups: Seq<Seq<LocalSessionMeta>>, id: Seq<char>) -> nat
    decreases groups.len(),
{
    if groups.len() == 0 || (groups[0].len() > 0 && groups[0][0].session_id@ == id) {
        0
    } else {
        1 + group_place(groups.drop_first(), id)
    }
}

/// The groups after one more session came.
pub open spec fn with_session(groups: Seq<Seq<LocalSessionMeta>>, next: LocalSessionMeta) -> Seq<Seq<LocalSessionMeta>> {
    let k = group_place(groups, next.session_id@) as int;
    if k >= groups.len() {
        groups.push(seq![next])
    } else {
        groups.update(k, groups[k].push(next))
    }
}

/// The sessions by id, each id in one group, groups and sessions in the order
/// in which they came.
pub open spec fn grouped(sessions: Seq<LocalSessionMeta>) -> Seq<Seq<LocalSessionMeta>>
    decreases sessions.len(),
{
    if sessions.len() == 0 {
        Seq::empty()
    } else {
        with_session(grouped(sessions.drop_last()), sessions.last())
    }
}

/// The sessions by id, those of an id from the oldest to the newest.
pub open spec fn session_groups(sessions: Seq<LocalSessionMeta>) -> Seq<Seq<LocalSessionMeta>> {
    grouped(sessions).map_values(|group: Seq<LocalSessionMeta>| sorted_by(group, oldest_sessions_order()))
}

pub open spec fn group_views(groups: Seq<Vec<LocalSessionMeta>>) -> Seq<Seq<LocalSessionMeta>> {
    groups.map_values(|group: Vec<LocalSessionMeta>| group@)
}

proof fn lemma_group_place(groups: Seq<Seq<LocalSessionMeta>>, id: Seq<char>)
    ensures
        group_place(groups, id) <= groups.len(),
        group_place(groups, id) < groups.len() ==> groups[group_place(groups, id) as int].len() > 0
            && groups[group_place(groups, id) as int][0].session_id@ == id,
        forall|i: int| 0 <= i < group_place(groups, id) ==> !((#[trigger] groups[i]).len() > 0
            && groups[i][0].session_id@ == id),
    decreases groups.len(),
{
    if groups.len() > 0 && !(groups[0].len() > 0 && groups[0][0].session_id@ == id) {
        let rest = groups.drop_first();
        lemma_group_place(rest, id);
        assert forall|i: int| 0 <= i < group_place(groups, id) implies !((#[trigger] groups[i]).len() > 0
            && groups[i][0].session_id@ == id) by {
            if i > 0 {
                assert(rest[i - 1] == groups[i]);
            }
        }
    }
}

proof fn lemma_group_place_is(groups: Seq<Seq<LocalSessionMeta>>, id: Seq<char>, k: int)
    requires
        0 <= k <= groups.len(),
        forall|i: int| 0 <= i < k ==> !((#[trigger] groups[i]).len() > 0 && groups[i][0].session_id@ == id),
        k < groups.len() ==> groups[k].len() > 0 && groups[k][0].session_id@ == id,
    ensures
        group_place(groups, id) == k,
{
    lemma_group_place(groups, id);
    let p = group_place(groups, id) as int;
    if p < k {
        assert(!(groups[p].len() > 0 && groups[p][0].session_id@ == id));
    } else if k < p {
        assert(!(groups[k].len() > 0 && groups[k][0].session_id@ == id));
    }
}

fn sort_group(group: Vec<LocalSessionMeta>) -> (r: Vec<LocalSessionMeta>)
    ensures
        r@ == sorted_by(group@, oldest_sessions_order()),
{
    let f = |a: &LocalSessionMeta, b: &LocalSessionMeta| -> (r: bool)
        ensures
            r == oldest_sessions_order()(*a, *b),
        {
            a.modified_at_ms < b.modified_at_ms || (a.modified_at_ms == b.modified_at_ms && text_leq(
                a.relative_path.as_str(),
                b.relative_path.as_str(),
            ))
        };
    sort_with(group, f, Ghost(oldest_sessions_order()))
}

/// The sessions by id, those of an id from the oldest to the newest.
pub fn group_local_sessions_by_id(sessions: Vec<LocalSessionMeta>) -> (r: Vec<Vec<LocalSessionMeta>>)
    ensures
        group_views(r@) == session_groups(sessions@),
{
    let ghost all = sessions@;
    let mut groups: Vec<Vec<LocalSessionMeta>> = Vec::new();
    assert(group_views(groups@) =~= Seq::empty());
    for session in it: sessions
        invariant
            it.seq() == all,
            group_views(groups@) == grouped(all.take(it.index() as int)),
    {
        let ghost n = it.index() as int;
        assert(all.take(n + 1).drop_last() =~= all.take(n));
        assert(all.take(n + 1).last() == session);
        let ghost views = group_views(groups@);
        let mut k: usize = 0;
        while k < groups.len() && !(groups[k].len() > 0 && same(
            groups[k][0].session_id.as_str(),
            session.session_id.as_str(),
        ))
            invariant
                views == group_views(groups@),
                k <= groups@.len(),
                forall|i: int| 0 <= i < k ==> !((#[trigger] views[i]).len() > 0 && views[i][0].session_id@
                    == session.session_id@),
            ensures
                k <= groups@.len(),
                forall|i: int| 0 <= i < k ==> !((#[trigger] views[i]).len() > 0 && views[i][0].session_id@
                    == session.session_id@),
                k < groups@.len() ==> views[k as int].len() > 0 && views[k as int][0].session_id@
                    == session.session_id@,
            decreases groups@.len() - k,
        {
            k += 1;
        }
        proof {
            lemma_group_place_is(views, session.session_id@, k as int);
        }
        if k >= groups.len() {
            let mut group: Vec<LocalSessionMeta> = Vec::new();
            group.push(session);
            assert(group@ =~= seq![session]);
            groups.push(group);
            assert(group_views(groups@) =~= views.push(seq![session]));
        } else {
            groups[k].push(session);
            assert(group_views(groups@) =~= views.update(k as int, views[k as int].push(session)));
        }
    }
    assert(all.take(all.len() as int) =~= all);
    let ghost whole = grouped(all);
    let ghost shown = session_groups(all);
    let ghost lists = groups@;
    let mut out: Vec<Vec<LocalSessionMeta>> = Vec::new();
    for group in it: groups
        invariant
            it.seq() == lists,
            group_views(lists) == whole,
            shown == whole.map_values(|group: Seq<LocalSessionMeta>| sorted_by(group, oldest_sessions_order())),
            group_views(out@) == shown.take(it.index() as int),
    {
        let ghost n = it.index() as int;
        let ghost before = group_views(out@);
        assert(group_views(lists)[n] == group@);
        assert(whole[n] == group@);
        out.push(sort_group(group));
        assert(group_views(out@) =~= before.push(shown[n]));
        assert(shown.take(n + 1) =~= shown.take(n).push(shown[n]));
    }
    assert(shown.take(shown.len() as int) =~= shown);
    out
}

/// Whether all sessions of a group have one id, and there is one.
pub open spec fn is_group(group: Seq<LocalSessionMeta>) -> bool {
    group.len() > 0 && forall|k: int| 0 <= k < group.len() ==> (#[trigger] group[k]).session_id@ == group[0].session_id@
}

/// Whether no two groups have the same id.
pub open spec fn are_distinct(groups: Seq<Seq<LocalSessionMeta>>) -> bool {
    forall|i: int, j: int| 0 <= i < j < groups.len() ==> (#[trigger] groups[i])[0].session_id@ != (
    #[trigger] groups[j])[0].session_id@
}

/// Whether a session stands in one of the groups.
pub open spec fn in_groups(groups: Seq<Seq<LocalSessionMeta>>, session: LocalSessionMeta) -> bool {
    exists|i: int| 0 <= i < groups.len() && (#[trigger] groups[i]).contains(session)
}

proof fn lemma_with_session_groups(groups: Seq<Seq<LocalSessionMeta>>, next: LocalSessionMeta)
    requires
        forall|i: int| 0 <= i < groups.len() ==> is_group(#[trigger] groups[i]),
        are_distinct(groups),
    ensures
        forall|i: int| 0 <= i < with_session(groups, next).len() ==> is_group(#[trigger] with_session(groups, next)[i]),
        are_distinct(with_session(groups, next)),
{
    let after = with_session(groups, next);
    let id = next.session_id@;
    lemma_group_place(groups, id);
    let k = group_place(groups, id) as int;
    assert forall|i: int| 0 <= i < after.len() implies is_group(#[trigger] after[i]) by {
        if i < groups.len() {
            assert(is_group(groups[i]));
            assert forall|j: int| 0 <= j < after[i].len() implies (#[trigger] after[i][j]).session_id@
                == after[i][0].session_id@ by {
                if j < groups[i].len() {
                    assert(groups[i][j].session_id@ == groups[i][0].session_id@);
                }
            }
        }
    }
    assert forall|i: int, j: int| 0 <= i < j < after.len() implies (#[trigger] after[i])[0].session_id@ != (
    #[trigger] after[j])[0].session_id@ by {
        assert(is_group(groups[i]));
        assert(after[i][0] == groups[i][0]);
        if j < groups.len() {
            assert(is_group(groups[j]));
            assert(after[j][0] == groups[j][0]);
            assert(groups[i][0].session_id@ != groups[j][0].session_id@);
        } else {
            assert(!(groups[i].len() > 0 && groups[i][0].session_id@ == id));
        }
    }
}

proof fn lemma_with_session_holds(groups: Seq<Seq<LocalSessionMeta>>, next: LocalSessionMeta, session: LocalSessionMeta)
    ensures
        in_groups(with_session(groups, next), session) <==> in_groups(groups, session) || session == next,
{
    let after = with_session(groups, next);
    lemma_group_place(groups, next.session_id@);
    let k = group_place(groups, next.session_id@) as int;
    if in_groups(groups, session) {
        let i = choose|i: int| 0 <= i < groups.len() && (#[trigger] groups[i]).contains(session);
        let p = choose|p: int| 0 <= p < groups[i].len() && groups[i][p] == session;
        assert(after[i][p] == session);
        assert(after[i].contains(session));
    }
    if session == next {
        if k >= groups.len() {
            assert(after[groups.len() as int][0] == session);
            assert(after[groups.len() as int].contains(session));
        } else {
            assert(after[k][groups[k].len() as int] == session);
            assert(after[k].contains(session));
        }
    }
    if in_groups(after, session) && session != next {
        let i = choose|i: int| 0 <= i < after.len() && (#[trigger] after[i]).contains(session);
        let p = choose|p: int| 0 <= p < after[i].len() && after[i][p] == session;
        assert(i < groups.len());
        assert(groups[i][p] == session);
        assert(groups[i].contains(session));
    }
}

/// Sessions stand in a group exactly when they were given, all sessions of a
/// group have one id, and no two groups have the same.
pub proof fn law_grouped(sessions: Seq<LocalSessionMeta>)
    ensures
        forall|i: int| 0 <= i < grouped(sessions).len() ==> is_group(#[trigger] grouped(sessions)[i]),
        are_distinct(grouped(sessions)),
        forall|session: LocalSessionMeta| #[trigger] in_groups(grouped(sessions), session) <==> sessions.contains(session),
    decreases sessions.len(),
{
    if sessions.len() > 0 {
        let rest = sessions.drop_last();
        law_grouped(rest);
        let before = grouped(rest);
        let next = sessions.last();
        lemma_with_session_groups(before, next);
        assert forall|session: LocalSessionMeta| #[trigger] in_groups(grouped(sessions), session) <==> sessions.contains(session) by {
            lemma_with_session_holds(before, next, session);
            assert(in_groups(before, session) <==> rest.contains(session));
            if rest.contains(session) {
                let m = choose|m: int| 0 <= m < rest.len() && rest[m] == session;
                assert(sessions[m] == session);
            }
            if session == next {
                assert(sessions[sessions.len() - 1] == session);
            }
            if sessions.contains(session) && session != next {
                let m = choose|m: int| 0 <= m < sessions.len() && sessions[m] == session;
                assert(rest[m] == session);
            }
        }
    }
}

/// The characters that end a line.
pub open spec fn line_ends() -> spec_fn(char) -> bool {
    |c: char| c == '\r' || c == '\n'
}

/// The first of the pieces of a path.
pub open spec fn first_dir(path: Seq<char>) -> Seq<char> {
    split_where(path, only('/'))[0]
}

pub open spec fn opt_field(payload: JsonModel, key: Seq<char>) -> Option<Seq<char>> {
    text_of(field(payload, key))
}

/// Whether `meta` is the session that the record begins.
pub open spec fn is_local_session(
    meta: LocalSessionMeta,
    record: JsonModel,
    relative_path: Seq<char>,
    modified_at_ms: u128,
    size: u64,
) -> bool {
    let payload = meta_payload(record);
    &&& Some(meta.session_id@) == meta_thread_id(record)
    &&& meta.relative_path@ == relative_path
    &&& meta.source_dir@ == first_dir(relative_path)
    &&& opt_text(meta.title) == opt_field(payload, "title"@)
    &&& opt_text(meta.cwd) == opt_field(payload, "cwd"@)
    &&& opt_text(meta.provider_name) == opt_field(payload, "model_provider"@)
    &&& opt_text(meta.model) == opt_field(payload, "model"@)
    &&& meta.modified_at_ms == modified_at_ms
    &&& meta.size == size
}

fn text_field(payload: &Json, key: &str) -> (r: Option<String>)
    ensures
        opt_text(r) == opt_field(payload@, key@),
{
    match as_text(payload.get(key)) {
        Some(s) => Some(s.to_owned()),
        None => None,
    }
}

/// The record that begins a session, if the first line of its file holds one
/// with an id.
pub fn session_record(line: &str) -> (r: Option<Json>)
    ensures
        ({
            let text = trim_end_where(line@, line_ends());
            match r {
                Some(record) => json_read(text) == Ok::<JsonModel, Seq<char>>(record@) && is_session_meta(record@)
                    && meta_thread_id(record@) is Some,
                None => match json_read(text) {
                    Ok(value) => !is_session_meta(value) || meta_thread_id(value) is None,
                    Err(_) => true,
                },
            }
        }),
{
    let f = |c: char| -> (b: bool)
        ensures
            b == line_ends()(c),
        { c == '\r' || c == '\n' };
    let text = trim_end_by(line, f, Ghost(line_ends()));
    match parse_session_meta_record(text) {
        Some(record) => {
            let named = match record.get("payload") {
                Some(payload) => match as_text(payload.get("id")) {
                    Some(id) => !blank(id),
                    None => false,
                },
                None => false,
            };
            if named {
                Some(record)
            } else {
                None
            }
        },
        None => None,
    }
}

/// The session that a record begins.
pub fn read_local_session_meta(record: &Json, relative_path: &str, modified_at_ms: u128, size: u64) -> (r:
    LocalSessionMeta)
    requires
        is_session_meta(record@),
        meta_thread_id(record@) is Some,
    ensures
        is_local_session(r, record@, relative_path@, modified_at_ms, size),
{
    let payload = match record.get("payload") {
        Some(payload) => payload,
        None => record,
    };
    let session_id = match text_field(payload, "id") {
        Some(id) => id,
        None => String::new(),
    };
    let pieces = split_char(relative_path, '/');
    proof {
        lemma_split_where_nonempty(relative_path@, only('/'));
    }
    assert(texts(pieces@).len() == pieces@.len());
    assert(texts(pieces@)[0] == pieces@[0]@);
    LocalSessionMeta {
        session_id,
        relative_path: relative_path.to_owned(),
        source_dir: pieces[0].clone(),
        title: text_field(payload, "title"),
        cwd: text_field(payload, "cwd"),
        provider_name: text_field(payload, "model_provider"),
        model: text_field(payload, "model"),
        modified_at_ms,
        size,
    }
}

/// Whether a file name is that of a rollout file.
pub fn is_rollout_name(name: &str) -> (r: bool)
    ensures
        r == ("rollout-"@.is_prefix_of(name@) && ".jsonl"@.is_suffix_of(name@)),
{
    starts_with(name, "rollout-") && ends_with(name, ".jsonl")
}

} // verus!
