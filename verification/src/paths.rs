//! Workspace paths as Codex stores them, and which of them are the same.

use vstd::prelude::*;

use crate::order::{
    is_order, law_text_le_total, law_text_le_transitive, sort_with, sorted_by, text_le, text_leq,
};
use crate::text::{
    ascii_lowered, chars_of, only, opt_text, replace_char, replaced, same, starts_with, texts,
    to_ascii_lowercase, trim, trim_end_char, trim_end_where, trimmed,
};

verus! {

/// Whether a path begins like a verbatim path to a share.
pub open spec fn is_verbatim_share(t: Seq<char>) -> bool {
    "\\\\?\\unc\\"@.is_prefix_of(ascii_lowered(t))
}

/// Whether a path begins like a verbatim path.
pub open spec fn is_verbatim(t: Seq<char>) -> bool {
    "\\\\?\\"@.is_prefix_of(t)
}

/// `s` with backslashes for slashes.
pub open spec fn backslashed(s: Seq<char>) -> Seq<char> {
    replaced(s, '/', "\\"@)
}

/// A path without the marks of a verbatim path.
pub open spec fn normal_path(value: Seq<char>) -> Seq<char> {
    let t = trimmed(value);
    if t.len() == 0 {
        value
    } else if is_verbatim_share(t) {
        backslashed("\\\\"@ + t.skip(8))
    } else if is_verbatim(t) {
        backslashed(t.skip(4))
    } else {
        value
    }
}

/// A trimmed path without the marks of a verbatim path, slashes as they are.
pub open spec fn unmarked(t: Seq<char>) -> Seq<char> {
    if is_verbatim_share(t) {
        "\\\\"@ + t.skip(8)
    } else if is_verbatim(t) {
        t.skip(4)
    } else {
        t
    }
}

/// A path with a backslash after a drive that stands alone.
pub open spec fn with_drive_root(s: Seq<char>) -> Seq<char> {
    if s.len() == 2 && s[0] <= '\u{7f}' && s[1] == ':' {
        s.push('\\')
    } else {
        s
    }
}

/// What two paths have in common when they mean the same place.
pub open spec fn comparable(value: Seq<char>) -> Option<Seq<char>> {
    let t = trimmed(value);
    if t.len() == 0 {
        None
    } else {
        let s = with_drive_root(trim_end_where(backslashed(unmarked(t)), only('\\')));
        if s.len() == 0 {
            None
        } else {
            Some(ascii_lowered(s))
        }
    }
}

fn skip_chars<'a>(s: &'a str, n: usize) -> (r: &'a str)
    requires
        n <= s@.len(),
    ensures
        r@ == s@.skip(n as int),
{
    let len: usize = chars_of(s).len();
    let r = s.substring_char(n, len);
    assert(r@ =~= s@.skip(n as int));
    r
}

proof fn lemma_verbatim_len(t: Seq<char>)
    ensures
        is_verbatim_share(t) ==> t.len() >= 8,
        is_verbatim(t) ==> t.len() >= 4,
{
    reveal_strlit("\\\\?\\unc\\");
    reveal_strlit("\\\\?\\");
    assert(ascii_lowered(t).len() == t.len());
}

pub fn to_normal_workspace_path(value: &str) -> (r: String)
    ensures
        r@ == normal_path(value@),
{
    let t = trim(value);
    proof {
        lemma_verbatim_len(t@);
    }
    if t.is_empty() {
        return value.to_owned();
    }
    let lower = to_ascii_lowercase(t);
    if starts_with(lower.as_str(), "\\\\?\\unc\\") {
        let rest = "\\\\".to_owned().concat(skip_chars(t, 8));
        return replace_char(rest.as_str(), '/', "\\");
    }
    if starts_with(t, "\\\\?\\") {
        return replace_char(skip_chars(t, 4), '/', "\\");
    }
    value.to_owned()
}

pub fn normalize_comparable_path(value: &str) -> (r: Option<String>)
    ensures
        opt_text(r) == comparable(value@),
{
    let t = trim(value);
    proof {
        lemma_verbatim_len(t@);
    }
    if t.is_empty() {
        return None;
    }
    let lower = to_ascii_lowercase(t);
    let bare = if starts_with(lower.as_str(), "\\\\?\\unc\\") {
        "\\\\".to_owned().concat(skip_chars(t, 8))
    } else if starts_with(t, "\\\\?\\") {
        skip_chars(t, 4).to_owned()
    } else {
        t.to_owned()
    };
    let slashed = replace_char(bare.as_str(), '/', "\\");
    let kept = trim_end_char(slashed.as_str(), '\\').to_owned();
    let chars = chars_of(kept.as_str());
    let whole = if chars.len() == 2 && chars[0] <= '\u{7f}' && chars[1] == ':' {
        let mut longer = kept;
        longer.push('\\');
        longer
    } else {
        kept
    };
    if whole.as_str().is_empty() {
        return None;
    }
    Some(to_ascii_lowercase(whole.as_str()))
}

/// Whether one of the paths means the same place as `c`.
pub open spec fn has_comparable(paths: Seq<Seq<char>>, c: Seq<char>) -> bool {
    exists|i: int| 0 <= i < paths.len() && comparable(#[trigger] paths[i]) == Some(c)
}

/// The first path of each place, in order.
pub open spec fn deduped(paths: Seq<Seq<char>>) -> Seq<Seq<char>>
    decreases paths.len(),
{
    if paths.len() == 0 {
        paths
    } else {
        let before = deduped(paths.drop_last());
        match comparable(paths.last()) {
            Some(c) => if has_comparable(before, c) {
                before
            } else {
                before.push(paths.last())
            },
            None => before,
        }
    }
}

pub fn dedupe_paths(paths: &Vec<String>) -> (r: Vec<String>)
    ensures
        texts(r@) == deduped(texts(paths@)),
{
    let ghost all = texts(paths@);
    let mut seen: Vec<String> = Vec::new();
    let mut output: Vec<String> = Vec::new();
    for i in 0..paths.len()
        invariant
            all == texts(paths@),
            texts(output@) == deduped(all.take(i as int)),
            seen@.len() == output@.len(),
            forall|k: int| 0 <= k < seen@.len() ==> comparable(output@[k]@) == Some((#[trigger] seen@[k])@),
    {
        assert(all.take(i + 1).drop_last() =~= all.take(i as int));
        assert(all[i as int] == paths@[i as int]@);
        let ghost before = texts(output@);
        if let Some(c) = normalize_comparable_path(paths[i].as_str()) {
            let mut known: bool = false;
            for k in 0..seen.len()
                invariant
                    known == exists|j: int| 0 <= j < k && (#[trigger] seen@[j])@ == c@,
            {
                if same(seen[k].as_str(), c.as_str()) {
                    known = true;
                }
            }
            assert(known == has_comparable(before, c@)) by {
                if known {
                    let j = choose|j: int| 0 <= j < seen@.len() && (#[trigger] seen@[j])@ == c@;
                    assert(comparable(before[j]) == Some(c@));
                }
                if has_comparable(before, c@) {
                    let j = choose|j: int| 0 <= j < before.len() && comparable(#[trigger] before[j]) == Some(c@);
                    assert(before[j] == output@[j]@);
                    assert(seen@[j]@ == c@);
                }
            }
            if !known {
                seen.push(c);
                output.push(paths[i].clone());
                assert(texts(output@) =~= before.push(all[i as int]));
            }
        }
    }
    assert(all.take(all.len() as int) =~= all);
    output
}

/// No two paths that stay mean the same place, and every place of the paths
/// is among those that stay.
pub proof fn law_deduped(paths: Seq<Seq<char>>)
    ensures
        forall|i: int, j: int| 0 <= i < j < deduped(paths).len() ==> comparable(#[trigger] deduped(paths)[i]) != comparable(
            #[trigger] deduped(paths)[j],
        ),
        forall|i: int| 0 <= i < deduped(paths).len() ==> comparable(#[trigger] deduped(paths)[i]) is Some,
        forall|i: int| 0 <= i < paths.len() && comparable(#[trigger] paths[i]) is Some ==> has_comparable(
            deduped(paths),
            comparable(paths[i])->0,
        ),
    decreases paths.len(),
{
    if paths.len() > 0 {
        let rest = paths.drop_last();
        law_deduped(rest);
        let before = deduped(rest);
        let after = deduped(paths);
        assert forall|i: int, j: int| 0 <= i < j < after.len() implies comparable(#[trigger] after[i]) != comparable(
            #[trigger] after[j],
        ) by {
            if j < before.len() {
                assert(comparable(before[i]) != comparable(before[j]));
            } else {
                assert(after[i] == before[i]);
                assert(comparable(before[i]) != comparable(paths.last()));
            }
        }
        assert forall|i: int| 0 <= i < after.len() implies comparable(#[trigger] after[i]) is Some by {
            if i < before.len() {
                assert(comparable(before[i]) is Some);
            }
        }
        assert forall|i: int| 0 <= i < paths.len() && comparable(#[trigger] paths[i]) is Some implies has_comparable(
            after,
            comparable(paths[i])->0,
        ) by {
            let c = comparable(paths[i])->0;
            if i < rest.len() {
                assert(rest[i] == paths[i]);
                assert(has_comparable(before, c));
                let k = choose|k: int| 0 <= k < before.len() && comparable(#[trigger] before[k]) == Some(c);
                assert(after[k] == before[k]);
            } else if has_comparable(before, c) {
                let k = choose|k: int| 0 <= k < before.len() && comparable(#[trigger] before[k]) == Some(c);
                assert(after[k] == before[k]);
            } else {
                assert(after[after.len() - 1] == paths[i]);
            }
        }
    }
}

/// A list without places that come twice stays as it is.
pub proof fn law_deduped_stays(paths: Seq<Seq<char>>)
    requires
        forall|i: int| 0 <= i < paths.len() ==> comparable(#[trigger] paths[i]) is Some,
        forall|i: int, j: int| 0 <= i < j < paths.len() ==> comparable(#[trigger] paths[i]) != comparable(
            #[trigger] paths[j],
        ),
    ensures
        deduped(paths) == paths,
    decreases paths.len(),
{
    if paths.len() > 0 {
        let rest = paths.drop_last();
        assert forall|i: int| 0 <= i < rest.len() implies comparable(#[trigger] rest[i]) is Some by {
            assert(rest[i] == paths[i]);
        }
        assert forall|i: int, j: int| 0 <= i < j < rest.len() implies comparable(#[trigger] rest[i]) != comparable(
            #[trigger] rest[j],
        ) by {
            assert(comparable(paths[i]) != comparable(paths[j]));
        }
        law_deduped_stays(rest);
        let c = comparable(paths.last())->0;
        assert(comparable(paths[paths.len() - 1]) is Some);
        if has_comparable(rest, c) {
            let k = choose|k: int| 0 <= k < rest.len() && comparable(#[trigger] rest[k]) == Some(c);
            assert(comparable(paths[k]) != comparable(paths[paths.len() - 1]));
        }
        assert(rest.push(paths.last()) =~= paths);
    }
}

/// How many places of two lists differ, counting those that only one has.
pub open spec fn differences(previous: Seq<Seq<char>>, next: Seq<Seq<char>>, n: nat) -> nat
    decreases n,
{
    if n == 0 {
        0
    } else {
        let k = n - 1;
        let same_here = if k < previous.len() && k < next.len() {
            previous[k] == next[k]
        } else {
            k >= previous.len() && k >= next.len()
        };
        differences(previous, next, (n - 1) as nat) + if same_here {
            0nat
        } else {
            1nat
        }
    }
}

pub open spec fn longer(a: nat, b: nat) -> nat {
    if a >= b {
        a
    } else {
        b
    }
}

pub fn count_array_changes(previous: &Vec<String>, next: &Vec<String>) -> (r: usize)
    ensures
        r == differences(texts(previous@), texts(next@), longer(previous@.len(), next@.len())),
{
    let n: usize = if previous.len() >= next.len() {
        previous.len()
    } else {
        next.len()
    };
    let ghost a = texts(previous@);
    let ghost b = texts(next@);
    let mut count: usize = 0;
    for k in 0..n
        invariant
            a == texts(previous@),
            b == texts(next@),
            count == differences(a, b, k as nat),
            count <= k,
            n == longer(previous@.len(), next@.len()),
    {
        let equal = if k < previous.len() && k < next.len() {
            assert(a[k as int] == previous@[k as int]@ && b[k as int] == next@[k as int]@);
            same(previous[k].as_str(), next[k].as_str())
        } else {
            k >= previous.len() && k >= next.len()
        };
        if !equal {
            count += 1;
        }
    }
    count
}

/// How many threads have a working directory, and when one of them was last
/// used.
pub struct ThreadCwdStat {
    pub cwd: String,
    pub normalized_cwd: String,
    pub count: usize,
    pub updated_at_ms: i64,
}

/// A row of the working directories in use: the directory, the number of its
/// threads, and the time of the last.
pub struct CwdRow {
    pub cwd: String,
    pub count: i64,
    pub updated_at_ms: i64,
}

/// Whether `a` is used more than `b`, or as much and later, or as much and as
/// late and comes first by name.
pub open spec fn used_before() -> spec_fn(ThreadCwdStat, ThreadCwdStat) -> bool {
    |a: ThreadCwdStat, b: ThreadCwdStat|
        a.count > b.count || (a.count == b.count && (a.updated_at_ms > b.updated_at_ms || (a.updated_at_ms
            == b.updated_at_ms && text_le(a.cwd@, b.cwd@))))
}

/// The entries for the place `c`.
pub open spec fn matching(stats: Seq<ThreadCwdStat>, c: Seq<char>) -> Seq<ThreadCwdStat>
    decreases stats.len(),
{
    if stats.len() == 0 {
        stats
    } else if stats.last().normalized_cwd@ == c {
        matching(stats.drop_last(), c).push(stats.last())
    } else {
        matching(stats.drop_last(), c)
    }
}

/// The path under which the place of a stored path is used most.
pub open spec fn resolved(value: Seq<char>, stats: Seq<ThreadCwdStat>) -> Seq<char> {
    match comparable(value) {
        None => value,
        Some(c) => {
            let found = sorted_by(matching(stats, c), used_before());
            if found.len() == 0 {
                normal_path(value)
            } else {
                normal_path(found[0].cwd@)
            }
        },
    }
}

/// The order in which directories are preferred is an order.
pub proof fn law_used_before_is_order()
    ensures
        is_order(used_before()),
{
    let le = used_before();
    assert forall|a: ThreadCwdStat, b: ThreadCwdStat| #[trigger] le(a, b) || le(b, a) by {
        law_text_le_total(a.cwd@, b.cwd@);
    }
    assert forall|a: ThreadCwdStat, b: ThreadCwdStat, c: ThreadCwdStat| #[trigger] le(a, b) && #[trigger] le(
        b,
        c,
    ) implies le(a, c) by {
        if text_le(a.cwd@, b.cwd@) && text_le(b.cwd@, c.cwd@) {
            law_text_le_transitive(a.cwd@, b.cwd@, c.cwd@);
        }
    }
}

fn matching_cwds(stats: &Vec<ThreadCwdStat>, c: &str) -> (r: Vec<ThreadCwdStat>)
    ensures
        r@ == matching(stats@, c@),
{
    let mut out: Vec<ThreadCwdStat> = Vec::new();
    for i in 0..stats.len()
        invariant
            out@ == matching(stats@.take(i as int), c@),
    {
        assert(stats@.take(i + 1).drop_last() =~= stats@.take(i as int));
        if same(stats[i].normalized_cwd.as_str(), c) {
            out.push(
                ThreadCwdStat {
                    cwd: stats[i].cwd.clone(),
                    normalized_cwd: stats[i].normalized_cwd.clone(),
                    count: stats[i].count,
                    updated_at_ms: stats[i].updated_at_ms,
                },
            );
        }
    }
    assert(stats@.take(stats@.len() as int) =~= stats@);
    out
}

pub fn resolve_stored_path(value: &str, cwd_stats: &Vec<ThreadCwdStat>) -> (r: String)
    ensures
        r@ == resolved(value@, cwd_stats@),
{
    match normalize_comparable_path(value) {
        None => value.to_owned(),
        Some(c) => {
            let matches = matching_cwds(cwd_stats, c.as_str());
            let f = |a: &ThreadCwdStat, b: &ThreadCwdStat| -> (r: bool)
                ensures
                    r == used_before()(*a, *b),
                {
                    a.count > b.count || (a.count == b.count && (a.updated_at_ms > b.updated_at_ms || (a.updated_at_ms
                        == b.updated_at_ms && text_leq(a.cwd.as_str(), b.cwd.as_str()))))
                };
            let found = sort_with(matches, f, Ghost(used_before()));
            if found.len() == 0 {
                to_normal_workspace_path(value)
            } else {
                to_normal_workspace_path(found[0].cwd.as_str())
            }
        },
    }
}

} // verus!
