//! When two paths mean the same place, and which of them a place is called by.

use vstd::prelude::*;

use crate::law_workspace::{lemma_first_stays, lemma_from_input};
use crate::order::{law_sorted, law_sorted_holds, sorted_by};
use crate::paths::{
    backslashed, comparable, dedupe_paths, deduped, is_verbatim, is_verbatim_share, law_deduped,
    law_used_before_is_order, matching, normal_path, normalize_comparable_path, resolve_stored_path, resolved,
    to_normal_workspace_path, used_before, with_drive_root, ThreadCwdStat,
};
use crate::text::{
    ascii_lower, ascii_lowered, is_white_space, kept_len, lemma_kept_len, lemma_kept_len_is,
    lemma_trimmed_between, lemma_trimmed_parts, only, opt_text, texts, trim_end_where, trimmed,
};

verus! {

/// Whether two characters of a path mean the same: separators do, and letters
/// that differ in case alone.
pub open spec fn alike(a: char, b: char) -> bool {
    a == b || (a == '/' && b == '\\') || (a == '\\' && b == '/') || ('A' <= a <= 'Z' && b as int == a as int + 32) || (
    'A' <= b <= 'Z' && a as int == b as int + 32)
}

/// A path without white space around it and without the mark of a verbatim
/// path.
pub open spec fn is_plain_path(path: Seq<char>) -> bool {
    path.len() > 0 && trimmed(path) == path && !path.contains('?')
}

proof fn lemma_plain(path: Seq<char>)
    requires
        is_plain_path(path),
    ensures
        !is_verbatim(path),
        !is_verbatim_share(path),
{
    reveal_strlit("\\\\?\\unc\\");
    reveal_strlit("\\\\?\\");
    if is_verbatim(path) {
        assert(path[2] == "\\\\?\\"@[2]);
        assert(path.contains(path[2]));
    }
    if is_verbatim_share(path) {
        assert(ascii_lowered(path)[2] == "\\\\?\\unc\\"@[2]);
        assert(path[2] == '?');
        assert(path.contains(path[2]));
    }
}

proof fn lemma_backslashed(s: Seq<char>)
    ensures
        backslashed(s).len() == s.len(),
        forall|i: int|
            0 <= i < s.len() ==> #[trigger] backslashed(s)[i] == (if s[i] == '/' {
                '\\'
            } else {
                s[i]
            }),
    decreases s.len(),
{
    reveal_strlit("\\");
    if s.len() > 0 {
        lemma_backslashed(s.drop_last());
        let before = backslashed(s.drop_last());
        assert(backslashed(s) =~= before.push(
            if s.last() == '/' {
                '\\'
            } else {
                s.last()
            },
        ));
    }
}

proof fn lemma_lowered_char(a: char, b: char)
    requires
        alike(a, b),
    ensures
        ({
            let x = if a == '/' {
                '\\'
            } else {
                a
            };
            let y = if b == '/' {
                '\\'
            } else {
                b
            };
            ascii_lower(x) == ascii_lower(y)
        }),
{
}

proof fn lemma_same_kept(a: Seq<char>, b: Seq<char>)
    requires
        a.len() == b.len(),
        forall|i: int| 0 <= i < a.len() ==> ascii_lower(#[trigger] a[i]) == ascii_lower(b[i]),
    ensures
        kept_len(a, only('\\')) == kept_len(b, only('\\')),
{
    let p = only('\\');
    lemma_kept_len(a, p);
    let k = kept_len(a, p) as int;
    assert forall|j: int| k <= j < b.len() implies p(#[trigger] b[j]) by {
        assert(p(a[j]));
        assert(ascii_lower(a[j]) == ascii_lower(b[j]));
    }
    if k > 0 {
        assert(ascii_lower(a[k - 1]) == ascii_lower(b[k - 1]));
    }
    lemma_kept_len_is(b, p, k);
}

/// Two paths that differ in the case of their letters, or in which separators
/// they are written with, mean the same place.
pub proof fn law_same_place(a: &str, b: &str, place_a: Option<String>, place_b: Option<String>)
    requires
        is_plain_path(a@),
        is_plain_path(b@),
        a@.len() == b@.len(),
        forall|i: int| 0 <= i < a@.len() ==> alike(#[trigger] a@[i], b@[i]),
        call_ensures(normalize_comparable_path, (a,), place_a),
        call_ensures(normalize_comparable_path, (b,), place_b),
    ensures
        opt_text(place_a) == opt_text(place_b),
{
    assert(opt_text(place_a) == comparable(a@));
    assert(opt_text(place_b) == comparable(b@));
    lemma_plain(a@);
    lemma_plain(b@);
    let x = backslashed(a@);
    let y = backslashed(b@);
    lemma_backslashed(a@);
    lemma_backslashed(b@);
    assert forall|i: int| 0 <= i < x.len() implies ascii_lower(#[trigger] x[i]) == ascii_lower(y[i]) by {
        assert(alike(a@[i], b@[i]));
        lemma_lowered_char(a@[i], b@[i]);
        assert(y[i] == y[i]);
    }
    lemma_same_kept(x, y);
    lemma_kept_len(x, only('\\'));
    let s = trim_end_where(x, only('\\'));
    let t = trim_end_where(y, only('\\'));
    assert(s.len() == t.len());
    assert forall|i: int| 0 <= i < s.len() implies ascii_lower(#[trigger] s[i]) == ascii_lower(t[i]) by {
        assert(s[i] == x[i] && t[i] == y[i]);
    }
    if s.len() == 2 {
        assert(ascii_lower(s[0]) == ascii_lower(t[0]));
        assert(ascii_lower(s[1]) == ascii_lower(t[1]));
    }
    assert(ascii_lowered(with_drive_root(s)) =~= ascii_lowered(with_drive_root(t)));
}

/// A separator at the end of a path changes nothing.
pub proof fn law_end_separator(a: &str, b: &str, place_a: Option<String>, place_b: Option<String>)
    requires
        is_plain_path(a@),
        b@ == a@.push('/') || b@ == a@.push('\\'),
        call_ensures(normalize_comparable_path, (a,), place_a),
        call_ensures(normalize_comparable_path, (b,), place_b),
    ensures
        opt_text(place_a) == opt_text(place_b),
{
    assert(opt_text(place_a) == comparable(a@));
    assert(opt_text(place_b) == comparable(b@));
    lemma_trimmed_parts(a@);
    assert(!is_white_space(a@[0]));
    assert(b@[0] == a@[0]);
    lemma_trimmed_between(b@, 0, b@.len() as int);
    assert(b@.subrange(0, b@.len() as int) =~= b@);
    assert(!b@.contains('?')) by {
        if b@.contains('?') {
            let k = choose|k: int| 0 <= k < b@.len() && b@[k] == '?';
            assert(a@[k] == '?');
        }
    }
    lemma_plain(a@);
    lemma_plain(b@);
    let x = backslashed(a@);
    let y = backslashed(b@);
    lemma_backslashed(a@);
    lemma_backslashed(b@);
    assert(y =~= x.push('\\'));
    assert(y.drop_last() =~= x);
    assert(kept_len(y, only('\\')) == kept_len(x, only('\\')));
    lemma_kept_len(x, only('\\'));
    assert(trim_end_where(y, only('\\')) =~= trim_end_where(x, only('\\')));
}

/// White space around a path changes nothing.
pub proof fn law_space_around(a: &str, b: &str, place_a: Option<String>, place_b: Option<String>)
    requires
        trimmed(a@) == trimmed(b@),
        call_ensures(normalize_comparable_path, (a,), place_a),
        call_ensures(normalize_comparable_path, (b,), place_b),
    ensures
        opt_text(place_a) == opt_text(place_b),
        trimmed(a@).len() == 0 ==> place_a is None,
{
    assert(opt_text(place_a) == comparable(a@));
    assert(opt_text(place_b) == comparable(b@));
}

/// A path with backslashes and small letters that does not end in one is its
/// own place, so two such paths are two places.
pub proof fn law_place_of_its_own(a: &str, place: Option<String>)
    requires
        is_plain_path(a@),
        a@.len() > 2,
        a@.last() != '\\',
        forall|i: int| 0 <= i < a@.len() ==> #[trigger] a@[i] != '/' && !('A' <= a@[i] <= 'Z'),
        call_ensures(normalize_comparable_path, (a,), place),
    ensures
        opt_text(place) == Some(a@),
{
    assert(opt_text(place) == comparable(a@));
    lemma_plain(a@);
    let x = backslashed(a@);
    lemma_backslashed(a@);
    assert(x =~= a@);
    lemma_kept_len_is(x, only('\\'), x.len() as int);
    assert(trim_end_where(x, only('\\')) =~= a@);
    assert(ascii_lowered(a@) =~= a@);
}

/// A verbatim path means the place that it names without its mark, and is
/// shown without it. A path that is not verbatim is shown as it is.
pub proof fn law_verbatim(
    a: &str,
    b: &str,
    place_a: Option<String>,
    place_b: Option<String>,
    shown_a: String,
    shown_b: String,
)
    requires
        is_plain_path(a@),
        !a@.contains('/'),
        forall|i: int| 0 <= i < a@.len() ==> #[trigger] a@[i] != 'U' && a@[i] != 'u',
        b@ == seq!['\\', '\\', '?', '\\'] + a@,
        call_ensures(normalize_comparable_path, (a,), place_a),
        call_ensures(normalize_comparable_path, (b,), place_b),
        call_ensures(to_normal_workspace_path, (a,), shown_a),
        call_ensures(to_normal_workspace_path, (b,), shown_b),
    ensures
        opt_text(place_a) == opt_text(place_b),
        shown_a@ == a@,
        shown_b@ == a@,
{
    assert(opt_text(place_a) == comparable(a@));
    assert(opt_text(place_b) == comparable(b@));
    assert(shown_a@ == normal_path(a@));
    assert(shown_b@ == normal_path(b@));
    lemma_plain(a@);
    reveal_strlit("\\\\?\\unc\\");
    reveal_strlit("\\\\?\\");
    lemma_trimmed_parts(a@);
    assert(b@[0] == '\\');
    assert(b@.last() == a@.last());
    lemma_trimmed_between(b@, 0, b@.len() as int);
    assert(b@.subrange(0, b@.len() as int) =~= b@);
    assert(is_verbatim(b@)) by {
        assert(b@.take(4) =~= "\\\\?\\"@);
    }
    assert(!is_verbatim_share(b@)) by {
        if is_verbatim_share(b@) {
            assert(ascii_lowered(b@)[4] == "\\\\?\\unc\\"@[4]);
            assert(b@[4] == a@[0]);
        }
    }
    assert(b@.skip(4) =~= a@);
    lemma_backslashed(a@);
    assert(backslashed(a@) =~= a@) by {
        assert forall|i: int| 0 <= i < a@.len() implies #[trigger] backslashed(a@)[i] == a@[i] by {
            assert(a@.contains(a@[i]));
        }
    }
}

/// A verbatim share is shown as the share that it names.
pub proof fn law_verbatim_share(mark: Seq<char>, rest: Seq<char>, value: &str, shown: String)
    requires
        mark.len() == 3,
        mark[0] == 'U' || mark[0] == 'u',
        mark[1] == 'N' || mark[1] == 'n',
        mark[2] == 'C' || mark[2] == 'c',
        rest.len() > 0,
        !is_white_space(rest.last()),
        !rest.contains('/'),
        value@ == seq!['\\', '\\', '?', '\\'] + mark + seq!['\\'] + rest,
        call_ensures(to_normal_workspace_path, (value,), shown),
    ensures
        shown@ == seq!['\\', '\\'] + rest,
{
    assert(shown@ == normal_path(value@));
    reveal_strlit("\\\\?\\unc\\");
    reveal_strlit("\\\\");
    assert(value@[0] == '\\');
    assert(value@.last() == rest.last());
    lemma_trimmed_between(value@, 0, value@.len() as int);
    assert(value@.subrange(0, value@.len() as int) =~= value@);
    assert(is_verbatim_share(value@)) by {
        assert(ascii_lowered(value@).take(8) =~= "\\\\?\\unc\\"@);
    }
    assert(value@.skip(8) =~= rest);
    let s = "\\\\"@ + rest;
    lemma_backslashed(s);
    assert(backslashed(s) =~= s) by {
        assert forall|i: int| 0 <= i < s.len() implies #[trigger] backslashed(s)[i] == s[i] by {
            if i >= 2 {
                assert(rest.contains(rest[i - 2]));
            }
        }
    }
}

proof fn lemma_matching(stats: Seq<ThreadCwdStat>, c: Seq<char>, x: ThreadCwdStat)
    ensures
        matching(stats, c).contains(x) <==> stats.contains(x) && x.normalized_cwd@ == c,
    decreases stats.len(),
{
    let all = matching(stats, c);
    if stats.len() > 0 {
        let rest = stats.drop_last();
        let before = matching(rest, c);
        lemma_matching(rest, c, x);
        if rest.contains(x) {
            let i = choose|i: int| 0 <= i < rest.len() && rest[i] == x;
            assert(stats[i] == x);
        }
        if stats.contains(x) && x != stats.last() {
            let i = choose|i: int| 0 <= i < stats.len() && stats[i] == x;
            assert(rest[i] == x);
        }
        assert(stats[stats.len() - 1] == stats.last());
        if stats.last().normalized_cwd@ == c {
            assert(all == before.push(stats.last()));
            assert(all[all.len() - 1] == stats.last());
            if before.contains(x) {
                let i = choose|i: int| 0 <= i < before.len() && before[i] == x;
                assert(all[i] == x);
            }
            if all.contains(x) && x != stats.last() {
                let i = choose|i: int| 0 <= i < all.len() && all[i] == x;
                assert(before[i] == x);
            }
        }
    }
}

/// A stored path becomes the folder of the most threads that mean the same
/// place, of equals the one last used, and is only made plain where no thread
/// means that place.
pub proof fn law_resolved(value: &str, stats: Vec<ThreadCwdStat>, place: Option<String>, r: String)
    requires
        call_ensures(normalize_comparable_path, (value,), place),
        call_ensures(resolve_stored_path, (value, &stats), r),
    ensures
        place is None ==> r@ == value@,
        place matches Some(c) ==> (forall|i: int| 0 <= i < stats@.len() ==> (#[trigger] stats@[i]).normalized_cwd@ != c@)
            ==> r@ == normal_path(value@),
        place matches Some(c) ==> (exists|i: int| 0 <= i < stats@.len() && (#[trigger] stats@[i]).normalized_cwd@ == c@)
            ==> exists|k: int|
            0 <= k < stats@.len() && (#[trigger] stats@[k]).normalized_cwd@ == c@ && r@ == normal_path(stats@[k].cwd@)
                && forall|i: int|
                0 <= i < stats@.len() && (#[trigger] stats@[i]).normalized_cwd@ == c@ ==> stats@[k].count > stats@[i].count
                    || (stats@[k].count == stats@[i].count && stats@[k].updated_at_ms >= stats@[i].updated_at_ms),
{
    assert(opt_text(place) == comparable(value@));
    assert(r@ == resolved(value@, stats@));
    if place is Some {
        let c = place->0@;
        let found = sorted_by(matching(stats@, c), used_before());
        law_used_before_is_order();
        law_sorted(matching(stats@, c), used_before());
        if exists|i: int| 0 <= i < stats@.len() && (#[trigger] stats@[i]).normalized_cwd@ == c {
            let m = choose|i: int| 0 <= i < stats@.len() && (#[trigger] stats@[i]).normalized_cwd@ == c;
            lemma_matching(stats@, c, stats@[m]);
            assert(stats@.contains(stats@[m]));
            law_sorted_holds(matching(stats@, c), used_before(), stats@[m]);
            assert(found.len() > 0);
            let best = found[0];
            assert(found.contains(best));
            law_sorted_holds(matching(stats@, c), used_before(), best);
            lemma_matching(stats@, c, best);
            let k = choose|k: int| 0 <= k < stats@.len() && stats@[k] == best;
            assert forall|i: int| 0 <= i < stats@.len() && (#[trigger] stats@[i]).normalized_cwd@ == c implies
                stats@[k].count > stats@[i].count || (stats@[k].count == stats@[i].count && stats@[k].updated_at_ms
                >= stats@[i].updated_at_ms) by {
                lemma_matching(stats@, c, stats@[i]);
                assert(stats@.contains(stats@[i]));
                law_sorted_holds(matching(stats@, c), used_before(), stats@[i]);
                let j = choose|j: int| 0 <= j < found.len() && found[j] == stats@[i];
                assert(used_before()(found[0], found[j]));
            }
        } else {
            assert(matching(stats@, c).len() == 0) by {
                if matching(stats@, c).len() > 0 {
                    let x = matching(stats@, c)[0];
                    assert(matching(stats@, c).contains(x));
                    lemma_matching(stats@, c, x);
                    let i = choose|i: int| 0 <= i < stats@.len() && stats@[i] == x;
                    assert(stats@[i].normalized_cwd@ == c);
                }
            }
        }
    }
}

/// Dropping the paths that come again keeps one path for every place and the
/// order of those that are kept: the first path for a place stays.
pub proof fn law_dedupe(paths: Vec<String>, r: Vec<String>, c: Seq<char>)
    requires
        call_ensures(dedupe_paths, (&paths,), r),
    ensures
        (exists|i: int| 0 <= i < r@.len() && comparable((#[trigger] r@[i])@) == Some(c)) <==> (exists|i: int|
            0 <= i < paths@.len() && comparable((#[trigger] paths@[i])@) == Some(c)),
        forall|i: int, j: int| 0 <= i < j < r@.len() ==> comparable((#[trigger] r@[i])@) != comparable((#[trigger] r@[j])@),
        paths@.len() > 0 && comparable(paths@[0]@) is Some ==> r@.len() > 0 && r@[0]@ == paths@[0]@,
{
    let from = texts(paths@);
    let to = texts(r@);
    assert(to == deduped(from));
    lemma_from_input(from, c);
    law_deduped(from);
    assert(forall|i: int| 0 <= i < to.len() ==> #[trigger] to[i] == r@[i]@);
    assert(forall|i: int| 0 <= i < from.len() ==> #[trigger] from[i] == paths@[i]@);
    if exists|i: int| 0 <= i < r@.len() && comparable((#[trigger] r@[i])@) == Some(c) {
        let i = choose|i: int| 0 <= i < r@.len() && comparable((#[trigger] r@[i])@) == Some(c);
        assert(comparable(to[i]) == Some(c));
        let k = choose|k: int| 0 <= k < from.len() && comparable(#[trigger] from[k]) == Some(c);
        assert(comparable(paths@[k]@) == Some(c));
    }
    if exists|i: int| 0 <= i < paths@.len() && comparable((#[trigger] paths@[i])@) == Some(c) {
        let i = choose|i: int| 0 <= i < paths@.len() && comparable((#[trigger] paths@[i])@) == Some(c);
        assert(comparable(from[i]) == Some(c));
        let k = choose|k: int| 0 <= k < to.len() && comparable(#[trigger] to[k]) == Some(c);
        assert(comparable(r@[k]@) == Some(c));
    }
    assert forall|i: int, j: int| 0 <= i < j < r@.len() implies comparable((#[trigger] r@[i])@) != comparable(
        (#[trigger] r@[j])@,
    ) by {
        assert(comparable(to[i]) != comparable(to[j]));
    }
    if paths@.len() > 0 && comparable(paths@[0]@) is Some {
        lemma_first_stays(from);
        assert(to[0] == r@[0]@);
    }
}

} // verus!
