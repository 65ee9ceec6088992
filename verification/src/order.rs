//! Orders on texts and a stable sort.

use vstd::prelude::*;

use crate::text::{chars_of, same, texts};

verus! {

/// The dictionary order of two texts by their characters.
pub open spec fn text_le(a: Seq<char>, b: Seq<char>) -> bool
    decreases a.len(),
{
    if a.len() == 0 {
        true
    } else if b.len() == 0 {
        false
    } else if a[0] != b[0] {
        a[0] < b[0]
    } else {
        text_le(a.drop_first(), b.drop_first())
    }
}

/// `s` with `x` put in before the elements at its end that do not go first.
pub open spec fn insert_ordered<T>(s: Seq<T>, x: T, le: spec_fn(T, T) -> bool) -> Seq<T>
    decreases s.len(),
{
    if s.len() == 0 || le(s.last(), x) {
        s.push(x)
    } else {
        insert_ordered(s.drop_last(), x, le).push(s.last())
    }
}

/// The elements of `s` in the order of `le`, equal ones in the order they had.
pub open spec fn sorted_by<T>(s: Seq<T>, le: spec_fn(T, T) -> bool) -> Seq<T>
    decreases s.len(),
{
    if s.len() == 0 {
        s
    } else {
        insert_ordered(sorted_by(s.drop_last(), le), s.last(), le)
    }
}

/// Whether `le` compares any two values and is transitive.
pub open spec fn is_order<T>(le: spec_fn(T, T) -> bool) -> bool {
    &&& forall|a: T, b: T| #[trigger] le(a, b) || le(b, a)
    &&& forall|a: T, b: T, c: T| #[trigger] le(a, b) && #[trigger] le(b, c) ==> le(a, c)
}

/// Whether each element goes before the later ones.
pub open spec fn is_ordered<T>(s: Seq<T>, le: spec_fn(T, T) -> bool) -> bool {
    forall|i: int, j: int| 0 <= i <= j < s.len() ==> le(#[trigger] s[i], #[trigger] s[j])
}

/// Any two texts compare.
pub proof fn law_text_le_total(a: Seq<char>, b: Seq<char>)
    ensures
        text_le(a, b) || text_le(b, a),
    decreases a.len(),
{
    if a.len() > 0 && b.len() > 0 && a[0] == b[0] {
        law_text_le_total(a.drop_first(), b.drop_first());
    }
}

/// The order of texts is transitive.
pub proof fn law_text_le_transitive(a: Seq<char>, b: Seq<char>, c: Seq<char>)
    requires
        text_le(a, b),
        text_le(b, c),
    ensures
        text_le(a, c),
    decreases a.len(),
{
    if a.len() > 0 && b.len() > 0 && c.len() > 0 && a[0] == b[0] && b[0] == c[0] {
        law_text_le_transitive(a.drop_first(), b.drop_first(), c.drop_first());
    }
}

/// Two texts that go before one another are equal.
pub proof fn law_text_le_antisymmetric(a: Seq<char>, b: Seq<char>)
    requires
        text_le(a, b),
        text_le(b, a),
    ensures
        a == b,
    decreases a.len(),
{
    if a.len() > 0 && b.len() > 0 {
        law_text_le_antisymmetric(a.drop_first(), b.drop_first());
        assert(a == seq![a[0]] + a.drop_first());
        assert(b == seq![b[0]] + b.drop_first());
    } else {
        assert(a == b);
    }
}

proof fn lemma_insert_ordered<T>(s: Seq<T>, x: T, le: spec_fn(T, T) -> bool)
    ensures
        insert_ordered(s, x, le).len() == s.len() + 1,
        insert_ordered(s, x, le).to_multiset() == s.to_multiset().insert(x),
        is_order(le) && is_ordered(s, le) ==> is_ordered(insert_ordered(s, x, le), le),
        forall|y: T| #[trigger] insert_ordered(s, x, le).contains(y) ==> y == x || s.contains(y),
    decreases s.len(),
{
    broadcast use vstd::seq_lib::group_to_multiset_ensures;

    let r = insert_ordered(s, x, le);
    if s.len() == 0 || le(s.last(), x) {
        if is_order(le) && is_ordered(s, le) {
            assert forall|i: int, j: int| 0 <= i <= j < r.len() implies le(#[trigger] r[i], #[trigger] r[j]) by {
                if j == s.len() && i < j {
                    assert(le(s[i], s[s.len() - 1]));
                }
            }
        }
    } else {
        let inner = insert_ordered(s.drop_last(), x, le);
        lemma_insert_ordered(s.drop_last(), x, le);
        assert(s == s.drop_last().push(s.last()));
        assert(s.to_multiset() == s.drop_last().to_multiset().insert(s.last()));
        assert(r.to_multiset() =~= s.to_multiset().insert(x));
        assert forall|y: T| #[trigger] r.contains(y) implies y == x || s.contains(y) by {
            let k = choose|k: int| 0 <= k < r.len() && r[k] == y;
            if k == r.len() - 1 {
                assert(s[s.len() - 1] == y);
            } else {
                assert(inner[k] == y);
                assert(inner.contains(y));
                if y != x {
                    let m = choose|m: int| 0 <= m < s.drop_last().len() && s.drop_last()[m] == y;
                    assert(s[m] == y);
                }
            }
        }
        if is_order(le) && is_ordered(s, le) {
            assert(is_ordered(s.drop_last(), le)) by {
                assert forall|i: int, j: int| 0 <= i <= j < s.drop_last().len() implies le(
                    #[trigger] s.drop_last()[i],
                    #[trigger] s.drop_last()[j],
                ) by {
                    assert(le(s[i], s[j]));
                }
            }
            assert forall|i: int, j: int| 0 <= i <= j < r.len() implies le(#[trigger] r[i], #[trigger] r[j]) by {
                if j < inner.len() {
                    assert(le(inner[i], inner[j]));
                } else if i < j {
                    assert(inner.contains(inner[i]));
                    if inner[i] != x {
                        let m = choose|m: int| 0 <= m < s.drop_last().len() && s.drop_last()[m] == inner[i];
                        assert(le(s[m], s[s.len() - 1]));
                    }
                }
            }
        }
    }
}

/// Sorting puts the elements in order and neither adds nor drops one.
pub proof fn law_sorted<T>(s: Seq<T>, le: spec_fn(T, T) -> bool)
    requires
        is_order(le),
    ensures
        is_ordered(sorted_by(s, le), le),
        sorted_by(s, le).to_multiset() == s.to_multiset(),
        sorted_by(s, le).len() == s.len(),
    decreases s.len(),
{
    broadcast use vstd::seq_lib::group_to_multiset_ensures;

    if s.len() > 0 {
        law_sorted(s.drop_last(), le);
        lemma_insert_ordered(sorted_by(s.drop_last(), le), s.last(), le);
        assert(s == s.drop_last().push(s.last()));
    }
}

/// Sorting loses nothing and adds nothing.
pub proof fn law_sorted_holds<T>(s: Seq<T>, le: spec_fn(T, T) -> bool, x: T)
    requires
        is_order(le),
    ensures
        sorted_by(s, le).contains(x) <==> s.contains(x),
{
    broadcast use vstd::seq_lib::group_to_multiset_ensures;

    law_sorted(s, le);
    assert(sorted_by(s, le).to_multiset().count(x) == s.to_multiset().count(x));
}

/// Texts go by the first character in which they differ, and a text goes before
/// what it begins.
pub proof fn law_text_le_by_first_difference(start: Seq<char>, a: Seq<char>, b: Seq<char>)
    ensures
        text_le(start, start + a),
        a.len() > 0 ==> !text_le(start + a, start),
        a.len() > 0 && b.len() > 0 && a[0] != b[0] ==> text_le(start + a, start + b) == (a[0] < b[0]),
    decreases start.len(),
{
    if start.len() == 0 {
        assert(start + a =~= a);
        assert(start + b =~= b);
    } else {
        law_text_le_by_first_difference(start.drop_first(), a, b);
        assert((start + a).drop_first() =~= start.drop_first() + a);
        assert((start + b).drop_first() =~= start.drop_first() + b);
    }
}

proof fn lemma_insert_ordered_at<T>(s: Seq<T>, x: T, le: spec_fn(T, T) -> bool, k: int)
    requires
        0 <= k <= s.len(),
        forall|j: int| k <= j < s.len() ==> !le(#[trigger] s[j], x),
        k > 0 ==> le(s[k - 1], x),
    ensures
        insert_ordered(s, x, le) == s.insert(k, x),
    decreases s.len(),
{
    if k < s.len() {
        assert(!le(s[s.len() - 1], x));
        lemma_insert_ordered_at(s.drop_last(), x, le, k);
        assert(insert_ordered(s, x, le) == s.insert(k, x));
    } else {
        assert(s.push(x) == s.insert(k, x));
    }
}

/// Whether a closure compares as `le` does.
pub open spec fn compares<T, F: Fn(&T, &T) -> bool>(f: F, le: spec_fn(T, T) -> bool) -> bool {
    &&& forall|a: &T, b: &T| call_requires(f, (a, b))
    &&& forall|a: &T, b: &T, r: bool| call_ensures(f, (a, b), r) ==> r == le(*a, *b)
}

/// Sorts a list; equal elements keep their order.
pub fn sort_with<T, F: Fn(&T, &T) -> bool>(
    items: Vec<T>,
    f: F,
    Ghost(le): Ghost<spec_fn(T, T) -> bool>,
) -> (r: Vec<T>)
    requires
        compares(f, le),
    ensures
        r@ == sorted_by(items@, le),
{
    let ghost all = items@;
    let mut out: Vec<T> = Vec::new();
    for x in it: items
        invariant
            compares(f, le),
            it.seq() == all,
            out@ == sorted_by(all.take(it.index() as int), le),
    {
        let mut k: usize = out.len();
        while k > 0 && !f(&out[k - 1], &x)
            invariant
                compares(f, le),
                k <= out@.len(),
                forall|j: int| k <= j < out@.len() ==> !le(#[trigger] out@[j], x),
            ensures
                k <= out@.len(),
                forall|j: int| k <= j < out@.len() ==> !le(#[trigger] out@[j], x),
                k > 0 ==> le(out@[k - 1], x),
            decreases k,
        {
            k -= 1;
        }
        proof {
            lemma_insert_ordered_at(out@, x, le, k as int);
            let i = it.index() as int;
            assert(all.take(i + 1).drop_last() == all.take(i));
        }
        out.insert(k, x);
    }
    assert(all.take(all.len() as int) == all);
    out
}

/// Whether `a` goes before `b` in the dictionary order, or equals it.
pub fn text_leq(a: &str, b: &str) -> (r: bool)
    ensures
        r == text_le(a@, b@),
{
    let x = chars_of(a);
    let y = chars_of(b);
    let mut i: usize = 0;
    assert(a@.skip(0) == a@);
    assert(b@.skip(0) == b@);
    loop
        invariant
            x@ == a@,
            y@ == b@,
            i <= x@.len(),
            i <= y@.len(),
            text_le(a@, b@) == text_le(a@.skip(i as int), b@.skip(i as int)),
        decreases x@.len() - i,
    {
        if i == x.len() {
            return true;
        }
        if i == y.len() {
            return false;
        }
        if x[i] != y[i] {
            return x[i] < y[i];
        }
        assert(a@.skip(i as int).drop_first() == a@.skip(i + 1));
        assert(b@.skip(i as int).drop_first() == b@.skip(i + 1));
        i += 1;
    }
}

/// The order of strings by their texts.
pub open spec fn by_text() -> spec_fn(String, String) -> bool {
    |a: String, b: String| text_le(a@, b@)
}

/// The order of strings by their texts is an order.
pub proof fn law_by_text_is_order()
    ensures
        is_order(by_text()),
{
    assert forall|a: String, b: String| #[trigger] by_text()(a, b) || by_text()(b, a) by {
        law_text_le_total(a@, b@);
    }
    assert forall|a: String, b: String, c: String| #[trigger] by_text()(a, b) && #[trigger] by_text()(b, c) implies by_text()(a, c) by {
        law_text_le_transitive(a@, b@, c@);
    }
}

/// Sorts strings in the dictionary order.
pub fn sort_texts(items: Vec<String>) -> (r: Vec<String>)
    ensures
        r@ == sorted_by(items@, by_text()),
{
    let f = |a: &String, b: &String| -> (r: bool)
        ensures
            r == text_le(a@, b@),
        { text_leq(a.as_str(), b.as_str()) };
    sort_with(items, f, Ghost(by_text()))
}

/// Whether the texts stand in order, each once.
pub open spec fn is_ascending(s: Seq<Seq<char>>) -> bool {
    forall|i: int, j: int| 0 <= i < j < s.len() ==> text_le(#[trigger] s[i], #[trigger] s[j]) && s[i] != s[j]
}

/// The texts of a set, in order.
pub open spec fn ascending(set: Set<Seq<char>>) -> Seq<Seq<char>> {
    choose|s: Seq<Seq<char>>| #[trigger] is_ascending(s) && s.to_set() == set
}

proof fn lemma_ascending_unique(a: Seq<Seq<char>>, b: Seq<Seq<char>>)
    requires
        is_ascending(a),
        is_ascending(b),
        a.to_set() == b.to_set(),
    ensures
        a == b,
    decreases a.len(),
{
    if a.len() == 0 {
        if b.len() > 0 {
            assert(b.to_set().contains(b[0]));
            assert(a.to_set().contains(b[0]));
        }
        assert(a =~= b);
    } else {
        assert(a.to_set().contains(a[0]));
        assert(b.to_set().contains(a[0]));
        let x = a.last();
        let y = b.last();
        assert(a.to_set().contains(x));
        assert(b.contains(x));
        assert(b.to_set().contains(y));
        assert(a.contains(y));
        let i = choose|i: int| 0 <= i < b.len() && b[i] == x;
        let j = choose|j: int| 0 <= j < a.len() && a[j] == y;
        if x != y {
            assert(text_le(b[i], b[b.len() - 1]));
            assert(text_le(a[j], a[a.len() - 1]));
            law_text_le_antisymmetric(x, y);
        }
        let p = a.drop_last();
        let q = b.drop_last();
        assert forall|i: int, j: int| 0 <= i < j < p.len() implies text_le(#[trigger] p[i], #[trigger] p[j]) && p[i]
            != p[j] by {
            assert(text_le(a[i], a[j]) && a[i] != a[j]);
        }
        assert forall|i: int, j: int| 0 <= i < j < q.len() implies text_le(#[trigger] q[i], #[trigger] q[j]) && q[i]
            != q[j] by {
            assert(text_le(b[i], b[j]) && b[i] != b[j]);
        }
        assert forall|t: Seq<char>| #[trigger] p.to_set().contains(t) implies q.to_set().contains(t) by {
            lemma_below_last(a, b, t);
        }
        assert forall|t: Seq<char>| #[trigger] q.to_set().contains(t) implies p.to_set().contains(t) by {
            lemma_below_last(b, a, t);
        }
        assert(p.to_set() =~= q.to_set());
        lemma_ascending_unique(p, q);
        assert(a =~= p.push(x));
        assert(b =~= q.push(y));
    }
}

proof fn lemma_below_last(a: Seq<Seq<char>>, b: Seq<Seq<char>>, t: Seq<char>)
    requires
        is_ascending(a),
        a.len() > 0,
        b.len() > 0,
        a.last() == b.last(),
        a.to_set() == b.to_set(),
        a.drop_last().to_set().contains(t),
    ensures
        b.drop_last().to_set().contains(t),
{
    let p = a.drop_last();
    let k = choose|k: int| 0 <= k < p.len() && p[k] == t;
    assert(a[k] == t);
    assert(a[k] != a[a.len() - 1]);
    assert(a.to_set().contains(t));
    assert(b.contains(t));
    let m = choose|m: int| 0 <= m < b.len() && b[m] == t;
    assert(b.drop_last()[m] == t);
}

/// The texts of a set in order: it is such a list, and the only one.
pub proof fn law_ascending(s: Seq<Seq<char>>)
    requires
        is_ascending(s),
    ensures
        ascending(s.to_set()) == s,
{
    let chosen = ascending(s.to_set());
    assert(is_ascending(s) && s.to_set() == s.to_set());
    lemma_ascending_unique(chosen, s);
}

/// Putting a text into its place keeps a list in order.
proof fn lemma_ascending_insert(s: Seq<Seq<char>>, x: Seq<char>, k: int)
    requires
        is_ascending(s),
        0 <= k <= s.len(),
        forall|j: int| 0 <= j < k ==> text_le(#[trigger] s[j], x) && s[j] != x,
        k < s.len() ==> !text_le(s[k], x),
    ensures
        is_ascending(s.insert(k, x)),
        s.insert(k, x).to_set() == s.to_set().insert(x),
{
    let r = s.insert(k, x);
    assert forall|j: int| k <= j < s.len() implies text_le(x, #[trigger] s[j]) && s[j] != x by {
        law_text_le_total(s[k], x);
        if j > k {
            assert(text_le(s[k], s[j]));
            law_text_le_transitive(x, s[k], s[j]);
        }
        law_text_le_total(s[j], s[j]);
    }
    assert forall|a: int, b: int| 0 <= a < b < r.len() implies text_le(#[trigger] r[a], #[trigger] r[b]) && r[a] != r[b] by {
        let a0 = if a < k {
            a
        } else {
            a - 1
        };
        let b0 = if b < k {
            b
        } else {
            b - 1
        };
        if a != k && b != k {
            assert(r[a] == s[a0] && r[b] == s[b0]);
        } else if a == k {
            assert(r[b] == s[b0]);
        } else {
            assert(r[a] == s[a0]);
        }
    }
    assert forall|t: Seq<char>| #[trigger] r.contains(t) <==> s.contains(t) || t == x by {
        if r.contains(t) && t != x {
            let m = choose|m: int| 0 <= m < r.len() && r[m] == t;
            if m < k {
                assert(s[m] == t);
            } else {
                assert(s[m - 1] == t);
            }
        }
        if s.contains(t) {
            let m = choose|m: int| 0 <= m < s.len() && s[m] == t;
            if m < k {
                assert(r[m] == t);
            } else {
                assert(r[m + 1] == t);
            }
        }
        if t == x {
            assert(r[k] == t);
        }
    }
    assert(r.to_set() =~= s.to_set().insert(x));
}

/// The place of the first text of a list in order that does not come before
/// `x`.
proof fn lemma_ascending_place(s: Seq<Seq<char>>, x: Seq<char>, n: int) -> (k: int)
    requires
        is_ascending(s),
        !s.contains(x),
        0 <= n <= s.len(),
        forall|j: int| 0 <= j < n ==> text_le(#[trigger] s[j], x) && s[j] != x,
    ensures
        0 <= k <= s.len(),
        forall|j: int| 0 <= j < k ==> text_le(#[trigger] s[j], x) && s[j] != x,
        k < s.len() ==> !text_le(s[k], x),
    decreases s.len() - n,
{
    if n < s.len() && text_le(s[n], x) {
        assert(s[n] != x);
        lemma_ascending_place(s, x, n + 1)
    } else {
        n
    }
}

/// Every finite set of texts can be put in order.
pub proof fn law_ascending_exists(set: Set<Seq<char>>)
    requires
        set.finite(),
    ensures
        is_ascending(ascending(set)),
        ascending(set).to_set() == set,
    decreases set.len(),
{
    if set.len() == 0 {
        let none = Seq::<Seq<char>>::empty();
        assert(none.to_set() =~= set) by {
            assert forall|t: Seq<char>| !(#[trigger] set.contains(t)) by {
                if set.contains(t) {
                    assert(set.remove(t).len() < set.len());
                }
            }
        }
        assert(is_ascending(none));
    } else {
        let x = set.choose();
        let rest = set.remove(x);
        law_ascending_exists(rest);
        let s = ascending(rest);
        assert(!s.contains(x)) by {
            if s.contains(x) {
                assert(s.to_set().contains(x));
            }
        }
        let k = lemma_ascending_place(s, x, 0);
        lemma_ascending_insert(s, x, k);
        assert(rest.insert(x) =~= set);
        assert(is_ascending(s.insert(k, x)));
    }
}

/// Sorts texts and drops the ones that come again.
pub fn sort_distinct(items: &Vec<String>) -> (r: Vec<String>)
    ensures
        texts(r@) == ascending(texts(items@).to_set()),
        is_ascending(texts(r@)),
        texts(r@).to_set() == texts(items@).to_set(),
{
    let ghost all = texts(items@);
    let mut out: Vec<String> = Vec::new();
    assert(texts(out@).to_set() =~= all.take(0).to_set());
    for i in 0..items.len()
        invariant
            all == texts(items@),
            is_ascending(texts(out@)),
            texts(out@).to_set() == all.take(i as int).to_set(),
    {
        let ghost before = texts(out@);
        let ghost x = all[i as int];
        assert(x == items@[i as int]@);
        let mut k: usize = 0;
        let mut found: bool = false;
        while k < out.len() && text_leq(out[k].as_str(), items[i].as_str())
            invariant
                before == texts(out@),
                x == items@[i as int]@,
                i < items@.len(),
                k <= out@.len(),
                forall|j: int| 0 <= j < k ==> text_le(#[trigger] before[j], x),
                found == exists|j: int| 0 <= j < k && #[trigger] before[j] == x,
            ensures
                k <= out@.len(),
                forall|j: int| 0 <= j < k ==> text_le(#[trigger] before[j], x),
                found == exists|j: int| 0 <= j < k && #[trigger] before[j] == x,
                k < out@.len() ==> !text_le(before[k as int], x),
            decreases out@.len() - k,
        {
            assert(before[k as int] == out@[k as int]@);
            if same(out[k].as_str(), items[i].as_str()) {
                found = true;
            }
            k += 1;
        }
        assert(all.take(i + 1) =~= all.take(i as int).push(x));
        assert(all.take(i + 1).to_set() =~= all.take(i as int).to_set().insert(x)) by {
            lemma_push_to_set(all.take(i as int), x);
        }
        if !found {
            proof {
                lemma_ascending_insert(before, x, k as int);
            }
            out.insert(k, items[i].clone());
            assert(texts(out@) =~= before.insert(k as int, x));
        } else {
            let ghost j = choose|j: int| 0 <= j < k && #[trigger] before[j] == x;
            assert(before.to_set().contains(before[j]));
            assert(before.to_set().insert(x) =~= before.to_set());
        }
    }
    assert(all.take(all.len() as int) =~= all);
    proof {
        law_ascending(texts(out@));
    }
    out
}

proof fn lemma_push_to_set(s: Seq<Seq<char>>, x: Seq<char>)
    ensures
        s.push(x).to_set() == s.to_set().insert(x),
{
    assert forall|t: Seq<char>| #[trigger] s.push(x).contains(t) <==> s.contains(t) || t == x by {
        if s.contains(t) {
            let m = choose|m: int| 0 <= m < s.len() && s[m] == t;
            assert(s.push(x)[m] == t);
        }
        if t == x {
            assert(s.push(x)[s.len() as int] == t);
        }
        if s.push(x).contains(t) && t != x {
            let m = choose|m: int| 0 <= m < s.push(x).len() && s.push(x)[m] == t;
            assert(s[m] == t);
        }
    }
    assert(s.push(x).to_set() =~= s.to_set().insert(x));
}

/// A list in order has as many texts as its set.
pub proof fn lemma_ascending_len(s: Seq<Seq<char>>)
    requires
        is_ascending(s),
    ensures
        s.to_set().len() == s.len(),
        s.to_set().finite(),
{
    assert forall|i: int, j: int| 0 <= i < s.len() && 0 <= j < s.len() && i != j implies s[i] != s[j] by {
        if i < j {
            assert(text_le(s[i], s[j]) && s[i] != s[j]);
        } else {
            assert(text_le(s[j], s[i]) && s[j] != s[i]);
        }
    }
    s.unique_seq_to_set();
}

} // verus!
