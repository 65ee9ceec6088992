//! Counts by key, and how they are told.

use vstd::prelude::*;

use crate::order::{ascending, sort_distinct};
use crate::text::{decimal, decimal_text, join, joined, same, texts};

verus! {

/// Counts by key. Where a key stands twice, the last count holds.
pub struct Counts {
    pub entries: Vec<(String, usize)>,
}

pub open spec fn count_map(entries: Seq<(String, usize)>) -> Map<Seq<char>, nat>
    decreases entries.len(),
{
    if entries.len() == 0 {
        Map::empty()
    } else {
        count_map(entries.drop_last()).insert(entries.last().0@, entries.last().1 as nat)
    }
}

impl View for Counts {
    type V = Map<Seq<char>, nat>;

    open spec fn view(&self) -> Map<Seq<char>, nat> {
        count_map(self.entries@)
    }
}

/// The count of a key, none being 0.
pub open spec fn count_of(counts: Map<Seq<char>, nat>, key: Seq<char>) -> nat {
    if counts.dom().contains(key) {
        counts[key]
    } else {
        0
    }
}

/// How often each key stands in a list.
pub open spec fn tally(keys: Seq<Seq<char>>) -> Map<Seq<char>, nat>
    decreases keys.len(),
{
    if keys.len() == 0 {
        Map::empty()
    } else {
        let before = tally(keys.drop_last());
        before.insert(keys.last(), count_of(before, keys.last()) + 1)
    }
}

proof fn lemma_count_map(entries: Seq<(String, usize)>)
    ensures
        forall|key: Seq<char>| #[trigger] count_map(entries).dom().contains(key) <==> exists|i: int|
            0 <= i < entries.len() && (#[trigger] entries[i]).0@ == key,
    decreases entries.len(),
{
    if entries.len() > 0 {
        let before = entries.drop_last();
        lemma_count_map(before);
        assert forall|key: Seq<char>| #[trigger] count_map(entries).dom().contains(key) implies exists|i: int|
            0 <= i < entries.len() && (#[trigger] entries[i]).0@ == key by {
            if key == entries.last().0@ {
                assert(entries[entries.len() - 1].0@ == key);
            } else {
                assert(count_map(before).dom().contains(key));
                let i = choose|i: int| 0 <= i < before.len() && (#[trigger] before[i]).0@ == key;
                assert(entries[i].0@ == key);
            }
        }
        assert forall|key: Seq<char>|
            (exists|i: int| 0 <= i < entries.len() && (#[trigger] entries[i]).0@ == key) implies #[trigger] count_map(
            entries,
        ).dom().contains(key) by {
            let i = choose|i: int| 0 <= i < entries.len() && (#[trigger] entries[i]).0@ == key;
            if i < before.len() {
                assert(before[i].0@ == key);
                assert(count_map(before).dom().contains(key));
            }
        }
    }
}

impl Counts {
    pub fn new() -> (r: Counts)
        ensures
            r@ == Map::<Seq<char>, nat>::empty(),
    {
        Counts { entries: Vec::new() }
    }

    pub fn get(&self, key: &str) -> (r: Option<usize>)
        ensures
            match r {
                Some(n) => self@.dom().contains(key@) && self@[key@] == n,
                None => !self@.dom().contains(key@),
            },
    {
        let mut i: usize = self.entries.len();
        assert(self.entries@.take(i as int) =~= self.entries@);
        while i > 0
            invariant
                i <= self.entries@.len(),
                self@.dom().contains(key@) == count_map(self.entries@.take(i as int)).dom().contains(key@),
                self@.dom().contains(key@) ==> self@[key@] == count_map(self.entries@.take(i as int))[key@],
            decreases i,
        {
            i -= 1;
            assert(self.entries@.take(i + 1).drop_last() =~= self.entries@.take(i as int));
            if same(self.entries[i].0.as_str(), key) {
                return Some(self.entries[i].1);
            }
        }
        None
    }

    pub fn set(&mut self, key: String, count: usize)
        ensures
            final(self)@ == old(self)@.insert(key@, count as nat),
    {
        let ghost before = self.entries@;
        self.entries.push((key, count));
        assert(self.entries@.drop_last() =~= before);
    }

    /// The counts of the keys of a list.
    pub fn tally_of(keys: &Vec<String>) -> (r: Counts)
        ensures
            r@ == tally(texts(keys@)),
    {
        let ghost all = texts(keys@);
        let mut counts = Counts::new();
        for i in 0..keys.len()
            invariant
                all == texts(keys@),
                counts@ == tally(all.take(i as int)),
                forall|key: Seq<char>| count_of(counts@, key) <= i,
        {
            assert(all.take(i + 1).drop_last() =~= all.take(i as int));
            assert(all[i as int] == keys@[i as int]@);
            let n: usize = match counts.get(keys[i].as_str()) {
                Some(n) => n,
                None => 0,
            };
            let ghost before = counts@;
            assert(n == count_of(before, all[i as int]));
            counts.set(keys[i].clone(), n + 1);
            assert forall|key: Seq<char>| count_of(counts@, key) <= i + 1 by {
                assert(count_of(before, key) <= i);
            }
        }
        assert(all.take(all.len() as int) =~= all);
        counts
    }

    /// The keys, in order.
    pub fn keys(&self) -> (r: Vec<String>)
        ensures
            texts(r@) == ascending(self@.dom()),
            texts(r@).to_set() == self@.dom(),
    {
        let mut keys: Vec<String> = Vec::new();
        for i in 0..self.entries.len()
            invariant
                keys@.len() == i,
                forall|k: int| 0 <= k < i ==> (#[trigger] keys@[k])@ == self.entries@[k].0@,
        {
            keys.push(self.entries[i].0.clone());
        }
        proof {
            lemma_count_map(self.entries@);
            let all = texts(keys@);
            let dom = self@.dom();
            assert forall|t: Seq<char>| #[trigger] all.to_set().contains(t) <==> dom.contains(t) by {
                if all.contains(t) {
                    let k = choose|k: int| 0 <= k < all.len() && all[k] == t;
                    assert(keys@[k]@ == self.entries@[k].0@);
                    assert(self.entries@[k].0@ == t);
                }
                if dom.contains(t) {
                    let k = choose|k: int| 0 <= k < self.entries@.len() && (#[trigger] self.entries@[k]).0@ == t;
                    assert(keys@[k]@ == t);
                    assert(all[k] == t);
                }
            }
            assert(all.to_set() =~= dom);
        }
        sort_distinct(&keys)
    }
}

/// A key with its count.
pub open spec fn count_entry(counts: Map<Seq<char>, nat>, key: Seq<char>) -> Seq<char> {
    key + ": "@ + decimal(count_of(counts, key))
}

/// The counts in the order of their keys.
pub open spec fn counts_line(counts: Map<Seq<char>, nat>) -> Seq<char> {
    let keys = ascending(counts.dom());
    if keys.len() == 0 {
        "(none)"@
    } else {
        joined(keys.map_values(|key: Seq<char>| count_entry(counts, key)), ", "@)
    }
}

pub fn format_counts(counts: &Counts) -> (r: String)
    ensures
        r@ == counts_line(counts@),
{
    let keys = counts.keys();
    let ghost order = texts(keys@);
    assert(order == ascending(counts@.dom()));
    if keys.len() == 0 {
        return "(none)".to_owned();
    }
    let ghost shown = order.map_values(|key: Seq<char>| count_entry(counts@, key));
    let mut parts: Vec<String> = Vec::new();
    for i in 0..keys.len()
        invariant
            order == texts(keys@),
            shown == order.map_values(|key: Seq<char>| count_entry(counts@, key)),
            texts(parts@) == shown.take(i as int),
    {
        let n: usize = match counts.get(keys[i].as_str()) {
            Some(n) => n,
            None => 0,
        };
        let ghost before = texts(parts@);
        let part = keys[i].clone().concat(": ").concat(decimal_text(n as u128).as_str());
        parts.push(part);
        assert(shown[i as int] == count_entry(counts@, keys@[i as int]@));
        assert(texts(parts@) =~= before.push(shown[i as int]));
        assert(shown.take(i + 1) =~= shown.take(i as int).push(shown[i as int]));
    }
    assert(shown.take(shown.len() as int) =~= shown);
    join(parts.as_slice(), ", ")
}

/// A key counts as often as it stands in the list, and only the keys of the
/// list are counted.
pub proof fn law_tally(keys: Seq<Seq<char>>, key: Seq<char>)
    ensures
        count_of(tally(keys), key) == keys.filter(|k: Seq<char>| k == key).len(),
        tally(keys).dom().contains(key) <==> keys.contains(key),
    decreases keys.len(),
{
    reveal(Seq::filter);
    if keys.len() > 0 {
        law_tally(keys.drop_last(), key);
        assert(keys.contains(key) <==> keys.drop_last().contains(key) || key == keys.last()) by {
            if keys.contains(key) && key != keys.last() {
                let k = choose|k: int| 0 <= k < keys.len() && keys[k] == key;
                assert(keys.drop_last()[k] == key);
            }
            if keys.drop_last().contains(key) {
                let k = choose|k: int| 0 <= k < keys.drop_last().len() && keys.drop_last()[k] == key;
                assert(keys[k] == key);
            }
            if key == keys.last() {
                assert(keys[keys.len() - 1] == key);
            }
        }
    }
}

} // verus!
