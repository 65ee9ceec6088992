//! Sequences of bytes.

use vstd::prelude::*;

verus! {

/// Puts bytes at the end of others.
pub fn append_bytes(out: &mut Vec<u8>, more: &[u8])
    ensures
        final(out)@ == old(out)@ + more@,
{
    let ghost before = out@;
    for i in 0..more.len()
        invariant
            before == old(out)@,
            out@ == before + more@.take(i as int),
    {
        out.push(more[i]);
        assert(out@ =~= before + more@.take(i + 1));
    }
    assert(more@.take(more@.len() as int) =~= more@);
}

/// The place of the first line feed, or the length.
pub open spec fn line_feed(bytes: Seq<u8>) -> nat
    decreases bytes.len(),
{
    if bytes.len() == 0 || bytes[0] == 10u8 {
        0
    } else {
        1 + line_feed(bytes.drop_first())
    }
}

pub proof fn lemma_line_feed(bytes: Seq<u8>, n: int)
    requires
        0 <= n <= bytes.len(),
        forall|j: int| 0 <= j < n ==> #[trigger] bytes[j] != 10u8,
        n < bytes.len() ==> bytes[n] == 10u8,
    ensures
        line_feed(bytes) == n,
    decreases bytes.len(),
{
    if n > 0 {
        assert(bytes[0] != 10u8);
        assert forall|j: int| 0 <= j < n - 1 implies #[trigger] bytes.drop_first()[j] != 10u8 by {
            assert(bytes[j + 1] != 10u8);
        }
        lemma_line_feed(bytes.drop_first(), n - 1);
    }
}

pub proof fn lemma_line_feed_bound(bytes: Seq<u8>)
    ensures
        line_feed(bytes) <= bytes.len(),
        line_feed(bytes) < bytes.len() ==> bytes[line_feed(bytes) as int] == 10u8,
    decreases bytes.len(),
{
    if bytes.len() > 0 && bytes[0] != 10u8 {
        lemma_line_feed_bound(bytes.drop_first());
    }
}

/// The place of the first line feed, or the length.
pub fn find_line_feed(bytes: &[u8]) -> (r: usize)
    ensures
        r == line_feed(bytes@),
        r <= bytes@.len(),
        r < bytes@.len() ==> bytes@[r as int] == 10u8,
{
    let n: usize = bytes.len();
    let mut i: usize = 0;
    while i < n && bytes[i] != 10u8
        invariant
            n == bytes@.len(),
            i <= n,
            forall|j: int| 0 <= j < i ==> #[trigger] bytes@[j] != 10u8,
        decreases n - i,
    {
        i += 1;
    }
    proof {
        lemma_line_feed(bytes@, i as int);
    }
    i
}

} // verus!
