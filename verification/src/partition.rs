//! Splitting a list of work into contiguous, near-equal chunks, one for each
//! worker.

use vstd::arithmetic::div_mod::lemma_fundamental_div_mod;
use vstd::prelude::*;

verus! {

/// The number of chunks made of `len` items for `requested` workers: one for
/// each worker, but never more chunks than items.
pub open spec fn chunk_count(len: nat, requested: nat) -> nat {
    if requested <= len {
        requested
    } else {
        len
    }
}

/// The length of chunk `k` among `count` chunks of `len` items: the quotient
/// of `len` by `count`, and one more for each of the first chunks until the
/// remainder is used up.
pub open spec fn chunk_len(len: nat, count: nat, k: nat) -> nat {
    if k < len % count {
        len / count + 1
    } else {
        len / count
    }
}

/// The index at which chunk `k` begins; for `k == count`, the index at which
/// the last chunk ends.
pub open spec fn chunk_start(len: nat, count: nat, k: nat) -> nat {
    if k < len % count {
        k * (len / count) + k
    } else {
        k * (len / count) + len % count
    }
}

/// The chunks of `s` for `requested` workers, in order.
pub open spec fn exact_chunks<T>(s: Seq<T>, requested: nat) -> Seq<Seq<T>> {
    let count = chunk_count(s.len(), requested);
    Seq::new(
        count,
        |k: int|
            s.subrange(
                chunk_start(s.len(), count, k as nat) as int,
                chunk_start(s.len(), count, (k + 1) as nat) as int,
            ),
    )
}

/// What each chunk of a list of chunks holds, in order.
pub open spec fn chunk_views<T>(chunks: Seq<Vec<T>>) -> Seq<Seq<T>> {
    Seq::new(chunks.len(), |k: int| chunks[k]@)
}

/// Chunk `k` begins where chunk `k - 1` ends, has the length that
/// `chunk_len` gives, and ends inside the list; the last chunk ends where the
/// list ends.
pub proof fn lemma_chunk_bounds(len: nat, count: nat, k: nat)
    requires
        count >= 1,
        k < count,
    ensures
        chunk_start(len, count, 0) == 0,
        chunk_start(len, count, k) + chunk_len(len, count, k) == chunk_start(len, count, k + 1),
        chunk_start(len, count, k + 1) <= len,
        chunk_start(len, count, count) == len,
{
    let base = len / count;
    let rest = len % count;
    lemma_fundamental_div_mod(len as int, count as int);
    assert(len == count * base + rest);
    assert((k + 1) * base == k * base + base) by (nonlinear_arith);
    assert((k + 1) * base <= count * base) by (nonlinear_arith)
        requires
            k + 1 <= count,
    ;
    assert(0 * base == 0);
}

/// The first `k` chunks, laid end to end, are the items before the start of
/// chunk `k`.
proof fn lemma_leading_chunks_flatten<T>(s: Seq<T>, requested: nat, k: nat)
    requires
        requested >= 1,
        s.len() >= 1,
        k <= chunk_count(s.len(), requested),
    ensures
        exact_chunks(s, requested).take(k as int).flatten() == s.subrange(
            0,
            chunk_start(s.len(), chunk_count(s.len(), requested), k) as int,
        ),
    decreases k,
{
    let count = chunk_count(s.len(), requested);
    let chunks = exact_chunks(s, requested);
    if k == 0 {
        lemma_chunk_bounds(s.len(), count, 0);
        assert(chunks.take(0) =~= Seq::<Seq<T>>::empty());
        assert(s.subrange(0, 0) =~= Seq::<T>::empty());
    } else {
        let before = (k - 1) as nat;
        lemma_leading_chunks_flatten(s, requested, before);
        lemma_chunk_bounds(s.len(), count, before);
        assert(chunks.take(k as int) =~= chunks.take(before as int).push(chunks[before as int]));
        chunks.take(before as int).lemma_flatten_push(chunks[before as int]);
        assert(s.subrange(0, chunk_start(s.len(), count, k) as int) =~= s.subrange(
            0,
            chunk_start(s.len(), count, before) as int,
        ) + chunks[before as int]);
    }
}

/// The chunks of a list are a partition of it. There is one for each worker,
/// or one for each item where the items are fewer; chunk `k` has the length
/// that `chunk_len` gives, so that any two lengths differ by at most one; and
/// the chunks laid end to end, in order, are the list itself.
pub proof fn lemma_chunks_partition<T>(s: Seq<T>, requested: nat)
    requires
        requested >= 1,
    ensures
        exact_chunks(s, requested).len() == chunk_count(s.len(), requested),
        requested <= s.len() ==> exact_chunks(s, requested).len() == requested,
        forall|k: int|
            0 <= k < exact_chunks(s, requested).len() ==> (#[trigger] exact_chunks(
                s,
                requested,
            )[k]).len() == chunk_len(s.len(), chunk_count(s.len(), requested), k as nat),
        forall|i: int, j: int|
            0 <= i < exact_chunks(s, requested).len() && 0 <= j < exact_chunks(s, requested).len()
                ==> (#[trigger] exact_chunks(s, requested)[i]).len() <= (#[trigger] exact_chunks(
                s,
                requested,
            )[j]).len() + 1,
        exact_chunks(s, requested).flatten() == s,
{
    let count = chunk_count(s.len(), requested);
    let chunks = exact_chunks(s, requested);
    assert forall|k: int| 0 <= k < chunks.len() implies (#[trigger] chunks[k]).len() == chunk_len(
        s.len(),
        count,
        k as nat,
    ) by {
        lemma_chunk_bounds(s.len(), count, k as nat);
    }
    if s.len() == 0 {
        assert(chunks =~= Seq::<Seq<T>>::empty());
        assert(s =~= Seq::<T>::empty());
    } else {
        lemma_leading_chunks_flatten(s, requested, count);
        lemma_chunk_bounds(s.len(), count, (count - 1) as nat);
        assert(chunks.take(count as int) =~= chunks);
        assert(s.subrange(0, s.len() as int) =~= s);
    }
}

/// Where the chunks begin and end depends on the number of items and on the
/// number of workers alone: two lists of one length are cut at the same
/// places.
pub proof fn lemma_chunk_boundaries_are_fixed<T>(s: Seq<T>, t: Seq<T>, requested: nat)
    requires
        requested >= 1,
        s.len() == t.len(),
    ensures
        exact_chunks(s, requested).len() == exact_chunks(t, requested).len(),
        forall|k: int|
            0 <= k < exact_chunks(s, requested).len() ==> (#[trigger] exact_chunks(
                s,
                requested,
            )[k]).len() == exact_chunks(t, requested)[k].len(),
{
    lemma_chunks_partition(s, requested);
    lemma_chunks_partition(t, requested);
}

/// Splits `iterable` into contiguous chunks for `chunks_amount` workers, in
/// order. There are as many chunks as workers, or as items where those are
/// fewer, so that no chunk is empty; their lengths differ by at most one, the
/// longer chunks first.
pub fn get_exact_chunks<T>(iterable: Vec<T>, chunks_amount: usize) -> (chunks: Vec<Vec<T>>) where
    T: Clone,

    requires
        chunks_amount >= 1,
    ensures
        chunk_views(chunks@) == exact_chunks(iterable@, chunks_amount as nat),
{
    let ghost all = iterable@;
    let len: usize = iterable.len();
    let count: usize = if chunks_amount <= len {
        chunks_amount
    } else {
        len
    };
    let mut chunks: Vec<Vec<T>> = Vec::new();
    if count == 0 {
        assert(chunk_views(chunks@) =~= exact_chunks(all, chunks_amount as nat));
        return chunks;
    }
    let chunk_size: usize = len / count;
    let mut remainder: usize = len % count;
    let mut rest = iterable;
    let mut k: usize = 0;
    proof {
        lemma_chunk_bounds(len as nat, count as nat, 0);
        assert(rest@ =~= all.subrange(0, len as int));
    }
    while k < count
        invariant
            1 <= count <= len,
            len == all.len(),
            count == chunk_count(all.len(), chunks_amount as nat),
            chunk_size == len / count,
            k <= count,
            remainder == if k < len % count {
                len % count - k
            } else {
                0
            },
            chunk_start(len as nat, count as nat, k as nat) <= len,
            rest@ == all.subrange(chunk_start(len as nat, count as nat, k as nat) as int, len as int),
            chunks@.len() == k,
            forall|j: int|
                0 <= j < k ==> (#[trigger] chunks@[j])@ == exact_chunks(all, chunks_amount as nat)[j],
        decreases count - k,
    {
        proof {
            lemma_chunk_bounds(len as nat, count as nat, k as nat);
        }
        let size: usize = if remainder > 0 {
            chunk_size + 1
        } else {
            chunk_size
        };
        let tail = rest.split_off(size);
        assert(rest@ =~= exact_chunks(all, chunks_amount as nat)[k as int]);
        chunks.push(rest);
        rest = tail;
        if remainder > 0 {
            remainder = remainder - 1;
        }
        k = k + 1;
        assert(rest@ =~= all.subrange(
            chunk_start(len as nat, count as nat, k as nat) as int,
            len as int,
        ));
    }
    assert(chunk_views(chunks@) =~= exact_chunks(all, chunks_amount as nat));
    chunks
}

} // verus!
