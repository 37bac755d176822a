//! Laws of the buffer, proved once over the spec-level model that the
//! executable functions' contracts are stated in: what a reader gets back
//! after a batch, why a synced reader sees nothing, and what the salvage of
//! a lost-data report holds.

use vstd::prelude::*;

verus! {

use crate::storage::{
    count_plus, counter_delta, cursor_plus, salvage_view, store_one, store_seq, unread_view,
    wrap_inc, ReaderId, RingBufferStorage,
};

/// Slot `i`'s chronological distance from the write cursor `w` on a ring of
/// `c` slots: how many single writes after the one into slot `w` reach `i`.
pub open spec fn ring_offset(i: int, w: int, c: int) -> int {
    if i >= w {
        i - w
    } else {
        i - w + c
    }
}

/// After at most `c` single writes the cursor has moved one slot each,
/// wrapping past the capacity `c` at most once.
pub proof fn lemma_cursor_plus_small(w: int, c: int, n: nat)
    requires
        0 <= w < c,
        n <= c,
    ensures
        cursor_plus(w, c, n) == if w + n < c {
            w + n
        } else {
            w + n - c
        },
    decreases n,
{
    if n > 0 {
        lemma_cursor_plus_small(wrap_inc(w, c), c, (n - 1) as nat);
    }
}

/// The cursor after `p + q` single writes is the cursor after `p` of them,
/// advanced by the remaining `q`.
pub proof fn lemma_cursor_plus_add(w: int, c: int, p: nat, q: nat)
    ensures
        cursor_plus(w, c, (p + q) as nat) == cursor_plus(cursor_plus(w, c, p), c, q),
    decreases p,
{
    if p > 0 {
        lemma_cursor_plus_add(wrap_inc(w, c), c, (p - 1) as nat, q);
    }
}

/// The written counter advances by exactly `n` while the total stays within
/// the modulus `m`: no reset happens on the way.
pub proof fn lemma_count_plus_small(k: int, m: int, n: nat)
    requires
        0 <= k,
        k + n <= m,
    ensures
        count_plus(k, m, n) == k + n,
    decreases n,
{
    if n > 0 {
        lemma_count_plus_small(k + 1, m, (n - 1) as nat);
    }
}

/// Writing a batch keeps the buffer well formed: the backing sequence grows
/// by one slot per write until it holds `c` values and never beyond, and the
/// write cursor keeps step with it.
pub proof fn lemma_store_seq_wf<T>(s: Seq<T>, w: int, c: int, items: Seq<T>)
    requires
        1 <= c,
        s.len() <= c,
        0 <= w < c,
        s.len() < c ==> w == s.len(),
    ensures
        ({
            let s2 = store_seq(s, w, c, items);
            let w2 = cursor_plus(w, c, items.len());
            &&& s2.len() == (if s.len() + items.len() <= c {
                s.len() + items.len() as int
            } else {
                c as int
            })
            &&& 0 <= w2 < c
            &&& (s2.len() < c ==> w2 == s2.len())
        }),
    decreases items.len(),
{
    if items.len() > 0 {
        lemma_store_seq_wf(store_one(s, w, c, items[0]), wrap_inc(w, c), c, items.drop_first());
    }
}

/// What a batch of at most `c` values leaves in each slot: the slot `j`
/// writes past the cursor holds `items[j]`, and every other slot keeps what
/// it held before.
pub proof fn lemma_store_seq_effect<T>(s: Seq<T>, w: int, c: int, items: Seq<T>)
    requires
        1 <= c,
        s.len() <= c,
        0 <= w < c,
        s.len() < c ==> w == s.len(),
        items.len() <= c,
    ensures
        ({
            let s2 = store_seq(s, w, c, items);
            let n = items.len() as int;
            forall|i: int|
                0 <= i < s2.len() ==> #[trigger] s2[i] == (if ring_offset(i, w, c) < n {
                    items[ring_offset(i, w, c)]
                } else {
                    s[i]
                })
        }),
    decreases items.len(),
{
    lemma_store_seq_wf(s, w, c, items);
    if items.len() > 0 {
        let s1 = store_one(s, w, c, items[0]);
        let w1 = wrap_inc(w, c);
        let rest = items.drop_first();
        lemma_store_seq_effect(s1, w1, c, rest);
        let s2 = store_seq(s, w, c, items);
        let n = items.len() as int;
        assert(s2 == store_seq(s1, w1, c, rest));
        assert(s1.len() == if s.len() < c {
            s.len() as int + 1
        } else {
            c as int
        });
        assert forall|i: int| 0 <= i < s2.len() implies #[trigger] s2[i] == (if ring_offset(
            i,
            w,
            c,
        ) < n {
            items[ring_offset(i, w, c)]
        } else {
            s[i]
        }) by {
            let j = ring_offset(i, w, c);
            let j1 = ring_offset(i, w1, c);
            if j == 0 {
                assert(i == w);
                assert(j1 == c - 1);
                assert(s2[i] == s1[i]);
                assert(s1[w] == items[0]);
            } else {
                assert(j1 == j - 1);
                if j < n {
                    assert(s2[i] == rest[j - 1]);
                    assert(rest[j - 1] == items[j]);
                } else {
                    assert(s2[i] == s1[i]);
                    assert(i != w);
                    if i >= s.len() {
                        assert(s.len() < c);
                        assert(w == s.len());
                        assert(j == i - w);
                        assert(i < s.len() + n);
                        assert(false);
                    }
                    assert(s1[i] == s[i]);
                }
            }
        }
    }
}

/// A reader whose cursors coincide with the buffer's — as a freshly minted
/// handle's do, and as any handle's do right after a read — is accepted,
/// owes nothing, and reads the empty sequence: a reader never sees values
/// written before its creation, and reading twice in a row without an
/// intervening write yields the empty sequence both times.
pub proof fn lemma_synced_reader_sees_nothing<T>(b: RingBufferStorage<T>, r: ReaderId)
    requires
        b.inv(),
        b.synced_with(r),
    ensures
        b.accepts(r),
        counter_delta(b.written_count(), r.seen_written(), b.modulus()) == 0,
        unread_view(
            b.storage(),
            r.read_cursor(),
            b.write_cursor(),
            counter_delta(b.written_count(), r.seen_written(), b.modulus()),
        ) == Seq::<T>::empty(),
{
}

/// The round trip: writing a batch of at most `capacity` values after a
/// reader was synced with the buffer — and without the written counter
/// wrapping its modulus — leaves the reader exactly that batch to read, in
/// the original order: no duplication, no reordering, no omission.
///
/// `b2` is the buffer after the batch, as `write`'s contract describes it;
/// the conclusion is what `read`'s contract then returns for `r`.
pub proof fn lemma_batch_round_trip<T>(
    b: RingBufferStorage<T>,
    b2: RingBufferStorage<T>,
    r: ReaderId,
    items: Seq<T>,
)
    requires
        b.inv(),
        b.synced_with(r),
        items.len() <= b.capacity(),
        b.written_count() + items.len() <= b.modulus(),
        b2.capacity() == b.capacity(),
        b2.modulus() == b.modulus(),
        b2.storage() == store_seq(b.storage(), b.write_cursor(), b.capacity(), items),
        b2.write_cursor() == cursor_plus(b.write_cursor(), b.capacity(), items.len()),
        b2.written_count() == count_plus(b.written_count(), b.modulus(), items.len()),
    ensures
        counter_delta(b2.written_count(), r.seen_written(), b2.modulus()) == items.len(),
        b2.accepts(r),
        unread_view(
            b2.storage(),
            r.read_cursor(),
            b2.write_cursor(),
            counter_delta(b2.written_count(), r.seen_written(), b2.modulus()),
        ) == items,
{
    let s = b.storage();
    let w = b.write_cursor();
    let c = b.capacity();
    let m = b.modulus();
    let k = b.written_count();
    let n = items.len() as int;
    let s2 = b2.storage();
    let w2 = b2.write_cursor();
    lemma_count_plus_small(k, m, items.len());
    lemma_store_seq_wf(s, w, c, items);
    lemma_store_seq_effect(s, w, c, items);
    lemma_cursor_plus_small(w, c, items.len());
    if n == 0 {
        assert(unread_view(s2, w, w2, 0int) =~= items);
    } else {
        let u = unread_view(s2, r.read_cursor(), w2, n);
        if w + n < c {
            assert forall|q: int| 0 <= q < n implies u[q] == items[q] by {
                assert(ring_offset(w + q, w, c) == q);
                assert(u[q] == s2[w + q]);
            }
            assert(u =~= items);
        } else {
            assert(s2.len() == c);
            assert(w2 == w + n - c);
            assert forall|q: int| 0 <= q < n implies u[q] == items[q] by {
                if q < c - w {
                    assert(u[q] == s2[w + q]);
                    assert(ring_offset(w + q, w, c) == q);
                } else {
                    assert(u[q] == s2[q - (c - w)]);
                    assert(ring_offset(q - (c - w), w, c) == q);
                }
            }
            assert(u =~= items);
        }
    }
}

/// The lost-data report: when more values than the capacity are written
/// after a reader was synced (the counter staying within its modulus), the
/// reader is charged exactly the overflow, and the salvage is exactly the
/// last `capacity` values written, chronologically ordered.
pub proof fn lemma_overflow_salvage<T>(
    b: RingBufferStorage<T>,
    b2: RingBufferStorage<T>,
    r: ReaderId,
    items: Seq<T>,
)
    requires
        b.inv(),
        b.synced_with(r),
        items.len() > b.capacity(),
        b.written_count() + items.len() <= b.modulus(),
        b2.capacity() == b.capacity(),
        b2.modulus() == b.modulus(),
        b2.storage() == store_seq(b.storage(), b.write_cursor(), b.capacity(), items),
        b2.write_cursor() == cursor_plus(b.write_cursor(), b.capacity(), items.len()),
        b2.written_count() == count_plus(b.written_count(), b.modulus(), items.len()),
    ensures
        counter_delta(b2.written_count(), r.seen_written(), b2.modulus()) == items.len(),
        b2.accepts(r),
        salvage_view(b2.storage(), b2.write_cursor()) == items.skip(items.len() - b.capacity()),
{
    let s = b.storage();
    let w = b.write_cursor();
    let c = b.capacity();
    let m = b.modulus();
    let k = b.written_count();
    let n = items.len() as int;
    let head = items.take(n - c);
    let tail = items.skip(n - c);
    assert(items =~= head + tail);
    lemma_count_plus_small(k, m, items.len());
    lemma_store_seq_append(s, w, c, head, tail);
    lemma_cursor_plus_add(w, c, head.len(), tail.len());
    let s1 = store_seq(s, w, c, head);
    let w1 = cursor_plus(w, c, head.len());
    lemma_store_seq_wf(s, w, c, head);
    lemma_store_seq_wf(s1, w1, c, tail);
    lemma_store_seq_effect(s1, w1, c, tail);
    lemma_cursor_plus_small(w1, c, tail.len());
    let s2 = b2.storage();
    let w2 = b2.write_cursor();
    assert(s2 == store_seq(s1, w1, c, tail));
    assert(s2.len() == c);
    assert(w2 == w1);
    let sv = salvage_view(s2, w2);
    assert forall|q: int| 0 <= q < c implies sv[q] == tail[q] by {
        if q < c - w1 {
            assert(sv[q] == s2[w1 + q]);
            assert(ring_offset(w1 + q, w1, c) == q);
        } else {
            assert(sv[q] == s2[q - (c - w1)]);
            assert(ring_offset(q - (c - w1), w1, c) == q);
        }
    }
    assert(sv =~= tail);
}

/// Writing the concatenation of two batches is writing the first and then
/// the second, the cursor having advanced past the first.
pub proof fn lemma_store_seq_append<T>(s: Seq<T>, w: int, c: int, a: Seq<T>, b: Seq<T>)
    ensures
        store_seq(s, w, c, a + b) == store_seq(
            store_seq(s, w, c, a),
            cursor_plus(w, c, a.len()),
            c,
            b,
        ),
    decreases a.len(),
{
    if a.len() == 0 {
        assert(a + b =~= b);
    } else {
        assert((a + b)[0] == a[0]);
        assert((a + b).drop_first() =~= a.drop_first() + b);
        lemma_store_seq_append(store_one(s, w, c, a[0]), wrap_inc(w, c), c, a.drop_first(), b);
    }
}

} // verus!
