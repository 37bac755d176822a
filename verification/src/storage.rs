//! The circular buffer store, its reader handles, and the read algorithm.

use vstd::prelude::*;

verus! {

use core::any::TypeId;
use vstd::pervasive::VecAdditionalExecFns;

/// Declares `core::any::TypeId` so that type identifiers can stand in fields
/// and signatures.  Its values are opaque here: nothing is assumed beyond
/// what the two functions below state.
#[verifier::external_type_specification]
#[verifier::external_body]
pub struct ExTypeId(TypeId);

/// Relies on `core::any::TypeId::of`: returns the identifier of the type `T`.
/// Nothing is assumed about the value itself; the buffer stores it once and
/// every later comparison is against that stored copy.
#[verifier::external_body]
fn type_id_of<T: 'static>() -> (r: TypeId)
{
    TypeId::of::<T>()
}

/// Relies on `core::any::TypeId`'s `PartialEq`: comparing two type
/// identifiers returns whether they are the same identifier.
#[verifier::external_body]
fn type_id_eq(a: &TypeId, b: &TypeId) -> (r: bool)
    ensures
        r == (*a == *b),
{
    *a == *b
}

/// The write cursor `w` advanced by one slot, wrapping at capacity `c`.
pub open spec fn wrap_inc(w: int, c: int) -> int {
    if w + 1 >= c {
        0int
    } else {
        w + 1
    }
}

/// The written counter `k` advanced by one, resetting to zero once it
/// would exceed the modulus `m`.
pub open spec fn count_inc(k: int, m: int) -> int {
    if k + 1 > m {
        0int
    } else {
        k + 1
    }
}

/// The backing sequence after one value is written: it grows by one slot
/// until it reaches capacity `c`, and after that the slot at the write
/// cursor `w` is overwritten in place.
pub open spec fn store_one<T>(s: Seq<T>, w: int, c: int, item: T) -> Seq<T> {
    if s.len() < c {
        s.push(item)
    } else {
        s.update(w, item)
    }
}

/// The backing sequence after every value of `items` is written in order,
/// the write cursor starting at `w`.
pub open spec fn store_seq<T>(s: Seq<T>, w: int, c: int, items: Seq<T>) -> Seq<T>
    decreases items.len(),
{
    if items.len() == 0 {
        s
    } else {
        store_seq(store_one(s, w, c, items[0]), wrap_inc(w, c), c, items.drop_first())
    }
}

/// The write cursor after `n` single writes starting from `w`.
pub open spec fn cursor_plus(w: int, c: int, n: nat) -> int
    decreases n,
{
    if n == 0 {
        w
    } else {
        cursor_plus(wrap_inc(w, c), c, (n - 1) as nat)
    }
}

/// The written counter after `n` single writes starting from `k`.
pub open spec fn count_plus(k: int, m: int, n: nat) -> int
    decreases n,
{
    if n == 0 {
        k
    } else {
        count_plus(count_inc(k, m), m, (n - 1) as nat)
    }
}

/// Wraparound-safe distance from a reader's snapshot `seen` to the buffer's
/// counter `written` on the modulo-`m` counter.
pub open spec fn counter_delta(written: int, seen: int, m: int) -> int {
    if written < seen {
        written + m - seen
    } else {
        written - seen
    }
}

/// The chronological unread range of the backing sequence `s`: from `start`
/// up to but not including `end`, wrapping past the end of `s` when the
/// range is not contiguous.  When the cursors coincide, `delta` tells an
/// empty range apart from one full cycle.
pub open spec fn unread_view<T>(s: Seq<T>, start: int, end: int, delta: int) -> Seq<T> {
    if delta == 0 {
        Seq::empty()
    } else if start < end {
        s.subrange(start, end)
    } else {
        s.subrange(start, s.len() as int) + s.subrange(0, end)
    }
}

/// The entire backing sequence `s` reinterpreted chronologically, starting
/// at the oldest surviving element: the slot at the write cursor `w`.
pub open spec fn salvage_view<T>(s: Seq<T>, w: int) -> Seq<T> {
    s.subrange(w, s.len() as int) + s.subrange(0, w)
}

/// Chronological values produced by one read call: the values the reader had
/// not yet seen, or the salvage of a lost-data report.  They are handed out
/// oldest first, by `next`, or looked at by position with `get`.
pub struct StorageIterator<'a, T> {
    items: Vec<&'a T>,
}

impl<'a, T> View for StorageIterator<'a, T> {
    type V = Seq<T>;

    closed spec fn view(&self) -> Seq<T> {
        self.items@.map_values(|r: &T| *r)
    }
}

impl<'a, T> StorageIterator<'a, T> {
    /// How many values have not yet been handed out.
    pub fn len(&self) -> (n: usize)
        ensures
            n == self@.len(),
    {
        self.items.len()
    }

    /// The value at position `i` among the remaining ones, oldest first.
    pub fn get(&self, i: usize) -> (r: &'a T)
        requires
            i < self@.len(),
        ensures
            *r == self@[i as int],
    {
        self.items[i]
    }

    /// Hand out the oldest remaining value, or nothing once all are consumed.
    pub fn next(&mut self) -> (r: Option<&'a T>)
        ensures
            old(self)@.len() == 0 ==> r is None && final(self)@ == old(self)@,
            old(self)@.len() > 0 ==> (r matches Some(x) && *x == old(self)@[0] && final(self)@
                == old(self)@.drop_first()),
    {
        if self.items.len() == 0 {
            None
        } else {
            let x = self.items.remove(0);
            proof {
                assert(self@ =~= old(self)@.drop_first());
            }
            Some(x)
        }
    }
}

/// Ringbuffer errors.
pub enum RBError<'a, T: 'a> {
    /// If a writer tries to write more data than the max size of the
    /// ringbuffer, in a single call.
    TooLargeWrite,
    /// If a reader is more than the entire ringbuffer behind in reading,
    /// this will be returned.  Contains the data that could be salvaged, and
    /// the amount of data that was lost.
    LostData(StorageIterator<'a, T>, usize),
    /// If attempting to use a reader for a different data type than the
    /// storage contains.
    InvalidReader,
}

impl<'a, T: 'a> PartialEq for RBError<'a, T> {
    /// Two errors are equal when they are the same kind of error; a
    /// lost-data report's payload does not enter the comparison.
    fn eq(&self, other: &RBError<'a, T>) -> (r: bool) {
        match (self, other) {
            (RBError::TooLargeWrite, RBError::TooLargeWrite) => true,
            (RBError::InvalidReader, RBError::InvalidReader) => true,
            (RBError::LostData(..), RBError::LostData(..)) => true,
            _ => false,
        }
    }
}

impl<'a, T: 'a> vstd::std_specs::cmp::PartialEqSpecImpl for RBError<'a, T> {
    open spec fn obeys_eq_spec() -> bool {
        true
    }

    open spec fn eq_spec(&self, other: &RBError<'a, T>) -> bool {
        match (self, other) {
            (RBError::TooLargeWrite, RBError::TooLargeWrite) => true,
            (RBError::InvalidReader, RBError::InvalidReader) => true,
            (RBError::LostData(..), RBError::LostData(..)) => true,
            _ => false,
        }
    }
}

/// The reader id is used by readers to tell the storage where the last read
/// ended.
#[derive(Hash, PartialEq, Copy, Clone, Debug)]
pub struct ReaderId {
    t: TypeId,
    id: u32,
    read_index: usize,
    written: usize,
}

impl ReaderId {
    /// The element type this handle was minted for.
    pub closed spec fn tag(self) -> TypeId {
        self.t
    }

    /// The handle's unique numeric identity (diagnostic only).
    pub closed spec fn ordinal(self) -> u32 {
        self.id
    }

    /// Index of the next unread slot in the buffer's backing sequence.
    pub closed spec fn read_cursor(self) -> int {
        self.read_index as int
    }

    /// Snapshot of the buffer's written counter as of this handle's last
    /// interaction with the buffer.
    pub closed spec fn seen_written(self) -> int {
        self.written as int
    }

    /// Create a new reader id.
    pub fn new(t: TypeId, id: u32, reader_index: usize, written: usize) -> (r: ReaderId)
        ensures
            r.tag() == t,
            r.ordinal() == id,
            r.read_cursor() == reader_index,
            r.seen_written() == written,
    {
        ReaderId { t, id, read_index: reader_index, written }
    }
}

/// Ring buffer, holding data of type `T`.
pub struct RingBufferStorage<T> {
    data: Vec<T>,
    write_index: usize,
    max_size: usize,
    written: usize,
    next_reader_id: u32,
    reset_written: usize,
    type_tag: TypeId,
}

impl<T> RingBufferStorage<T> {
    /// The values currently held, in physical slot order.
    pub closed spec fn storage(self) -> Seq<T> {
        self.data@
    }

    /// Index of the next slot to be written.
    pub closed spec fn write_cursor(self) -> int {
        self.write_index as int
    }

    /// The fixed number of slots.
    pub closed spec fn capacity(self) -> int {
        self.max_size as int
    }

    /// Total writes so far, counted modulo `modulus()`.
    pub closed spec fn written_count(self) -> int {
        self.written as int
    }

    /// The modulus of the written counter: a thousand times the capacity.
    pub closed spec fn modulus(self) -> int {
        self.reset_written as int
    }

    /// The ordinal the next minted reader handle will carry.
    pub closed spec fn next_ordinal(self) -> int {
        self.next_reader_id as int
    }

    /// The element type this buffer was created for.
    pub closed spec fn tag(self) -> TypeId {
        self.type_tag
    }

    /// Well-formedness: the backing sequence never exceeds the capacity and
    /// grows in step with the write cursor until it is full; the written
    /// counter stays within its modulus.
    pub open spec fn inv(self) -> bool {
        &&& 1 <= self.capacity()
        &&& self.modulus() == self.capacity() * 1000
        &&& self.modulus() < usize::MAX as int
        &&& self.storage().len() <= self.capacity()
        &&& 0 <= self.write_cursor() < self.capacity()
        &&& (self.storage().len() < self.capacity() ==> self.write_cursor() == self.storage().len())
        &&& 0 <= self.written_count() <= self.modulus()
    }

    /// The reader's cursors coincide with the buffer's, as a freshly minted
    /// handle's do, and as any handle's do right after a read.
    pub open spec fn synced_with(self, r: ReaderId) -> bool {
        &&& r.read_cursor() == self.write_cursor()
        &&& r.seen_written() == self.written_count()
    }

    /// The handle states a reader of this buffer can present: its counter
    /// snapshot is within the modulus, and its cursor points at data that is
    /// actually there.  Every handle minted by this buffer satisfies this,
    /// however far it lags.
    pub open spec fn accepts(self, r: ReaderId) -> bool {
        &&& 0 <= r.seen_written() <= self.modulus()
        &&& {
            let d = counter_delta(self.written_count(), r.seen_written(), self.modulus());
            &&& (d > self.capacity() ==> self.storage().len() == self.capacity())
            &&& (0 < d <= self.capacity() ==> r.read_cursor() < self.storage().len())
        }
    }
}

impl<T: 'static> RingBufferStorage<T> {
    /// Create a new ring buffer with the given max size.
    pub fn new(size: usize) -> (rb: Self)
        requires
            1 <= size,
            size * 1000 < usize::MAX as int,
        ensures
            rb.inv(),
            rb.capacity() == size,
            rb.storage() == Seq::<T>::empty(),
            rb.write_cursor() == 0,
            rb.written_count() == 0,
            rb.next_ordinal() == 1,
            rb.modulus() == size * 1000,
    {
        RingBufferStorage {
            data: Vec::with_capacity(size),
            write_index: 0,
            max_size: size,
            written: 0,
            next_reader_id: 1,
            reset_written: size * 1000,
            type_tag: type_id_of::<T>(),
        }
    }

    /// Write a single data point into the ringbuffer.
    pub fn write_single(&mut self, data: T)
        requires
            old(self).inv(),
        ensures
            final(self).inv(),
            final(self).capacity() == old(self).capacity(),
            final(self).modulus() == old(self).modulus(),
            final(self).tag() == old(self).tag(),
            final(self).next_ordinal() == old(self).next_ordinal(),
            final(self).storage() == store_one(
                old(self).storage(),
                old(self).write_cursor(),
                old(self).capacity(),
                data,
            ),
            final(self).write_cursor() == wrap_inc(old(self).write_cursor(), old(self).capacity()),
            final(self).written_count() == count_inc(
                old(self).written_count(),
                old(self).modulus(),
            ),
    {
        let mut write_index: usize = self.write_index;
        if write_index == self.data.len() {
            self.data.push(data);
        } else {
            self.data.set(write_index, data);
        }
        write_index = write_index + 1;
        if write_index >= self.max_size {
            write_index = 0;
        }
        self.write_index = write_index;
        self.written = self.written + 1;
        if self.written > self.reset_written {
            self.written = 0;
        }
    }

    /// Write a set of data into the ringbuffer.  The batch is all or
    /// nothing: an oversized batch is rejected whole and the buffer is left
    /// unmodified; otherwise every item is written, in order, and drained
    /// from the given vector.
    pub fn write(&mut self, data: &mut Vec<T>) -> (r: Result<(), RBError<T>>)
        requires
            old(self).inv(),
        ensures
            final(self).inv(),
            final(self).capacity() == old(self).capacity(),
            final(self).modulus() == old(self).modulus(),
            final(self).tag() == old(self).tag(),
            final(self).next_ordinal() == old(self).next_ordinal(),
            old(data).len() > old(self).capacity() ==> (r matches Err(RBError::TooLargeWrite)
                && *final(self) == *old(self) && final(data)@ == old(data)@),
            old(data).len() <= old(self).capacity() ==> ({
                &&& r is Ok
                &&& final(data)@ == Seq::<T>::empty()
                &&& final(self).storage() == store_seq(
                    old(self).storage(),
                    old(self).write_cursor(),
                    old(self).capacity(),
                    old(data)@,
                )
                &&& final(self).write_cursor() == cursor_plus(
                    old(self).write_cursor(),
                    old(self).capacity(),
                    old(data)@.len(),
                )
                &&& final(self).written_count() == count_plus(
                    old(self).written_count(),
                    old(self).modulus(),
                    old(data)@.len(),
                )
            }),
    {
        if data.len() == 0 {
            proof {
                assert(data@ =~= Seq::<T>::empty());
            }
            return Ok(());
        }
        if data.len() > self.max_size {
            return Err(RBError::TooLargeWrite);
        }
        let ghost orig = *self;
        let ghost orig_items = data@;
        while data.len() > 0
            invariant
                self.inv(),
                self.capacity() == orig.capacity(),
                self.modulus() == orig.modulus(),
                self.tag() == orig.tag(),
                self.next_ordinal() == orig.next_ordinal(),
                store_seq(self.storage(), self.write_cursor(), self.capacity(), data@)
                    == store_seq(
                    orig.storage(),
                    orig.write_cursor(),
                    orig.capacity(),
                    orig_items,
                ),
                cursor_plus(self.write_cursor(), self.capacity(), data@.len()) == cursor_plus(
                    orig.write_cursor(),
                    orig.capacity(),
                    orig_items.len(),
                ),
                count_plus(self.written_count(), self.modulus(), data@.len()) == count_plus(
                    orig.written_count(),
                    orig.modulus(),
                    orig_items.len(),
                ),
            decreases data.len(),
        {
            let ghost pre = *self;
            let ghost pre_items = data@;
            let d = data.remove(0);
            self.write_single(d);
            proof {
                assert(data@ =~= pre_items.drop_first());
                assert(store_seq(pre.storage(), pre.write_cursor(), pre.capacity(), pre_items)
                    == store_seq(self.storage(), self.write_cursor(), self.capacity(), data@));
            }
        }
        proof {
            assert(data@ =~= Seq::<T>::empty());
        }
        Ok(())
    }

    /// Create a new reader id for this ringbuffer.  The fresh handle is
    /// synced to the buffer's current state, so its first read sees only
    /// what is written after this call, never pre-existing contents.
    pub fn new_reader_id(&mut self) -> (r: ReaderId)
        requires
            old(self).inv(),
            old(self).next_ordinal() < u32::MAX as int,
        ensures
            final(self).inv(),
            r.tag() == old(self).tag(),
            r.ordinal() == old(self).next_ordinal(),
            final(self).synced_with(r),
            final(self).next_ordinal() == old(self).next_ordinal() + 1,
            final(self).storage() == old(self).storage(),
            final(self).write_cursor() == old(self).write_cursor(),
            final(self).written_count() == old(self).written_count(),
            final(self).capacity() == old(self).capacity(),
            final(self).modulus() == old(self).modulus(),
            final(self).tag() == old(self).tag(),
    {
        let reader_id = ReaderId::new(
            self.type_tag,
            self.next_reader_id,
            self.write_index,
            self.written,
        );
        self.next_reader_id = self.next_reader_id + 1;
        reader_id
    }

    /// Materialize, oldest first, the values from slot `start` up to but not
    /// including slot `end`, wrapping past the end of the backing sequence
    /// when `start` does not lie before `end`; `empty` forces the empty
    /// result, telling coinciding cursors apart from one full cycle.
    fn collect_span<'a>(&'a self, start: usize, end: usize, empty: bool) -> (it: StorageIterator<
        'a,
        T,
    >)
        requires
            !empty ==> start < self.storage().len(),
            end <= self.storage().len(),
        ensures
            empty ==> it@ == Seq::<T>::empty(),
            (!empty && start < end) ==> it@ == self.storage().subrange(start as int, end as int),
            (!empty && start >= end) ==> it@ == self.storage().subrange(
                start as int,
                self.storage().len() as int,
            ) + self.storage().subrange(0, end as int),
    {
        let mut items: Vec<&'a T> = Vec::new();
        if !empty {
            if start < end {
                let mut i: usize = start;
                while i < end
                    invariant
                        start <= i <= end,
                        end <= self.data@.len(),
                        items@.len() == i - start,
                        forall|k: int|
                            0 <= k < items@.len() ==> *(#[trigger] items@[k]) == self.data@[start
                                + k],
                    decreases end - i,
                {
                    let x = vstd::slice::slice_index_get(self.data.as_slice(), i);
                    items.push(x);
                    i = i + 1;
                }
            } else {
                let data_len: usize = self.data.len();
                let mut i: usize = start;
                while i < data_len
                    invariant
                        start <= i <= data_len,
                        data_len == self.data@.len(),
                        items@.len() == i - start,
                        forall|k: int|
                            0 <= k < items@.len() ==> *(#[trigger] items@[k]) == self.data@[start
                                + k],
                    decreases data_len - i,
                {
                    let x = vstd::slice::slice_index_get(self.data.as_slice(), i);
                    items.push(x);
                    i = i + 1;
                }
                let mut j: usize = 0;
                while j < end
                    invariant
                        j <= end,
                        end <= self.data@.len(),
                        start <= data_len,
                        data_len == self.data@.len(),
                        items@.len() == (data_len - start) + j,
                        forall|k: int|
                            0 <= k < data_len - start ==> *(#[trigger] items@[k])
                                == self.data@[start + k],
                        forall|k: int|
                            data_len - start <= k < items@.len() ==> *(#[trigger] items@[k])
                                == self.data@[k - (data_len - start)],
                    decreases end - j,
                {
                    let x = vstd::slice::slice_index_get(self.data.as_slice(), j);
                    items.push(x);
                    j = j + 1;
                }
            }
        }
        let it = StorageIterator { items };
        proof {
            if empty {
                assert(it@ =~= Seq::<T>::empty());
            } else if start < end {
                assert(it@ =~= self.storage().subrange(start as int, end as int));
            } else {
                assert(it@ =~= self.storage().subrange(start as int, self.storage().len() as int)
                    + self.storage().subrange(0, end as int));
            }
        }
        it
    }

    /// Read data from the ringbuffer, starting where the last read ended,
    /// and up to where the last data was written.  A handle minted for
    /// another element type is rejected untouched; a handle that lagged
    /// beyond the capacity gets the salvage and the exact count of what was
    /// lost; either way a handle of this buffer is resynced to the current
    /// state, so it is never charged twice for the same gap.
    pub fn read<'a>(&'a self, reader_id: &mut ReaderId) -> (r: Result<
        StorageIterator<'a, T>,
        RBError<'a, T>,
    >)
        requires
            self.inv(),
            old(reader_id).tag() == self.tag() ==> self.accepts(*old(reader_id)),
        ensures
            old(reader_id).tag() != self.tag() ==> (r matches Err(RBError::InvalidReader)
                && *final(reader_id) == *old(reader_id)),
            old(reader_id).tag() == self.tag() ==> ({
                let d = counter_delta(
                    self.written_count(),
                    old(reader_id).seen_written(),
                    self.modulus(),
                );
                &&& final(reader_id).tag() == old(reader_id).tag()
                &&& final(reader_id).ordinal() == old(reader_id).ordinal()
                &&& self.synced_with(*final(reader_id))
                &&& (d <= self.capacity() ==> (r matches Ok(it) && it@ == unread_view(
                    self.storage(),
                    old(reader_id).read_cursor(),
                    self.write_cursor(),
                    d,
                )))
                &&& (d > self.capacity() ==> (r matches Err(RBError::LostData(it, lost)) && it@
                    == salvage_view(self.storage(), self.write_cursor()) && lost == d
                    - self.capacity()))
            }),
    {
        if !type_id_eq(&reader_id.t, &self.type_tag) {
            return Err(RBError::InvalidReader);
        }
        let num_written: usize = if self.written < reader_id.written {
            self.written + (self.reset_written - reader_id.written)
        } else {
            self.written - reader_id.written
        };
        let read_index: usize = reader_id.read_index;
        reader_id.read_index = self.write_index;
        reader_id.written = self.written;
        if num_written > self.max_size {
            let it = self.collect_span(self.write_index, self.write_index, false);
            Err(RBError::LostData(it, num_written - self.max_size))
        } else {
            let it = self.collect_span(read_index, self.write_index, num_written == 0);
            Ok(it)
        }
    }
}

} // verus!
