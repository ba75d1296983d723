use vstd::prelude::*;
use std::collections::VecDeque;
use crate::counters::{
    above_percent, is_above_percent, lemma_above_percent_exact, lemma_wrapped_add_add, lemma_wrapped_add_step,
    lemma_wrapped_inc_add, wrapped_add, wrapped_inc, wrapping_inc,
};

verus! {

/// Share of the capacity, in percent, above which a write counts as an
/// overflow warning and may grow the capacity.
pub const WARNING_PERCENT: usize = 95;

/// Above this many reader threads a warning grows the capacity.
pub const FEW_READERS: usize = 2;

/// From this many reader threads on a warning grows the capacity by
/// `LARGE_GROWTH` instead of `SMALL_GROWTH`.
pub const MANY_READERS: usize = 50;

/// Growth of the capacity on a warning with more than `FEW_READERS` and
/// fewer than `MANY_READERS` reader threads.
pub const SMALL_GROWTH: usize = 10000;

/// Growth of the capacity on a warning with at least `MANY_READERS` reader
/// threads.
pub const LARGE_GROWTH: usize = 50000;

/// How much a warning grows the capacity when `readers` reader threads are
/// registered.
pub open spec fn growth(readers: nat) -> nat {
    if FEW_READERS < readers && readers < MANY_READERS {
        SMALL_GROWTH as nat
    } else if readers >= MANY_READERS {
        LARGE_GROWTH as nat
    } else {
        0
    }
}

/// Whether a write that leaves `len` items in a buffer of capacity
/// `capacity` raises an overflow warning.
pub open spec fn warns(len: nat, capacity: nat) -> bool {
    above_percent(len as int, capacity as int, WARNING_PERCENT as int)
}

/// The capacity after a write that leaves `len` items, with `readers`
/// reader threads registered.
pub open spec fn capacity_after(capacity: nat, len: nat, readers: nat) -> nat {
    if warns(len, capacity) {
        capacity + growth(readers)
    } else {
        capacity
    }
}

/// The capacity never shrinks, and it grows only on a warning with more than
/// `FEW_READERS` reader threads: by `SMALL_GROWTH` below `MANY_READERS`
/// threads, by `LARGE_GROWTH` from there on.
///
/// In numbers: a write warns when the items left exceed 95% of the
/// capacity (`100 * len > 95 * capacity`); a warning grows the capacity by
/// 10000 with 3 to 49 readers, by 50000 with 50 or more, and not at all
/// with 2 or fewer.
pub proof fn lemma_capacity_monotone(capacity: nat, len: nat, readers: nat)
    ensures
        capacity_after(capacity, len, readers) >= capacity,
        capacity_after(capacity, len, readers) > capacity <==> warns(len, capacity) && readers
            > FEW_READERS,
        warns(len, capacity) && FEW_READERS < readers < MANY_READERS ==> capacity_after(
            capacity,
            len,
            readers,
        ) == capacity + SMALL_GROWTH,
        warns(len, capacity) && readers >= MANY_READERS ==> capacity_after(capacity, len, readers)
            == capacity + LARGE_GROWTH,
        warns(len, capacity) <==> 100 * len > 95 * capacity,
        capacity_after(capacity, len, readers) == if 100 * len > 95 * capacity && 2 < readers
            && readers < 50 {
            capacity + 10000
        } else if 100 * len > 95 * capacity && readers >= 50 {
            capacity + 50000
        } else {
            capacity
        },
{
    lemma_above_percent_exact(len, capacity, WARNING_PERCENT as nat);
}

/// Nothing is lost: the writes counted equal the reads counted plus the
/// items held, modulo `usize::MAX + 1`.
/// The capacity is always positive.
pub proof fn lemma_writes_are_read_or_held<T, H>(m: &BufferManager<T, H>)
    requires
        m.wf(),
    ensures
        m.writes() == wrapped_add(m.reads(), m@.len()),
        m.cap() > 0,
{
}

/// Two batches in a row leave the same items and the same write count as
/// one batch of both (the capacity may differ: growth is judged once per
/// batch).
pub proof fn lemma_batches_compose<T>(held: Seq<T>, writes: usize, a: Seq<T>, b: Seq<T>)
    ensures
        held + a + b == held + (a + b),
        wrapped_add(wrapped_add(writes, a.len()), b.len()) == wrapped_add(writes, (a + b).len()),
{
    lemma_wrapped_add_add(writes, a.len(), b.len());
    assert(held + a + b == held + (a + b));
}

/// First in, first out over a run of pops: after pushing `x` behind the
/// items `held`, the `i`-th pop (counting from 0) takes `held[i]`, the pop
/// after those takes `x`, and then the buffer is empty. (Each pop leaves
/// `drop_first` of what was there, so `i` pops leave `skip(i)`.)
pub proof fn lemma_pop_run<T>(held: Seq<T>, x: T)
    ensures
        forall|i: int|
            0 <= i < held.len() ==> (#[trigger] held.push(x).skip(i))[0] == held[i]
                && held.push(x).skip(i).drop_first() == held.push(x).skip(i + 1),
        held.push(x).skip(held.len() as int)[0] == x,
        held.push(x).skip(held.len() as int).drop_first() == Seq::<T>::empty(),
        held.push(x).skip(0) == held.push(x),
{
    let s = held.push(x);
    assert forall|i: int| 0 <= i < held.len() implies (#[trigger] s.skip(i))[0] == held[i]
        && s.skip(i).drop_first() == s.skip(i + 1) by {
        assert(s.skip(i).drop_first() =~= s.skip(i + 1));
    }
    assert(s.skip(held.len() as int).drop_first() =~= Seq::<T>::empty());
    assert(s.skip(0) =~= s);
}

/// A snapshot of a buffer's statistics.
pub struct BufferStats {
    pub len: usize,
    pub capacity: usize,
    pub total_writes: usize,
    pub total_reads: usize,
    pub overflow_warnings: usize,
    pub threads: usize,
}

/// A first-in first-out buffer of readings fed by reader threads (handles of
/// type `H`) and drained by one consumer. A single push is refused when the
/// buffer is full; a batch is always taken. When a write leaves the buffer
/// above `WARNING_PERCENT` percent of its capacity, it counts a warning and,
/// with more than `FEW_READERS` reader threads, grows the capacity.
pub struct BufferManager<T, H> {
    buffer: VecDeque<T>,
    capacity: usize,
    total_writes: usize,
    total_reads: usize,
    overflow_warnings: usize,
    running: bool,
    threads: Vec<H>,
}

impl<T, H> View for BufferManager<T, H> {
    type V = Seq<T>;

    /// The items held, oldest first.
    closed spec fn view(&self) -> Seq<T> {
        self.buffer@
    }
}

impl<T, H> BufferManager<T, H> {
    /// The current capacity.
    pub closed spec fn cap(&self) -> nat {
        self.capacity as nat
    }

    /// Items written so far (wrapping past `usize::MAX`).
    pub closed spec fn writes(&self) -> usize {
        self.total_writes
    }

    /// Items popped so far (wrapping past `usize::MAX`).
    pub closed spec fn reads(&self) -> usize {
        self.total_reads
    }

    /// Writes that raised an overflow warning (wrapping past `usize::MAX`).
    pub closed spec fn warnings(&self) -> usize {
        self.overflow_warnings
    }

    /// Whether the manager has not been shut down.
    pub closed spec fn running(&self) -> bool {
        self.running
    }

    /// The registered reader threads, in order of registration.
    pub closed spec fn readers(&self) -> Seq<H> {
        self.threads@
    }

    /// The manager's invariant: a positive capacity, and every item written
    /// either read or still held (counted modulo `usize::MAX + 1`).
    pub closed spec fn wf(&self) -> bool {
        &&& self.capacity > 0
        &&& self.total_writes == wrapped_add(self.total_reads, self.buffer@.len())
    }

    /// Whether a write that leaves `len` items keeps the grown capacity
    /// within `usize`.
    pub open spec fn growth_fits(&self, len: nat) -> bool {
        capacity_after(self.cap(), len, self.readers().len()) <= usize::MAX
    }

    /// Whether the buffer can take `extra` more items at once: their count
    /// fits in `usize` and the capacity a warning would grow to does too.
    pub fn can_take(&self, extra: usize) -> (r: bool)
        ensures
            r == (self@.len() + extra <= usize::MAX && self.growth_fits((self@.len() + extra) as nat)),
    {
        let len = self.buffer.len();
        if extra > usize::MAX - len {
            return false;
        }
        let after = len + extra;
        if !is_above_percent(after, self.capacity, WARNING_PERCENT) {
            return true;
        }
        let count = self.threads.len();
        let grow: usize = if count > FEW_READERS && count < MANY_READERS {
            SMALL_GROWTH
        } else if count >= MANY_READERS {
            LARGE_GROWTH
        } else {
            0
        };
        self.capacity <= usize::MAX - grow
    }

    /// Creates an empty, running manager with the given capacity and no
    /// reader thread.
    pub fn new(capacity: usize) -> (m: Self)
        requires
            capacity > 0,
        ensures
            m.wf(),
            m@ == Seq::<T>::empty(),
            m.cap() == capacity,
            m.writes() == 0,
            m.reads() == 0,
            m.warnings() == 0,
            m.running(),
            m.readers() == Seq::<H>::empty(),
    {
        proof {
            lemma_wrapped_add_step(0, 0);
        }
        BufferManager {
            buffer: VecDeque::new(),
            capacity,
            total_writes: 0,
            total_reads: 0,
            overflow_warnings: 0,
            running: true,
            threads: Vec::new(),
        }
    }

    /// The current capacity.
    pub fn capacity(&self) -> (r: usize)
        ensures
            r == self.cap(),
    {
        self.capacity
    }

    /// The number of items held.
    pub fn len(&self) -> (r: usize)
        ensures
            r == self@.len(),
    {
        self.buffer.len()
    }

    /// Whether the buffer holds no item.
    pub fn is_empty(&self) -> (r: bool)
        ensures
            r == (self@.len() == 0),
    {
        self.buffer.len() == 0
    }

    /// Items written so far.
    pub fn total_writes(&self) -> (r: usize)
        ensures
            r == self.writes(),
    {
        self.total_writes
    }

    /// Items popped so far.
    pub fn total_reads(&self) -> (r: usize)
        ensures
            r == self.reads(),
    {
        self.total_reads
    }

    /// Writes that raised an overflow warning.
    pub fn overflow_warnings(&self) -> (r: usize)
        ensures
            r == self.warnings(),
    {
        self.overflow_warnings
    }

    /// Whether the manager has not been shut down.
    pub fn is_running(&self) -> (r: bool)
        ensures
            r == self.running(),
    {
        self.running
    }

    /// The number of registered reader threads.
    pub fn reader_count(&self) -> (r: usize)
        ensures
            r == self.readers().len(),
    {
        self.threads.len()
    }

    /// Records a reader thread.
    pub fn add_reader(&mut self, handle: H)
        requires
            old(self).wf(),
        ensures
            final(self).wf(),
            final(self).readers() == old(self).readers().push(handle),
            final(self)@ == old(self)@,
            final(self).cap() == old(self).cap(),
            final(self).writes() == old(self).writes(),
            final(self).reads() == old(self).reads(),
            final(self).warnings() == old(self).warnings(),
            final(self).running() == old(self).running(),
    {
        self.threads.push(handle);
    }

    /// After a write that left `len` items: counts a warning and grows the
    /// capacity when the write crossed the warning level.
    fn after_write(&mut self, len: usize, cap: usize)
        requires
            old(self).wf(),
            cap == old(self).cap(),
            capacity_after(cap as nat, len as nat, old(self).readers().len()) <= usize::MAX,
        ensures
            final(self).wf(),
            final(self).cap() == capacity_after(cap as nat, len as nat, old(self).readers().len()),
            final(self).warnings() == if warns(len as nat, cap as nat) {
                wrapped_inc(old(self).warnings())
            } else {
                old(self).warnings()
            },
            final(self)@ == old(self)@,
            final(self).writes() == old(self).writes(),
            final(self).reads() == old(self).reads(),
            final(self).running() == old(self).running(),
            final(self).readers() == old(self).readers(),
    {
        if is_above_percent(len, cap, WARNING_PERCENT) {
            self.overflow_warnings = wrapping_inc(self.overflow_warnings);
            let count = self.threads.len();
            if count > FEW_READERS && count < MANY_READERS {
                self.capacity = cap + SMALL_GROWTH;
            } else if count >= MANY_READERS {
                self.capacity = cap + LARGE_GROWTH;
            }
        }
    }

    /// Appends `item` unless the buffer is full, in which case `item` comes
    /// back in `Err` and nothing changes. An accepted write may raise a
    /// warning and grow the capacity (see `capacity_after`).
    pub fn push(&mut self, item: T) -> (r: Result<(), T>)
        requires
            old(self).wf(),
            old(self)@.len() < old(self).cap() ==> old(self).growth_fits(old(self)@.len() + 1),
        ensures
            final(self).wf(),
            final(self).reads() == old(self).reads(),
            final(self).running() == old(self).running(),
            final(self).readers() == old(self).readers(),
            old(self)@.len() <= old(self).cap() ==> final(self)@.len() <= final(self).cap(),
            final(self).cap() == old(self).cap() || final(self).cap() == old(self).cap()
                + SMALL_GROWTH || final(self).cap() == old(self).cap() + LARGE_GROWTH,
            old(self)@.len() >= old(self).cap() ==> {
                &&& r == Err::<(), T>(item)
                &&& final(self)@ == old(self)@
                &&& final(self).cap() == old(self).cap()
                &&& final(self).writes() == old(self).writes()
                &&& final(self).warnings() == old(self).warnings()
            },
            old(self)@.len() < old(self).cap() ==> {
                &&& r == Ok::<(), T>(())
                &&& final(self)@ == old(self)@.push(item)
                &&& final(self).writes() == wrapped_inc(old(self).writes())
                &&& final(self).cap() == capacity_after(
                    old(self).cap(),
                    old(self)@.len() + 1,
                    old(self).readers().len(),
                )
                &&& final(self).warnings() == if warns(old(self)@.len() + 1, old(self).cap()) {
                    wrapped_inc(old(self).warnings())
                } else {
                    old(self).warnings()
                }
            },
    {
        let cap = self.capacity;
        if self.buffer.len() >= cap {
            return Err(item);
        }
        proof {
            lemma_wrapped_add_step(self.total_reads, self.buffer@.len());
        }
        self.buffer.push_back(item);
        let current_len = self.buffer.len();
        self.total_writes = wrapping_inc(self.total_writes);
        self.after_write(current_len, cap);
        Ok(())
    }

    /// Appends every item of `items`, in order, whatever the capacity; then,
    /// once for the whole batch, may raise a warning and grow the capacity
    /// (see `capacity_after`, with the capacity from before the batch).
    pub fn push_batch(&mut self, items: Vec<T>)
        requires
            old(self).wf(),
            old(self)@.len() + items@.len() <= usize::MAX,
            old(self).growth_fits(old(self)@.len() + items@.len()),
        ensures
            final(self).wf(),
            final(self)@ == old(self)@ + items@,
            final(self).writes() == wrapped_add(old(self).writes(), items@.len()),
            final(self).cap() == capacity_after(
                old(self).cap(),
                old(self)@.len() + items@.len(),
                old(self).readers().len(),
            ),
            final(self).warnings() == if warns(old(self)@.len() + items@.len(), old(self).cap()) {
                wrapped_inc(old(self).warnings())
            } else {
                old(self).warnings()
            },
            final(self).cap() == old(self).cap() || final(self).cap() == old(self).cap()
                + SMALL_GROWTH || final(self).cap() == old(self).cap() + LARGE_GROWTH,
            final(self).reads() == old(self).reads(),
            final(self).running() == old(self).running(),
            final(self).readers() == old(self).readers(),
    {
        broadcast use vstd::std_specs::vec::group_vec_axioms;
        let cap = self.capacity;
        let ghost start = self.buffer@;
        let ghost start_writes = self.total_writes;
        let ghost all = items@;
        proof {
            lemma_wrapped_add_step(start_writes, 0);
        }
        for item in it: items
            invariant
                it.seq() == all,
                self.buffer@ == start + all.take(it.index() as int),
                self.total_writes == wrapped_add(start_writes, it.index() as nat),
                self.capacity == cap,
                self.overflow_warnings == old(self).overflow_warnings,
                self.total_reads == old(self).total_reads,
                self.running == old(self).running,
                self.threads@ == old(self).threads@,
                cap > 0,
        {
            proof {
                lemma_wrapped_add_step(start_writes, it.index() as nat);
                assert(all.take(it.index() as int + 1) == all.take(it.index() as int).push(item));
            }
            self.buffer.push_back(item);
            self.total_writes = wrapping_inc(self.total_writes);
        }
        proof {
            assert(all.take(all.len() as int) == all);
            lemma_wrapped_add_add(self.total_reads, start.len(), all.len());
        }
        let len = self.buffer.len();
        self.after_write(len, cap);
    }

    /// Removes and returns the oldest item; the buffer must hold one.
    pub fn pop(&mut self) -> (item: T)
        requires
            old(self).wf(),
            old(self)@.len() > 0,
        ensures
            final(self).wf(),
            item == old(self)@[0],
            final(self)@ == old(self)@.drop_first(),
            final(self).reads() == wrapped_inc(old(self).reads()),
            final(self).cap() == old(self).cap(),
            final(self).writes() == old(self).writes(),
            final(self).warnings() == old(self).warnings(),
            final(self).running() == old(self).running(),
            final(self).readers() == old(self).readers(),
    {
        proof {
            lemma_wrapped_inc_add(self.total_reads, (self.buffer@.len() - 1) as nat);
        }
        let item = self.buffer.pop_front().unwrap();
        self.total_reads = wrapping_inc(self.total_reads);
        item
    }

    /// Removes and returns the oldest item, or returns `None` and changes
    /// nothing when the buffer is empty.
    pub fn try_pop(&mut self) -> (r: Option<T>)
        requires
            old(self).wf(),
        ensures
            final(self).wf(),
            r is Some <==> old(self)@.len() > 0,
            r matches Some(item) ==> {
                &&& item == old(self)@[0]
                &&& final(self)@ == old(self)@.drop_first()
                &&& final(self).reads() == wrapped_inc(old(self).reads())
            },
            r is None ==> final(self)@ == old(self)@ && final(self).reads() == old(self).reads(),
            final(self).cap() == old(self).cap(),
            final(self).writes() == old(self).writes(),
            final(self).warnings() == old(self).warnings(),
            final(self).running() == old(self).running(),
            final(self).readers() == old(self).readers(),
    {
        if self.buffer.len() > 0 {
            proof {
                lemma_wrapped_inc_add(self.total_reads, (self.buffer@.len() - 1) as nat);
            }
        }
        match self.buffer.pop_front() {
            Some(item) => {
                self.total_reads = wrapping_inc(self.total_reads);
                Some(item)
            },
            None => None,
        }
    }

    /// Stops the manager and hands back every registered reader thread, in
    /// order of registration, for the caller to join.
    pub fn shutdown(&mut self) -> (handles: Vec<H>)
        requires
            old(self).wf(),
        ensures
            final(self).wf(),
            handles@ == old(self).readers(),
            !final(self).running(),
            final(self).readers() == Seq::<H>::empty(),
            final(self)@ == old(self)@,
            final(self).cap() == old(self).cap(),
            final(self).writes() == old(self).writes(),
            final(self).reads() == old(self).reads(),
            final(self).warnings() == old(self).warnings(),
    {
        self.running = false;
        let mut handles: Vec<H> = Vec::new();
        std::mem::swap(&mut handles, &mut self.threads);
        handles
    }

    /// A snapshot of the statistics.
    pub fn stats(&self) -> (s: BufferStats)
        ensures
            s.len == self@.len(),
            s.capacity == self.cap(),
            s.total_writes == self.writes(),
            s.total_reads == self.reads(),
            s.overflow_warnings == self.warnings(),
            s.threads == self.readers().len(),
    {
        BufferStats {
            len: self.buffer.len(),
            capacity: self.capacity,
            total_writes: self.total_writes,
            total_reads: self.total_reads,
            overflow_warnings: self.overflow_warnings,
            threads: self.threads.len(),
        }
    }
}

} // verus!
