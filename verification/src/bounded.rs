use vstd::prelude::*;
use std::collections::VecDeque;
use crate::counters::{
    above_percent, is_above_percent, lemma_above_percent_exact, lemma_wrapped_add_step, lemma_wrapped_inc_add, wrapped_add,
    wrapped_inc, wrapping_inc,
};

verus! {

/// Share of the capacity, in percent, above which a push counts as an
/// overflow warning.
pub const WARNING_PERCENT: usize = 90;

/// A first-in first-out buffer that holds at most `capacity` items.
/// It refuses a push when full, and keeps statistics: pushes and pops
/// made, the largest number of items ever held, and how many pushes left it
/// above `WARNING_PERCENT` percent of its capacity.
pub struct BufferManager<T> {
    buffer: VecDeque<T>,
    capacity: usize,
    total_writes: usize,
    total_reads: usize,
    peak_usage: usize,
    overflow_warnings: usize,
}

impl<T> View for BufferManager<T> {
    type V = Seq<T>;

    /// The items held, oldest first.
    closed spec fn view(&self) -> Seq<T> {
        self.buffer@
    }
}

impl<T> BufferManager<T> {
    /// The most items the buffer holds.
    pub closed spec fn cap(&self) -> nat {
        self.capacity as nat
    }

    /// Successful pushes so far (wrapping past `usize::MAX`).
    pub closed spec fn writes(&self) -> usize {
        self.total_writes
    }

    /// Pops so far (wrapping past `usize::MAX`).
    pub closed spec fn reads(&self) -> usize {
        self.total_reads
    }

    /// The largest number of items held at once after a push.
    pub closed spec fn peak(&self) -> nat {
        self.peak_usage as nat
    }

    /// Pushes that left the buffer above `WARNING_PERCENT` percent of its
    /// capacity (wrapping past `usize::MAX`).
    pub closed spec fn warnings(&self) -> usize {
        self.overflow_warnings
    }

    /// The buffer's invariant: a positive capacity, never exceeded, a peak
    /// between the current length and the capacity, and every item written
    /// either read or still held (counted modulo `usize::MAX + 1`).
    pub closed spec fn wf(&self) -> bool {
        &&& self.capacity > 0
        &&& self.total_writes == wrapped_add(self.total_reads, self.buffer@.len())
        &&& self.buffer@.len() <= self.peak_usage
        &&& self.peak_usage <= self.capacity
    }

    /// Creates an empty buffer that holds at most `capacity` items.
    pub fn new(capacity: usize) -> (b: Self)
        requires
            capacity > 0,
        ensures
            b.wf(),
            b@ == Seq::<T>::empty(),
            b.cap() == capacity,
            b.writes() == 0,
            b.reads() == 0,
            b.peak() == 0,
            b.warnings() == 0,
    {
        proof {
            lemma_wrapped_add_step(0, 0);
        }
        BufferManager {
            buffer: VecDeque::new(),
            capacity,
            total_writes: 0,
            total_reads: 0,
            peak_usage: 0,
            overflow_warnings: 0,
        }
    }

    /// The most items the buffer holds.
    pub fn capacity(&self) -> (r: usize)
        ensures
            r == self.cap(),
    {
        self.capacity
    }

    /// The number of items held.
    pub fn len(&self) -> (r: usize)
        requires
            self.wf(),
        ensures
            r == self@.len(),
    {
        self.buffer.len()
    }

    /// Whether the buffer holds no item.
    pub fn is_empty(&self) -> (r: bool)
        requires
            self.wf(),
        ensures
            r == (self@.len() == 0),
    {
        self.buffer.len() == 0
    }

    /// Whether the buffer holds as many items as its capacity.
    pub fn is_full(&self) -> (r: bool)
        requires
            self.wf(),
        ensures
            r == (self@.len() >= self.cap()),
    {
        self.buffer.len() >= self.capacity
    }

    /// Successful pushes so far.
    pub fn total_writes(&self) -> (r: usize)
        ensures
            r == self.writes(),
    {
        self.total_writes
    }

    /// Pops so far.
    pub fn total_reads(&self) -> (r: usize)
        ensures
            r == self.reads(),
    {
        self.total_reads
    }

    /// The largest number of items held at once.
    pub fn peak_usage(&self) -> (r: usize)
        ensures
            r == self.peak(),
    {
        self.peak_usage
    }

    /// Pushes that left the buffer above the warning level.
    pub fn overflow_warnings(&self) -> (r: usize)
        ensures
            r == self.warnings(),
    {
        self.overflow_warnings
    }

    /// The share of the capacity in use, in whole percent, rounded down.
    pub fn usage_percent(&self) -> (r: usize)
        requires
            self.wf(),
        ensures
            r == ((self@.len() * 100) as int) / (self.cap() as int),
            r <= 100,
    {
        let len: u128 = self.buffer.len() as u128;
        let cap: u128 = self.capacity as u128;
        assert(len * 100 <= cap * 100);
        assert((len * 100) / (cap as int) <= 100) by (nonlinear_arith)
            requires
                len <= cap,
                cap > 0,
        ;
        ((len * 100) / cap) as usize
    }

    /// Appends `item` unless the buffer is full, in which case `item` comes
    /// back in `Err` and nothing changes.
    pub fn push(&mut self, item: T) -> (r: Result<(), T>)
        requires
            old(self).wf(),
        ensures
            final(self).wf(),
            final(self).cap() == old(self).cap(),
            final(self).reads() == old(self).reads(),
            old(self)@.len() >= old(self).cap() ==> {
                &&& r == Err::<(), T>(item)
                &&& final(self)@ == old(self)@
                &&& final(self).writes() == old(self).writes()
                &&& final(self).peak() == old(self).peak()
                &&& final(self).warnings() == old(self).warnings()
            },
            old(self)@.len() < old(self).cap() ==> {
                &&& r == Ok::<(), T>(())
                &&& final(self)@ == old(self)@.push(item)
                &&& final(self).writes() == wrapped_inc(old(self).writes())
                &&& final(self).peak() == if old(self)@.len() + 1 > old(self).peak() {
                    old(self)@.len() + 1
                } else {
                    old(self).peak()
                }
                &&& final(self).warnings() == if above_percent(
                    (old(self)@.len() + 1) as int,
                    old(self).cap() as int,
                    WARNING_PERCENT as int,
                ) {
                    wrapped_inc(old(self).warnings())
                } else {
                    old(self).warnings()
                }
            },
    {
        if self.buffer.len() >= self.capacity {
            return Err(item);
        }
        proof {
            lemma_wrapped_add_step(self.total_reads, self.buffer@.len());
        }
        self.buffer.push_back(item);
        let current_len = self.buffer.len();
        self.total_writes = wrapping_inc(self.total_writes);
        if current_len > self.peak_usage {
            self.peak_usage = current_len;
        }
        if is_above_percent(current_len, self.capacity, WARNING_PERCENT) {
            self.overflow_warnings = wrapping_inc(self.overflow_warnings);
        }
        Ok(())
    }

    /// Removes and returns the oldest item without waiting; returns `None`,
    /// changing nothing, when the buffer is empty.
    pub fn pop(&mut self) -> (r: Option<T>)
        requires
            old(self).wf(),
        ensures
            final(self).wf(),
            r is None <==> old(self)@.len() == 0,
            r matches Some(item) ==> {
                &&& item == old(self)@[0]
                &&& final(self)@ == old(self)@.drop_first()
                &&& final(self).reads() == wrapped_inc(old(self).reads())
            },
            r is None ==> final(self)@ == old(self)@ && final(self).reads() == old(self).reads(),
            final(self).cap() == old(self).cap(),
            final(self).writes() == old(self).writes(),
            final(self).peak() == old(self).peak(),
            final(self).warnings() == old(self).warnings(),
    {
        if self.buffer.len() == 0 {
            return None;
        }
        proof {
            lemma_wrapped_inc_add(self.total_reads, (self.buffer@.len() - 1) as nat);
        }
        let item = self.buffer.pop_front().unwrap();
        self.total_reads = wrapping_inc(self.total_reads);
        Some(item)
    }
}

/// The buffer never holds more than its capacity, and its peak lies between
/// what it holds and its capacity.
pub proof fn lemma_within_capacity<T>(b: &BufferManager<T>)
    requires
        b.wf(),
    ensures
        b@.len() <= b.peak(),
        b.peak() <= b.cap(),
        b.cap() > 0,
{
}

/// Nothing is lost: the writes counted equal the reads counted plus the
/// items held, modulo `usize::MAX + 1`.
pub proof fn lemma_writes_are_read_or_held<T>(b: &BufferManager<T>)
    requires
        b.wf(),
    ensures
        b.writes() == wrapped_add(b.reads(), b@.len()),
{
}

/// A push warns exactly when it leaves more than 90% of the capacity in
/// use: `100 * len > 90 * capacity`.
pub proof fn lemma_warning_level(len: nat, capacity: nat)
    ensures
        above_percent(len as int, capacity as int, WARNING_PERCENT as int) <==> 100 * len > 90
            * capacity,
{
    lemma_above_percent_exact(len, capacity, WARNING_PERCENT as nat);
}

/// First in, first out: after pushing `x` behind the items `held`, a pop
/// gives the oldest held item (or `x` itself when nothing was held), and
/// what remains keeps `x` last.
pub proof fn lemma_fifo<T>(held: Seq<T>, x: T)
    ensures
        held.len() == 0 ==> held.push(x)[0] == x && held.push(x).drop_first() == held,
        held.len() > 0 ==> held.push(x)[0] == held[0] && held.push(x).drop_first()
            == held.drop_first().push(x),
{
    if held.len() == 0 {
        assert(held.push(x).drop_first() =~= held);
    } else {
        assert(held.push(x).drop_first() =~= held.drop_first().push(x));
    }
}

impl<T: Clone> BufferManager<T> {
    /// A clone of the oldest item, or `None` when the buffer is empty; the
    /// buffer does not change.
    pub fn peek(&self) -> (r: Option<T>)
        requires
            self.wf(),
        ensures
            r is Some <==> self@.len() > 0,
            r matches Some(v) ==> cloned(self@[0], v),
    {
        if self.buffer.len() == 0 {
            None
        } else {
            Some(self.buffer[0].clone())
        }
    }
}

} // verus!
