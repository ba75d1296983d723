use vstd::prelude::*;
use crate::protocol::LineCommand;

verus! {

/// Depth of a sensor's internal queue: `128 - available` slots are free.
pub const QUEUE_DEPTH: i32 = 128;

/// Pause, in microseconds, before a reader has heard any availability.
pub const INITIAL_DELAY_MICROS: u64 = 100;

/// Pause when the sensor's queue fills in under 0.08 s.
pub const URGENT_DELAY_MICROS: u64 = 0;

/// Pause when the sensor's queue fills in under 0.2 s.
pub const SOON_DELAY_MICROS: u64 = 50;

/// Pause otherwise.
pub const RELAXED_DELAY_MICROS: u64 = 200;

/// The pause, in microseconds, for a sensor sampling `rate` readings a
/// second whose queue holds `available`: the time until the queue fills is
/// `(QUEUE_DEPTH - available) / rate` seconds; under 0.08 s (`25 * free <
/// 2 * rate`) there is no pause, under 0.2 s (`5 * free < rate`) a short
/// one, else a long one.
pub open spec fn pacing_delay(rate: int, available: int) -> u64 {
    let free = QUEUE_DEPTH - available;
    if 25 * free < 2 * rate {
        URGENT_DELAY_MICROS
    } else if 5 * free < rate {
        SOON_DELAY_MICROS
    } else {
        RELAXED_DELAY_MICROS
    }
}

/// Computes `pacing_delay` for a positive rate.
pub fn delay_for(rate: i32, available: i32) -> (d: u64)
    requires
        rate > 0,
    ensures
        d == pacing_delay(rate as int, available as int),
{
    let free: i64 = (QUEUE_DEPTH as i64) - (available as i64);
    let r: i64 = rate as i64;
    if 25 * free < 2 * r {
        URGENT_DELAY_MICROS
    } else if 5 * free < r {
        SOON_DELAY_MICROS
    } else {
        RELAXED_DELAY_MICROS
    }
}

/// The deadline-driven pacing state of a pipe reader: the last rate and
/// availability a sensor reported, and the pause they call for.
pub struct Pacer {
    pub rate: i32,
    pub last_available: i32,
    pub delay_micros: u64,
}

/// Whether a classified line holds a rate or an availability that is not a
/// decimal `i32`.
pub open spec fn malformed(cmd: LineCommand) -> bool {
    cmd matches LineCommand::Rate(None) || cmd matches LineCommand::Avail(None)
}

/// The pacer after a classified line: a rate is recorded; an availability is
/// recorded and, with a positive rate known, sets the pause to
/// `pacing_delay`; any other line, and a malformed number, change nothing.
pub open spec fn pacer_after(p: Pacer, cmd: LineCommand) -> Pacer {
    match cmd {
        LineCommand::Rate(Some(r)) => Pacer { rate: r, ..p },
        LineCommand::Avail(Some(a)) => Pacer {
            last_available: a,
            delay_micros: if p.rate > 0 {
                pacing_delay(p.rate as int, a as int)
            } else {
                p.delay_micros
            },
            ..p
        },
        _ => p,
    }
}

/// A reader that has heard nothing assumes a full queue of 128 and pauses
/// 100 microseconds; the pauses it can choose are 0, 50 and 200
/// microseconds.
pub proof fn lemma_pacer_defaults(rate: int, available: int)
    ensures
        QUEUE_DEPTH == 128,
        INITIAL_DELAY_MICROS == 100,
        pacing_delay(rate, available) == 0 || pacing_delay(rate, available) == 50 || pacing_delay(
            rate,
            available,
        ) == 200,
{
}

/// A rate report is always recorded, whatever the pacer knew before, and
/// touches nothing else; an availability report is always recorded, and
/// leaves the rate as it was.
pub proof fn lemma_reports_are_recorded(p: Pacer, r: i32, a: i32)
    ensures
        pacer_after(p, LineCommand::Rate(Some(r))).rate == r,
        pacer_after(p, LineCommand::Rate(Some(r))).last_available == p.last_available,
        pacer_after(p, LineCommand::Rate(Some(r))).delay_micros == p.delay_micros,
        pacer_after(p, LineCommand::Avail(Some(a))).last_available == a,
        pacer_after(p, LineCommand::Avail(Some(a))).rate == p.rate,
        p.rate <= 0 ==> pacer_after(p, LineCommand::Avail(Some(a))).delay_micros == p.delay_micros,
        p.rate > 0 ==> pacer_after(p, LineCommand::Avail(Some(a))).delay_micros == pacing_delay(
            p.rate as int,
            a as int,
        ),
{
}

/// The latest reports decide: once a sensor reports a positive rate `r` and
/// then an availability `a`, two pacers agree whatever they heard before,
/// and the pause is the one for `r` and `a`.
pub proof fn lemma_latest_reports_decide(p: Pacer, q: Pacer, r: i32, a: i32)
    requires
        r > 0,
    ensures
        pacer_after(pacer_after(p, LineCommand::Rate(Some(r))), LineCommand::Avail(Some(a)))
            == pacer_after(pacer_after(q, LineCommand::Rate(Some(r))), LineCommand::Avail(Some(a))),
        pacer_after(
            pacer_after(p, LineCommand::Rate(Some(r))),
            LineCommand::Avail(Some(a)),
        ).delay_micros == pacing_delay(r as int, a as int),
{
}

/// The pause in terms of the time the sensor's queue takes to fill, `free /
/// rate` seconds, in hundredths: none under 8 hundredths, the short one from
/// 8 up to under 20, the long one from 20 on. A longer time to fill never
/// shortens the pause.
pub proof fn lemma_pacing_thresholds(rate: int, available: int, later: int)
    requires
        rate > 0,
    ensures
        pacing_delay(rate, available) == 0 <==> 100 * (128 - available) < 8 * rate,
        pacing_delay(rate, available) == 50 <==> 8 * rate <= 100 * (128 - available) && 100 * (128
            - available) < 20 * rate,
        pacing_delay(rate, available) == 200 <==> 20 * rate <= 100 * (128 - available),
        later <= available ==> pacing_delay(rate, available) <= pacing_delay(rate, later),
{
}

impl Pacer {
    /// A pacer that has heard nothing yet.
    pub fn new() -> (p: Self)
        ensures
            p.rate == 0,
            p.last_available == QUEUE_DEPTH,
            p.delay_micros == INITIAL_DELAY_MICROS,
    {
        Pacer { rate: 0, last_available: QUEUE_DEPTH, delay_micros: INITIAL_DELAY_MICROS }
    }

    /// The last rate reported (0 before any).
    pub fn rate(&self) -> (r: i32)
        ensures
            r == self.rate,
    {
        self.rate
    }

    /// The last availability reported (`QUEUE_DEPTH` before any).
    pub fn last_available(&self) -> (r: i32)
        ensures
            r == self.last_available,
    {
        self.last_available
    }

    /// The pause called for, in microseconds.
    pub fn delay_micros(&self) -> (r: u64)
        ensures
            r == self.delay_micros,
    {
        self.delay_micros
    }

    /// Records a reported rate; the pause stays as it is.
    pub fn on_rate(&mut self, rate: i32)
        ensures
            *final(self) == pacer_after(*old(self), LineCommand::Rate(Some(rate))),
    {
        self.rate = rate;
    }

    /// Records a reported availability; with a positive rate known, the
    /// pause becomes `pacing_delay`, else it stays as it is.
    pub fn on_available(&mut self, available: i32)
        ensures
            *final(self) == pacer_after(*old(self), LineCommand::Avail(Some(available))),
    {
        self.last_available = available;
        if self.rate > 0 {
            self.delay_micros = delay_for(self.rate, available);
        }
    }

    /// Applies a classified line (see `pacer_after`). Returns `false`,
    /// changing nothing, for a malformed rate or availability.
    pub fn apply(&mut self, cmd: &LineCommand) -> (ok: bool)
        ensures
            ok == !malformed(*cmd),
            *final(self) == pacer_after(*old(self), *cmd),
    {
        match cmd {
            LineCommand::Rate(Some(r)) => {
                self.on_rate(*r);
                true
            },
            LineCommand::Avail(Some(a)) => {
                self.on_available(*a);
                true
            },
            LineCommand::Rate(None) => false,
            LineCommand::Avail(None) => false,
            _ => true,
        }
    }
}

/// Readings a reader gathers before handing them to the buffer at once.
pub const BATCH_SIZE: usize = 20;

/// One reading taken into a pending batch: the full batch when it reaches
/// `BATCH_SIZE` readings (and nothing is left pending), else nothing.
pub open spec fn batch_step<T>(pending: Seq<T>, item: T) -> (Option<Seq<T>>, Seq<T>) {
    let grown = pending.push(item);
    if grown.len() >= BATCH_SIZE {
        (Some(grown), Seq::<T>::empty())
    } else {
        (None, grown)
    }
}

/// The batches handed over, and what stays pending, after taking `items`
/// one by one into the pending readings `pending`.
pub open spec fn batches_of<T>(pending: Seq<T>, items: Seq<T>) -> (Seq<Seq<T>>, Seq<T>)
    decreases items.len(),
{
    if items.len() == 0 {
        (Seq::<Seq<T>>::empty(), pending)
    } else {
        let (out, rest) = batch_step(pending, items[0]);
        let (later, left) = batches_of(rest, items.drop_first());
        match out {
            Some(b) => (seq![b] + later, left),
            None => (later, left),
        }
    }
}

/// Batches hold twenty readings.
pub proof fn lemma_batch_size()
    ensures
        forall|pending: Seq<u8>, item: u8|
            pending.len() == 19 ==> #[trigger] batch_step(pending, item) == (
            Some(pending.push(item)),
            Seq::<u8>::empty(),
            ),
        forall|pending: Seq<u8>, item: u8|
            pending.len() < 19 ==> #[trigger] batch_step(pending, item) == (
            None::<Seq<u8>>,
            pending.push(item),
            ),
{
}

/// Batching loses, duplicates and reorders nothing: the batches handed over,
/// then what stays pending, are exactly the pending readings followed by
/// the new ones. Every batch handed over holds `BATCH_SIZE` readings and
/// fewer than `BATCH_SIZE` stay pending.
pub proof fn lemma_batching_keeps_stream<T>(pending: Seq<T>, items: Seq<T>)
    requires
        pending.len() < BATCH_SIZE,
    ensures
        batches_of(pending, items).0.flatten() + batches_of(pending, items).1 == pending + items,
        forall|i: int|
            0 <= i < batches_of(pending, items).0.len() ==> (#[trigger] batches_of(
                pending,
                items,
            ).0[i]).len() == BATCH_SIZE,
        batches_of(pending, items).1.len() < BATCH_SIZE,
    decreases items.len(),
{
    if items.len() > 0 {
        let (out, rest) = batch_step(pending, items[0]);
        lemma_batching_keeps_stream(rest, items.drop_first());
        let (later, left) = batches_of(rest, items.drop_first());
        assert(pending + items == pending.push(items[0]) + items.drop_first());
        match out {
            Some(b) => {
                let all = seq![b] + later;
                assert(all.first() == b);
                assert(all.drop_first() == later);
                assert(all.flatten() == b + later.flatten());
                assert(b == pending.push(items[0]));
                assert(rest == Seq::<T>::empty());
                assert(later.flatten() + left == items.drop_first());
                assert(all.flatten() + left == b + (later.flatten() + left));
                assert forall|i: int| 0 <= i < all.len() implies (#[trigger] all[i]).len()
                    == BATCH_SIZE by {
                    if i > 0 {
                        assert(all[i] == later[i - 1]);
                    }
                }
            },
            None => {
                assert(rest == pending.push(items[0]));
                assert(later.flatten() + left == rest + items.drop_first());
            },
        }
    } else {
        assert(pending + items == pending);
        assert(Seq::<Seq<T>>::empty().flatten() == Seq::<T>::empty());
        assert(Seq::<T>::empty() + pending == pending);
    }
}

/// Readings a pipe reader holds back until `BATCH_SIZE` of them are ready.
pub struct LocalBatch<T> {
    items: Vec<T>,
}

impl<T> View for LocalBatch<T> {
    type V = Seq<T>;

    /// The pending readings, oldest first.
    closed spec fn view(&self) -> Seq<T> {
        self.items@
    }
}

impl<T> LocalBatch<T> {
    /// An empty batch.
    pub fn new() -> (b: Self)
        ensures
            b@ == Seq::<T>::empty(),
    {
        LocalBatch { items: Vec::with_capacity(BATCH_SIZE) }
    }

    /// The number of pending readings.
    pub fn len(&self) -> (r: usize)
        ensures
            r == self@.len(),
    {
        self.items.len()
    }

    /// Takes one reading; hands back the full batch, leaving nothing
    /// pending, once `BATCH_SIZE` readings are ready (see `batch_step`).
    pub fn add(&mut self, item: T) -> (full: Option<Vec<T>>)
        ensures
            final(self)@.len() < BATCH_SIZE,
            (match full {
                Some(b) => Some(b@),
                None => None,
            }, final(self)@) == batch_step(old(self)@, item),
    {
        self.items.push(item);
        if self.items.len() >= BATCH_SIZE {
            let mut full: Vec<T> = Vec::with_capacity(BATCH_SIZE);
            std::mem::swap(&mut full, &mut self.items);
            Some(full)
        } else {
            None
        }
    }

    /// Hands back what is pending at the end of the stream, if anything.
    pub fn finish(self) -> (rest: Option<Vec<T>>)
        ensures
            self@.len() == 0 ==> rest is None,
            self@.len() > 0 ==> (rest matches Some(v) && v@ == self@),
    {
        if self.items.len() == 0 {
            None
        } else {
            Some(self.items)
        }
    }
}


/// What one line does to the pending readings: a line that carries a
/// reading takes it in (see `batch_step`); any other line hands nothing over
/// and leaves the pending readings as they are.
pub open spec fn feed<T>(pending: Seq<T>, reading: Option<T>) -> (Option<Seq<T>>, Seq<T>) {
    match reading {
        Some(r) => batch_step(pending, r),
        None => (None, pending),
    }
}

/// The batches handed over, and what stays pending, after a run of lines,
/// each given by the reading it carries, if any.
pub open spec fn feed_all<T>(pending: Seq<T>, lines: Seq<Option<T>>) -> (Seq<Seq<T>>, Seq<T>)
    decreases lines.len(),
{
    if lines.len() == 0 {
        (Seq::<Seq<T>>::empty(), pending)
    } else {
        let (out, rest) = feed(pending, lines[0]);
        let (later, left) = feed_all(rest, lines.drop_first());
        match out {
            Some(b) => (seq![b] + later, left),
            None => (later, left),
        }
    }
}

/// The readings a run of lines carries, in line order.
pub open spec fn readings_in<T>(lines: Seq<Option<T>>) -> Seq<T>
    decreases lines.len(),
{
    if lines.len() == 0 {
        Seq::<T>::empty()
    } else {
        match lines[0] {
            Some(r) => seq![r] + readings_in(lines.drop_first()),
            None => readings_in(lines.drop_first()),
        }
    }
}

/// Lines without a reading (rates, availabilities, ignored lines) change
/// nothing handed over: a run of lines hands over exactly what batching the
/// readings it carries, in line order, hands over. With
/// `lemma_batching_keeps_stream`, every reading reaches the buffer once, in
/// line order.
pub proof fn lemma_lines_hand_over_their_readings<T>(pending: Seq<T>, lines: Seq<Option<T>>)
    ensures
        feed_all(pending, lines) == batches_of(pending, readings_in(lines)),
    decreases lines.len(),
{
    if lines.len() > 0 {
        let (out, rest) = feed(pending, lines[0]);
        lemma_lines_hand_over_their_readings(rest, lines.drop_first());
        match lines[0] {
            Some(r) => {
                let items = seq![r] + readings_in(lines.drop_first());
                assert(items[0] == r);
                assert(items.drop_first() == readings_in(lines.drop_first()));
            },
            None => {},
        }
    }
}

/// What a reader does with one line.
pub enum ReaderStep<T> {
    /// The manager was shut down: the reader stops reading.
    Stop,
    /// A rate or availability that is not a decimal `i32`, on a paced
    /// reader.
    Malformed,
    /// Go on; a full batch to hand to the buffer, if one is ready.
    Next(Option<Vec<T>>),
}

/// The state of a thread that reads a sensor's pipe: its pacer (consulted
/// only when `paced`) and the readings it holds back.
pub struct PipeReader<T> {
    pacer: Pacer,
    batch: LocalBatch<T>,
    paced: bool,
}

impl<T> PipeReader<T> {
    /// The pacing state.
    pub closed spec fn pacer(&self) -> Pacer {
        self.pacer
    }

    /// The readings held back, oldest first.
    pub closed spec fn pending(&self) -> Seq<T> {
        self.batch@
    }

    /// Whether the reader paces itself on the rates and availabilities it
    /// reads, and refuses malformed ones.
    pub closed spec fn paced(&self) -> bool {
        self.paced
    }

    /// A reader that has read nothing yet.
    pub fn new(paced: bool) -> (r: Self)
        ensures
            r.pacer().rate == 0,
            r.pacer().last_available == QUEUE_DEPTH,
            r.pacer().delay_micros == INITIAL_DELAY_MICROS,
            r.pending() == Seq::<T>::empty(),
            r.paced() == paced,
    {
        PipeReader { pacer: Pacer::new(), batch: LocalBatch::new(), paced }
    }

    /// The pause the pacer calls for, in microseconds.
    pub fn delay_micros(&self) -> (d: u64)
        ensures
            d == self.pacer().delay_micros,
    {
        self.pacer.delay_micros()
    }

    /// Handles one classified line `cmd`, whose reading, if it carries one,
    /// is `reading`; `running` tells whether the manager still runs.
    /// A stopped manager stops the reader; a paced reader refuses a
    /// malformed rate or availability; both change nothing. Otherwise the
    /// pacer follows the line (when paced) and the reading, if any, is taken
    /// in (see `feed`), paced or not.
    pub fn step(&mut self, cmd: &LineCommand, reading: Option<T>, running: bool) -> (r: ReaderStep<T>)
        ensures
            final(self).paced() == old(self).paced(),
            !running ==> r is Stop && final(self).pacer() == old(self).pacer()
                && final(self).pending() == old(self).pending(),
            running && old(self).paced() && malformed(*cmd) ==> r is Malformed && final(self).pacer()
                == old(self).pacer() && final(self).pending() == old(self).pending(),
            running && !(old(self).paced() && malformed(*cmd)) ==> {
                &&& r matches ReaderStep::Next(out) && (match out {
                    Some(b) => Some(b@),
                    None => None,
                }, final(self).pending()) == feed(old(self).pending(), reading)
                &&& final(self).pacer() == if old(self).paced() {
                    pacer_after(old(self).pacer(), *cmd)
                } else {
                    old(self).pacer()
                }
            },
    {
        if !running {
            return ReaderStep::Stop;
        }
        if self.paced {
            if !self.pacer.apply(cmd) {
                return ReaderStep::Malformed;
            }
        }
        match reading {
            Some(item) => ReaderStep::Next(self.batch.add(item)),
            None => ReaderStep::Next(None),
        }
    }

    /// Hands back what is pending at the end of the stream, if anything.
    pub fn finish(self) -> (rest: Option<Vec<T>>)
        ensures
            self.pending().len() == 0 ==> rest is None,
            self.pending().len() > 0 ==> (rest matches Some(v) && v@ == self.pending()),
    {
        self.batch.finish()
    }
}

} // verus!
