//! Hierarchical pass timing.
//!
//! A `Timing` accumulator measures compilation passes that may nest: each pass is started
//! with `start_pass`, which hands out a `TimingToken`, and stopped by giving the token back
//! to `end_pass`. Tokens must be returned in last-in-first-out order. The time between start
//! and end is added to the pass's total, and to the child time of the pass that was
//! interrupted, so that self time (total minus child) can be reported per pass.
//!
//! Durations and timestamps are counted in nanoseconds. Sums saturate at `u64::MAX`.

use crate::pass::{description_of, pass_description, Pass, NUM_PASSES};
use crate::text::{decimal, pad_left, push_padded_decimal};
use vstd::prelude::*;

verus! {

/// Accumulated time of one pass.
#[derive(Clone, Copy, Debug, PartialEq, Eq, Structural)]
pub struct PassTime {
    /// Time spent in the pass, nested passes included.
    pub total: u64,
    /// Part of `total` spent in nested passes.
    pub child: u64,
}

impl PassTime {
    /// Self time: total minus child, clamped at zero.
    pub open spec fn self_time(self) -> nat {
        if self.child <= self.total {
            (self.total - self.child) as nat
        } else {
            0
        }
    }
}

/// An entry of a table in which nothing was recorded.
pub open spec fn zero_time() -> PassTime {
    PassTime { total: 0, child: 0 }
}

/// The table in which nothing was recorded.
pub open spec fn zero_table() -> Seq<PassTime> {
    Seq::new(NUM_PASSES as nat, |i: int| zero_time())
}

/// Entry-wise sum of two entries.
pub open spec fn merge_time(a: PassTime, b: PassTime) -> PassTime {
    PassTime { total: a.total.saturating_add(b.total), child: a.child.saturating_add(b.child) }
}

/// Entry-wise sum of two tables.
pub open spec fn merge_tables(a: Seq<PassTime>, b: Seq<PassTime>) -> Seq<PassTime> {
    Seq::new(a.len(), |i: int| merge_time(a[i], b[i]))
}

/// A table whose child time stays within the total time of every pass.
pub open spec fn consistent_table(t: Seq<PassTime>) -> bool {
    forall|i: int| 0 <= i < t.len() ==> #[trigger] t[i].child <= t[i].total
}

/// Accumulated timing of every pass of the catalogue, indexed by `Pass::idx`.
pub struct PassTimes {
    pass: Vec<PassTime>,
}

impl View for PassTimes {
    type V = Seq<PassTime>;

    closed spec fn view(&self) -> Seq<PassTime> {
        self.pass@
    }
}

impl PassTimes {
    /// The table holds one entry per pass of the catalogue.
    pub closed spec fn wf(&self) -> bool {
        self.pass@.len() == NUM_PASSES
    }

    /// A well-formed table has one entry per pass of the catalogue.
    pub proof fn lemma_wf_len(&self)
        requires
            self.wf(),
        ensures
            self@.len() == NUM_PASSES,
    {
    }

    /// A table with every entry zero.
    pub fn new() -> (r: PassTimes)
        ensures
            r.wf(),
            r@ == zero_table(),
    {
        let mut pass: Vec<PassTime> = Vec::new();
        let mut i: usize = 0;
        while i < NUM_PASSES
            invariant
                i <= NUM_PASSES,
                pass@ == Seq::new(i as nat, |j: int| zero_time()),
            decreases NUM_PASSES - i,
        {
            pass.push(PassTime { total: 0, child: 0 });
            i = i + 1;
            assert(pass@ =~= Seq::new(i as nat, |j: int| zero_time()));
        }
        PassTimes { pass }
    }

    /// The entry of `pass`.
    pub fn get(&self, pass: Pass) -> (r: PassTime)
        requires
            self.wf(),
            pass.is_real(),
        ensures
            r == self@[pass.index() as int],
    {
        self.pass[pass.idx()]
    }

    /// True when no time at all is recorded.
    pub fn is_zero(&self) -> (r: bool)
        requires
            self.wf(),
        ensures
            r == (self@ == zero_table()),
    {
        let mut i: usize = 0;
        while i < NUM_PASSES
            invariant
                self.wf(),
                i <= NUM_PASSES,
                forall|j: int| 0 <= j < i ==> #[trigger] self@[j] == zero_time(),
            decreases NUM_PASSES - i,
        {
            if self.pass[i].total != 0 || self.pass[i].child != 0 {
                assert(self@[i as int] != zero_table()[i as int]);
                return false;
            }
            i = i + 1;
        }
        assert(self@ =~= zero_table());
        true
    }

    /// The timing report: total and self time of every pass that ran, in catalogue order.
    pub fn render(&self) -> (r: String)
        requires
            self.wf(),
        ensures
            r@ == report(self@),
    {
        let mut out = String::new();
        out.append("======== ========  ==================================\n");
        out.append("   Total     Self  Pass\n");
        out.append("-------- --------  ----------------------------------\n");
        assert(out@ =~= report_header() + report_rows(self@, 0));
        let mut i: usize = 0;
        while i < NUM_PASSES
            invariant
                self.wf(),
                i <= NUM_PASSES,
                out@ == report_header() + report_rows(self@, i as nat),
            decreases NUM_PASSES - i,
        {
            push_row(&mut out, self.pass[i], i);
            assert(report_rows(self@, (i + 1) as nat) == report_rows(self@, i as nat) + report_row(
                self@[i as int],
                i as nat,
            ));
            i = i + 1;
        }
        out.append("======== ========  ==================================\n");
        out
    }

    /// Adds every entry of `other` into this table.
    pub fn add(&mut self, other: &PassTimes)
        requires
            old(self).wf(),
            other.wf(),
        ensures
            final(self).wf(),
            final(self)@ == merge_tables(old(self)@, other@),
    {
        let mut i: usize = 0;
        while i < NUM_PASSES
            invariant
                self.wf(),
                other.wf(),
                old(self).wf(),
                i <= NUM_PASSES,
                forall|j: int| 0 <= j < i ==> #[trigger] self.pass@[j] == merge_time(old(self).pass@[j], other.pass@[j]),
                forall|j: int| i <= j < NUM_PASSES ==> #[trigger] self.pass@[j] == old(self).pass@[j],
            decreases NUM_PASSES - i,
        {
            let a = self.pass[i];
            let b = other.pass[i];
            self.pass.set(
                i,
                PassTime { total: a.total.saturating_add(b.total), child: a.child.saturating_add(b.child) },
            );
            i = i + 1;
        }
        assert(self@ =~= merge_tables(old(self)@, other@));
    }

    /// Adds `total` to the total time and `child` to the child time of entry `i`.
    fn add_at(&mut self, i: usize, total: u64, child: u64)
        requires
            old(self).wf(),
            i < NUM_PASSES,
        ensures
            final(self).wf(),
            final(self)@ == old(self)@.update(
                i as int,
                merge_time(old(self)@[i as int], PassTime { total, child }),
            ),
    {
        let a = self.pass[i];
        self.pass.set(
            i,
            PassTime { total: a.total.saturating_add(total), child: a.child.saturating_add(child) },
        );
    }
}

/// A horizontal rule of the timing report.
pub open spec fn report_rule() -> Seq<char> {
    "======== ========  ==================================\n"@
}

/// The lines above the rows of the timing report.
pub open spec fn report_header() -> Seq<char> {
    report_rule() + "   Total     Self  Pass\n"@ + "-------- --------  ----------------------------------\n"@
}

/// A duration in nanoseconds, rounded half up to whole milliseconds, as seconds and
/// milliseconds (`"   1.250 "`), seconds right-aligned in four places, with a trailing space.
pub open spec fn duration_text(d: nat) -> Seq<char> {
    let r = d + 500_000;
    pad_left(decimal(r / 1_000_000_000), 4, " "@) + "."@ + pad_left(
        decimal((r % 1_000_000_000) / 1_000_000),
        3,
        "0"@,
    ) + " "@
}

/// The report row of the pass at catalogue index `i`; empty when the pass never ran.
pub open spec fn report_row(t: PassTime, i: nat) -> Seq<char> {
    if t.total == 0 {
        Seq::empty()
    } else {
        duration_text(t.total as nat) + duration_text(t.self_time()) + " "@ + pass_description(i)
            + "\n"@
    }
}

/// The rows of the first `n` entries of a table.
pub open spec fn report_rows(t: Seq<PassTime>, n: nat) -> Seq<char>
    decreases n,
{
    if n == 0 || n > t.len() {
        Seq::empty()
    } else {
        report_rows(t, (n - 1) as nat) + report_row(t[n - 1], (n - 1) as nat)
    }
}

/// The whole timing report of a table.
pub open spec fn report(t: Seq<PassTime>) -> Seq<char> {
    report_header() + report_rows(t, t.len()) + report_rule()
}

fn push_row(out: &mut String, t: PassTime, i: usize)
    ensures
        final(out)@ == old(out)@ + report_row(t, i as nat),
{
    if t.total != 0 {
        push_duration(out, t.total);
        push_duration(out, t.total.saturating_sub(t.child));
        out.append(" ");
        out.append(description_of(i));
        out.append("\n");
        assert(out@ =~= old(out)@ + report_row(t, i as nat));
    } else {
        assert(out@ =~= old(out)@ + report_row(t, i as nat));
    }
}

fn push_duration(out: &mut String, d: u64)
    ensures
        final(out)@ == old(out)@ + duration_text(d as nat),
{
    proof {
        reveal_strlit(" ");
        reveal_strlit("0");
    }
    let r: u128 = d as u128 + 500_000;
    push_padded_decimal(out, r / 1_000_000_000, 4, " ");
    out.append(".");
    push_padded_decimal(out, (r % 1_000_000_000) / 1_000_000, 3, "0");
    out.append(" ");
    assert(out@ =~= old(out)@ + duration_text(d as nat));
}

impl Default for PassTimes {
    fn default() -> (r: PassTimes)
        ensures
            r.wf(),
            r@ == zero_table(),
    {
        PassTimes::new()
    }
}

/// A pass that is running: when it started, and the pass it interrupted.
#[derive(Clone, Copy, Debug, PartialEq, Eq, Structural)]
pub struct Frame {
    /// Timestamp at which the pass started.
    pub start: u64,
    /// The running pass.
    pub pass: Pass,
    /// The pass that was active when this one started, `Pass::NoPass` if none.
    pub prev: Pass,
}

/// Handle for a running pass, handed out by `start_pass` and given back to `end_pass`.
///
/// Tokens must be given back in last-in-first-out order.
pub struct TimingToken {
    frame: Frame,
    depth: usize,
}

impl TimingToken {
    /// The running pass this token stands for.
    pub closed spec fn frame(&self) -> Frame {
        self.frame
    }

    /// The number of passes that were running when this one started.
    pub closed spec fn depth(&self) -> nat {
        self.depth as nat
    }

    /// The pass this token times.
    pub fn pass(&self) -> (r: Pass)
        ensures
            r == self.frame().pass,
    {
        self.frame.pass
    }
}

/// `after` is `before` once `pass` started at `now`, and `tok` is the token handed out.
pub open spec fn started(before: Timing, after: Timing, tok: TimingToken, pass: Pass, now: u64) -> bool {
    &&& after.clock() == end_time(before.clock(), now)
    &&& tok.frame() == (Frame { start: after.clock() as u64, pass, prev: before.current() })
    &&& tok.depth() == before.stack().len()
    &&& after.stack() == before.stack().push(tok.frame())
    &&& after.table() == before.table()
    &&& after.credits() == before.credits().push(0)
}

/// The later of the accumulator's clock and a new timestamp.
pub open spec fn end_time(clock: nat, now: u64) -> nat {
    if now > clock {
        now as nat
    } else {
        clock
    }
}

/// The table after the pass of `f` ran for `d`: `d` is added to its total time and, when
/// it interrupted a pass, to that pass's child time.
pub open spec fn charge(t: Seq<PassTime>, f: Frame, d: u64) -> Seq<PassTime> {
    let t1 = t.update(f.pass.index() as int, merge_time(t[f.pass.index() as int], PassTime { total: d, child: 0 }));
    if f.prev.is_real() {
        t1.update(f.prev.index() as int, merge_time(t1[f.prev.index() as int], PassTime { total: 0, child: d }))
    } else {
        t1
    }
}

/// Timestamp of the event that follows the start of frame `i`: the start of the next
/// frame, or the clock for the innermost one.
#[verifier::opaque]
pub open spec fn next_start(f: Seq<Frame>, clock: nat, i: int) -> int {
    if i + 1 < f.len() {
        f[i + 1].start as int
    } else {
        clock as int
    }
}

/// Shape of a stack of running passes, with the child time credited to each so far.
pub open spec fn frames_ok(f: Seq<Frame>, c: Seq<int>, clock: nat) -> bool {
    &&& c.len() == f.len()
    &&& forall|i: int| 0 <= i < f.len() ==> (#[trigger] f[i]).pass.is_real()
    &&& f.len() > 0 ==> f[0].prev == Pass::NoPass
    &&& forall|i: int, j: int|
        0 <= i && j == i + 1 && j < f.len() ==> (#[trigger] f[j]).prev == (#[trigger] f[i]).pass
    &&& forall|i: int| 0 <= i < f.len() ==> (#[trigger] f[i]).start <= next_start(f, clock, i)
    &&& forall|i: int|
        0 <= i < f.len() ==> 0 <= #[trigger] c[i] <= next_start(f, clock, i) - f[i].start
}

/// Child time credited so far to the running frames of pass `p`.
pub open spec fn pending(f: Seq<Frame>, c: Seq<int>, p: nat) -> int
    decreases f.len(),
{
    if f.len() == 0 || c.len() != f.len() {
        0
    } else {
        pending(f.drop_last(), c.drop_last(), p) + if f.last().pass.index() == p {
            c[f.len() - 1]
        } else {
            0
        }
    }
}

/// Child time of every pass within its total plus the credit of its running frames.
pub open spec fn balanced_raw(t: Seq<PassTime>, f: Seq<Frame>, c: Seq<int>) -> bool {
    forall|p: int|
        0 <= p < NUM_PASSES ==> (#[trigger] t[p]).child <= t[p].total + pending(f, c, p as nat)
}

/// Credits after the innermost frame ended after running for `d`: its credit is dropped and
/// `d` is credited to the frame it interrupted.
pub open spec fn credit_after_end(c: Seq<int>, d: int) -> Seq<int> {
    if c.len() > 1 {
        c.drop_last().update(c.len() - 2, c[c.len() - 2] + d)
    } else {
        c.drop_last()
    }
}

proof fn lemma_pending_nonneg(f: Seq<Frame>, c: Seq<int>, p: nat)
    requires
        c.len() == f.len(),
        forall|i: int| 0 <= i < c.len() ==> 0 <= #[trigger] c[i],
    ensures
        pending(f, c, p) >= 0,
    decreases f.len(),
{
    if f.len() > 0 {
        lemma_pending_nonneg(f.drop_last(), c.drop_last(), p);
    }
}

proof fn lemma_pending_absent(f: Seq<Frame>, c: Seq<int>, p: nat)
    requires
        forall|i: int| 0 <= i < f.len() ==> (#[trigger] f[i]).pass.index() != p,
    ensures
        pending(f, c, p) == 0,
    decreases f.len(),
{
    if f.len() > 0 && c.len() == f.len() {
        lemma_pending_absent(f.drop_last(), c.drop_last(), p);
    }
}

proof fn lemma_pending_push(f: Seq<Frame>, c: Seq<int>, x: Frame, p: nat)
    requires
        c.len() == f.len(),
    ensures
        pending(f.push(x), c.push(0), p) == pending(f, c, p),
{
    assert(f.push(x).drop_last() =~= f);
    assert(c.push(0).drop_last() =~= c);
}

proof fn lemma_pending_bump(f: Seq<Frame>, c: Seq<int>, d: int, p: nat)
    requires
        c.len() == f.len(),
        f.len() > 0,
    ensures
        pending(f, c.update(c.len() - 1, c[c.len() - 1] + d), p) == pending(f, c, p) + if f.last().pass.index() == p {
            d
        } else {
            0
        },
{
    assert(c.update(c.len() - 1, c[c.len() - 1] + d).drop_last() =~= c.drop_last());
}

/// The timing accumulator of one thread: the table of accumulated times, and the stack of
/// running passes.
pub struct Timing {
    times: PassTimes,
    open: Vec<Frame>,
    clock: u64,
    credit: Ghost<Seq<int>>,
}

impl Timing {
    /// The accumulated times.
    pub closed spec fn table(&self) -> Seq<PassTime> {
        self.times@
    }

    /// The running passes, outermost first.
    pub closed spec fn stack(&self) -> Seq<Frame> {
        self.open@
    }

    /// The latest timestamp seen. Timestamps earlier than this one count as this one.
    pub closed spec fn clock(&self) -> nat {
        self.clock as nat
    }

    /// For each running frame, the child time recorded for it since it started: the sum of
    /// the running times of the passes that ended directly inside it.
    pub closed spec fn credits(&self) -> Seq<int> {
        self.credit@
    }

    /// What well-formedness gives callers: the table has one entry per pass, every running
    /// frame is a real pass, the outermost one interrupted no pass, each other one
    /// interrupted the frame below it, and each frame has a credit.
    pub proof fn lemma_wf(&self)
        requires
            self.wf(),
        ensures
            self.table().len() == NUM_PASSES,
            self.credits().len() == self.stack().len(),
            forall|i: int| 0 <= i < self.stack().len() ==> (#[trigger] self.stack()[i]).pass.is_real(),
            self.stack().len() > 0 ==> self.stack()[0].prev == Pass::NoPass,
            forall|i: int, j: int|
                0 <= i && j == i + 1 && j < self.stack().len() ==> (#[trigger] self.stack()[j]).prev
                    == (#[trigger] self.stack()[i]).pass,
            forall|i: int| 0 <= i < self.stack().len() ==> 0 <= #[trigger] self.credits()[i],
    {
        let f = self.open@;
        let c = self.credit@;
        assert(frames_ok(f, c, self.clock as nat));
        assert forall|i: int| 0 <= i < f.len() implies 0 <= #[trigger] c[i] by {
            assert(f[i] == f[i]);
        }
    }

    /// The pass currently running, `Pass::NoPass` if none.
    pub open spec fn current(&self) -> Pass {
        if self.stack().len() == 0 {
            Pass::NoPass
        } else {
            self.stack().last().pass
        }
    }

    /// `tok` stands for the innermost running pass.
    pub open spec fn matches_top(&self, tok: &TimingToken) -> bool {
        &&& tok.depth() + 1 == self.stack().len()
        &&& self.stack()[tok.depth() as int] == tok.frame()
    }

    /// Internal consistency of the accumulator.
    pub closed spec fn wf(&self) -> bool {
        &&& self.times.wf()
        &&& frames_ok(self.open@, self.credit@, self.clock as nat)
    }

    /// Every pass's child time is within its total time plus the child time credited to its
    /// running frames. Starting and ending passes keep this; it gives `child <= total` for
    /// every pass that is not running.
    pub closed spec fn balanced(&self) -> bool {
        balanced_raw(self.times@, self.open@, self.credit@)
    }

    /// An accumulator with nothing recorded and no pass running.
    pub fn new() -> (r: Timing)
        ensures
            r.wf(),
            r.balanced(),
            r.table() == zero_table(),
            r.stack() == Seq::<Frame>::empty(),
            r.credits() == Seq::<int>::empty(),
            r.clock() == 0,
    {
        Timing { times: PassTimes::new(), open: Vec::new(), clock: 0, credit: Ghost(Seq::empty()) }
    }

    /// The pass currently running, `Pass::NoPass` if none.
    pub fn current_pass(&self) -> (r: Pass)
        requires
            self.wf(),
        ensures
            r == self.current(),
    {
        if self.open.len() == 0 {
            Pass::NoPass
        } else {
            self.open[self.open.len() - 1].pass
        }
    }

    /// Starts timing `pass` at timestamp `now`, as a child of the running pass if any.
    pub fn start_pass(&mut self, pass: Pass, now: u64) -> (tok: TimingToken)
        requires
            old(self).wf(),
            pass.is_real(),
        ensures
            final(self).wf(),
            started(*old(self), *final(self), tok, pass, now),
            old(self).balanced() ==> final(self).balanced(),
    {
        let t = if now > self.clock {
            now
        } else {
            self.clock
        };
        let prev = self.current_pass();
        let frame = Frame { start: t, pass, prev };
        let depth = self.open.len();
        let ghost f0 = self.open@;
        let ghost c0 = self.credit@;
        let ghost k0 = self.clock as nat;
        self.open.push(frame);
        self.clock = t;
        self.credit = Ghost(c0.push(0));
        proof {
            lemma_frames_push(f0, c0, k0, frame);
            assert forall|p: int| 0 <= p < NUM_PASSES implies #[trigger] pending(
                self.open@,
                self.credit@,
                p as nat,
            ) == pending(f0, c0, p as nat) by {
                lemma_pending_push(f0, c0, frame, p as nat);
            }
            assert(old(self).balanced() ==> balanced_raw(self.times@, self.open@, self.credit@));
        }
        TimingToken { frame, depth }
    }

    /// Stops timing the innermost running pass, whose token is `tok`, at timestamp `now`.
    ///
    /// The pass's running time is added to its total and to the child time of the pass it
    /// interrupted, which becomes the current pass again. Giving back any other token breaks
    /// the nesting discipline and is a defect of the caller: `is_innermost` tells which token
    /// may be given back.
    pub fn end_pass(&mut self, tok: TimingToken, now: u64)
        requires
            old(self).wf(),
            old(self).matches_top(&tok),
        ensures
            final(self).wf(),
            tok.frame().pass.is_real(),
            final(self).current() == tok.frame().prev,
            final(self).clock() == end_time(old(self).clock(), now),
            final(self).stack() == old(self).stack().drop_last(),
            final(self).table() == charge(
                old(self).table(),
                tok.frame(),
                (end_time(old(self).clock(), now) - tok.frame().start) as u64,
            ),
            old(self).credits().last() <= end_time(old(self).clock(), now) - tok.frame().start,
            final(self).credits() == credit_after_end(
                old(self).credits(),
                end_time(old(self).clock(), now) - tok.frame().start,
            ),
            old(self).balanced() ==> final(self).balanced(),
    {
        let depth = tok.depth;
        let frame = tok.frame;
        let t = if now > self.clock {
            now
        } else {
            self.clock
        };
        let ghost f0 = self.open@;
        let ghost c0 = self.credit@;
        let ghost k0 = self.clock as nat;
        let ghost tab0 = self.times@;
        proof {
            lemma_starts_below_clock(f0, c0, k0, depth as int);
            if depth > 0 {
                assert(f0[depth as int].prev == f0[depth - 1].pass);
            }
        }
        let d = t - frame.start;
        self.open.pop();
        self.times.add_at(frame.pass.idx(), d, 0);
        if frame.prev != Pass::NoPass {
            self.times.add_at(frame.prev.idx(), 0, d);
        }
        self.clock = t;
        self.credit = Ghost(credit_after_end(c0, d as int));
        proof {
            assert(f0.last() == frame);
            lemma_frames_pop(f0, c0, k0, t as nat);
            if old(self).balanced() {
                lemma_balanced_end(tab0, f0, c0, k0, t as nat);
            }
            assert(self.times@ == charge(tab0, frame, d));
            assert(c0[depth as int] <= d) by {
                reveal(next_start);
                assert(c0[depth as int] <= next_start(f0, k0, depth as int) - f0[depth as int].start);
            }
            if depth > 0 {
                assert(self.open@.last() == f0[depth - 1]);
            }
        }
    }

    /// Whether `tok` stands for the innermost running pass, the only one that may end.
    pub fn is_innermost(&self, tok: &TimingToken) -> (r: bool)
        requires
            self.wf(),
        ensures
            r == self.matches_top(tok),
    {
        let n = self.open.len();
        n > 0 && tok.depth == n - 1 && self.open[tok.depth] == tok.frame
    }

    /// Ends every running pass, innermost first, at timestamp `now`: what giving back each
    /// token in order would do. Used when the code that held the tokens was cut short.
    pub fn end_all(&mut self, now: u64)
        requires
            old(self).wf(),
        ensures
            final(self).wf(),
            final(self).stack().len() == 0,
            final(self).table() == unwound(
                old(self).table(),
                old(self).stack(),
                end_time(old(self).clock(), now),
            ),
            old(self).stack().len() > 0 ==> final(self).clock() == end_time(old(self).clock(), now),
            old(self).stack().len() == 0 ==> final(self).clock() == old(self).clock(),
            old(self).balanced() ==> final(self).balanced(),
    {
        let ghost t = end_time(self.clock as nat, now);
        let ghost started_empty = self.open@.len() == 0;
        while self.open.len() > 0
            invariant
                self.wf(),
                end_time(self.clock(), now) == t,
                unwound(self.table(), self.stack(), t) == unwound(old(self).table(), old(self).stack(), t),
                started_empty ==> self.stack().len() == 0 && self.clock() == old(self).clock(),
                !started_empty && self.stack().len() < old(self).stack().len() ==> self.clock() == t,
                !started_empty ==> self.stack().len() <= old(self).stack().len(),
                old(self).balanced() ==> self.balanced(),
            decreases self.open.len(),
        {
            let depth = self.open.len() - 1;
            let tok = TimingToken { frame: self.open[depth], depth };
            self.end_pass(tok, now);
        }
    }
}

/// The table after every frame of `f` ended at `at`, innermost first.
pub open spec fn unwound(t: Seq<PassTime>, f: Seq<Frame>, at: nat) -> Seq<PassTime>
    decreases f.len(),
{
    if f.len() == 0 {
        t
    } else {
        unwound(charge(t, f.last(), (at - f.last().start) as u64), f.drop_last(), at)
    }
}

/// Hands out the accumulated times of `acc` and resets them to zero.
///
/// Running passes are not affected: their time is recorded in the new table when they end.
pub fn take_current(acc: &mut Timing) -> (r: PassTimes)
    requires
        old(acc).wf(),
    ensures
        final(acc).wf(),
        r.wf(),
        taken(*old(acc), *final(acc), r@),
        old(acc).balanced() ==> final(acc).balanced(),
        old(acc).balanced() && old(acc).stack().len() == 0 ==> consistent_table(r@),
{
    let mut r = PassTimes::new();
    std::mem::swap(&mut r, &mut acc.times);
    proof {
        lemma_pending_nonneg_all(acc.open@, acc.credit@, acc.clock as nat);
        if old(acc).balanced() && old(acc).stack().len() == 0 {
            assert forall|i: int| 0 <= i < r@.len() implies #[trigger] r@[i].child <= r@[i].total by {
                assert(pending(acc.open@, acc.credit@, i as nat) == 0);
            }
        }
    }
    r
}

/// Adds the times of `times` into the accumulated times of `acc`.
pub fn add_to_current(acc: &mut Timing, times: &PassTimes)
    requires
        old(acc).wf(),
        times.wf(),
    ensures
        final(acc).wf(),
        final(acc).table() == merge_tables(old(acc).table(), times@),
        final(acc).stack() == old(acc).stack(),
        final(acc).credits() == old(acc).credits(),
        final(acc).clock() == old(acc).clock(),
        old(acc).balanced() && consistent_table(times@) ==> final(acc).balanced(),
{
    acc.times.add(times);
    proof {
        lemma_pending_nonneg_all(acc.open@, acc.credit@, acc.clock as nat);
    }
}

/// `a` with every table of `ts` merged into it, first to last.
pub open spec fn merge_all(a: Seq<PassTime>, ts: Seq<Seq<PassTime>>) -> Seq<PassTime>
    decreases ts.len(),
{
    if ts.len() == 0 {
        a
    } else {
        merge_tables(merge_all(a, ts.drop_last()), ts.last())
    }
}

/// The views of a list of tables.
pub open spec fn table_views(ts: Seq<PassTimes>) -> Seq<Seq<PassTime>> {
    ts.map_values(|t: PassTimes| t@)
}

/// Adds every table of `tables` into the accumulated times of `acc`, in order: how the
/// tables handed back by the workers of a pool are gathered when it is joined.
pub fn add_all_to_current(acc: &mut Timing, tables: &Vec<PassTimes>)
    requires
        old(acc).wf(),
        forall|i: int| 0 <= i < tables@.len() ==> (#[trigger] tables@[i]).wf(),
    ensures
        final(acc).wf(),
        final(acc).table() == merge_all(old(acc).table(), table_views(tables@)),
        final(acc).stack() == old(acc).stack(),
        final(acc).credits() == old(acc).credits(),
        final(acc).clock() == old(acc).clock(),
        old(acc).balanced() && (forall|i: int|
            0 <= i < tables@.len() ==> consistent_table(#[trigger] tables@[i]@))
            ==> final(acc).balanced(),
{
    let mut i: usize = 0;
    while i < tables.len()
        invariant
            acc.wf(),
            i <= tables@.len(),
            forall|k: int| 0 <= k < tables@.len() ==> (#[trigger] tables@[k]).wf(),
            acc.table() == merge_all(old(acc).table(), table_views(tables@).take(i as int)),
            acc.stack() == old(acc).stack(),
            acc.credits() == old(acc).credits(),
            acc.clock() == old(acc).clock(),
            old(acc).balanced() && (forall|k: int|
                0 <= k < tables@.len() ==> consistent_table(#[trigger] tables@[k]@))
                ==> acc.balanced(),
        decreases tables@.len() - i,
    {
        add_to_current(acc, &tables[i]);
        proof {
            let v = table_views(tables@);
            assert(v.take(i + 1).drop_last() =~= v.take(i as int));
            assert(v.take(i + 1).last() == tables@[i as int]@);
        }
        i = i + 1;
    }
    assert(table_views(tables@).take(i as int) =~= table_views(tables@));
}

/// `after` is `before` once its times were taken, and `r` what was taken.
pub open spec fn taken(before: Timing, after: Timing, r: Seq<PassTime>) -> bool {
    &&& r == before.table()
    &&& after.table() == zero_table()
    &&& after.stack() == before.stack()
    &&& after.credits() == before.credits()
    &&& after.clock() == before.clock()
}

proof fn lemma_pending_nonneg_all(f: Seq<Frame>, c: Seq<int>, k: nat)
    requires
        frames_ok(f, c, k),
    ensures
        forall|p: nat| #[trigger] pending(f, c, p) >= 0,
{
    assert forall|p: nat| #[trigger] pending(f, c, p) >= 0 by {
        lemma_pending_nonneg(f, c, p);
    }
}

proof fn lemma_frames_pop(f0: Seq<Frame>, c0: Seq<int>, k0: nat, t: nat)
    requires
        frames_ok(f0, c0, k0),
        f0.len() > 0,
        t >= k0,
        t <= u64::MAX,
    ensures
        frames_ok(f0.drop_last(), credit_after_end(c0, t - f0.last().start), t),
{
    let n = f0.len();
    let f1 = f0.drop_last();
    let d = t - f0.last().start;
    let c1 = credit_after_end(c0, d);
    lemma_starts_below_clock(f0, c0, k0, n - 1);
    assert forall|i: int| 0 <= i < f1.len() implies (#[trigger] f1[i]).start <= next_start(f1, t, i)
        && 0 <= c1[i] <= next_start(f1, t, i) - f1[i].start by {
        reveal(next_start);
        assert(f1[i] == f0[i]);
        assert(f0[i].start <= next_start(f0, k0, i));
        assert(0 <= c0[i] <= next_start(f0, k0, i) - f0[i].start);
        if i + 1 < f1.len() {
            assert(f1[i + 1] == f0[i + 1]);
            assert(c1[i] == c0[i]);
        } else {
            assert(c1[i] == c0[i] + d);
        }
    }
    assert forall|i: int, j: int| 0 <= i && j == i + 1 && j < f1.len() implies (
    #[trigger] f1[j]).prev == (#[trigger] f1[i]).pass by {
        assert(f1[j] == f0[j]);
        assert(f1[i] == f0[i]);
    }
    assert forall|i: int| 0 <= i < f1.len() implies (#[trigger] f1[i]).pass.is_real() by {
        assert(f1[i] == f0[i]);
    }
    if f1.len() > 0 {
        assert(f1[0] == f0[0]);
    }
}

proof fn lemma_balanced_end(tab: Seq<PassTime>, f0: Seq<Frame>, c0: Seq<int>, k0: nat, t: nat)
    requires
        frames_ok(f0, c0, k0),
        f0.len() > 0,
        t >= k0,
        tab.len() == NUM_PASSES,
        balanced_raw(tab, f0, c0),
        t <= u64::MAX,
    ensures
        balanced_raw(
            charge(tab, f0.last(), (t - f0.last().start) as u64),
            f0.drop_last(),
            credit_after_end(c0, t - f0.last().start),
        ),
{
    let n = f0.len();
    let top = f0.last();
    let f1 = f0.drop_last();
    lemma_starts_below_clock(f0, c0, k0, n - 1);
    let d = t - top.start;
    let c1 = credit_after_end(c0, d);
    let tab1 = charge(tab, top, d as u64);
    lemma_frames_pop(f0, c0, k0, t);
    lemma_pending_nonneg_all(f1, c1, t);
    assert(c0[n - 1] <= d) by {
        reveal(next_start);
        assert(c0[n - 1] <= next_start(f0, k0, n - 1) - f0[n - 1].start);
    }
    if n > 1 {
        assert(f0[n - 1].prev == f0[n - 2].pass);
    }
    assert forall|p: int| 0 <= p < NUM_PASSES implies (#[trigger] tab1[p]).child <= tab1[p].total
        + pending(f1, c1, p as nat) by {
        assert(pending(f0, c0, p as nat) == pending(f1, c0.drop_last(), p as nat) + if top.pass.index()
            == p {
            c0[n - 1]
        } else {
            0
        });
        if n > 1 {
            lemma_pending_bump(f1, c0.drop_last(), d, p as nat);
            assert(c1 == c0.drop_last().update(n - 2, c0.drop_last()[n - 2] + d));
        } else {
            assert(c1 == c0.drop_last());
        }
        assert(tab[p].child <= tab[p].total + pending(f0, c0, p as nat));
        let t1 = tab.update(top.pass.index() as int, merge_time(tab[top.pass.index() as int], PassTime { total: d as u64, child: 0 }));
        assert(t1[p].child == tab[p].child);
        assert(t1[p].total == if p == top.pass.index() {
            tab[p].total.saturating_add(d as u64)
        } else {
            tab[p].total
        });
        if n > 1 {
            assert(f1.last() == f0[n - 2]);
            assert(top.prev.is_real());
            assert(tab1[p].total == t1[p].total);
            assert(tab1[p].child <= t1[p].child + if top.prev.index() == p {
                d
            } else {
                0
            });
        } else {
            assert(top.prev == Pass::NoPass);
            assert(tab1 == t1);
        }
    }
}

proof fn lemma_frames_push(f0: Seq<Frame>, c0: Seq<int>, k0: nat, frame: Frame)
    requires
        frames_ok(f0, c0, k0),
        frame.start >= k0,
        frame.pass.is_real(),
        frame.prev == (if f0.len() == 0 {
            Pass::NoPass
        } else {
            f0.last().pass
        }),
    ensures
        frames_ok(f0.push(frame), c0.push(0), frame.start as nat),
{
    let f1 = f0.push(frame);
    let c1 = c0.push(0);
    let t = frame.start as nat;
    assert forall|i: int| 0 <= i < f1.len() implies (#[trigger] f1[i]).start <= next_start(f1, t, i)
        && 0 <= c1[i] <= next_start(f1, t, i) - f1[i].start by {
        reveal(next_start);
        if i + 1 < f1.len() {
            assert(f1[i] == f0[i]);
            assert(c1[i] == c0[i]);
            assert(f0[i].start <= next_start(f0, k0, i));
            assert(0 <= c0[i] <= next_start(f0, k0, i) - f0[i].start);
        }
    }
    assert forall|i: int, j: int| 0 <= i && j == i + 1 && j < f1.len() implies (
    #[trigger] f1[j]).prev == (#[trigger] f1[i]).pass by {
        if j + 1 < f1.len() {
            assert(f1[j] == f0[j]);
            assert(f1[i] == f0[i]);
        }
    }
    assert forall|i: int| 0 <= i < f1.len() implies (#[trigger] f1[i]).pass.is_real() by {
        if i + 1 < f1.len() {
            assert(f1[i] == f0[i]);
        }
    }
}

proof fn lemma_starts_below_clock(f: Seq<Frame>, c: Seq<int>, clock: nat, i: int)
    requires
        frames_ok(f, c, clock),
        0 <= i < f.len(),
    ensures
        f[i].start <= clock,
    decreases f.len() - i,
{
    reveal(next_start);
    assert(f[i].start <= next_start(f, clock, i));
    if i + 1 < f.len() {
        lemma_starts_below_clock(f, c, clock, i + 1);
    }
}

} // verus!

verus! {

/// Self time is never negative: once no frame of pass `p` is running, the child time
/// credited to `p` is within its total time. Every accumulator built by `Timing::new`,
/// `start_pass`, `end_pass`, `take_current` and merges of consistent tables is balanced.
pub proof fn lemma_idle_pass_child_within_total(acc: &Timing, p: Pass)
    requires
        acc.wf(),
        acc.balanced(),
        p.is_real(),
        forall|i: int| 0 <= i < acc.stack().len() ==> (#[trigger] acc.stack()[i]).pass != p,
    ensures
        acc.table()[p.index() as int].child <= acc.table()[p.index() as int].total,
{
    assert forall|i: int| 0 <= i < acc.open@.len() implies (#[trigger] acc.open@[i]).pass.index()
        != p.index() by {
        assert(acc.stack()[i] == acc.open@[i]);
        if acc.open@[i].pass.index() == p.index() {
            lemma_index_injective(acc.open@[i].pass, p);
        }
    }
    lemma_pending_absent(acc.open@, acc.credit@, p.index());
    assert(acc.times@[p.index() as int].child <= acc.times@[p.index() as int].total + pending(
        acc.open@,
        acc.credit@,
        p.index(),
    ));
}

/// With no pass running, every pass's child time is within its total time.
pub proof fn lemma_idle_table_consistent(acc: &Timing)
    requires
        acc.wf(),
        acc.balanced(),
        acc.stack().len() == 0,
    ensures
        consistent_table(acc.table()),
{
    assert forall|i: int| 0 <= i < acc.table().len() implies #[trigger] acc.table()[i].child
        <= acc.table()[i].total by {
        lemma_pending_absent(acc.open@, acc.credit@, i as nat);
        assert(acc.times@[i].child <= acc.times@[i].total + pending(acc.open@, acc.credit@, i as nat));
    }
}

proof fn lemma_index_injective(a: Pass, b: Pass)
    requires
        a.index() == b.index(),
    ensures
        a == b,
{
}

/// Taking the times twice in a row: the second table is all zero, and the accumulator's
/// times stay zero.
pub proof fn lemma_take_twice(a0: Timing, a1: Timing, a2: Timing, r1: Seq<PassTime>, r2: Seq<PassTime>)
    requires
        taken(a0, a1, r1),
        taken(a1, a2, r2),
    ensures
        r1 == a0.table(),
        r2 == zero_table(),
        a2.table() == zero_table(),
{
}

/// Merging two tables into a third gives the same result in either order.
pub proof fn lemma_merge_commutes(a: Seq<PassTime>, t1: Seq<PassTime>, t2: Seq<PassTime>)
    requires
        t1.len() == a.len(),
        t2.len() == a.len(),
    ensures
        merge_tables(merge_tables(a, t1), t2) == merge_tables(merge_tables(a, t2), t1),
{
    assert(merge_tables(merge_tables(a, t1), t2) =~= merge_tables(merge_tables(a, t2), t1));
}

/// Merging `t1` then `t2` is merging their entry-wise sum.
pub proof fn lemma_merge_associative(a: Seq<PassTime>, t1: Seq<PassTime>, t2: Seq<PassTime>)
    requires
        t1.len() == a.len(),
        t2.len() == a.len(),
    ensures
        merge_tables(merge_tables(a, t1), t2) == merge_tables(a, merge_tables(t1, t2)),
{
    assert(merge_tables(merge_tables(a, t1), t2) =~= merge_tables(a, merge_tables(t1, t2)));
}

} // verus!

verus! {

/// Merging the zero table changes nothing.
pub proof fn lemma_merge_zero(a: Seq<PassTime>)
    requires
        a.len() == NUM_PASSES,
    ensures
        merge_tables(a, zero_table()) == a,
{
    assert(merge_tables(a, zero_table()) =~= a);
}

/// Taking the times and merging them back restores the table: merging a table into the zero
/// table gives that table.
pub proof fn lemma_merge_into_zero(t: Seq<PassTime>)
    requires
        t.len() == NUM_PASSES,
    ensures
        merge_tables(zero_table(), t) == t,
{
    assert(merge_tables(zero_table(), t) =~= t);
}

/// Without saturation, each entry of a merged table is the sum of the entries merged.
pub proof fn lemma_merge_entry(a: Seq<PassTime>, b: Seq<PassTime>, i: int)
    requires
        a.len() == b.len(),
        0 <= i < a.len(),
        a[i].total + b[i].total <= u64::MAX,
        a[i].child + b[i].child <= u64::MAX,
    ensures
        merge_tables(a, b)[i].total == a[i].total + b[i].total,
        merge_tables(a, b)[i].child == a[i].child + b[i].child,
{
}

} // verus!
