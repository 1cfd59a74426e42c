//! The polling algorithm of one register, sign or raw-command operation, as
//! a machine that answers each outcome of outside work with the next piece of
//! outside work to do. The caller opens the monitor, checks aliveness, reads
//! hotplug events, runs device exchanges and sleeps, and hands each outcome
//! back; the machine decides everything else.
use vstd::prelude::*;
use crate::devicemap::{
    after_event,
    after_events,
    lemma_after_events_append,
    released_by,
    DeviceMap,
    HotplugEvent,
};
use crate::util::{io_err, IoError};

verus! {

/// Pause between two retry passes that found no device to succeed.
pub const RETRY_INTERVAL_MS: u64 = 100;

/// The protocol exchange that an operation offers to every device, with
/// its inputs, which are handed on unchanged.
pub enum Request {
    Register { challenge: Vec<u8>, application: Vec<u8> },
    Sign { challenge: Vec<u8>, application: Vec<u8>, key_handle: Vec<u8> },
    Raw { cla: u8, cmd: u8, p1: u8, data: Vec<u8> },
}

/// What the operation waits for from its caller.
#[derive(PartialEq, Eq, Structural)]
pub enum Phase {
    /// The hotplug monitor to be opened.
    Monitor,
    /// The aliveness predicate to be read.
    Alive,
    /// The pending hotplug events to be read.
    Events,
    /// The exchange with the device at this position of the pass.
    Exchange(usize),
    /// The pause between passes to end.
    Sleep,
    /// Nothing: the result has been delivered.
    Done,
}

/// The outside work to do next.
pub enum Action {
    OpenMonitor,
    CheckAlive,
    DrainEvents,
    /// Run the protocol exchange with the device at this position of the pass.
    Exchange(usize),
    /// Sleep this many milliseconds.
    Sleep(u64),
    /// Hand this terminal result to the operation's callback. Nothing follows.
    Deliver(Result<Vec<u8>, IoError>),
}

/// What the caller reports back after doing the work of an action, as far
/// as it decides the next phase: whether the monitor opened, the aliveness
/// read, whether any device is held after draining events, whether the
/// exchange succeeded, or the end of a pause.
pub enum Report {
    MonitorOpened(bool),
    Alive(bool),
    Drained(bool),
    Exchanged(bool),
    Slept,
}

/// The phase that follows `p` on `report`, for a registry of `count`
/// devices. A report that `p` does not wait for changes nothing.
pub open spec fn next_phase(p: Phase, count: nat, report: Report) -> Phase {
    match (p, report) {
        (Phase::Monitor, Report::MonitorOpened(ok)) => if ok {
            Phase::Alive
        } else {
            Phase::Done
        },
        (Phase::Alive, Report::Alive(alive)) => if alive {
            Phase::Events
        } else {
            Phase::Done
        },
        (Phase::Events, Report::Drained(any)) => if any {
            Phase::Exchange(0)
        } else {
            Phase::Sleep
        },
        (Phase::Exchange(i), Report::Exchanged(ok)) => if ok {
            Phase::Done
        } else if i + 1 < count {
            Phase::Exchange((i + 1) as usize)
        } else {
            Phase::Sleep
        },
        (Phase::Sleep, Report::Slept) => Phase::Alive,
        _ => p,
    }
}

/// The phases that a series of reports leads through from `p`, with a
/// registry of `count` devices throughout.
pub open spec fn phases(p: Phase, count: nat, reports: Seq<Report>) -> Seq<Phase>
    decreases reports.len(),
{
    if reports.len() == 0 {
        Seq::empty()
    } else {
        let q = next_phase(p, count, reports[0]);
        seq![q] + phases(q, count, reports.drop_first())
    }
}

/// The reports of `k` passes in which the operation is alive, no device is
/// held and the pause ends.
pub open spec fn idle_reports(k: nat) -> Seq<Report>
    decreases k,
{
    if k == 0 {
        Seq::empty()
    } else {
        seq![Report::Alive(true), Report::Drained(false), Report::Slept] + idle_reports(
            (k - 1) as nat,
        )
    }
}

/// The phases of `k` passes that find no device: drain, pause, check again.
pub open spec fn idle_phases(k: nat) -> Seq<Phase>
    decreases k,
{
    if k == 0 {
        Seq::empty()
    } else {
        seq![Phase::Events, Phase::Sleep, Phase::Alive] + idle_phases((k - 1) as nat)
    }
}

/// The number of passes that a deadline of `timeout` ms lets run when only
/// the pauses between passes take time.
pub open spec fn passes_before(timeout: nat) -> nat {
    ((timeout + RETRY_INTERVAL_MS - 1) / RETRY_INTERVAL_MS as int) as nat
}

proof fn lemma_phases_append(p: Phase, count: nat, a: Seq<Report>, b: Seq<Report>)
    ensures
        phases(p, count, a + b) == phases(p, count, a) + phases(
            if a.len() == 0 {
                p
            } else {
                phases(p, count, a).last()
            },
            count,
            b,
        ),
    decreases a.len(),
{
    if a.len() > 0 {
        let q = next_phase(p, count, a[0]);
        assert((a + b).drop_first() =~= a.drop_first() + b);
        lemma_phases_append(q, count, a.drop_first(), b);
        let rest = phases(q, count, a.drop_first());
        assert(seq![q] + (rest + phases(
            if a.drop_first().len() == 0 {
                q
            } else {
                rest.last()
            },
            count,
            b,
        )) =~= (seq![q] + rest) + phases(
            if a.drop_first().len() == 0 {
                q
            } else {
                rest.last()
            },
            count,
            b,
        ));
        if a.drop_first().len() > 0 {
            assert((seq![q] + rest).last() == rest.last());
        }
    } else {
        assert(a + b =~= b);
    }
}

proof fn lemma_idle_passes(k: nat, last: Report)
    ensures
        phases(Phase::Alive, 0, idle_reports(k).push(last)) == idle_phases(k) + phases(
            Phase::Alive,
            0,
            seq![last],
        ),
    decreases k,
{
    reveal_with_fuel(phases, 4);
    if k > 0 {
        let one = seq![Report::Alive(true), Report::Drained(false), Report::Slept];
        let rest = idle_reports((k - 1) as nat).push(last);
        assert(idle_reports(k).push(last) =~= one + rest);
        lemma_phases_append(Phase::Alive, 0, one, rest);
        assert(one.drop_first().drop_first().drop_first() =~= Seq::<Report>::empty());
        assert(phases(Phase::Alive, 0, one) =~= seq![Phase::Events, Phase::Sleep, Phase::Alive]) by {
            assert(one.drop_first() =~= seq![Report::Drained(false), Report::Slept]);
            assert(one.drop_first().drop_first() =~= seq![Report::Slept]);
        }
        lemma_idle_passes((k - 1) as nat, last);
        assert(seq![Phase::Events, Phase::Sleep, Phase::Alive] + (idle_phases((k - 1) as nat)
            + phases(Phase::Alive, 0, seq![last])) =~= idle_phases(k) + phases(
            Phase::Alive,
            0,
            seq![last],
        ));
    } else {
        assert(idle_reports(0).push(last) =~= seq![last]);
        assert(idle_phases(0) + phases(Phase::Alive, 0, seq![last]) =~= phases(
            Phase::Alive,
            0,
            seq![last],
        ));
    }
}

/// Retry persistence: with no device held, every alive reading starts a pass
/// that drains events, finds nothing and pauses for `RETRY_INTERVAL_MS`; the
/// operation ends, with nothing else delivered before, at the first reading
/// that is not alive. When only those pauses take time, a deadline of
/// `timeout` ms lets `passes_before(timeout)` passes run: the last alive reading
/// falls before the deadline, and the final one falls at or after it and
/// less than one interval past it.
pub proof fn lemma_retry_persistence(timeout: nat)
    ensures
        ({
            let k = passes_before(timeout);
            &&& phases(Phase::Alive, 0, idle_reports(k).push(Report::Alive(false))) == idle_phases(
                k,
            ).push(Phase::Done)
            &&& k > 0 ==> (k - 1) * RETRY_INTERVAL_MS < timeout
            &&& timeout <= k * RETRY_INTERVAL_MS < timeout + RETRY_INTERVAL_MS
        }),
{
    reveal_with_fuel(phases, 2);
    let k = passes_before(timeout);
    lemma_idle_passes(k, Report::Alive(false));
    let last = seq![Report::Alive(false)];
    assert(last.drop_first() =~= Seq::<Report>::empty());
    assert(phases(Phase::Alive, 0, last) =~= seq![Phase::Done]);
    assert(idle_phases(k) + seq![Phase::Done] =~= idle_phases(k).push(Phase::Done));
    assert(timeout <= k * RETRY_INTERVAL_MS < timeout + RETRY_INTERVAL_MS) by (nonlinear_arith)
        requires
            k == (timeout + 100 - 1) / 100,
            RETRY_INTERVAL_MS == 100,
    ;
    assert(k > 0 ==> (k - 1) * 100 < timeout) by (nonlinear_arith)
        requires
            k == (timeout + 100 - 1) / 100,
    ;
}

/// `k` copies of `s`, one after the other.
pub open spec fn repeat<A>(s: Seq<A>, k: nat) -> Seq<A>
    decreases k,
{
    if k == 0 {
        Seq::empty()
    } else {
        s + repeat(s, (k - 1) as nat)
    }
}

/// The reports of one pass over a single device whose exchange fails.
pub open spec fn failing_pass_reports() -> Seq<Report> {
    seq![Report::Alive(true), Report::Drained(true), Report::Exchanged(false), Report::Slept]
}

/// The phases of one pass over a single device whose exchange fails: drain,
/// try the device, pause, check again.
pub open spec fn failing_pass_phases() -> Seq<Phase> {
    seq![Phase::Events, Phase::Exchange(0), Phase::Sleep, Phase::Alive]
}

proof fn lemma_failing_passes(k: nat, last: Report)
    ensures
        phases(Phase::Alive, 1, repeat(failing_pass_reports(), k).push(last)) == repeat(
            failing_pass_phases(),
            k,
        ) + phases(Phase::Alive, 1, seq![last]),
    decreases k,
{
    reveal_with_fuel(phases, 5);
    let one = failing_pass_reports();
    if k > 0 {
        let rest = repeat(one, (k - 1) as nat).push(last);
        assert(repeat(one, k).push(last) =~= one + rest);
        lemma_phases_append(Phase::Alive, 1, one, rest);
        assert(phases(Phase::Alive, 1, one) =~= failing_pass_phases()) by {
            assert(one.drop_first() =~= seq![
                Report::Drained(true),
                Report::Exchanged(false),
                Report::Slept,
            ]);
            assert(one.drop_first().drop_first() =~= seq![Report::Exchanged(false), Report::Slept]);
            assert(one.drop_first().drop_first().drop_first() =~= seq![Report::Slept]);
            assert(one.drop_first().drop_first().drop_first().drop_first()
                =~= Seq::<Report>::empty());
        }
        lemma_failing_passes((k - 1) as nat, last);
        assert(failing_pass_phases() + (repeat(failing_pass_phases(), (k - 1) as nat) + phases(
            Phase::Alive,
            1,
            seq![last],
        )) =~= repeat(failing_pass_phases(), k) + phases(Phase::Alive, 1, seq![last]));
    } else {
        assert(repeat(one, 0).push(last) =~= seq![last]);
        assert(repeat(failing_pass_phases(), 0) + phases(Phase::Alive, 1, seq![last])
            =~= phases(Phase::Alive, 1, seq![last]));
    }
}

/// A device that always fails: with one device held whose exchange fails
/// every time, each alive reading starts a pass that tries that device once
/// and pauses for `RETRY_INTERVAL_MS`, and the operation ends, with nothing
/// delivered before, at the first reading that is not alive. When only those
/// pauses take time, a deadline of `timeout` ms lets `passes_before(timeout)`
/// passes run, and a deadline of 500 ms lets five.
pub proof fn lemma_failing_device_retries(timeout: nat)
    ensures
        ({
            let k = passes_before(timeout);
            &&& phases(
                Phase::Alive,
                1,
                repeat(failing_pass_reports(), k).push(Report::Alive(false)),
            ) == repeat(failing_pass_phases(), k).push(Phase::Done)
            &&& k > 0 ==> (k - 1) * RETRY_INTERVAL_MS < timeout
            &&& timeout <= k * RETRY_INTERVAL_MS < timeout + RETRY_INTERVAL_MS
        }),
        passes_before(500) == 5,
{
    reveal_with_fuel(phases, 2);
    let k = passes_before(timeout);
    lemma_failing_passes(k, Report::Alive(false));
    let last = seq![Report::Alive(false)];
    assert(last.drop_first() =~= Seq::<Report>::empty());
    assert(phases(Phase::Alive, 1, last) =~= seq![Phase::Done]);
    assert(repeat(failing_pass_phases(), k) + seq![Phase::Done] =~= repeat(
        failing_pass_phases(),
        k,
    ).push(Phase::Done));
    assert(timeout <= k * RETRY_INTERVAL_MS < timeout + RETRY_INTERVAL_MS) by (nonlinear_arith)
        requires
            k == (timeout + 100 - 1) / 100,
            RETRY_INTERVAL_MS == 100,
    ;
    assert(k > 0 ==> (k - 1) * 100 < timeout) by (nonlinear_arith)
        requires
            k == (timeout + 100 - 1) / 100,
    ;
}

/// First success wins: in a pass over `count` devices where the first `j`
/// exchanges fail and the next one succeeds, the operation ends right after
/// that success, and no device after it is tried.
pub proof fn lemma_first_success_wins(count: nat, j: nat)
    requires
        j < count <= usize::MAX,
    ensures
        phases(
            Phase::Exchange(0),
            count,
            Seq::new(j, |i: int| Report::Exchanged(false)).push(Report::Exchanged(true)),
        ) == Seq::new(j, |i: int| Phase::Exchange((i + 1) as usize)).push(Phase::Done),
{
    lemma_fails_then_success(count, 0, j);
}

proof fn lemma_fails_then_success(count: nat, start: nat, j: nat)
    requires
        start + j < count <= usize::MAX,
    ensures
        phases(
            Phase::Exchange(start as usize),
            count,
            Seq::new(j, |i: int| Report::Exchanged(false)).push(Report::Exchanged(true)),
        ) == Seq::new(j, |i: int| Phase::Exchange((start + i + 1) as usize)).push(Phase::Done),
    decreases j,
{
    reveal_with_fuel(phases, 2);
    let reports = Seq::new(j, |i: int| Report::Exchanged(false)).push(Report::Exchanged(true));
    assert(reports[0] == if j == 0 {
        Report::Exchanged(true)
    } else {
        Report::Exchanged(false)
    });
    if j == 0 {
        assert(reports.drop_first() =~= Seq::<Report>::empty());
        assert(Seq::new(0, |i: int| Phase::Exchange((start + i + 1) as usize)).push(Phase::Done)
            =~= seq![Phase::Done]);
    } else {
        assert(reports.drop_first() =~= Seq::new((j - 1) as nat, |i: int| Report::Exchanged(false)).push(
            Report::Exchanged(true),
        ));
        lemma_fails_then_success(count, start + 1, (j - 1) as nat);
        assert(seq![Phase::Exchange((start + 1) as usize)] + Seq::new(
            (j - 1) as nat,
            |i: int| Phase::Exchange((start + 1 + i + 1) as usize),
        ).push(Phase::Done) =~= Seq::new(j, |i: int| Phase::Exchange((start + i + 1) as usize)).push(
            Phase::Done,
        ));
    }
}

/// The message of the failure delivered when an operation ends unanswered.
pub open spec fn cancelled_msg() -> Seq<char> {
    "cancelled or timed out"@
}

/// Whether `e` is the failure delivered when the operation was cancelled or
/// timed out before any device answered.
pub open spec fn is_cancelled_error(e: IoError) -> bool {
    e is Other && e->Other_0@ == cancelled_msg()
}

/// The handles that leave the registry `m` while `events` are merged, in order.
pub open spec fn releases<H>(m: Map<u64, H>, events: Seq<HotplugEvent<H>>) -> Seq<H>
    decreases events.len(),
{
    if events.len() == 0 {
        Seq::empty()
    } else {
        let rest = releases(after_event(m, events[0]), events.drop_first());
        match released_by(m, events[0]) {
            Some(h) => seq![h] + rest,
            None => rest,
        }
    }
}

proof fn lemma_push_event<H>(m: Map<u64, H>, events: Seq<HotplugEvent<H>>, e: HotplugEvent<H>)
    ensures
        after_events(m, events.push(e)) == after_event(after_events(m, events), e),
        releases(m, events.push(e)) == releases(m, events) + match released_by(
            after_events(m, events),
            e,
        ) {
            Some(h) => seq![h],
            None => Seq::<H>::empty(),
        },
    decreases events.len(),
{
    lemma_after_events_append(m, events, seq![e]);
    assert(events + seq![e] =~= events.push(e));
    let last = seq![e];
    assert(last.drop_first() =~= Seq::<HotplugEvent<H>>::empty());
    assert(after_events(after_events(m, events), last) == after_events(
        after_event(after_events(m, events), e),
        Seq::<HotplugEvent<H>>::empty(),
    ));
    if events.len() == 0 {
        assert(events.push(e) =~= last);
        assert(releases(after_event(m, e), last.drop_first()) == Seq::<H>::empty());
        match released_by(m, e) {
            Some(h) => {
                assert(Seq::<H>::empty() + seq![h] =~= seq![h]);
                assert(seq![h] + Seq::<H>::empty() =~= seq![h]);
            },
            None => {
                assert(Seq::<H>::empty() + Seq::<H>::empty() =~= Seq::<H>::empty());
            },
        }
    } else {
        assert(events.push(e).drop_first() =~= events.drop_first().push(e));
        lemma_push_event(after_event(m, events[0]), events.drop_first(), e);
        match released_by(m, events[0]) {
            Some(h) => {
                let tail = match released_by(after_events(m, events), e) {
                    Some(h2) => seq![h2],
                    None => Seq::<H>::empty(),
                };
                assert(seq![h] + (releases(after_event(m, events[0]), events.drop_first()) + tail)
                    =~= (seq![h] + releases(after_event(m, events[0]), events.drop_first()))
                    + tail);
            },
            None => {},
        }
    }
}

/// The state of one operation: the devices it has seen and what it waits for.
pub struct Operation<H> {
    request: Request,
    devices: DeviceMap<H>,
    phase: Phase,
}

impl<H> Operation<H> {
    pub closed spec fn phase(&self) -> Phase {
        self.phase
    }

    pub closed spec fn request(&self) -> Request {
        self.request
    }

    pub closed spec fn devices(&self) -> DeviceMap<H> {
        self.devices
    }

    pub closed spec fn wf(&self) -> bool {
        &&& self.devices.wf()
        &&& (self.phase matches Phase::Exchange(i) ==> i < self.devices.ids().len())
    }

    /// A fresh operation for `request` with an empty registry; its first
    /// work is to open the hotplug monitor.
    pub fn new(request: Request) -> (r: (Self, Action))
        ensures
            r.0.wf(),
            r.0.request() == request,
            r.0.phase() == Phase::Monitor,
            r.0.devices()@ == Map::<u64, H>::empty(),
            r.1 is OpenMonitor,
    {
        (
            Operation { request, devices: DeviceMap::new(), phase: Phase::Monitor },
            Action::OpenMonitor,
        )
    }

    /// What the operation waits for.
    pub fn current_phase(&self) -> (r: &Phase)
        ensures
            *r == self.phase(),
    {
        &self.phase
    }

    /// The exchange to run with each device, as it was given.
    pub fn request_ref(&self) -> (r: &Request)
        ensures
            *r == self.request(),
    {
        &self.request
    }

    /// The devices seen so far.
    pub fn device_map(&self) -> (r: &DeviceMap<H>)
        ensures
            *r == self.devices(),
    {
        &self.devices
    }

    /// The handle of the device that `Action::Exchange(i)` names.
    pub fn device(&self, i: usize) -> (r: &H)
        requires
            self.wf(),
            self.phase() == Phase::Exchange(i),
        ensures
            *r == self.devices()@[self.devices().ids()[i as int]],
    {
        self.devices.handle_at(i)
    }

    /// The monitor was opened, or could not be. A failure is delivered at
    /// once and ends the operation; otherwise the first pass begins with a
    /// check of aliveness.
    pub fn monitor_opened(&mut self, res: Result<(), IoError>) -> (r: Action)
        requires
            old(self).wf(),
            old(self).phase() == Phase::Monitor,
        ensures
            final(self).wf(),
            final(self).request() == old(self).request(),
            final(self).devices() == old(self).devices(),
            final(self).phase() == next_phase(
                old(self).phase(),
                old(self).devices().ids().len(),
                Report::MonitorOpened(res is Ok),
            ),
            match res {
                Ok(()) => final(self).phase() == Phase::Alive && r is CheckAlive,
                Err(e) => final(self).phase() == Phase::Done && r == Action::Deliver(
                    Err(e),
                ),
            },
    {
        match res {
            Ok(()) => {
                self.phase = Phase::Alive;
                Action::CheckAlive
            },
            Err(e) => {
                self.phase = Phase::Done;
                Action::Deliver(Err(e))
            },
        }
    }

    /// The aliveness predicate read `alive`. While alive, a pass begins by
    /// draining hotplug events; once not, the operation ends with the
    /// cancelled-or-timed-out failure.
    pub fn alive_checked(&mut self, alive: bool) -> (r: Action)
        requires
            old(self).wf(),
            old(self).phase() == Phase::Alive,
        ensures
            final(self).wf(),
            final(self).request() == old(self).request(),
            final(self).devices() == old(self).devices(),
            final(self).phase() == next_phase(
                old(self).phase(),
                old(self).devices().ids().len(),
                Report::Alive(alive),
            ),
            alive ==> final(self).phase() == Phase::Events && r is DrainEvents,
            !alive ==> final(self).phase() == Phase::Done && (r matches Action::Deliver(Err(e))
                && is_cancelled_error(e)),
    {
        if alive {
            self.phase = Phase::Events;
            Action::DrainEvents
        } else {
            self.phase = Phase::Done;
            Action::Deliver(Err(io_err("cancelled or timed out")))
        }
    }

    /// The pending hotplug events were read. They are merged into the
    /// registry in order, and the handles that leave it are handed back to be
    /// closed. The pass then tries the first device, or, with none held,
    /// sleeps before the next pass.
    pub fn events_drained(&mut self, events: Vec<HotplugEvent<H>>) -> (r: (Action, Vec<H>))
        requires
            old(self).wf(),
            old(self).phase() == Phase::Events,
        ensures
            final(self).wf(),
            final(self).request() == old(self).request(),
            final(self).devices()@ == after_events(old(self).devices()@, events@),
            r.1@ == releases(old(self).devices()@, events@),
            final(self).phase() == next_phase(
                old(self).phase(),
                final(self).devices().ids().len(),
                Report::Drained(final(self).devices().ids().len() > 0),
            ),
            final(self).devices()@.len() > 0 ==> final(self).phase() == Phase::Exchange(0) && r.0
                == Action::Exchange(0),
            final(self).devices()@.len() == 0 ==> final(self).phase() == Phase::Sleep && r.0
                == Action::Sleep(RETRY_INTERVAL_MS),
    {
        let ghost start = self.devices@;
        let ghost all = events@;
        let mut events = events;
        let mut released: Vec<H> = Vec::new();
        let mut i: usize = 0;
        let n: usize = events.len();
        proof {
            assert(all.subrange(0, 0) =~= Seq::<HotplugEvent<H>>::empty());
            assert(all.subrange(0, n as int) =~= all);
        }
        while events.len() > 0
            invariant
                self.devices.wf(),
                self.request == old(self).request,
                n == all.len(),
                i <= n,
                events@ == all.subrange(i as int, n as int),
                self.devices@ == after_events(start, all.subrange(0, i as int)),
                released@ == releases(start, all.subrange(0, i as int)),
            decreases events@.len(),
        {
            let ghost before = self.devices@;
            let ev = events.remove(0);
            proof {
                assert(ev == all[i as int]);
                assert(all.subrange(0, i + 1) =~= all.subrange(0, i as int).push(ev));
                lemma_push_event(start, all.subrange(0, i as int), ev);
            }
            let out = self.devices.process_event(ev);
            match out {
                Some(h) => {
                    released.push(h);
                },
                None => {},
            }
            i = i + 1;
            proof {
                assert(events@ =~= all.subrange(i as int, n as int));
                match released_by(before, ev) {
                    Some(h) => {},
                    None => {
                        assert(released@ =~= releases(start, all.subrange(0, i as int)));
                    },
                }
            }
        }
        proof {
            self.devices.lemma_ids_are_keys();
        }
        if self.devices.len() > 0 {
            self.phase = Phase::Exchange(0);
            (Action::Exchange(0), released)
        } else {
            self.phase = Phase::Sleep;
            (Action::Sleep(RETRY_INTERVAL_MS), released)
        }
    }

    /// The exchange with the current device ended with `res`. The first
    /// success is delivered at once and ends the operation, so no later
    /// device is tried; a failure moves on to the next device of the pass,
    /// or, after the last, to the pause before the next pass.
    pub fn exchanged(&mut self, res: Result<Vec<u8>, IoError>) -> (r: Action)
        requires
            old(self).wf(),
            old(self).phase() is Exchange,
        ensures
            final(self).wf(),
            final(self).request() == old(self).request(),
            final(self).devices() == old(self).devices(),
            final(self).phase() == next_phase(
                old(self).phase(),
                old(self).devices().ids().len(),
                Report::Exchanged(res is Ok),
            ),
            ({
                let i = old(self).phase()->Exchange_0;
                let n = old(self).devices().ids().len();
                match res {
                    Ok(bytes) => final(self).phase() == Phase::Done && r == Action::Deliver(
                        Ok(bytes),
                    ),
                    Err(_) => if i + 1 < n {
                        final(self).phase() == Phase::Exchange((i + 1) as usize) && r
                            == Action::Exchange((i + 1) as usize)
                    } else {
                        final(self).phase() == Phase::Sleep && r == Action::Sleep(
                            RETRY_INTERVAL_MS,
                        )
                    },
                }
            }),
    {
        let i = match self.phase {
            Phase::Exchange(i) => i,
            _ => 0,
        };
        match res {
            Ok(bytes) => {
                self.phase = Phase::Done;
                Action::Deliver(Ok(bytes))
            },
            Err(_) => {
                let n = self.devices.len();
                assert(i < n);
                if i + 1 < n {
                    self.phase = Phase::Exchange(i + 1);
                    Action::Exchange(i + 1)
                } else {
                    self.phase = Phase::Sleep;
                    Action::Sleep(RETRY_INTERVAL_MS)
                }
            },
        }
    }

    /// The pause between passes ended: the next pass begins with a check of
    /// aliveness.
    pub fn slept(&mut self) -> (r: Action)
        requires
            old(self).wf(),
            old(self).phase() == Phase::Sleep,
        ensures
            final(self).wf(),
            final(self).request() == old(self).request(),
            final(self).devices() == old(self).devices(),
            final(self).phase() == next_phase(
                old(self).phase(),
                old(self).devices().ids().len(),
                Report::Slept,
            ),
            final(self).phase() == Phase::Alive,
            r is CheckAlive,
    {
        self.phase = Phase::Alive;
        Action::CheckAlive
    }
}

} // verus!
