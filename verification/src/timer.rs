//! The timer addon, "timer", and the step of its background task.
use vstd::prelude::*;
use crate::addon::{AddonObject, IssueResult, Sign, logged, log_line};
use crate::counter_api::AlphaApi;

verus! {

/// The addon "timer": each issue switches on or off a background task that
/// raises the counter of "simpcnt" by one every three seconds.
pub struct TimerAddon<A> {
    alpha_interface: Option<A>,
    running: bool,
}

/// What the host must do for the timer after an issue.
pub enum TimerAction<A> {
    /// Start the background task, handing it the counter.
    Start(A),
    /// Signal the background task to stop, wait for it, and hand the counter
    /// it gives back to `TimerAddon::reattach`.
    Stop,
    /// Nothing.
    Idle,
}

/// What the timer addon tells the host of itself: it is "timer", version
/// "0.1", and depends on "simpcnt".
pub fn export_addon_object() -> (o: AddonObject)
    ensures
        o.name@ == "timer"@,
        o.version@ == "0.1"@,
        o.dependency@.len() == 1,
        o.dependency@[0]@ == "simpcnt"@,
{
    let mut dependency: Vec<String> = Vec::new();
    dependency.push(String::from_str("simpcnt"));
    AddonObject { name: String::from_str("timer"), version: String::from_str("0.1"), dependency }
}

/// A fresh timer addon: not connected to a counter, background task stopped.
pub fn new_addon<A: AlphaApi>() -> (a: TimerAddon<A>)
    ensures
        a.interface() is None,
        !a.is_running(),
{
    TimerAddon { alpha_interface: None, running: false }
}

/// One issue of the timer takes `before` to `after`, answers `r` and takes the
/// log from `log_before` to `log_after`: a running task is stopped ("Turned OFF
/// timer", negative sign); otherwise, with a counter, a task is started with it
/// ("Turned ON timer", positive sign); without one the addon logs that
/// "simpcnt" was not found and answers with a neutral sign and an empty
/// message.
pub open spec fn issue_step<A: AlphaApi>(
    before: TimerAddon<A>,
    after: TimerAddon<A>,
    r: (IssueResult, TimerAction<A>),
    log_before: Seq<String>,
    log_after: Seq<String>,
) -> bool {
    if before.is_running() {
        &&& r.0.state == Sign::NEGATIVE
        &&& r.0.msg@ == "Turned OFF timer"@
        &&& r.1 is Stop
        &&& !after.is_running()
        &&& after.interface() == before.interface()
        &&& log_after == log_before
    } else {
        match before.interface() {
            Some(a) => {
                &&& r.0.state == Sign::POSITIVE
                &&& r.0.msg@ == "Turned ON timer"@
                &&& r.1 == TimerAction::Start(a)
                &&& after.is_running()
                &&& after.interface() is None
                &&& log_after == log_before
            },
            None => {
                &&& r.0.state == Sign::NEUTRAL
                &&& r.0.msg@.len() == 0
                &&& r.1 is Idle
                &&& !after.is_running()
                &&& after.interface() is None
                &&& logged(log_before, log_after, "Simpcnt module not found"@)
            },
        }
    }
}

/// Who holds the counter is consistent: the background task holds one exactly
/// while it runs, and then the addon holds none.
pub open spec fn one_holder<A: AlphaApi>(t: TimerAddon<A>, task: Option<A>) -> bool {
    &&& t.is_running() == (task is Some)
    &&& task is Some ==> t.interface() is None
}

/// The counter, held by the background task or by the addon, if any.
pub open spec fn holder<A: AlphaApi>(t: TimerAddon<A>, task: Option<A>) -> Option<A> {
    if task is Some {
        task
    } else {
        t.interface()
    }
}

/// One round as the host plays it, from the addon `t0` and the counter `task0`
/// held by the background task: the issue takes the addon to `mid`; a started
/// task takes the counter handed out; a stopped task gives its counter back,
/// which `reattach` puts into the addon; the round ends with the addon `t1`
/// and the task's counter `task1`.
pub open spec fn host_round<A: AlphaApi>(
    t0: TimerAddon<A>,
    task0: Option<A>,
    mid: TimerAddon<A>,
    t1: TimerAddon<A>,
    task1: Option<A>,
    r: (IssueResult, TimerAction<A>),
    log_before: Seq<String>,
    log_after: Seq<String>,
) -> bool {
    &&& issue_step(t0, mid, r, log_before, log_after)
    &&& match r.1 {
        TimerAction::Start(a) => t1 == mid && task1 == Some(a),
        TimerAction::Stop => {
            &&& task1 is None
            &&& t1.interface() == task0
            &&& t1.is_running() == mid.is_running()
        },
        TimerAction::Idle => t1 == mid && task1 == task0,
    }
}

/// The facts that hold after `j` rounds from a stopped timer.
pub open spec fn rounds_facts<A: AlphaApi>(
    ts: Seq<TimerAddon<A>>,
    tasks: Seq<Option<A>>,
    rs: Seq<(IssueResult, TimerAction<A>)>,
    logs: Seq<Seq<String>>,
    j: int,
) -> bool {
    let h0 = holder(ts[0], tasks[0]);
    &&& forall|k: int|
        0 <= k <= j ==> one_holder(#[trigger] ts[k], tasks[k]) && holder(ts[k], tasks[k]) == h0
    &&& h0 is Some ==> forall|k: int|
        0 <= k <= j ==> #[trigger] ts[k].is_running() == (k % 2 == 1) && logs[k] == logs[0]
    &&& h0 is Some ==> forall|k: int|
        0 <= k < j ==> if k % 2 == 0 {
            &&& (#[trigger] rs[k]).0.state == Sign::POSITIVE
            &&& rs[k].0.msg@ == "Turned ON timer"@
            &&& rs[k].1 == TimerAction::Start(h0->0)
        } else {
            &&& rs[k].0.state == Sign::NEGATIVE
            &&& rs[k].0.msg@ == "Turned OFF timer"@
            &&& rs[k].1 is Stop
        }
    &&& h0 is None ==> forall|k: int|
        0 <= k <= j ==> !(#[trigger] ts[k]).is_running() && ts[k].interface() is None
            && tasks[k] is None
    &&& h0 is None ==> forall|k: int|
        0 <= k < j ==> {
            &&& (#[trigger] rs[k]).0.state == Sign::NEUTRAL
            &&& rs[k].0.msg@.len() == 0
            &&& rs[k].1 is Idle
            &&& logged(logs[k], logs[k + 1], "Simpcnt module not found"@)
        }
}

/// The rounds from a stopped timer whose task holds nothing.
pub open spec fn rounds<A: AlphaApi>(
    ts: Seq<TimerAddon<A>>,
    tasks: Seq<Option<A>>,
    mids: Seq<TimerAddon<A>>,
    rs: Seq<(IssueResult, TimerAction<A>)>,
    logs: Seq<Seq<String>>,
    n: nat,
) -> bool {
    &&& ts.len() == n + 1
    &&& tasks.len() == n + 1
    &&& mids.len() == n
    &&& rs.len() == n
    &&& logs.len() == n + 1
    &&& !ts[0].is_running()
    &&& tasks[0] is None
    &&& forall|k: int|
        0 <= k < n ==> #[trigger] host_round(
            ts[k],
            tasks[k],
            mids[k],
            ts[k + 1],
            tasks[k + 1],
            rs[k],
            logs[k],
            logs[k + 1],
        )
}

proof fn lemma_rounds_prefix<A: AlphaApi>(
    ts: Seq<TimerAddon<A>>,
    tasks: Seq<Option<A>>,
    mids: Seq<TimerAddon<A>>,
    rs: Seq<(IssueResult, TimerAction<A>)>,
    logs: Seq<Seq<String>>,
    n: nat,
    j: int,
)
    requires
        rounds(ts, tasks, mids, rs, logs, n),
        0 <= j <= n,
    ensures
        rounds_facts(ts, tasks, rs, logs, j),
    decreases j,
{
    if j > 0 {
        let m = j - 1;
        lemma_rounds_prefix(ts, tasks, mids, rs, logs, n, m);
        assert(host_round(ts[m], tasks[m], mids[m], ts[m + 1], tasks[m + 1], rs[m], logs[m], logs[m + 1]));
        assert(one_holder(ts[m], tasks[m]));
        let h0 = holder(ts[0], tasks[0]);
        if h0 is Some {
            assert(ts[m].is_running() == (m % 2 == 1));
        } else {
            assert(!ts[m].is_running());
        }
    }
}

/// However many rounds the host plays from a stopped timer (issuing it, and
/// handing back the counter after each stop), at most one party holds the
/// counter: while the background task runs the addon holds none, and the
/// counter held is always the one the addon started with; nothing drops or
/// replaces it.
pub proof fn lemma_one_holder<A: AlphaApi>(
    ts: Seq<TimerAddon<A>>,
    tasks: Seq<Option<A>>,
    mids: Seq<TimerAddon<A>>,
    rs: Seq<(IssueResult, TimerAction<A>)>,
    logs: Seq<Seq<String>>,
    n: nat,
)
    requires
        rounds(ts, tasks, mids, rs, logs, n),
    ensures
        forall|k: int|
            0 <= k <= n ==> one_holder(#[trigger] ts[k], tasks[k]) && holder(ts[k], tasks[k])
                == ts[0].interface(),
{
    lemma_rounds_prefix(ts, tasks, mids, rs, logs, n, n as int);
}

/// From a stopped timer that holds a counter, the issues switch the timer on
/// and off in turn: the first, third, ... answer "Turned ON timer" with a
/// positive sign and hand the counter to the task; the second, fourth, ...
/// answer "Turned OFF timer" with a negative sign; none answers neutrally and
/// none logs anything.
pub proof fn lemma_issues_alternate<A: AlphaApi>(
    ts: Seq<TimerAddon<A>>,
    tasks: Seq<Option<A>>,
    mids: Seq<TimerAddon<A>>,
    rs: Seq<(IssueResult, TimerAction<A>)>,
    logs: Seq<Seq<String>>,
    n: nat,
)
    requires
        rounds(ts, tasks, mids, rs, logs, n),
        ts[0].interface() is Some,
    ensures
        forall|k: int|
            0 <= k < n ==> if k % 2 == 0 {
                &&& (#[trigger] rs[k]).0.state == Sign::POSITIVE
                &&& rs[k].0.msg@ == "Turned ON timer"@
                &&& rs[k].1 == TimerAction::Start(ts[0].interface()->0)
            } else {
                &&& rs[k].0.state == Sign::NEGATIVE
                &&& rs[k].0.msg@ == "Turned OFF timer"@
                &&& rs[k].1 is Stop
            },
        forall|k: int| 0 <= k <= n ==> #[trigger] ts[k].is_running() == (k % 2 == 1),
        logs[n as int] == logs[0],
{
    lemma_rounds_prefix(ts, tasks, mids, rs, logs, n, n as int);
    assert(ts[n as int].is_running() == (n % 2 == 1));
}

/// From a stopped timer without a counter, every issue answers with a neutral
/// sign and an empty message, starts no task, logs "Simpcnt module not found"
/// once, and leaves the timer stopped and without a counter.
pub proof fn lemma_without_counter_idle<A: AlphaApi>(
    ts: Seq<TimerAddon<A>>,
    tasks: Seq<Option<A>>,
    mids: Seq<TimerAddon<A>>,
    rs: Seq<(IssueResult, TimerAction<A>)>,
    logs: Seq<Seq<String>>,
    n: nat,
)
    requires
        rounds(ts, tasks, mids, rs, logs, n),
        ts[0].interface() is None,
    ensures
        forall|k: int|
            0 <= k < n ==> {
                &&& (#[trigger] rs[k]).0.state == Sign::NEUTRAL
                &&& rs[k].0.msg@.len() == 0
                &&& rs[k].1 is Idle
                &&& logged(logs[k], logs[k + 1], "Simpcnt module not found"@)
            },
        forall|k: int|
            0 <= k <= n ==> !(#[trigger] ts[k]).is_running() && ts[k].interface() is None
                && tasks[k] is None,
{
    lemma_rounds_prefix(ts, tasks, mids, rs, logs, n, n as int);
}

impl<A: AlphaApi> TimerAddon<A> {
    /// The counter the addon holds while its background task is stopped.
    pub closed spec fn interface(&self) -> Option<A> {
        self.alpha_interface
    }

    /// Whether the background task runs.
    pub closed spec fn is_running(&self) -> bool {
        self.running
    }

    /// Whether the background task runs.
    pub fn running(&self) -> (b: bool)
        ensures
            b == self.is_running(),
    {
        self.running
    }

    /// Whether the addon holds the counter.
    pub fn holds_counter(&self) -> (b: bool)
        ensures
            b == (self.interface() is Some),
    {
        self.alpha_interface.is_some()
    }

    /// Called when the host loads the addon, with the interface that "simpcnt"
    /// publishes if the host found it: keeps it and logs that it was called.
    pub fn on_load(&mut self, interface: Option<A>, log: &mut Vec<String>)
        ensures
            final(self).interface() == interface,
            final(self).is_running() == old(self).is_running(),
            logged(old(log)@, final(log)@, "TimerAddon on_load() called!"@),
    {
        log_line(log, "TimerAddon on_load() called!");
        self.alpha_interface = interface;
    }

    /// Switches the timer: a running task is stopped ("Turned OFF timer",
    /// negative sign); otherwise, with a counter, a task is started with it
    /// ("Turned ON timer", positive sign); without one the addon logs that
    /// "simpcnt" was not found and answers with a neutral sign and an empty
    /// message.
    pub fn issue(&mut self, log: &mut Vec<String>) -> (r: (IssueResult, TimerAction<A>))
        ensures
            issue_step(*old(self), *final(self), r, old(log)@, final(log)@),
    {
        if self.running {
            self.running = false;
            (
                IssueResult { state: Sign::NEGATIVE, msg: String::from_str("Turned OFF timer") },
                TimerAction::Stop,
            )
        } else {
            let mut taken: Option<A> = None;
            std::mem::swap(&mut taken, &mut self.alpha_interface);
            match taken {
                Some(a) => {
                    self.running = true;
                    (
                        IssueResult {
                            state: Sign::POSITIVE,
                            msg: String::from_str("Turned ON timer"),
                        },
                        TimerAction::Start(a),
                    )
                },
                None => {
                    log_line(log, "Simpcnt module not found");
                    (IssueResult { state: Sign::NEUTRAL, msg: String::new() }, TimerAction::Idle)
                },
            }
        }
    }

    /// Takes back the counter that the stopped background task returns.
    pub fn reattach(&mut self, interface: A)
        requires
            !old(self).is_running(),
            old(self).interface() is None,
        ensures
            final(self).interface() == Some(interface),
            final(self).is_running() == old(self).is_running(),
    {
        self.alpha_interface = Some(interface);
    }
}

/// One wake-up of the background task: when the stop signal came it ends
/// (returns false) and leaves the counter alone; otherwise (the wait of three
/// seconds ran out) it raises the counter by one, logs "Increased counter!"
/// and goes on (returns true).
pub fn tick<A: AlphaApi>(stop_signalled: bool, counter: &mut A, log: &mut Vec<String>) -> (go_on: bool)
    requires
        !stop_signalled ==> old(counter).counter_value() < i32::MAX,
    ensures
        go_on == !stop_signalled,
        stop_signalled ==> final(counter).counter_value() == old(counter).counter_value()
            && final(log)@ == old(log)@,
        !stop_signalled ==> final(counter).counter_value() == old(counter).counter_value() + 1
            && logged(old(log)@, final(log)@, "Increased counter!"@),
{
    if stop_signalled {
        return false;
    }
    let before = counter.get_counter();
    counter.set_counter(before + 1);
    log_line(log, "Increased counter!");
    true
}

} // verus!
