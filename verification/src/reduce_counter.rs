//! The reducing addon, "reduce".
use vstd::prelude::*;
use crate::addon::{AddonObject, IssueResult, Sign, logged, log_line};
use crate::counter_api::AlphaApi;
use crate::text::{int_decimal, push_decimal};

verus! {

/// The addon "reduce": each issue lowers the counter of "simpcnt" by ten.
pub struct ReduceCounter<A> {
    alpha_interface: Option<A>,
}

/// What the reducing addon tells the host of itself: it is "reduce", version
/// "0.1", and depends on "simpcnt".
pub fn export_addon_object() -> (o: AddonObject)
    ensures
        o.name@ == "reduce"@,
        o.version@ == "0.1"@,
        o.dependency@.len() == 1,
        o.dependency@[0]@ == "simpcnt"@,
{
    let mut dependency: Vec<String> = Vec::new();
    dependency.push(String::from_str("simpcnt"));
    AddonObject { name: String::from_str("reduce"), version: String::from_str("0.1"), dependency }
}

/// A fresh reducing addon, not yet connected to a counter.
pub fn new_addon<A: AlphaApi>() -> (a: ReduceCounter<A>)
    ensures
        a.interface() is None,
{
    ReduceCounter { alpha_interface: None }
}

/// The line the reducing addon logs when it lowers the counter from `before`.
pub open spec fn reduced_line(before: int) -> Seq<char> {
    "Reduced Counter by 10! ("@ + int_decimal(before) + " -> "@ + int_decimal(before - 10) + ")"@
}

/// One issue of the reducing addon takes `before` to `after`, answers `r` and
/// takes the log from `log_before` to `log_after`: with a counter it lowers it
/// by ten, logs the change and answers with a positive sign; without one it
/// logs that "simpcnt" was not found and answers with a negative sign. The
/// message is empty either way.
pub open spec fn reduce_step<A: AlphaApi>(
    before: ReduceCounter<A>,
    after: ReduceCounter<A>,
    r: IssueResult,
    log_before: Seq<String>,
    log_after: Seq<String>,
) -> bool {
    &&& r.msg@.len() == 0
    &&& match before.interface() {
        Some(a) => {
            &&& r.state == Sign::POSITIVE
            &&& after.interface() matches Some(b) && b.counter_value() == a.counter_value() - 10
            &&& logged(log_before, log_after, reduced_line(a.counter_value() as int))
        },
        None => {
            &&& r.state == Sign::NEGATIVE
            &&& after.interface() is None
            &&& logged(log_before, log_after, "Simpcnt module not found"@)
        },
    }
}

/// When the reducing addon has a counter, an issue leaves it ten lower, and the
/// one line it logs reports the value before the issue and the value the issue
/// leaves: "Reduced Counter by 10! (before -> after)".
pub proof fn lemma_reduce_log_reports_values<A: AlphaApi>(
    before: ReduceCounter<A>,
    after: ReduceCounter<A>,
    r: IssueResult,
    log_before: Seq<String>,
    log_after: Seq<String>,
)
    requires
        reduce_step(before, after, r, log_before, log_after),
        before.interface() is Some,
    ensures
        after.interface() is Some,
        after.interface()->0.counter_value() == before.interface()->0.counter_value() - 10,
        r.state == Sign::POSITIVE,
        r.msg@.len() == 0,
        log_after.len() == log_before.len() + 1,
        log_after.take(log_before.len() as int) == log_before,
        log_after.last()@ == "Reduced Counter by 10! ("@ + int_decimal(
            before.interface()->0.counter_value() as int,
        ) + " -> "@ + int_decimal(after.interface()->0.counter_value() as int) + ")"@,
{
}

/// Issuing the reducing addon `n` times in a row, connected to a counter that
/// holds `c` and that nothing else writes meanwhile, leaves the counter at
/// `c - 10 * n`; every issue answers with a positive sign and an empty
/// message, and the `k`-th logs the change from `c - 10 * k` to
/// `c - 10 * (k + 1)` (counting from zero), after what the log held before.
pub proof fn lemma_repeated_reduce<A: AlphaApi>(
    states: Seq<ReduceCounter<A>>,
    results: Seq<IssueResult>,
    logs: Seq<Seq<String>>,
    n: nat,
)
    requires
        states.len() == n + 1,
        results.len() == n,
        logs.len() == n + 1,
        states[0].interface() is Some,
        forall|k: int|
            0 <= k < n ==> #[trigger] reduce_step(
                states[k],
                states[k + 1],
                results[k],
                logs[k],
                logs[k + 1],
            ),
    ensures
        states[n as int].interface() matches Some(b) && b.counter_value()
            == states[0].interface()->0.counter_value() - 10 * n,
        forall|k: int|
            0 <= k < n ==> #[trigger] results[k].state == Sign::POSITIVE && results[k].msg@.len()
                == 0,
        logs[n as int].len() == logs[0].len() + n,
        logs[n as int].take(logs[0].len() as int) == logs[0],
        forall|k: int|
            0 <= k < n ==> #[trigger] logs[n as int][logs[0].len() + k]@ == reduced_line(
                states[0].interface()->0.counter_value() - 10 * k,
            ),
    decreases n,
{
    let c = states[0].interface()->0.counter_value();
    if n > 0 {
        let m = (n - 1) as nat;
        lemma_repeated_reduce(states.take(n as int), results.take(m as int), logs.take(n as int), m);
        assert(states.take(n as int)[m as int] == states[m as int]);
        assert(logs.take(n as int)[m as int] == logs[m as int]);
        assert(reduce_step(states[m as int], states[m as int + 1], results[m as int], logs[m as int], logs[m as int + 1]));
        let len0 = logs[0].len();
        let prev = logs[m as int];
        let last = logs[n as int];
        assert(last.take(prev.len() as int) == prev);
        assert(prev.take(len0 as int) =~= logs[0]) by {
            assert(logs.take(n as int)[0] == logs[0]);
        }
        assert(last.take(len0 as int) =~= logs[0]) by {
            assert forall|i: int| 0 <= i < len0 implies last[i] == logs[0][i] by {
                assert(last.take(prev.len() as int)[i] == last[i]);
            }
        }
        assert forall|k: int| 0 <= k < n implies #[trigger] results[k].state == Sign::POSITIVE
            && results[k].msg@.len() == 0 by {
            if k < m {
                assert(results.take(m as int)[k] == results[k]);
            }
        }
        assert forall|k: int| 0 <= k < n implies #[trigger] last[len0 + k]@ == reduced_line(
            c - 10 * k,
        ) by {
            if k < m {
                assert(logs.take(n as int)[m as int][len0 + k]@ == reduced_line(c - 10 * k));
                assert(last.take(prev.len() as int)[len0 + k] == last[len0 + k]);
            }
        }
    }
}

impl<A: AlphaApi> ReduceCounter<A> {
    /// The counter this addon is connected to, if any.
    pub closed spec fn interface(&self) -> Option<A> {
        self.alpha_interface
    }

    /// The counter this addon is connected to, if any.
    pub fn counter(&self) -> (r: Option<&A>)
        ensures
            match self.interface() {
                Some(a) => r matches Some(b) && *b == a,
                None => r is None,
            },
    {
        match &self.alpha_interface {
            Some(a) => Some(a),
            None => None,
        }
    }

    /// Called when the host loads the addon, with the interface that "simpcnt"
    /// publishes if the host found it: keeps it and logs that it was called.
    pub fn on_load(&mut self, interface: Option<A>, log: &mut Vec<String>)
        ensures
            final(self).interface() == interface,
            logged(old(log)@, final(log)@, "ReduceCounter on_load() called!"@),
    {
        log_line(log, "ReduceCounter on_load() called!");
        self.alpha_interface = interface;
    }

    /// Lowers the counter by ten and logs the change, with a positive sign;
    /// without a counter it logs that "simpcnt" was not found and answers with
    /// a negative sign. The message is empty either way.
    pub fn issue(&mut self, log: &mut Vec<String>) -> (r: IssueResult)
        requires
            old(self).interface() matches Some(a) ==> a.counter_value() >= i32::MIN + 10,
        ensures
            reduce_step(*old(self), *final(self), r, old(log)@, final(log)@),
            old(self).interface() is Some ==> final(self).interface() is Some && final(log)@.last()@
                == "Reduced Counter by 10! ("@ + int_decimal(
                old(self).interface()->0.counter_value() as int,
            ) + " -> "@ + int_decimal(final(self).interface()->0.counter_value() as int) + ")"@,
    {
        match &mut self.alpha_interface {
            Some(ai) => {
                let before = ai.get_counter();
                ai.set_counter(before - 10);
                let mut line = String::from_str("Reduced Counter by 10! (");
                push_decimal(&mut line, before);
                line.append(" -> ");
                push_decimal(&mut line, before - 10);
                line.append(")");
                log.push(line);
                assert(log@.take(old(log)@.len() as int) =~= old(log)@);
                IssueResult { state: Sign::POSITIVE, msg: String::new() }
            },
            None => {
                log_line(log, "Simpcnt module not found");
                IssueResult { state: Sign::NEGATIVE, msg: String::new() }
            },
        }
    }
}

} // verus!
