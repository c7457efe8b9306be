//! The counter addon, "simpcnt".
use vstd::prelude::*;
use crate::addon::{AddonObject, IssueResult, Sign, logged, log_line};
use crate::counter_api::AlphaApi;
use crate::text::{int_decimal, push_decimal, is_numeral, digits_value, lemma_int_decimal_reads_back};

verus! {

/// The addon "simpcnt": a counter that each issue increases by one and that
/// it publishes to the other addons.
pub struct SimpleCounter {
    counter: i32,
}

/// What the counter addon tells the host of itself: it is "simpcnt", version
/// "0.1", and depends on nothing.
pub fn export_addon_object() -> (o: AddonObject)
    ensures
        o.name@ == "simpcnt"@,
        o.version@ == "0.1"@,
        o.dependency@.len() == 0,
{
    AddonObject {
        name: String::from_str("simpcnt"),
        version: String::from_str("0.1"),
        dependency: Vec::new(),
    }
}

/// A fresh counter addon; its counter starts at zero.
pub fn new_addon() -> (a: SimpleCounter)
    ensures
        a.counter_value() == 0,
{
    SimpleCounter { counter: 0 }
}

/// The message of an issue names the counter's new value: after "Counter is "
/// comes its decimal numeral, preceded by a minus sign when it is negative,
/// and reading the numeral back gives the value.
pub proof fn lemma_counter_message_reads_back(v: int)
    ensures
        ("Counter is "@ + int_decimal(v)).take(11) == "Counter is "@,
        v >= 0 ==> is_numeral(("Counter is "@ + int_decimal(v)).skip(11)) && digits_value(
            ("Counter is "@ + int_decimal(v)).skip(11),
        ) == v,
        v < 0 ==> ("Counter is "@ + int_decimal(v))[11] == '-' && is_numeral(
            ("Counter is "@ + int_decimal(v)).skip(12),
        ) && digits_value(("Counter is "@ + int_decimal(v)).skip(12)) == -v,
{
    reveal_strlit("Counter is ");
    let m = "Counter is "@ + int_decimal(v);
    lemma_int_decimal_reads_back(v);
    assert(m.take(11) =~= "Counter is "@);
    assert(m.skip(11) =~= int_decimal(v));
    if v < 0 {
        assert(m.skip(12) =~= int_decimal(v).drop_first());
    }
}

impl AlphaApi for SimpleCounter {
    closed spec fn counter_value(&self) -> i32 {
        self.counter
    }

    fn get_counter(&self) -> (v: i32) {
        self.counter
    }

    fn set_counter(&mut self, v: i32) {
        self.counter = v;
    }
}

impl SimpleCounter {
    /// Called when the host loads the addon: resets the counter to zero and
    /// logs that it was called.
    pub fn on_load(&mut self, log: &mut Vec<String>)
        ensures
            final(self).counter_value() == 0,
            logged(old(log)@, final(log)@, "SimpleCounter on_load() called!"@),
    {
        self.counter = 0;
        log_line(log, "SimpleCounter on_load() called!");
    }

    /// Increases the counter by one and reports its new value:
    /// "Counter is N", with a neutral sign.
    pub fn issue(&mut self) -> (r: IssueResult)
        requires
            old(self).counter_value() < i32::MAX,
        ensures
            final(self).counter_value() == old(self).counter_value() + 1,
            r.state == Sign::NEUTRAL,
            r.msg@ == "Counter is "@ + int_decimal(old(self).counter_value() + 1),
    {
        let c = self.counter;
        self.counter = c + 1;
        let mut msg = String::from_str("Counter is ");
        push_decimal(&mut msg, c + 1);
        IssueResult { state: Sign::NEUTRAL, msg }
    }
}

} // verus!
