//! The records that pass between the host and its addons.
use vstd::prelude::*;

verus! {

/// How an addon judges the outcome of being issued.
#[allow(non_camel_case_types)]
#[derive(Debug, Clone, Copy, PartialEq, Eq, Structural)]
pub enum Sign {
    POSITIVE,
    NEUTRAL,
    NEGATIVE,
}

/// What an addon answers when it is issued: a sign and a message.
pub struct IssueResult {
    pub state: Sign,
    pub msg: String,
}

/// The marker that names the interface addons hand to each other.
#[derive(Debug, Clone, Copy, PartialEq, Eq, Structural)]
pub struct AddonInterface;

/// What the host learns of an addon before it loads it: its name, its version
/// and the names of the addons it depends on.
pub struct AddonObject {
    pub name: String,
    pub version: String,
    pub dependency: Vec<String>,
}

/// `after` is the log `before` with one more line, `line`.
pub open spec fn logged(before: Seq<String>, after: Seq<String>, line: Seq<char>) -> bool {
    &&& after.len() == before.len() + 1
    &&& after.take(before.len() as int) == before
    &&& after.last()@ == line
}

/// Appends the line `line` to the log `log`.
pub(crate) fn log_line(log: &mut Vec<String>, line: &str)
    ensures
        logged(old(log)@, final(log)@, line@),
{
    log.push(String::from_str(line));
    assert(log@.take(old(log)@.len() as int) =~= old(log)@);
}

} // verus!
