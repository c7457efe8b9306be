//! The commands typed at the host's prompt.
use vstd::prelude::*;
use crate::resolve::{AddonRegistry, in_range, is_loaded_name};
use crate::text::{trim, trimmed};

verus! {

/// What the host does with a line typed at its prompt.
pub enum Command {
    /// The line is blank: leave the prompt.
    Quit,
    /// Issue the loaded addon at this position of the registry.
    Launch(usize),
    /// No loaded addon carries the name typed (given without its surrounding
    /// white space).
    Missing(String),
}

/// Reads a line typed at the prompt: blank lines quit; otherwise the line,
/// without surrounding white space, names the loaded addon to issue.
pub fn parse_command(line: &str, registry: &AddonRegistry, loaded: &Vec<usize>) -> (c: Command)
    requires
        in_range(registry@, loaded@),
    ensures
        (c is Quit) == (trimmed(line@).len() == 0),
        c matches Command::Launch(i) ==> loaded@.contains(i) && registry@[i as int].name@ == trimmed(
            line@,
        ),
        c matches Command::Missing(s) ==> s@ == trimmed(line@) && !is_loaded_name(
            registry@,
            loaded@,
            s@,
        ),
{
    let input = trim(line);
    if input.unicode_len() == 0 {
        return Command::Quit;
    }
    let name = String::from_str(input);
    match registry.find_loaded(loaded, &name) {
        Some(i) => Command::Launch(i),
        None => Command::Missing(name),
    }
}

} // verus!
