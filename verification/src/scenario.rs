//! Which search a command line asks for.

use vstd::prelude::*;
use vstd::string::StrSliceExecFns;

verus! {

/// The three searches.
#[derive(Clone, Copy, Debug, PartialEq, Eq, Structural)]
pub enum Scenario {
    /// Selector `a`: the collision search.
    Collision,
    /// Selector `b`: the second-preimage search.
    SecondPreimage,
    /// Selector `c`: the partial-preimage search.
    PartialPreimage,
}

/// What to do with a command line.
#[derive(Clone, Copy, Debug, PartialEq, Eq, Structural)]
pub enum Selection {
    /// No selector was given: print the usage text and search nothing.
    Usage,
    /// The selector is none of `a`, `b`, `c`: say so and search nothing.
    Invalid,
    /// Run the search named by the selector.
    Run(Scenario),
}

/// The selection that a selector stands for: the single letters `a`, `b`
/// and `c` name the searches, and nothing else does.
pub open spec fn selection_of(selector: Seq<char>) -> Selection {
    if selector.len() != 1 {
        Selection::Invalid
    } else if selector[0] == 'a' {
        Selection::Run(Scenario::Collision)
    } else if selector[0] == 'b' {
        Selection::Run(Scenario::SecondPreimage)
    } else if selector[0] == 'c' {
        Selection::Run(Scenario::PartialPreimage)
    } else {
        Selection::Invalid
    }
}

/// The selection that a command line stands for. The selector is its second
/// word, after the program's name; what follows the selector is ignored.
pub open spec fn selection_for(args: Seq<String>) -> Selection {
    if args.len() < 2 {
        Selection::Usage
    } else {
        selection_of(args[1]@)
    }
}

/// Reads a selector.
pub fn parse_selector(selector: &str) -> (selection: Selection)
    ensures
        selection == selection_of(selector@),
{
    if selector.unicode_len() != 1 {
        return Selection::Invalid;
    }
    let letter = selector.get_char(0);
    if letter == 'a' {
        Selection::Run(Scenario::Collision)
    } else if letter == 'b' {
        Selection::Run(Scenario::SecondPreimage)
    } else if letter == 'c' {
        Selection::Run(Scenario::PartialPreimage)
    } else {
        Selection::Invalid
    }
}

/// Reads a command line, the program's name first.
pub fn select(args: &Vec<String>) -> (selection: Selection)
    ensures
        selection == selection_for(args@),
{
    if args.len() < 2 {
        return Selection::Usage;
    }
    parse_selector(args[1].as_str())
}

} // verus!
