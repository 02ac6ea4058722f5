use vstd::prelude::*;

verus! {

/// The fatal conditions of a dump: any of them aborts the whole pipeline.
#[derive(Debug, PartialEq, Eq)]
pub enum DumpError {
    /// The header is absent or malformed: no `$enddefinitions` was reached.
    Header,
    /// A record after the header could not be parsed.
    Body,
    /// An item at the root of the header is a variable rather than a scope.
    RootNotScope,
    /// A timestamp went back in time.
    TimeOrder { previous: u64, found: u64 },
    /// A change event names a signal that no declaration gives a name to.
    Undeclared(String),
}

} // verus!
