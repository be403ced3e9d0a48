use vstd::prelude::*;

verus! {

/// The notifier that writes changes to standard output. The type itself
/// carries no state; the writing is the caller's concern, fed from the
/// delta.
pub struct ConsoleNotifier;

impl ConsoleNotifier {
    pub fn new() -> (r: Self) {
        ConsoleNotifier
    }

    /// The name this notifier reports in logs.
    pub fn name(&self) -> (r: &'static str)
        ensures
            r@ == "console"@,
    {
        "console"
    }
}

impl Default for ConsoleNotifier {
    fn default() -> (r: Self) {
        ConsoleNotifier::new()
    }
}

} // verus!
