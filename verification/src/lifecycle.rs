//! Lifecycle hooks.
use vstd::prelude::*;

verus! {

/// Handles the lifecycle event `lifecycle` with `args`. No hook does
/// anything yet, so every event succeeds.
pub fn handle_lifecycle(lifecycle: &str, args: Vec<String>) -> (r: Result<(), String>)
    ensures
        r is Ok,
{
    Ok(())
}

} // verus!
