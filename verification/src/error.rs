use vstd::prelude::*;

verus! {

/// Everything that can go wrong while locating a window, preparing it for
/// input, delivering messages, or driving a navigation to its end.
///
/// The locator and the dispatch planner hand these to their caller unchanged;
/// only the navigator converts a `WindowNotFound` into a bounded
/// launch-and-retry cycle, ending in `TargetUnreachable` when the budget is
/// spent.
#[derive(Clone, Copy, Debug, PartialEq, Eq, Structural)]
pub enum Error {
    /// An operating-system call failed for a reason of its own; carries the
    /// raw OS error code as reported by the call.
    WindowsError(i32),
    /// No window (or child window) matched the query.
    WindowNotFound,
    /// The OS refused to show the window.
    ShowWindowFailed,
    /// The OS refused to bring the window to the foreground.
    SetForegroundWindowFailed,
    /// The OS refused to give the window keyboard focus.
    SetFocusFailed,
    /// Metadata resolution failed for an otherwise valid handle.
    GetWindowInfoFailed,
    /// The enumeration primitive itself could not be started.
    EnumWindowsFailed,
    /// The target process did not become ready for input within its budget.
    WaitTimedOut,
    /// The delivery primitive reported failure.
    MessageSendFailed,
    /// The navigator exhausted its launch-retry budget.
    TargetUnreachable,
}

} // verus!
