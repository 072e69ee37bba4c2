use vstd::prelude::*;

verus! {

/// The style bit the OS sets on a maximized window.
pub const WS_MAXIMIZE: u32 = 0x0100_0000;

/// The raw style bit masks the OS reports for a window: the standard style
/// word and the extended style word.
#[derive(Clone, Copy, Debug, PartialEq, Eq, Structural)]
pub struct WindowStyle {
    pub style: u32,
    pub extend_style: u32,
}

impl WindowStyle {
    /// Whether the maximize bit is set in the standard style word.
    pub fn is_maximized(&self) -> (r: bool)
        ensures
            r == (self.style & WS_MAXIMIZE == WS_MAXIMIZE),
    {
        (self.style & WS_MAXIMIZE) == WS_MAXIMIZE
    }
}

impl Default for WindowStyle {
    /// A defaulted style has no bits set.
    fn default() -> (r: Self)
        ensures
            r.style == 0 && r.extend_style == 0,
    {
        WindowStyle { style: 0, extend_style: 0 }
    }
}

} // verus!
