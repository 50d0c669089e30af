//! Terminal-graphics capability state for the sparkline renderer.  The
//! pixel encoding itself draws with colours and floating-point scaling
//! and lives outside the library.

use vstd::prelude::*;

verus! {

/// Whether enhanced terminal graphics may be used for sparklines.
#[derive(Debug, Clone, Copy, PartialEq, Eq, Structural)]
pub struct SixelRenderer {
    pub enabled: bool,
}

impl SixelRenderer {
    /// A renderer that uses enhanced graphics only when forced or when
    /// the terminal is known to support them.
    pub fn new(force_enable: bool) -> (r: SixelRenderer)
        ensures
            r.enabled == (force_enable || Self::detect_sixel_support_spec()),
    {
        let enabled = force_enable || Self::detect_sixel_support();
        SixelRenderer { enabled }
    }

    /// Whether terminal support for enhanced graphics is assumed.
    /// Auto-detection is switched off for now, so the block-character
    /// fallback is always drawn unless support is forced.
    pub open spec fn detect_sixel_support_spec() -> bool {
        false
    }

    /// Detect terminal support for enhanced graphics; currently always
    /// reports none, forcing the block-character fallback.
    pub fn detect_sixel_support() -> (r: bool)
        ensures
            r == Self::detect_sixel_support_spec(),
    {
        false
    }
}

} // verus!
