//! The adjustment cards whose controls can be reset together.
use vstd::prelude::*;

verus! {

/// A card of related adjustments.
#[derive(Clone, Copy, Debug, PartialEq, Eq, Structural)]
pub enum AdjustmentGroup {
    Light,
    ToneCurve,
    Color,
    ColorGrading,
    Detail,
    Effects,
    ColorMixer,
}

} // verus!
