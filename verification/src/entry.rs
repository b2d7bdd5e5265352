//! The data carried through recovery: discovered candidate entries and the
//! process-wide duplicate-resolution policy.

use vstd::prelude::*;

verus! {

/// How ambiguous slots are resolved when both a header-backed candidate and
/// untracked candidates exist. Fixed for the duration of one run.
#[derive(Clone, Copy, PartialEq, Eq, Structural, Debug)]
pub enum DuplicateBehaviour {
    /// Keep the entry the header table already records.
    TakeCurrent,
    /// Adopt a candidate the header does not record, choosing one when
    /// several exist.
    TakeUntracked,
}

/// A payload found by scanning: where it sits, how many sectors it spans,
/// and whether the header table currently records exactly this location.
#[derive(Clone, Copy, PartialEq, Eq, Structural, Debug)]
pub struct RegionEntry {
    /// True iff the header slot's packed entry equals
    /// `(offset_sectors, size_sectors)`.
    pub is_current: bool,
    /// First sector of the payload.
    pub offset_sectors: u32,
    /// Whole sectors the payload occupies, rounded up.
    pub size_sectors: u8,
}

} // verus!
