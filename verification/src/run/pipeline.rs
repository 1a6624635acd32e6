//! Frame preparation for the viewer.
use vstd::prelude::*;

verus! {

/// How the viewer should render a frame.
#[derive(Clone, Copy, Debug, PartialEq, Eq)]
pub enum RenderMode {
    /// Discrete points (particles).
    Points,
    /// Soft volumetric blobs with additive blending (fields).
    Volumetric,
}

/// Volumetric rendering when the snapshot holds any field, points when it
/// holds particles only.
pub fn render_mode_for(has_fields: bool) -> (r: RenderMode)
    ensures
        r == (if has_fields {
            RenderMode::Volumetric
        } else {
            RenderMode::Points
        }),
{
    if has_fields {
        RenderMode::Volumetric
    } else {
        RenderMode::Points
    }
}

/// Whether a consumer's messages may be dropped when its channel is full
/// (the viewer) or must block until it catches up (the disk writer); the
/// closing message is always sent blocking.
pub fn send_may_drop(droppable: bool, is_done: bool) -> (r: bool)
    ensures
        r == (droppable && !is_done),
{
    droppable && !is_done
}

} // verus!
