//! What a live workspace and a frozen archive have in common.

use vstd::prelude::*;
use crate::meta::{BeadName, ContentId, InputSpec};
use crate::timestamp::Instant;

verus! {

/// A bead, live or frozen, seen through what both forms can tell: its name,
/// its kind, the beads it depends on, the id of its content, when it was
/// frozen, and the box it lies in.
pub trait Bead {
    /// The name of the bead.
    fn name(&self) -> &BeadName;

    /// The kind of the bead.
    fn kind(&self) -> &str;

    /// The specifications of all inputs.
    fn inputs(&self) -> Vec<&InputSpec>;

    /// The id of the content.
    fn content_id(&self) -> ContentId;

    /// When the bead was frozen.
    fn freeze_time(&self) -> Instant;

    /// The name of the box in which the bead lies.
    fn box_name(&self) -> &str;
}

} // verus!
