//! Fixed paths inside a workspace directory.

use vstd::prelude::*;

verus! {

pub const INPUT: &'static str = "input";

pub const OUTPUT: &'static str = "output";

pub const TEMP: &'static str = "temp";

pub const META_DIR: &'static str = ".bead-meta";

pub const BEAD_META: &'static str = ".bead-meta/bead";

pub const INPUT_MAP: &'static str = ".bead-meta/input.map";

} // verus!
