//! Fixed paths inside a container.

use vstd::prelude::*;

verus! {

pub const META_DIR: &'static str = "meta";

pub const CODE_DIR: &'static str = "code";

pub const DATA_DIR: &'static str = "data";

pub const BEAD_META: &'static str = "meta/bead";

pub const MANIFEST: &'static str = "meta/manifest";

pub const INPUT_MAP: &'static str = "meta/input.map";

} // verus!
