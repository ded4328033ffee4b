//! The dwindle layout variant: a placeholder that records whether the
//! variant is switched on.

use vstd::prelude::*;

verus! {

/// The dwindle layout variant.
#[derive(Clone, Copy, Debug)]
pub struct DwindleLayout {
    in_use: bool,
}

impl DwindleLayout {
    /// Whether the variant is switched on.
    pub closed spec fn spec_active(self) -> bool {
        self.in_use
    }

    /// Create the variant, switched on or off.
    pub fn new(activate: bool) -> (r: Self)
        ensures
            r.spec_active() == activate,
    {
        DwindleLayout { in_use: activate }
    }
}

} // verus!
