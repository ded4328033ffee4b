//! Tiled-or-floating classification, decided once when a window is added:
//! a window that declares a fixed size or a parent relationship floats,
//! every other window is tiled.

use vstd::prelude::*;

use crate::workspace::WindowElement;

verus! {

/// How a window participates in layout.
#[derive(Clone, Copy, Debug, PartialEq, Eq, Structural)]
pub enum WindowClass {
    Tiled,
    Floating,
}

/// The class `decide` answers: floating for a declared fixed size (a
/// non-zero minimum equal to the maximum on width or on height) or a
/// declared parent relationship, tiled otherwise.
pub open spec fn spec_decide(window: WindowElement) -> WindowClass {
    let info = window.spec_info();
    if (info.min_size.w == info.max_size.w && info.min_size.w != 0) || (info.min_size.h
        == info.max_size.h && info.min_size.h != 0) || info.has_parent {
        WindowClass::Floating
    } else {
        WindowClass::Tiled
    }
}

/// Decide whether a window is tiled or floating, from its size-constraint
/// and parent-relationship hints. Evaluated once, at insertion time; a
/// later change of the hints does not reclassify the window.
pub fn decide(window: &WindowElement) -> (c: WindowClass)
    ensures
        c == spec_decide(*window),
{
    let info = window.info();
    if (info.min_size.w == info.max_size.w && info.min_size.w != 0) || (info.min_size.h
        == info.max_size.h && info.min_size.h != 0) || info.has_parent {
        WindowClass::Floating
    } else {
        WindowClass::Tiled
    }
}

} // verus!
