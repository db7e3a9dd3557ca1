//! Heads-up display overlays placed by scripts.

use crate::dynter::str_equal;
use vstd::prelude::*;

verus! {

/// Where a script-placed overlay is anchored on the screen
#[derive(Clone, Copy, Debug, PartialEq, Eq, Structural)]
pub enum HudOverlayAlignment {
    TopLeft,
    Centered,
    StatusArea,
}

/// The alignment a script names; Centered when it names none, None for an unknown name
pub open spec fn spec_alignment(name: Option<Seq<char>>) -> Option<HudOverlayAlignment> {
    match name {
        None => Some(HudOverlayAlignment::Centered),
        Some(n) => if n == "topleft"@ {
            Some(HudOverlayAlignment::TopLeft)
        } else if n == "center"@ {
            Some(HudOverlayAlignment::Centered)
        } else if n == "status"@ {
            Some(HudOverlayAlignment::StatusArea)
        } else {
            None
        },
    }
}

impl HudOverlayAlignment {
    /// The alignment a script names ("topleft", "center" or "status");
    /// Centered when it names none, None for an unknown name
    pub fn from_name(name: Option<&str>) -> (r: Option<Self>)
        ensures
            r == spec_alignment(
                match name {
                    Some(n) => Some(n@),
                    None => None,
                },
            ),
    {
        match name {
            None => Some(HudOverlayAlignment::Centered),
            Some(n) => if str_equal(n, "topleft") {
                Some(HudOverlayAlignment::TopLeft)
            } else if str_equal(n, "center") {
                Some(HudOverlayAlignment::Centered)
            } else if str_equal(n, "status") {
                Some(HudOverlayAlignment::StatusArea)
            } else {
                None
            },
        }
    }
}

} // verus!
