//! Project-level settings shared by timeline, renderer and exporter.

use vstd::prelude::*;

verus! {

/// Output aspect ratio of a project.
#[derive(Copy, Clone, Debug, Default, PartialEq, Eq, Hash, Structural)]
pub enum Aspect {
    #[default]
    Landscape16x9,
    Portrait9x16,
}

impl Aspect {
    /// Width and height of the ratio (`16:9` or `9:16`).
    pub fn ratio_parts(self) -> (r: (u32, u32))
        ensures
            r == (match self {
                Aspect::Landscape16x9 => (16u32, 9u32),
                Aspect::Portrait9x16 => (9u32, 16u32),
            }),
    {
        match self {
            Aspect::Landscape16x9 => (16, 9),
            Aspect::Portrait9x16 => (9, 16),
        }
    }

    pub fn is_portrait(self) -> (b: bool)
        ensures
            b == (self == Aspect::Portrait9x16),
    {
        match self {
            Aspect::Portrait9x16 => true,
            Aspect::Landscape16x9 => false,
        }
    }
}

/// Output resolution class as shown to the user.
#[derive(Copy, Clone, Debug, Default, PartialEq, Eq, Hash, Structural)]
pub enum Resolution {
    /// 1920×1080 (or 1080×1920 in portrait).
    #[default]
    FullHd,
    /// 3840×2160 (or 2160×3840 in portrait).
    Uhd4k,
}

/// Long and short side of a resolution class.
pub open spec fn sides(r: Resolution) -> (u32, u32) {
    match r {
        Resolution::FullHd => (1920u32, 1080u32),
        Resolution::Uhd4k => (3840u32, 2160u32),
    }
}

/// Pixel size `(width, height)` of a resolution class in an aspect.
pub open spec fn spec_dimensions(r: Resolution, aspect: Aspect) -> (u32, u32) {
    let (long, short) = sides(r);
    match aspect {
        Aspect::Landscape16x9 => (long, short),
        Aspect::Portrait9x16 => (short, long),
    }
}

impl Resolution {
    /// Pixel dimensions `(width, height)` for the given aspect.
    pub fn dimensions(self, aspect: Aspect) -> (d: (u32, u32))
        ensures
            d == spec_dimensions(self, aspect),
    {
        let (long, short): (u32, u32) = match self {
            Resolution::FullHd => (1920, 1080),
            Resolution::Uhd4k => (3840, 2160),
        };
        match aspect {
            Aspect::Landscape16x9 => (long, short),
            Aspect::Portrait9x16 => (short, long),
        }
    }
}

/// Every resolution in every aspect has even sides whose ratio is exactly
/// the aspect's ratio.
pub proof fn dimensions_are_even_and_match_ratio(r: Resolution, aspect: Aspect)
    ensures
        spec_dimensions(r, aspect).0 % 2 == 0,
        spec_dimensions(r, aspect).1 % 2 == 0,
        (match aspect {
            Aspect::Landscape16x9 => spec_dimensions(r, aspect).0 * 9 == spec_dimensions(r, aspect).1 * 16,
            Aspect::Portrait9x16 => spec_dimensions(r, aspect).0 * 16 == spec_dimensions(r, aspect).1 * 9,
        }),
{
}

} // verus!
