//! Colour mapping of one grid cell. The host reduces the real field value to
//! its polarity and a clamped 8-bit intensity; this module fixes the exact
//! RGBA bytes: conductors are green, positive field red, negative field blue,
//! zero field black, all fully opaque.

use vstd::prelude::*;

verus! {

/// The sign of a field sample.
#[derive(Debug, Clone, Copy, PartialEq, Eq, Structural)]
pub enum FieldPolarity {
    Positive,
    Negative,
    Zero,
}

/// The RGBA bytes for one cell.
pub open spec fn color_bytes(
    polarity: FieldPolarity,
    intensity: u8,
    material_positive: bool,
) -> Seq<u8> {
    if material_positive {
        seq![0, 255, 0, 255]
    } else {
        match polarity {
            FieldPolarity::Positive => seq![intensity, 0, 0, 255],
            FieldPolarity::Negative => seq![0, 0, intensity, 255],
            FieldPolarity::Zero => seq![0, 0, 0, 255],
        }
    }
}

/// Maps one cell to RGBA. `polarity` is the sign of the field value and
/// `intensity` its magnitude clamped to one and scaled to 255, both computed
/// by the host; a positive material value marks a conductor and wins over the
/// field.
pub fn map_value_to_color(
    polarity: FieldPolarity,
    intensity: u8,
    material_positive: bool,
) -> (c: [u8; 4])
    ensures
        c@ == color_bytes(polarity, intensity, material_positive),
{
    let c: [u8; 4] = if material_positive {
        [0, 255, 0, 255]
    } else {
        match polarity {
            FieldPolarity::Positive => [intensity, 0, 0, 255],
            FieldPolarity::Negative => [0, 0, intensity, 255],
            FieldPolarity::Zero => [0, 0, 0, 255],
        }
    };
    proof {
        assert(c@ =~= color_bytes(polarity, intensity, material_positive));
    }
    c
}

} // verus!
