use vstd::prelude::*;

verus! {

/// The color a record row is drawn in, chosen from the signal strength
/// alone. Out-of-range strengths fall through to `Black`; they are not an
/// error.
#[derive(Clone, Copy, Debug, PartialEq, Eq, Structural)]
pub enum SignalColor {
    DarkRed,
    Orange,
    Yellow,
    Green,
    Black,
}

/// The four signal buckets, with inclusive boundaries.
pub open spec fn spec_signal_color(strength: int) -> SignalColor {
    if 0 <= strength && strength <= 20 {
        SignalColor::DarkRed
    } else if 21 <= strength && strength <= 50 {
        SignalColor::Orange
    } else if 51 <= strength && strength <= 80 {
        SignalColor::Yellow
    } else if 81 <= strength && strength <= 100 {
        SignalColor::Green
    } else {
        SignalColor::Black
    }
}

/// Bucket a signal strength percentage into its display color.
pub fn signal_color(strength: i32) -> (c: SignalColor)
    ensures
        c == spec_signal_color(strength as int),
{
    if 0 <= strength && strength <= 20 {
        SignalColor::DarkRed
    } else if 21 <= strength && strength <= 50 {
        SignalColor::Orange
    } else if 51 <= strength && strength <= 80 {
        SignalColor::Yellow
    } else if 81 <= strength && strength <= 100 {
        SignalColor::Green
    } else {
        SignalColor::Black
    }
}

impl SignalColor {
    /// The red, green and blue channel values this color is drawn with.
    pub open spec fn spec_rgb(self) -> (u8, u8, u8) {
        match self {
            SignalColor::DarkRed => (139, 0, 0),
            SignalColor::Orange => (255, 165, 0),
            SignalColor::Yellow => (255, 255, 0),
            SignalColor::Green => (0, 255, 0),
            SignalColor::Black => (0, 0, 0),
        }
    }

    /// Return the red, green and blue channel values for this color.
    pub fn rgb(&self) -> (rgb: (u8, u8, u8))
        ensures
            rgb == self.spec_rgb(),
    {
        match self {
            SignalColor::DarkRed => (139, 0, 0),
            SignalColor::Orange => (255, 165, 0),
            SignalColor::Yellow => (255, 255, 0),
            SignalColor::Green => (0, 255, 0),
            SignalColor::Black => (0, 0, 0),
        }
    }
}

/// Every signal strength buckets deterministically into exactly one of the
/// four defined colors, with inclusive boundaries: 0 through 20 is dark
/// red, 21 through 50 is orange, 51 through 80 is yellow, 81 through 100
/// is green, and anything outside 0 through 100 is black.
pub proof fn lemma_signal_buckets(strength: int)
    ensures
        (0 <= strength && strength <= 20) <==> spec_signal_color(strength) == SignalColor::DarkRed,
        (21 <= strength && strength <= 50) <==> spec_signal_color(strength) == SignalColor::Orange,
        (51 <= strength && strength <= 80) <==> spec_signal_color(strength) == SignalColor::Yellow,
        (81 <= strength && strength <= 100) <==> spec_signal_color(strength) == SignalColor::Green,
        (strength < 0 || strength > 100) <==> spec_signal_color(strength) == SignalColor::Black,
{
}

} // verus!
