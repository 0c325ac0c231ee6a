use vstd::prelude::*;

verus! {

/// An axis-aligned box in font units.
#[derive(Clone, Copy, Debug, Default, PartialEq, Eq, Structural)]
pub struct Rect {
    pub x_min: i16,
    pub y_min: i16,
    pub x_max: i16,
    pub y_max: i16,
}

impl Rect {
    pub fn width(&self) -> (r: i16)
        requires
            i16::MIN <= self.x_max - self.x_min <= i16::MAX,
        ensures
            r == self.x_max - self.x_min,
    {
        self.x_max - self.x_min
    }

    pub fn height(&self) -> (r: i16)
        requires
            i16::MIN <= self.y_max - self.y_min <= i16::MAX,
        ensures
            r == self.y_max - self.y_min,
    {
        self.y_max - self.y_min
    }
}

} // verus!
