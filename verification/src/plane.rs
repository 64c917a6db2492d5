use crate::pixel::Pixel;
use vstd::prelude::*;

verus! {

/// An immutable strided source view.  `(x, y)` is the origin of the
/// prediction block inside `data`; interpolation reads up to three cells
/// above and to the left of the block and four below and to the right, so a
/// well-formed view keeps that margin inside the buffer.
pub struct PlaneSlice<T> {
    pub data: Vec<T>,
    pub stride: usize,
    pub x: usize,
    pub y: usize,
}

impl<T: Pixel> PlaneSlice<T> {
    /// Sample value at block-relative coordinates (negative coordinates read
    /// the margin).
    pub open spec fn at(self, r: int, c: int) -> int {
        self.data@[(self.y + r) * self.stride + self.x + c].sval()
    }
}

/// A mutable strided destination region; the block starts at index 0 of
/// `data` and row `r` starts at `r * stride`.
pub struct PlaneRegionMut<T> {
    pub data: Vec<T>,
    pub stride: usize,
}

impl<T: Pixel> PlaneRegionMut<T> {
    /// Sample value at block coordinates.
    pub open spec fn at(self, r: int, c: int) -> int {
        self.data@[r * self.stride + c].sval()
    }
}

/// The source view holds a `width` x `height` block with the filter margin.
pub open spec fn src_geom_ok<T: Pixel>(src: PlaneSlice<T>, w: int, h: int) -> bool {
    &&& 1 <= src.stride
    &&& 3 <= src.x
    &&& 3 <= src.y
    &&& 1 <= w
    &&& 1 <= h
    &&& src.x + w + 4 <= src.stride
    &&& (src.y + h + 4) * src.stride <= src.data.len()
    &&& src.data.len() + 16 <= usize::MAX
}

/// The destination region holds a `width` x `height` block.
pub open spec fn dst_geom_ok<T: Pixel>(dst: PlaneRegionMut<T>, w: int, h: int) -> bool {
    &&& 1 <= dst.stride
    &&& 1 <= w <= dst.stride
    &&& 1 <= h
    &&& h * dst.stride <= dst.data.len()
}

/// Every cell of the view is a sample in `[0, smax]`.
pub open spec fn samples_max_ok<T: Pixel>(src: PlaneSlice<T>, smax: int) -> bool {
    forall|i: int| 0 <= i < src.data.len() ==> 0 <= #[trigger] src.data@[i].sval() <= smax
}

} // verus!
