use vstd::prelude::*;

verus! {

/// Discriminator between the narrow (8-bit cell) and wide (16-bit cell)
/// sample representations.  Every dispatch table exists once per sample type
/// because the kernel call signatures differ by cell width.
#[derive(Clone, Copy, PartialEq, Eq, Structural, Debug)]
pub enum PixelType {
    U8,
    U16,
}

/// A pixel cell: either a narrow 8-bit sample or a wide 16-bit sample.
///
/// The filter arithmetic is specified over the mathematical value
/// `sval`; the executable conversions are proved to agree with it.
pub trait Pixel: Copy + Sized {
    /// Mathematical value held by the cell.
    spec fn sval(self) -> int;

    /// Largest value a cell can hold (255 or 65535).
    spec fn spec_cell_max() -> int;

    /// Which table family (narrow or wide) this cell type selects.
    spec fn spec_type() -> PixelType;

    /// Runtime discriminator used to pick the narrow or wide table.
    fn type_enum() -> (r: PixelType)
        ensures
            r == Self::spec_type(),
    ;

    fn to_i32(self) -> (r: i32)
        ensures
            r == self.sval(),
            0 <= self.sval() <= Self::spec_cell_max(),
            Self::spec_cell_max() == 255 || Self::spec_cell_max() == 65535,
    ;

    fn from_i32(v: i32) -> (r: Self)
        requires
            0 <= v <= Self::spec_cell_max(),
        ensures
            r.sval() == v,
    ;
}

impl Pixel for u8 {
    open spec fn sval(self) -> int {
        self as int
    }

    open spec fn spec_cell_max() -> int {
        255
    }

    open spec fn spec_type() -> PixelType {
        PixelType::U8
    }

    fn type_enum() -> (r: PixelType) {
        PixelType::U8
    }

    fn to_i32(self) -> (r: i32) {
        self as i32
    }

    fn from_i32(v: i32) -> (r: Self) {
        v as u8
    }
}

impl Pixel for u16 {
    open spec fn sval(self) -> int {
        self as int
    }

    open spec fn spec_cell_max() -> int {
        65535
    }

    open spec fn spec_type() -> PixelType {
        PixelType::U16
    }

    fn type_enum() -> (r: PixelType) {
        PixelType::U16
    }

    fn to_i32(self) -> (r: i32) {
        self as i32
    }

    fn from_i32(v: i32) -> (r: Self) {
        v as u16
    }
}

} // verus!
