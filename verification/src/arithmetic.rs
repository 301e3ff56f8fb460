use vstd::prelude::*;
use std::convert::{TryFrom, TryInto};
use std::ops::{Add, Div, Mul, Rem, Shl, Shr, Sub};

verus! {

/// A meta trait for arithmetic: conversions from and to the unsigned integer types,
/// the arithmetic and shift operators, and a total order.
///
/// The bounds `Zero`, `One`, `Bounded` and the checked operations of `num_traits`,
/// and the compound-assignment operators (`AddAssign` and the like), are not part of
/// it: the verifier cannot take a trait it has no specification for as a supertrait.
pub trait SimpleArithmetic:
    From<u8>
    + From<u16>
    + From<u32>
    + TryInto<u8>
    + TryInto<u16>
    + TryInto<u32>
    + TryFrom<u64>
    + TryInto<u64>
    + TryFrom<u128>
    + TryInto<u128>
    + Add<Self, Output = Self>
    + Sub<Self, Output = Self>
    + Mul<Self, Output = Self>
    + Div<Self, Output = Self>
    + Rem<Self, Output = Self>
    + Shl<u32, Output = Self>
    + Shr<u32, Output = Self>
    + PartialOrd<Self>
    + Ord
    + Sized {

}

impl<
    T: From<u8>
        + From<u16>
        + From<u32>
        + TryInto<u8>
        + TryInto<u16>
        + TryInto<u32>
        + TryFrom<u64>
        + TryInto<u64>
        + TryFrom<u128>
        + TryInto<u128>
        + Add<T, Output = T>
        + Sub<T, Output = T>
        + Mul<T, Output = T>
        + Div<T, Output = T>
        + Rem<T, Output = T>
        + Shl<u32, Output = T>
        + Shr<u32, Output = T>
        + PartialOrd<T>
        + Ord
        + Sized,
> SimpleArithmetic for T {

}

} // verus!
