//! The values that a record field takes when its source gives none.
use vstd::prelude::*;

verus! {

pub fn horsepower() -> (r: u8)
    ensures
        r == 0,
{
    0
}

pub fn cylinders() -> (r: i32)
    ensures
        r == 0,
{
    0
}

/// The bit pattern of the double `0.0`.
pub fn miles_per_gallon() -> (r: u64)
    ensures
        r == 0,
{
    0
}

pub fn displacement() -> (r: Option<String>)
    ensures
        r is None,
{
    None
}

pub fn acceleration() -> (r: i64)
    ensures
        r == 0,
{
    0
}

} // verus!
