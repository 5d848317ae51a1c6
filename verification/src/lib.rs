//! A session counter that survives restarts: it counts the sessions served,
//! writes its count to an external key-value medium as one decimal record, and
//! is rebuilt from that record at startup.

use vstd::prelude::*;

pub mod counter;
pub mod decimal;
pub mod medium;
pub mod persist;

verus! {

/// Collapses any value to unit: the one shape in which an outcome that carries
/// nothing further is reported.
pub fn unit1<T>(_any: T) -> (unit: ())
    ensures
        unit == (),
{
    ()
}

} // verus!
