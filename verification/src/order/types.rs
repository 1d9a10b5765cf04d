use vstd::prelude::*;

verus! {

/// Which elements an over-long array keeps when it is ingested.
#[derive(Copy, Clone, Debug, PartialEq, Eq, Structural)]
pub enum ArrayBias {
    /// The first elements.
    Head,
    /// Elements from the start, the middle and the end, in their own order.
    HeadMidTail,
}

/// Which end of an array the priority order favours.
#[derive(Copy, Clone, Debug, PartialEq, Eq, Structural)]
pub enum ArraySamplerStrategy {
    Default,
    Head,
    Tail,
}

} // verus!
