use vstd::prelude::*;

verus! {

/// Direction of a transmission or of a circuit.
#[derive(Debug, Clone, PartialEq, Eq, Copy, Structural)]
pub enum Direction {
    /// No direction
    Neither,
    /// Uplink
    Ul,
    /// Downlink
    Dl,
    Both,
}

impl Direction {
    /// True when the direction covers the uplink.
    pub fn includes_ul(&self) -> (r: bool)
        ensures
            r <==> (*self == Direction::Ul || *self == Direction::Both),
    {
        match self {
            Direction::Ul | Direction::Both => true,
            _ => false,
        }
    }

    /// True when the direction covers the downlink.
    pub fn includes_dl(&self) -> (r: bool)
        ensures
            r <==> (*self == Direction::Dl || *self == Direction::Both),
    {
        match self {
            Direction::Dl | Direction::Both => true,
            _ => false,
        }
    }
}

} // verus!
