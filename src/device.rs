//! Devices of the candle backend.
use vstd::prelude::*;

verus! {

/// The device a candle tensor lives on.
///
/// A Cuda device carries its index in the list of all Cuda devices found on
/// the system.
#[derive(Clone, Copy, Debug, PartialEq, Eq, Structural)]
pub enum CandleDevice {
    /// CPU device.
    Cpu,
    /// Cuda device with the given index.
    Cuda(usize),
}

impl Default for CandleDevice {
    fn default() -> (r: Self)
        ensures
            r == CandleDevice::Cpu,
    {
        CandleDevice::Cpu
    }
}

} // verus!
