//! A satellite as enumerated by the satellites-in-view sentences.

use vstd::prelude::*;

verus! {

/// One satellite's identity and geometry, with its optional signal level.
#[derive(Clone, Copy, Debug, PartialEq, Eq)]
pub struct Satellite {
    /// Pseudo-random-noise number identifying the satellite.
    pub prn: u16,
    /// Elevation above the horizon in degrees.
    pub elevation: i16,
    /// Azimuth from true north in degrees.
    pub azimuth: u16,
    /// Signal-to-noise ratio in dB-Hz; absent while not tracked.
    pub snr: Option<u16>,
}

} // verus!
