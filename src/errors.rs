use vstd::prelude::*;

verus! {

/// Why an audio device could not serve for playback.
#[derive(Debug, PartialEq, Eq)]
pub enum PlaybackError {
    /// No device of this name was found.
    InvalidDeviceName(String),
    /// The device of this name does not support audio output.
    DeviceLacksOutput(String),
    /// The device of this name does not support audio input.
    DeviceLacksInput(String),
}

impl PlaybackError {
    /// The name of the device that the error is about.
    pub fn device_name(&self) -> (r: &String)
        ensures
            *r == match self {
                PlaybackError::InvalidDeviceName(n) => *n,
                PlaybackError::DeviceLacksOutput(n) => *n,
                PlaybackError::DeviceLacksInput(n) => *n,
            },
    {
        match self {
            PlaybackError::InvalidDeviceName(n) => n,
            PlaybackError::DeviceLacksOutput(n) => n,
            PlaybackError::DeviceLacksInput(n) => n,
        }
    }
}

} // verus!
