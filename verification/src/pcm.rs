//! Decoded pulse-code-modulation audio, immutable after construction.
//!
//! A [`Pcm`] holds one decoded audio source as a flat sequence of samples,
//! interleaved frame-major / channel-minor: frame 0 channel 0, frame 0
//! channel 1, ..., frame 1 channel 0, and so on. The sample type is a
//! parameter so that the windowing logic is stated once for every sample
//! representation a caller chooses.

use vstd::prelude::*;

verus! {

/// The mathematical value of a [`Pcm`]: its samples and format metadata.
pub ghost struct PcmModel<S> {
    /// Interleaved samples, frame-major / channel-minor.
    pub data: Seq<S>,
    /// Source rate in Hz.
    pub sample_rate: nat,
    /// Number of channels.
    pub channels: nat,
}

impl<S> PcmModel<S> {
    /// Validity: positive rate and channel count, and whole frames only.
    pub open spec fn inv(self) -> bool {
        &&& self.sample_rate > 0
        &&& self.channels > 0
        &&& self.data.len() % self.channels == 0
    }

    /// Number of whole frames held.
    pub open spec fn frames(self) -> nat {
        self.data.len() / self.channels
    }
}

/// One decoded audio source: flat interleaved samples plus format metadata.
///
/// Immutable after construction; any number of readers may share it.
pub struct Pcm<S> {
    data: Vec<S>,
    sample_rate: usize,
    channels: usize,
}

impl<S> View for Pcm<S> {
    type V = PcmModel<S>;

    closed spec fn view(&self) -> PcmModel<S> {
        PcmModel {
            data: self.data@,
            sample_rate: self.sample_rate as nat,
            channels: self.channels as nat,
        }
    }
}

impl<S> Pcm<S> {
    /// Builds a store from already-decoded samples and their metadata.
    ///
    /// Succeeds exactly when the metadata is coherent: positive rate and
    /// channel count, and sample data that covers whole frames.
    pub fn new(data: Vec<S>, sample_rate: usize, channels: usize) -> (r: Option<Pcm<S>>)
        ensures
            r is Some <==> {
                &&& sample_rate > 0
                &&& channels > 0
                &&& data@.len() % (channels as nat) == 0
            },
            r matches Some(p) ==> p@ == (PcmModel {
                data: data@,
                sample_rate: sample_rate as nat,
                channels: channels as nat,
            }),
            r matches Some(p) ==> p@.inv(),
    {
        if sample_rate == 0 || channels == 0 || data.len() % channels != 0 {
            return None;
        }
        Some(Pcm { data, sample_rate, channels })
    }

    /// Source rate in Hz.
    pub fn sample_rate(&self) -> (r: usize)
        ensures
            r == self@.sample_rate,
    {
        self.sample_rate
    }

    /// Number of channels.
    pub fn channels(&self) -> (r: usize)
        ensures
            r == self@.channels,
    {
        self.channels
    }

    /// Number of samples held (frames times channels).
    pub fn len(&self) -> (r: usize)
        ensures
            r == self@.data.len(),
    {
        self.data.len()
    }

    /// The sample at position `i` of the interleaved data.
    pub fn sample(&self, i: usize) -> (r: &S)
        requires
            i < self@.data.len(),
        ensures
            *r == self@.data[i as int],
    {
        &self.data[i]
    }
}

} // verus!
