//! Chunked resampling over decoded audio.
//!
//! The library turns one decoded audio source — a [`Pcm`] store of
//! interleaved samples — into a stream of fixed-size, per-channel sample
//! windows, ready for an external resampling algorithm: the caller asks a
//! session repeatedly for the next window until the source is exhausted.
//! A [`PcmCache`] shares decoded stores across sessions by source key, so
//! one source need not be decoded twice; what each operation does is
//! stated in its contract, and the laws of the session — exhaustion
//! idempotence, cursor monotonicity, padding, call cadence — are proved
//! over its model in [`SessionModel`].

mod cache;
mod clip;
mod laws;
mod pcm;

pub use cache::PcmCache;
pub use clip::AudioClip;
pub use clip::ResampleContinuation;
pub use clip::SessionModel;
pub use laws::calls_to_exhaustion;
pub use laws::lemma_calls_to_exhaustion_ceil;
pub use laws::lemma_exhaustion_idempotent;
pub use laws::lemma_index_monotonic;
pub use laws::lemma_no_more_data_is_terminal;
pub use laws::lemma_padding_silence;
pub use laws::lemma_session_cadence;
pub use laws::lemma_step_consumes;
pub use pcm::Pcm;
pub use pcm::PcmModel;
