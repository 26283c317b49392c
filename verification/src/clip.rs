//! The chunked resampling session: fixed-size windowing over decoded PCM.
//!
//! An [`AudioClip`] walks one immutable [`Pcm`] store and, call by call,
//! fills a reusable per-channel input window for an external resampling
//! algorithm: it de-interleaves the next batch of frames, pads the final
//! partial batch with silence, advances its cursor, and reports whether
//! further data remains. The arithmetic of the algorithm itself (how the
//! window is turned into output frames) is the caller's collaborator and
//! is driven outside this crate; everything the session decides — window
//! contents, cursor movement, termination — is specified here by
//! [`SessionModel::step`].

use vstd::arithmetic::div_mod::lemma_fundamental_div_mod;
use vstd::arithmetic::div_mod::lemma_small_mod;
use vstd::arithmetic::div_mod::lemma_mod_multiples_vanish;
use vstd::arithmetic::div_mod::lemma_sub_mod_noop;
use vstd::arithmetic::mul::lemma_mul_inequality;
use vstd::arithmetic::mul::lemma_mul_is_commutative;
use vstd::arithmetic::mul::lemma_mul_is_distributive_sub;
use vstd::arithmetic::mul::lemma_mul_strict_inequality;
use vstd::prelude::*;

use crate::pcm::Pcm;
use crate::pcm::PcmModel;

verus! {

/// Tells the caller whether further chunks remain after a call to
/// "produce next chunk".
#[derive(Debug, PartialEq, Eq)]
pub enum ResampleContinuation {
    /// More frames remain; call again.
    MoreData,
    /// The source is exhausted; further calls change nothing.
    NoMoreData,
}

/// The mathematical value of an [`AudioClip`]: the source it reads, the
/// cursor into that source, and the per-channel input window.
#[verifier::ext_equal]
pub ghost struct SessionModel<S> {
    /// The immutable source being consumed.
    pub pcm: PcmModel<S>,
    /// Cursor into `pcm.data`, in sample units: the next unread sample.
    pub index: nat,
    /// Per-channel input window handed to the resampling algorithm.
    pub buffer_in: Seq<Seq<S>>,
    /// The sample value used to pad a partial final window.
    pub silence: S,
}

impl<S> SessionModel<S> {
    /// Frames each channel's window can hold.
    pub open spec fn capacity(self) -> nat {
        self.buffer_in[0].len()
    }

    /// Validity: a valid source, a cursor on a frame boundary inside it,
    /// and one equally long window row per channel.
    pub open spec fn inv(self) -> bool {
        &&& self.pcm.inv()
        &&& self.index <= self.pcm.data.len()
        &&& self.index % self.pcm.channels == 0
        &&& self.buffer_in.len() == self.pcm.channels
        &&& forall|c: int|
            0 <= c < self.buffer_in.len() ==> (#[trigger] self.buffer_in[c]).len()
                == self.capacity()
    }

    /// Frames of the source not yet consumed.
    pub open spec fn remaining_frames(self) -> nat {
        ((self.pcm.data.len() - self.index) as nat) / self.pcm.channels
    }

    /// Frames one call consumes when the algorithm asks for `needed`
    /// input frames: all it asks for, capped by what remains.
    pub open spec fn take_of(self, needed: nat) -> nat {
        if needed <= self.remaining_frames() {
            needed
        } else {
            self.remaining_frames()
        }
    }

    /// The input window after a productive call asking for `needed`
    /// frames: positions below the take hold the source de-interleaved
    /// (frame `i` of channel `c` comes from sample `index + i * channels
    /// + c`), positions up to `needed` hold silence, and the rest keep
    /// their old contents.
    pub open spec fn window_after(self, needed: nat) -> Seq<Seq<S>> {
        let take = self.take_of(needed);
        Seq::new(
            self.buffer_in.len(),
            |c: int|
                Seq::new(
                    self.capacity() as nat,
                    |i: int|
                        if i < take {
                            self.pcm.data[self.index + i * self.pcm.channels + c]
                        } else if i < needed {
                            self.silence
                        } else {
                            self.buffer_in[c][i]
                        },
                ),
        )
    }

    /// One call of "produce next chunk" asking for `needed` input
    /// frames. A call that can take no frame changes nothing; a
    /// productive call rewrites the window and advances the cursor by
    /// the frames taken.
    pub open spec fn step(self, needed: nat) -> SessionModel<S> {
        let take = self.take_of(needed);
        if take == 0 {
            self
        } else {
            SessionModel {
                index: self.index + take * self.pcm.channels,
                buffer_in: self.window_after(needed),
                ..self
            }
        }
    }

    /// Whether the call reports [`ResampleContinuation::NoMoreData`]:
    /// either no frame could be taken, or the cursor has reached the end.
    pub open spec fn step_done(self, needed: nat) -> bool {
        self.take_of(needed) == 0 || self.step(needed).index >= self.pcm.data.len()
    }
}

/// A resampling session over one immutable PCM store.
///
/// The session owns the cursor and the reusable per-channel input window;
/// the external resampling algorithm and its output buffer live with the
/// caller, who drives the session with the algorithm's reported input
/// need each call.
pub struct AudioClip<'a, S> {
    pcm: &'a Pcm<S>,
    buffer_in: Vec<Vec<S>>,
    index: usize,
    silence: S,
}

impl<'a, S> View for AudioClip<'a, S> {
    type V = SessionModel<S>;

    closed spec fn view(&self) -> SessionModel<S> {
        SessionModel {
            pcm: self.pcm@,
            index: self.index as nat,
            buffer_in: Seq::new(self.buffer_in@.len(), |c: int| self.buffer_in@[c]@),
            silence: self.silence,
        }
    }
}

impl<'a, S: Copy> AudioClip<'a, S> {
    /// Opens a session at the start of `pcm`, with one window row per
    /// channel, each holding `input_frames_max` samples of `silence`.
    ///
    /// `input_frames_max` is the largest input need the external
    /// algorithm will ever report for its configuration; the caller
    /// reads it off the algorithm when configuring it.
    #[verifier::loop_isolation(false)]
    pub fn new(pcm: &'a Pcm<S>, input_frames_max: usize, silence: S) -> (r: AudioClip<'a, S>)
        requires
            pcm@.inv(),
        ensures
            r@.inv(),
            r@.pcm == pcm@,
            r@.index == 0,
            r@.silence == silence,
            r@.capacity() == input_frames_max,
            forall|c: int, i: int|
                0 <= c < r@.buffer_in.len() && 0 <= i < input_frames_max
                    ==> r@.buffer_in[c][i] == silence,
    {
        let channels = pcm.channels();
        let mut buffer_in: Vec<Vec<S>> = Vec::new();
        let mut c: usize = 0;
        while c < channels
            invariant
                c <= channels,
                buffer_in@.len() == c,
                forall|j: int|
                    0 <= j < c ==> (#[trigger] buffer_in@[j])@.len() == input_frames_max,
                forall|j: int, i: int|
                    0 <= j < c && 0 <= i < input_frames_max ==> buffer_in@[j]@[i] == silence,
            decreases channels - c,
        {
            let mut row: Vec<S> = Vec::new();
            let mut i: usize = 0;
            while i < input_frames_max
                invariant
                    i <= input_frames_max,
                    row@.len() == i,
                    forall|k: int| 0 <= k < i ==> row@[k] == silence,
                decreases input_frames_max - i,
            {
                row.push(silence);
                i = i + 1;
            }
            buffer_in.push(row);
            c = c + 1;
        }
        AudioClip { pcm, buffer_in, index: 0, silence }
    }

    /// The cursor: samples of the source already consumed.
    pub fn index(&self) -> (r: usize)
        ensures
            r == self@.index,
    {
        self.index
    }

    /// Frames each window row can hold.
    pub fn capacity(&self) -> (r: usize)
        requires
            self@.inv(),
        ensures
            r == self@.capacity(),
    {
        self.buffer_in[0].len()
    }

    /// Read access to the per-channel input window, for handing it to
    /// the external resampling algorithm.
    pub fn window(&self) -> (r: &Vec<Vec<S>>)
        ensures
            r@.len() == self@.buffer_in.len(),
            forall|c: int| 0 <= c < r@.len() ==> (#[trigger] r@[c])@ == self@.buffer_in[c],
    {
        &self.buffer_in
    }

    /// Produces the next input window: takes up to `input_frames_next`
    /// frames from the source, de-interleaves them into the window, pads
    /// the remainder of the requested span with silence, and advances
    /// the cursor. A call that finds no frame left changes nothing and
    /// reports [`ResampleContinuation::NoMoreData`]; so does the call
    /// that consumes the last frame. Returns the frames taken and the
    /// continuation signal.
    ///
    /// `input_frames_next` is what the external algorithm reports it
    /// needs for the next chunk; the algorithm always needs at least one
    /// frame, and never more than the capacity the session was opened
    /// with. Under that bound, a [`ResampleContinuation::NoMoreData`]
    /// report means exactly that the source is exhausted, so every call
    /// after one that reported it changes nothing and reports it again.
    #[verifier::loop_isolation(false)]
    pub fn resample_next(&mut self, input_frames_next: usize) -> (r: (
        usize,
        ResampleContinuation,
    ))
        requires
            old(self)@.inv(),
            1 <= input_frames_next <= old(self)@.capacity(),
        ensures
            final(self)@.inv(),
            final(self)@ == old(self)@.step(input_frames_next as nat),
            r.0 == old(self)@.take_of(input_frames_next as nat),
            (r.1 is NoMoreData) <==> old(self)@.step_done(input_frames_next as nat),
            (r.1 is NoMoreData) <==> final(self)@.index == final(self)@.pcm.data.len(),
            old(self)@.index <= final(self)@.index <= final(self)@.pcm.data.len(),
            r.0 == 0 ==> final(self)@ == old(self)@,
    {
        let ghost pre = self@;
        let ghost needed = input_frames_next as nat;
        let channels = self.pcm.channels();
        let data_len = self.pcm.len();
        proof {
            lemma_remaining_exact(pre);
        }
        let remaining_frames = (data_len - self.index) / channels;
        let take = if input_frames_next < remaining_frames {
            input_frames_next
        } else {
            remaining_frames
        };
        if take == 0 {
            // A positive need found nothing to take: the cursor stands at
            // the end of the source.
            proof {
                assert(pre.remaining_frames() == 0);
                assert(pre.index == pre.pcm.data.len());
            }
            return (0, ResampleContinuation::NoMoreData);
        }
        proof {
            lemma_mul_inequality(take as int, pre.remaining_frames() as int, channels as int);
            assert forall|j: int| 0 <= j < self.buffer_in@.len() implies (
            #[trigger] self.buffer_in@[j])@.len() == pre.capacity() by {
                assert(pre.buffer_in[j] == self.buffer_in@[j]@);
                assert(pre.buffer_in[j].len() == pre.capacity());
            }
        }
        // Pad the requested span beyond the frames taken with silence, so
        // a partial final batch is never resampled against stale data.
        let mut c: usize = 0;
        while c < channels
            invariant
                c <= channels,
                self.pcm@ == pre.pcm,
                self.silence == pre.silence,
                self.index == pre.index,
                self.buffer_in@.len() == pre.buffer_in.len(),
                forall|j: int|
                    0 <= j < self.buffer_in@.len() ==> (#[trigger] self.buffer_in@[j])@.len()
                        == pre.capacity(),
                forall|j: int, k: int|
                    0 <= j < c && take <= k < needed ==> self.buffer_in@[j]@[k] == pre.silence,
                forall|j: int, k: int|
                    0 <= j < self.buffer_in@.len() && 0 <= k < pre.capacity() && !(j < c && take
                        <= k < needed) ==> self.buffer_in@[j]@[k] == pre.buffer_in[j][k],
            decreases channels - c,
        {
            let mut i: usize = take;
            while i < input_frames_next
                invariant
                    take <= i <= input_frames_next,
                    self.pcm@ == pre.pcm,
                    self.silence == pre.silence,
                    self.index == pre.index,
                    self.buffer_in@.len() == pre.buffer_in.len(),
                    forall|j: int|
                        0 <= j < self.buffer_in@.len() ==> (#[trigger] self.buffer_in@[j])@.len()
                            == pre.capacity(),
                    forall|j: int, k: int|
                        0 <= j < c && take <= k < needed ==> self.buffer_in@[j]@[k] == pre.silence,
                    forall|k: int| take <= k < i ==> self.buffer_in@[c as int]@[k] == pre.silence,
                    forall|j: int, k: int|
                        0 <= j < self.buffer_in@.len() && 0 <= k < pre.capacity() && !(j < c && take
                            <= k < needed) && !(j == c && take <= k < i)
                            ==> self.buffer_in@[j]@[k] == pre.buffer_in[j][k],
                decreases input_frames_next - i,
            {
                let silence = self.silence;
                self.buffer_in[c][i] = silence;
                i = i + 1;
            }
            c = c + 1;
        }
        // De-interleave the frames taken from the source into the window.
        let ghost padded = self@.buffer_in;
        let index0 = self.index;
        let mut i: usize = 0;
        while i < take
            invariant
                i <= take,
                self.pcm@ == pre.pcm,
                self.silence == pre.silence,
                self.index == pre.index,
                self.buffer_in@.len() == pre.buffer_in.len(),
                forall|j: int|
                    0 <= j < self.buffer_in@.len() ==> (#[trigger] self.buffer_in@[j])@.len()
                        == pre.capacity(),
                forall|j: int, k: int|
                    0 <= j < channels && 0 <= k < i ==> self.buffer_in@[j]@[k] == pre.pcm.data[index0
                        + k * channels + j],
                forall|j: int, k: int|
                    0 <= j < channels && i <= k < pre.capacity() ==> self.buffer_in@[j]@[k]
                        == padded[j][k],
            decreases take - i,
        {
            proof {
                lemma_mul_inequality(i + 1, take as int, channels as int);
                lemma_mul_is_distributive_sub(channels as int, i + 1, 1);
                lemma_mul_is_commutative(i + 1, channels as int);
                lemma_mul_is_commutative(i as int, channels as int);
            }
            let base = index0 + i * channels;
            let mut cc: usize = 0;
            while cc < channels
                invariant
                    cc <= channels,
                    i < take,
                    base == index0 + i * channels,
                    base + channels <= data_len,
                    self.pcm@ == pre.pcm,
                    self.silence == pre.silence,
                    self.index == pre.index,
                    self.buffer_in@.len() == pre.buffer_in.len(),
                    forall|j: int|
                        0 <= j < self.buffer_in@.len() ==> (#[trigger] self.buffer_in@[j])@.len()
                            == pre.capacity(),
                    forall|j: int, k: int|
                        0 <= j < channels && 0 <= k < i ==> self.buffer_in@[j]@[k]
                            == pre.pcm.data[index0 + k * channels + j],
                    forall|j: int| 0 <= j < cc ==> self.buffer_in@[j]@[i as int] == pre.pcm.data[base
                        + j],
                    forall|j: int, k: int|
                        0 <= j < channels && i <= k < pre.capacity() && !(j < cc && k == i)
                            ==> self.buffer_in@[j]@[k] == padded[j][k],
                decreases channels - cc,
            {
                let sample = *self.pcm.sample(base + cc);
                self.buffer_in[cc][i] = sample;
                cc = cc + 1;
            }
            i = i + 1;
        }
        // Advance the cursor past the frames consumed.
        proof {
            lemma_mul_is_commutative(take as int, channels as int);
            lemma_mod_multiples_vanish(take as int, pre.index as int, channels as int);
        }
        self.index = self.index + take * channels;
        let done = self.index >= data_len;
        proof {
            let post = self@;
            assert forall|c2: int, i2: int|
                0 <= c2 < pre.pcm.channels && 0 <= i2 < take implies post.buffer_in[c2][i2]
                == pre.pcm.data[pre.index + i2 * pre.pcm.channels + c2] by {
                assert(post.buffer_in[c2] == self.buffer_in@[c2]@);
            }
            assert forall|c2: int, i2: int|
                0 <= c2 < pre.pcm.channels && take <= i2 < needed implies post.buffer_in[c2][i2]
                == pre.silence by {
                assert(post.buffer_in[c2] == self.buffer_in@[c2]@);
                assert(self.buffer_in@[c2]@[i2] == padded[c2][i2]);
            }
            assert forall|c2: int, i2: int|
                0 <= c2 < pre.pcm.channels && needed <= i2 < pre.capacity()
                implies post.buffer_in[c2][i2] == pre.buffer_in[c2][i2] by {
                assert(post.buffer_in[c2] == self.buffer_in@[c2]@);
                assert(self.buffer_in@[c2]@[i2] == padded[c2][i2]);
            }
            lemma_step_window(pre, needed, self@);
            if take < pre.remaining_frames() {
                lemma_mul_strict_inequality(
                    take as int,
                    pre.remaining_frames() as int,
                    channels as int,
                );
            }
        }
        if done {
            (take, ResampleContinuation::NoMoreData)
        } else {
            (take, ResampleContinuation::MoreData)
        }
    }
}

/// What remains of a valid source is whole frames: the remaining-frame
/// count times the channel count is exactly the samples left.
pub(crate) proof fn lemma_remaining_exact<S>(m: SessionModel<S>)
    requires
        m.inv(),
    ensures
        m.remaining_frames() * m.pcm.channels == m.pcm.data.len() - m.index,
{
    let len = m.pcm.data.len() as int;
    let idx = m.index as int;
    let ch = m.pcm.channels as int;
    let d = len - idx;
    assert(len % ch == 0);
    assert(idx % ch == 0);
    lemma_sub_mod_noop(len, idx, ch);
    lemma_small_mod(0, m.pcm.channels);
    assert(d % ch == 0);
    lemma_fundamental_div_mod(d, ch);
    assert(d == ch * (d / ch));
    assert(m.remaining_frames() == d / ch);
    lemma_mul_is_commutative(ch, d / ch);
}

/// A session whose fields pointwise match the window, cursor and source
/// of a productive step equals that step's model.
proof fn lemma_step_window<S>(pre: SessionModel<S>, needed: nat, post: SessionModel<S>)
    requires
        pre.inv(),
        pre.take_of(needed) > 0,
        needed <= pre.capacity(),
        post.pcm == pre.pcm,
        post.silence == pre.silence,
        post.index == pre.index + pre.take_of(needed) * pre.pcm.channels,
        post.buffer_in.len() == pre.buffer_in.len(),
        forall|c: int|
            0 <= c < post.buffer_in.len() ==> (#[trigger] post.buffer_in[c]).len()
                == pre.capacity(),
        forall|c: int, i: int|
            0 <= c < pre.pcm.channels && 0 <= i < pre.take_of(needed) ==> post.buffer_in[c][i]
                == pre.pcm.data[pre.index + i * pre.pcm.channels + c],
        forall|c: int, i: int|
            0 <= c < pre.pcm.channels && pre.take_of(needed) <= i < needed ==> post.buffer_in[c][i]
                == pre.silence,
        forall|c: int, i: int|
            0 <= c < pre.pcm.channels && needed <= i < pre.capacity() ==> post.buffer_in[c][i]
                == pre.buffer_in[c][i],
    ensures
        post == pre.step(needed),
{
    let target = pre.step(needed);
    assert forall|c: int| 0 <= c < post.buffer_in.len() implies post.buffer_in[c]
        =~= target.buffer_in[c] by {
        assert(target.buffer_in[c].len() == pre.capacity());
    }
    assert(post.buffer_in =~= target.buffer_in);
    assert(post =~~= target);
}

} // verus!
