//! Laws of the chunked resampling session, stated over its model.
//!
//! Each law speaks of [`SessionModel::step`], the specification that
//! [`crate::AudioClip::resample_next`] is proved to implement, so what is
//! shown here holds of every sequence of calls a caller can make.

use vstd::arithmetic::div_mod::lemma_basic_div;
use vstd::arithmetic::div_mod::lemma_div_multiples_vanish;
use vstd::arithmetic::div_mod::lemma_div_of0;
use vstd::arithmetic::div_mod::lemma_div_plus_one;
use vstd::arithmetic::div_mod::lemma_mod_multiples_vanish;
use vstd::arithmetic::mul::lemma_mul_inequality;
use vstd::arithmetic::mul::lemma_mul_is_commutative;
use vstd::arithmetic::mul::lemma_mul_is_distributive_sub_other_way;
use vstd::prelude::*;

use crate::clip::lemma_remaining_exact;
use crate::clip::SessionModel;

verus! {

/// Exhaustion is idempotent: a session whose cursor has consumed the
/// whole source takes nothing, reports no more data, and is left exactly
/// as it was — so every call after the one that exhausted the source
/// behaves the same way, whatever the algorithm asks for.
pub proof fn lemma_exhaustion_idempotent<S>(m: SessionModel<S>, needed: nat)
    requires
        m.inv(),
        m.index == m.pcm.data.len(),
    ensures
        m.take_of(needed) == 0,
        m.step(needed) == m,
        m.step_done(needed),
{
    lemma_div_of0(m.pcm.channels as int);
}

/// Once a call with a positive need reports no more data, the source is
/// exhausted, and every subsequent call — whatever it asks for — reports
/// no more data again, takes nothing, and leaves the session exactly as
/// it was.
pub proof fn lemma_no_more_data_is_terminal<S>(m: SessionModel<S>, needed: nat, later: nat)
    requires
        m.inv(),
        needed >= 1,
        m.step_done(needed),
    ensures
        m.step(needed).index == m.pcm.data.len(),
        m.step(needed).step(later) == m.step(needed),
        m.step(needed).step_done(later),
        m.step(needed).take_of(later) == 0,
{
    let post = m.step(needed);
    lemma_index_monotonic(m, needed);
    if m.take_of(needed) == 0 {
        lemma_remaining_exact(m);
        assert(m.remaining_frames() == 0);
        assert(m.index == m.pcm.data.len());
    }
    assert(post.index == m.pcm.data.len());
    lemma_exhaustion_idempotent(post, later);
}

/// The cursor never moves backwards, never passes the end of the source,
/// and a step leaves a valid session over the unchanged source.
pub proof fn lemma_index_monotonic<S>(m: SessionModel<S>, needed: nat)
    requires
        m.inv(),
    ensures
        m.step(needed).inv(),
        m.index <= m.step(needed).index,
        m.step(needed).index <= m.pcm.data.len(),
        m.step(needed).pcm == m.pcm,
{
    let take = m.take_of(needed);
    let ch = m.pcm.channels;
    if take > 0 {
        lemma_remaining_exact(m);
        lemma_mul_inequality(take as int, m.remaining_frames() as int, ch as int);
        lemma_mul_is_commutative(take as int, ch as int);
        lemma_mod_multiples_vanish(take as int, m.index as int, ch as int);
        let post = m.step(needed);
        assert(post.capacity() == m.capacity());
        assert forall|c: int| 0 <= c < post.buffer_in.len() implies (
        #[trigger] post.buffer_in[c]).len() == post.capacity() by {
            assert(post.buffer_in[c].len() == m.capacity());
        }
    }
}

/// Padding correctness, as far as the session decides it: after a
/// productive step, every window position from the frames taken up to
/// the span the algorithm asked for holds silence, so a partial final
/// batch is resampled against silence, never against stale samples.
pub proof fn lemma_padding_silence<S>(m: SessionModel<S>, needed: nat, c: int, i: int)
    requires
        m.inv(),
        needed <= m.capacity(),
        m.take_of(needed) > 0,
        0 <= c < m.pcm.channels,
        m.take_of(needed) <= i < needed,
    ensures
        m.step(needed).buffer_in[c][i] == m.silence,
{
}

/// Productive calls left until a source with `frames` unread frames is
/// exhausted, when the algorithm asks for `needed` frames each call.
pub open spec fn calls_to_exhaustion(frames: nat, needed: nat) -> nat
    decreases frames,
{
    if needed == 0 || frames == 0 {
        0
    } else if needed <= frames {
        1 + calls_to_exhaustion((frames - needed) as nat, needed)
    } else {
        1 + calls_to_exhaustion(0, needed)
    }
}

/// One productive step consumes exactly the frames it takes: the
/// remaining-frame count drops by `take_of`, so the session walks the
/// count of [`calls_to_exhaustion`] down by one per productive call.
pub proof fn lemma_step_consumes<S>(m: SessionModel<S>, needed: nat)
    requires
        m.inv(),
        m.take_of(needed) > 0,
    ensures
        m.step(needed).remaining_frames() == m.remaining_frames() - m.take_of(needed),
        calls_to_exhaustion(m.step(needed).remaining_frames(), needed) + 1
            == calls_to_exhaustion(m.remaining_frames(), needed),
{
    let take = m.take_of(needed);
    let rem = m.remaining_frames();
    let ch = m.pcm.channels;
    let post = m.step(needed);
    lemma_remaining_exact(m);
    lemma_mul_inequality(take as int, rem as int, ch as int);
    lemma_mul_is_commutative(take as int, ch as int);
    assert(post.pcm.data.len() - post.index == (rem - take) * ch) by {
        lemma_mul_is_distributive_sub_other_way(ch as int, rem as int, take as int);
    }
    assert(post.remaining_frames() == ((rem - take) as int * ch as int) / ch as int);
    lemma_mul_is_commutative((rem - take) as int, ch as int);
    lemma_div_multiples_vanish((rem - take) as int, ch as int);
    assert(post.remaining_frames() == rem - take);
}

/// The count of productive calls in closed form: asking for `needed > 0`
/// frames each call exhausts `frames` unread frames after exactly
/// `ceil(frames / needed)` productive calls.
pub proof fn lemma_calls_to_exhaustion_ceil(frames: nat, needed: nat)
    requires
        needed > 0,
    ensures
        calls_to_exhaustion(frames, needed) == (frames + needed - 1) as nat / needed,
    decreases frames,
{
    if frames == 0 {
        lemma_basic_div((needed - 1) as int, needed as int);
    } else if frames <= needed {
        assert(calls_to_exhaustion(0, needed) == 0);
        assert(calls_to_exhaustion(frames, needed) == 1);
        lemma_basic_div((frames - 1) as int, needed as int);
        lemma_div_plus_one((frames - 1) as int, needed as int);
        assert(1 + (frames - 1) as int / needed as int == (needed + frames - 1) as int
            / needed as int);
    } else {
        lemma_calls_to_exhaustion_ceil((frames - needed) as nat, needed);
        assert(calls_to_exhaustion((frames - needed) as nat, needed) == (frames - 1) as nat
            / needed);
        lemma_div_plus_one((frames - 1) as int, needed as int);
        assert(1 + (frames - 1) as int / needed as int == (needed + frames - 1) as int
            / needed as int);
    }
}

/// The round-trip cadence: a fresh session over a source of
/// `m.pcm.frames()` frames, driven with a constant input need `needed`,
/// makes exactly `ceil(frames / needed)` productive calls before it is
/// exhausted.
pub proof fn lemma_session_cadence<S>(m: SessionModel<S>, needed: nat)
    requires
        m.inv(),
        m.index == 0,
        needed > 0,
    ensures
        calls_to_exhaustion(m.remaining_frames(), needed) == (m.pcm.frames() + needed - 1) as nat
            / needed,
        m.remaining_frames() == m.pcm.frames(),
{
    lemma_calls_to_exhaustion_ceil(m.remaining_frames(), needed);
}

} // verus!
