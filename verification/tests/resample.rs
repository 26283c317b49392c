//! The full chunked-resampling flow with rubato driving the session, at
//! unity ratio where the outcome is predictable.

use rubato::Resampler;
use simple_audio_decoder_rs::{AudioClip, Pcm, ResampleContinuation};

/// Drives a session to exhaustion: returns every productive chunk and
/// the continuation reported by every call, the terminal one included.
fn drive(
    pcm: &Pcm<f32>,
    target_rate: usize,
    chunk_size: usize,
) -> (Vec<Vec<Vec<f32>>>, Vec<ResampleContinuation>) {
    let ratio = target_rate as f64 / pcm.sample_rate() as f64;
    let mut resampler = rubato::FastFixedOut::<f32>::new(
        ratio,
        1.0,
        rubato::PolynomialDegree::Septic,
        chunk_size,
        pcm.channels(),
    )
    .unwrap();
    let mut buffer_out = resampler.output_buffer_allocate(true);
    let mut clip = AudioClip::new(pcm, resampler.input_frames_max(), 0.0f32);

    let mut chunks: Vec<Vec<Vec<f32>>> = Vec::new();
    let mut continuations: Vec<ResampleContinuation> = Vec::new();
    for _ in 0..100 {
        let needed = resampler.input_frames_next();
        assert!(needed <= clip.capacity());
        let (take, cont) = clip.resample_next(needed);
        if take == 0 {
            continuations.push(cont);
            break;
        }
        resampler
            .process_into_buffer(clip.window(), &mut buffer_out, None)
            .unwrap();
        chunks.push(buffer_out.clone());
        continuations.push(cont);
    }
    (chunks, continuations)
}

fn constant_pcm(value: f32, frames: usize, rate: usize) -> Pcm<f32> {
    Pcm::new(vec![value; frames], rate, 1).unwrap()
}

#[test]
fn unity_round_trip_reproduces_constant_input() {
    // 100 frames at chunk size 40: ceil(100 / 40) = 3 productive calls.
    let pcm = constant_pcm(0.5, 100, 48000);
    let (chunks, continuations) = drive(&pcm, 48000, 40);

    assert_eq!(chunks.len(), 3);
    // Every chunk holds exactly chunk_size frames per channel.
    for chunk in &chunks {
        assert_eq!(chunk.len(), 1);
        assert_eq!(chunk[0].len(), 40);
    }
    // After the resampler's start-up transient, the constant value comes
    // back within tolerance, up to where the padded tail begins.
    for (i, sample) in chunks[0][0].iter().enumerate() {
        if i >= 12 {
            assert!((sample - 0.5).abs() < 1e-3, "chunk 0 frame {i}: {sample}");
        }
    }
    for sample in &chunks[1][0] {
        assert!((sample - 0.5).abs() < 1e-3);
    }
    for (i, sample) in chunks[2][0].iter().enumerate() {
        if i < 6 {
            assert!((sample - 0.5).abs() < 1e-3, "chunk 2 frame {i}: {sample}");
        }
    }
}

#[test]
fn padded_tail_resamples_to_silence() {
    let pcm = constant_pcm(1.0, 100, 48000);
    let (chunks, _) = drive(&pcm, 48000, 40);
    assert_eq!(chunks.len(), 3);
    // The final productive chunk ends in the zero-padded region: its
    // tail decays to silence instead of repeating stale samples.
    let last = &chunks[2][0];
    for (i, sample) in last.iter().enumerate() {
        if i >= 34 {
            assert!(sample.abs() < 1e-3, "tail frame {i}: {sample}");
        }
    }
}

#[test]
fn end_to_end_stereo_example() {
    // 100 stereo frames at 48000 Hz, resampled to 48000 Hz (ratio 1.0)
    // with 40 output frames per chunk: three productive calls — two full
    // windows and a padded remainder, which consumes the source and so
    // reports NoMoreData — then an idempotent terminal call.
    let mut data: Vec<f32> = Vec::new();
    for _ in 0..100 {
        data.push(0.25);
        data.push(0.75);
    }
    let pcm = Pcm::new(data, 48000, 2).unwrap();
    let (chunks, continuations) = drive(&pcm, 48000, 40);

    assert_eq!(chunks.len(), 3);
    for chunk in &chunks {
        assert_eq!(chunk.len(), 2);
        assert_eq!(chunk[0].len(), 40);
        assert_eq!(chunk[1].len(), 40);
    }
    assert_eq!(
        continuations,
        vec![
            ResampleContinuation::MoreData,
            ResampleContinuation::MoreData,
            ResampleContinuation::NoMoreData,
            ResampleContinuation::NoMoreData,
        ]
    );
    // The steady middle chunk keeps the channels apart.
    for sample in &chunks[1][0] {
        assert!((sample - 0.25).abs() < 1e-3);
    }
    for sample in &chunks[1][1] {
        assert!((sample - 0.75).abs() < 1e-3);
    }
}

#[test]
fn downsampling_still_fills_whole_chunks() {
    // Halving the rate doubles the input need per chunk; every
    // productive call still yields exactly chunk_size output frames.
    let pcm = constant_pcm(0.5, 100, 48000);
    let (chunks, continuations) = drive(&pcm, 24000, 40);
    assert_eq!(chunks.len(), 2);
    for chunk in &chunks {
        assert_eq!(chunk.len(), 1);
        assert_eq!(chunk[0].len(), 40);
    }
    assert_eq!(
        continuations[continuations.len() - 1],
        ResampleContinuation::NoMoreData
    );
}

#[test]
fn short_source_is_padded_into_a_single_call() {
    // 30 frames at chunk size 40: ceil(30 / 40) = 1 productive call,
    // exhausting the source at once.
    let pcm = constant_pcm(0.5, 30, 48000);
    let (chunks, continuations) = drive(&pcm, 48000, 40);
    assert_eq!(chunks.len(), 1);
    assert_eq!(
        continuations,
        vec![ResampleContinuation::NoMoreData, ResampleContinuation::NoMoreData]
    );
}
