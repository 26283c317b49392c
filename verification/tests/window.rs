//! The session's windowing and the cache, exercised through the
//! library's public surface with integer samples for exact comparison.

use std::sync::Arc;

use simple_audio_decoder_rs::{AudioClip, Pcm, PcmCache, ResampleContinuation};

fn pcm_i32(data: Vec<i32>, rate: usize, channels: usize) -> Pcm<i32> {
    Pcm::new(data, rate, channels).unwrap()
}

#[test]
fn pcm_new_validates_metadata() {
    assert!(Pcm::new(vec![1i32, 2, 3, 4], 44100, 2).is_some());
    assert!(Pcm::new(Vec::<i32>::new(), 44100, 2).is_some());
    assert!(Pcm::new(vec![1i32, 2, 3], 44100, 2).is_none());
    assert!(Pcm::new(vec![1i32, 2], 0, 2).is_none());
    assert!(Pcm::new(vec![1i32, 2], 44100, 0).is_none());
}

#[test]
fn pcm_accessors_report_what_was_stored() {
    let pcm = pcm_i32(vec![5, 6, 7, 8], 48000, 2);
    assert_eq!(pcm.sample_rate(), 48000);
    assert_eq!(pcm.channels(), 2);
    assert_eq!(pcm.len(), 4);
    assert_eq!(*pcm.sample(2), 7);
}

#[test]
fn window_deinterleaves_and_pads_with_silence() {
    // Two channels, three frames, interleaved frame-major.
    let pcm = pcm_i32(vec![10, 20, 11, 21, 12, 22], 44100, 2);
    let mut clip = AudioClip::new(&pcm, 4, 0);
    let (take, cont) = clip.resample_next(4);
    assert_eq!(take, 3);
    assert_eq!(cont, ResampleContinuation::NoMoreData);
    let window = clip.window();
    assert_eq!(window.len(), 2);
    assert_eq!(window[0], vec![10, 11, 12, 0]);
    assert_eq!(window[1], vec![20, 21, 22, 0]);
    assert_eq!(clip.index(), 6);
}

#[test]
fn chunked_walk_then_exhaustion_is_idempotent() {
    let data: Vec<i32> = (0..10).collect();
    let pcm = pcm_i32(data, 8000, 1);
    let mut clip = AudioClip::new(&pcm, 4, -1);

    let (t1, c1) = clip.resample_next(4);
    assert_eq!((t1, clip.index()), (4, 4));
    assert_eq!(c1, ResampleContinuation::MoreData);
    assert_eq!(clip.window()[0], vec![0, 1, 2, 3]);

    let (t2, c2) = clip.resample_next(4);
    assert_eq!((t2, clip.index()), (4, 8));
    assert_eq!(c2, ResampleContinuation::MoreData);

    // The final partial window is padded with the silence value.
    let (t3, c3) = clip.resample_next(4);
    assert_eq!((t3, clip.index()), (2, 10));
    assert_eq!(c3, ResampleContinuation::NoMoreData);
    assert_eq!(clip.window()[0], vec![8, 9, -1, -1]);

    // Once exhausted, every further call — whatever it asks for —
    // reports NoMoreData and changes nothing.
    let snapshot = clip.window().clone();
    for n in [1usize, 4, 2] {
        let (t, c) = clip.resample_next(n);
        assert_eq!(t, 0);
        assert_eq!(c, ResampleContinuation::NoMoreData);
        assert_eq!(clip.window(), &snapshot);
        assert_eq!(clip.index(), 10);
    }
}

#[test]
fn empty_source_is_immediately_exhausted() {
    let pcm = pcm_i32(Vec::new(), 8000, 2);
    let mut clip = AudioClip::new(&pcm, 4, 0);
    let (take, cont) = clip.resample_next(4);
    assert_eq!(take, 0);
    assert_eq!(cont, ResampleContinuation::NoMoreData);
    assert_eq!(clip.index(), 0);
}

#[test]
fn index_is_monotonic_and_bounded_under_varying_needs() {
    let data: Vec<i32> = (0..23).collect();
    let pcm = pcm_i32(data, 8000, 1);
    let mut clip = AudioClip::new(&pcm, 8, 0);
    let needs: Vec<usize> = vec![3, 4, 8, 5, 1, 8, 8, 2];
    let mut last: usize = 0;
    for n in needs {
        clip.resample_next(n);
        let idx = clip.index();
        assert!(idx >= last);
        assert!(idx <= pcm.len());
        last = idx;
    }
    assert_eq!(last, 23);
}

fn get_or_fake_decode(
    cache: &mut PcmCache<i32>,
    path: &String,
    decode_count: &mut usize,
) -> Arc<Pcm<i32>> {
    if let Some(store) = cache.get(path) {
        return Arc::clone(store);
    }
    *decode_count += 1;
    let store = Arc::new(pcm_i32(vec![1, 2, 3, 4], 44100, 2));
    cache.insert(path.clone(), Arc::clone(&store));
    store
}

#[test]
fn cache_shares_one_store_per_key() {
    let mut cache: PcmCache<i32> = PcmCache::new();
    let mut decode_count: usize = 0;
    let path = String::from("beat.wav");

    let s1 = get_or_fake_decode(&mut cache, &path, &mut decode_count);
    let s2 = get_or_fake_decode(&mut cache, &path, &mut decode_count);
    assert!(Arc::ptr_eq(&s1, &s2));
    assert_eq!(decode_count, 1);

    // Clearing drops only the cache's share; a later request decodes
    // anew while the old store stays valid for its holders.
    cache.clear();
    assert!(cache.get(&path).is_none());
    let s3 = get_or_fake_decode(&mut cache, &path, &mut decode_count);
    assert_eq!(decode_count, 2);
    assert!(!Arc::ptr_eq(&s1, &s3));
    assert_eq!(s1.len(), 4);
}

#[test]
fn cache_insert_replaces_and_keys_stay_distinct() {
    let mut cache: PcmCache<i32> = PcmCache::new();
    let ka = String::from("a");
    let kb = String::from("b");
    let first = Arc::new(pcm_i32(vec![1], 100, 1));
    let second = Arc::new(pcm_i32(vec![2, 3], 100, 1));

    cache.insert(ka.clone(), Arc::clone(&first));
    cache.insert(ka.clone(), Arc::clone(&second));
    let got = cache.get(&ka).unwrap();
    assert!(Arc::ptr_eq(got, &second));
    assert_eq!(got.len(), 2);

    cache.insert(kb.clone(), Arc::clone(&first));
    assert!(Arc::ptr_eq(cache.get(&kb).unwrap(), &first));
    assert!(Arc::ptr_eq(cache.get(&ka).unwrap(), &second));
    assert!(cache.get(&String::from("c")).is_none());
}
