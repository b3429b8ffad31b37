//! Capture-side frame extraction and playback-ring behaviour.

use voip_core::capture::CaptureBuffer;
use voip_core::ring::PlaybackRing;
use voip_core::MAX_FRAMES_PER_CYCLE;
use voip_core::VOIP_FRAME_SIZE;
use voip_core::VOIP_MIX_RATE;

#[test]
fn frame_size_is_ten_milliseconds() {
    assert_eq!(VOIP_FRAME_SIZE, VOIP_MIX_RATE / 100);
}

#[test]
fn drain_of_empty_buffer_is_empty() {
    let mut cb = CaptureBuffer::new();
    assert_eq!(cb.available_frames(), 0);
    assert!(cb.drain_available().is_empty());
}

#[test]
fn partial_frame_stays_buffered() {
    let mut cb = CaptureBuffer::new();
    cb.push_samples(&vec![5i16; VOIP_FRAME_SIZE - 1]);
    assert_eq!(cb.available_frames(), 0);
    assert!(cb.drain_available().is_empty());
    cb.push_samples(&vec![5i16; 1]);
    assert_eq!(cb.available_frames(), 1);
    let frames = cb.drain_available();
    assert_eq!(frames.len(), 1);
    assert_eq!(frames[0].samples().len(), VOIP_FRAME_SIZE);
}

#[test]
fn drain_returns_whole_frames_in_order() {
    let mut cb = CaptureBuffer::new();
    let samples: Vec<i16> = (0..(2 * VOIP_FRAME_SIZE + 100) as i32)
        .map(|i| i as i16)
        .collect();
    cb.push_samples(&samples);
    let frames = cb.drain_available();
    assert_eq!(frames.len(), 2);
    assert_eq!(frames[0].samples()[0], 0);
    assert_eq!(frames[0].samples()[VOIP_FRAME_SIZE - 1], (VOIP_FRAME_SIZE - 1) as i16);
    assert_eq!(frames[1].samples()[0], VOIP_FRAME_SIZE as i16);
    assert_eq!(cb.available_frames(), 0);
    let rest = cb.drain_available();
    assert!(rest.is_empty());
}

#[test]
fn drain_is_capped_per_cycle() {
    let mut cb = CaptureBuffer::new();
    cb.push_samples(&vec![1i16; 15 * VOIP_FRAME_SIZE]);
    let first = cb.drain_available();
    assert_eq!(first.len(), MAX_FRAMES_PER_CYCLE);
    let second = cb.drain_available();
    assert_eq!(second.len(), 5);
}

#[test]
fn stereo_pairs_are_downmixed_to_mono() {
    let mut cb = CaptureBuffer::new();
    cb.push_stereo_samples(&vec![-3i16, 0, 5, 6, 100, 100]);
    cb.push_samples(&vec![0i16; VOIP_FRAME_SIZE - 3]);
    let frames = cb.drain_available();
    assert_eq!(frames.len(), 1);
    assert_eq!(frames[0].samples()[0], -2);
    assert_eq!(frames[0].samples()[1], 5);
    assert_eq!(frames[0].samples()[2], 100);
}

#[test]
fn stereo_trailing_sample_is_ignored() {
    let mut cb = CaptureBuffer::new();
    cb.push_stereo_samples(&vec![4i16, 6, 9]);
    cb.push_samples(&vec![0i16; VOIP_FRAME_SIZE - 1]);
    let frames = cb.drain_available();
    assert_eq!(frames.len(), 1);
    assert_eq!(frames[0].samples()[0], 5);
    assert_eq!(frames[0].samples()[1], 0);
}

#[test]
fn pull_on_empty_ring_is_all_silence() {
    let mut ring = PlaybackRing::new(8);
    assert_eq!(ring.pull(3), vec![0i16, 0, 0]);
    assert_eq!(ring.len(), 0);
}

#[test]
fn pull_never_underdelivers_in_any_state() {
    let mut ring = PlaybackRing::new(4);
    assert_eq!(ring.pull(4).len(), 4);
    ring.push(&vec![1i16, 2]);
    assert_eq!(ring.pull(4), vec![1i16, 2, 0, 0]);
    ring.push(&vec![1i16, 2, 3, 4]);
    assert_eq!(ring.pull(4), vec![1i16, 2, 3, 4]);
    assert_eq!(ring.pull(0), Vec::<i16>::new());
}

#[test]
fn pull_drains_oldest_first() {
    let mut ring = PlaybackRing::new(8);
    ring.push(&vec![1i16, 2, 3, 4, 5]);
    assert_eq!(ring.pull(2), vec![1i16, 2]);
    assert_eq!(ring.len(), 3);
    assert_eq!(ring.pull(5), vec![3i16, 4, 5, 0, 0]);
    assert_eq!(ring.len(), 0);
}

#[test]
fn push_beyond_capacity_drops_oldest() {
    let mut ring = PlaybackRing::new(4);
    ring.push(&vec![1i16, 2, 3]);
    ring.push(&vec![4i16, 5]);
    assert_eq!(ring.len(), 4);
    assert_eq!(ring.pull(4), vec![2i16, 3, 4, 5]);
}

#[test]
fn push_larger_than_capacity_keeps_newest() {
    let mut ring = PlaybackRing::new(2);
    ring.push(&vec![1i16, 2, 3]);
    assert_eq!(ring.pull(2), vec![2i16, 3]);
}

#[test]
fn clear_discards_buffered_samples() {
    let mut ring = PlaybackRing::new(8);
    ring.push(&vec![1i16, 2, 3]);
    ring.clear();
    assert_eq!(ring.len(), 0);
    assert_eq!(ring.capacity(), 8);
    assert_eq!(ring.pull(2), vec![0i16, 0]);
}
