//! End-to-end behaviour of the two pipeline halves, with the codec
//! boundary crossed by synthetic compressed frames.

use voip_core::packets::Repacketizer;
use voip_core::pipeline::VoipDecoder;
use voip_core::pipeline::VoipEncoder;
use voip_core::MAX_FRAME_BYTES;
use voip_core::VOIP_FRAME_SIZE;

#[test]
fn empty_cycle_produces_empty_packet() {
    let mut enc = VoipEncoder::new();
    let frames = enc.drain_available();
    assert!(frames.is_empty());
    let compressed: Vec<Vec<u8>> = Vec::new();
    assert_eq!(VoipEncoder::pack_frames(&compressed), Vec::<u8>::new());
}

#[test]
fn empty_packet_leaves_ring_untouched() {
    let mut dec = VoipDecoder::new(16);
    dec.push_decoded(&vec![1i16, 2]);
    let frames = Repacketizer::split(&Vec::new()).unwrap();
    assert!(frames.is_empty());
    assert_eq!(dec.stream_size(), 2);
}

#[test]
fn single_frame_cycle_emits_frame_verbatim() {
    let compressed = vec![vec![9u8, 17, 230, 4]];
    assert_eq!(VoipEncoder::pack_frames(&compressed), vec![9u8, 17, 230, 4]);
}

#[test]
fn pack_and_split_preserve_frame_order() {
    let f1 = vec![1u8, 10];
    let f2 = vec![2u8, 20];
    let f3 = vec![3u8, 30];
    let packet = VoipEncoder::pack_frames(&vec![f1.clone(), f2.clone(), f3.clone()]);
    let back = Repacketizer::split(&packet).unwrap();
    assert_eq!(back, vec![f1, f2, f3]);
}

#[test]
fn pack_skips_empty_frames() {
    let packet = VoipEncoder::pack_frames(&vec![Vec::new(), vec![5u8, 6]]);
    assert_eq!(packet, vec![5u8, 6]);
}

#[test]
fn pack_stops_at_first_frame_that_does_not_fit() {
    let big = vec![8u8; MAX_FRAME_BYTES];
    let packet = VoipEncoder::pack_frames(&vec![
        big.clone(),
        big.clone(),
        big.clone(),
        big.clone(),
        vec![1u8],
    ]);
    let back = Repacketizer::split(&packet).unwrap();
    assert_eq!(back, vec![big.clone(), big.clone(), big]);
}

#[test]
fn pack_of_only_oversized_frame_is_empty() {
    let packet = VoipEncoder::pack_frames(&vec![vec![8u8; MAX_FRAME_BYTES + 1]]);
    assert_eq!(packet, Vec::<u8>::new());
}

#[test]
fn capture_to_packet_cycle() {
    let mut enc = VoipEncoder::new();
    enc.push_samples(&vec![100i16; 3 * VOIP_FRAME_SIZE]);
    let frames = enc.drain_available();
    assert_eq!(frames.len(), 3);
    let compressed: Vec<Vec<u8>> = frames
        .iter()
        .enumerate()
        .map(|(i, f)| vec![i as u8, f.samples()[0] as u8])
        .collect();
    let packet = VoipEncoder::pack_frames(&compressed);
    let back = Repacketizer::split(&packet).unwrap();
    assert_eq!(back, compressed);
}

#[test]
fn decoded_frames_reach_the_mixer_in_order() {
    let mut dec = VoipDecoder::new(4 * VOIP_FRAME_SIZE);
    dec.push_decoded(&vec![1i16; VOIP_FRAME_SIZE]);
    dec.push_decoded(&vec![2i16; VOIP_FRAME_SIZE]);
    assert_eq!(dec.stream_size(), 2 * VOIP_FRAME_SIZE);
    let mixed = dec.mix(VOIP_FRAME_SIZE + 2);
    assert_eq!(mixed.len(), VOIP_FRAME_SIZE + 2);
    assert_eq!(mixed[0], 1);
    assert_eq!(mixed[VOIP_FRAME_SIZE - 1], 1);
    assert_eq!(mixed[VOIP_FRAME_SIZE], 2);
}

#[test]
fn mixer_pull_pads_shortfall_with_silence() {
    let mut dec = VoipDecoder::new(64);
    dec.push_decoded(&vec![7i16, 8]);
    assert_eq!(dec.mix(5), vec![7i16, 8, 0, 0, 0]);
    assert_eq!(dec.mix(2), vec![0i16, 0]);
}

#[test]
fn decoder_ring_drops_oldest_on_overrun() {
    let mut dec = VoipDecoder::new(3);
    dec.push_decoded(&vec![1i16, 2, 3]);
    dec.push_decoded(&vec![4i16]);
    assert_eq!(dec.mix(3), vec![2i16, 3, 4]);
}

#[test]
fn clear_stream_empties_the_ring() {
    let mut dec = VoipDecoder::new(16);
    dec.push_decoded(&vec![1i16, 2, 3]);
    dec.clear_stream();
    assert_eq!(dec.stream_size(), 0);
    assert_eq!(dec.capacity(), 16);
}
