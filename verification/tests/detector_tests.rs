use onset::bpm::{Frame, FrameProcessor, OnsetDetectionMode, CHUNK_SIZE, FRAME_SIZE};
use onset::utils::Ratio;

#[test]
fn test_frame_write() {
    let mut frame = Frame::new();
    let buffer = frame.buffer();
    assert_eq!(buffer.len(), FRAME_SIZE);
    assert_eq!(buffer[0], 0);
    let _ = frame.write(vec![1; CHUNK_SIZE]);
    let buffer = frame.buffer();
    assert_eq!(buffer[0], 0);
    assert_eq!(buffer[FRAME_SIZE - 1], 1);
}

#[test]
fn test_frame_processor_write() {
    let mut processor = FrameProcessor::new();
    for i in 0..10 {
        processor.write(vec![i as i16; CHUNK_SIZE]);
    }
    assert_eq!(processor.mode, OnsetDetectionMode::Energy);
    assert_eq!(processor.frames.0.buffer()[0], 2);
    assert_eq!(processor.frames.1.buffer()[FRAME_SIZE - 1], 9);
}

#[test]
fn test_frame_fifo() {
    // Writing one chunk per window slot into a fresh frame yields the
    // concatenation of those chunks, oldest first; one more write evicts
    // the first chunk unchanged.
    let mut frame = Frame::new();
    for v in 1..=4 {
        let evicted = frame.write(vec![v as i16; CHUNK_SIZE]);
        assert_eq!(evicted, vec![0i16; CHUNK_SIZE]);
    }
    let buffer = frame.buffer();
    assert_eq!(buffer.len(), FRAME_SIZE);
    for (i, &s) in buffer.iter().enumerate() {
        assert_eq!(s, (i / CHUNK_SIZE) as i16 + 1);
    }
    let evicted = frame.write(vec![5i16; CHUNK_SIZE]);
    assert_eq!(evicted, vec![1i16; CHUNK_SIZE]);
}

#[test]
fn test_energy() {
    let mut frame = Frame::new();
    assert_eq!(frame.energy(), 0);
    let _ = frame.write(vec![1; CHUNK_SIZE]);
    // One chunk of ones among zeros: CHUNK_SIZE squares of one.
    assert_eq!(frame.energy(), CHUNK_SIZE as i64);
    let _ = frame.write(vec![-2; CHUNK_SIZE]);
    // Squares ignore sign.
    assert_eq!(frame.energy(), CHUNK_SIZE as i64 + 4 * CHUNK_SIZE as i64);
}

#[test]
fn test_energy_zero_iff_all_zero() {
    let mut frame = Frame::new();
    assert_eq!(frame.energy(), 0);
    // A single non-zero sample makes the energy strictly positive.
    let mut chunk = vec![0i16; CHUNK_SIZE];
    chunk[17] = 3;
    let _ = frame.write(chunk);
    assert_eq!(frame.energy(), 9);
}

#[test]
fn test_warm_up_reports_no_onset() {
    // While the history is shorter than the threshold lookback, process
    // must report no onset whatever the input looks like.
    let mut processor = FrameProcessor::new();
    for i in 0..9 {
        let loud = if i % 2 == 0 { 100 } else { 0 };
        let onset = processor.process(vec![loud; CHUNK_SIZE]);
        assert!(!onset);
    }
    assert_eq!(processor.highest_peak, 0);
}

#[test]
fn test_silence_no_onset() {
    // Twenty chunks of silence: the energy difference is always zero,
    // the threshold stays at zero, and no onset ever fires.
    let mut processor = FrameProcessor::new();
    for _ in 0..20 {
        let onset = processor.process(vec![0; CHUNK_SIZE]);
        assert!(!onset);
    }
    assert_eq!(processor.threshold, Ratio { num: 0, den: 100 });
    assert_eq!(processor.highest_peak, 0);
}

#[test]
fn test_onset_after_jump() {
    // Silence, then a sustained jump to constant 5: exactly one onset
    // fires, one call after the energy-difference peak, and the highest
    // peak records that peak's magnitude.
    let mut processor = FrameProcessor::new();
    for _ in 0..20 {
        assert!(!processor.process(vec![0; CHUNK_SIZE]));
    }
    let mut onsets = Vec::new();
    for _ in 0..8 {
        onsets.push(processor.process(vec![5; CHUNK_SIZE]));
    }
    // The ODF ramps 12800, 25600, 38400, 51200, then falls back; the
    // peak 51200 is produced by the fourth call and confirmed by the
    // fifth.
    assert_eq!(
        onsets,
        vec![false, false, false, false, true, false, false, false]
    );
    assert_eq!(processor.highest_peak, 51200);
}

#[test]
fn test_determinism() {
    // An identical chunk sequence yields an identical boolean sequence.
    let chunks: Vec<i16> = vec![0, 3, 0, 7, 2, 9, 9, 1, 0, 4, 8, 8, 0, 2, 6, 1, 5, 5, 0, 3];
    let mut first = FrameProcessor::new();
    let mut second = FrameProcessor::new();
    let mut out_first = Vec::new();
    let mut out_second = Vec::new();
    for &v in &chunks {
        out_first.push(first.process(vec![v; CHUNK_SIZE]));
    }
    for &v in &chunks {
        out_second.push(second.process(vec![v; CHUNK_SIZE]));
    }
    assert_eq!(out_first, out_second);
    assert_eq!(first.highest_peak, second.highest_peak);
    assert_eq!(first.threshold, second.threshold);
}
