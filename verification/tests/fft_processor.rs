use sample_explorer::fft_processor::FftProcessor;

fn ramp(from: usize, to: usize) -> Vec<f32> {
    (from..to).map(|i| i as f32).collect()
}

#[test]
fn new_processor_reports_its_size() {
    let processor: FftProcessor<f32, 2048> = FftProcessor::new();
    assert_eq!(processor.fft_size(), 2048);
}

#[test]
fn no_frame_below_the_size() {
    let mut processor: FftProcessor<f32, 8> = FftProcessor::new();
    assert!(processor.process(&ramp(0, 3)).is_none());
    assert!(processor.process(&ramp(3, 7)).is_none());
    assert!(processor.process(&[]).is_none());
}

#[test]
fn frame_leaves_when_the_size_is_reached() {
    let mut processor: FftProcessor<f32, 8> = FftProcessor::new();
    assert!(processor.process(&ramp(0, 5)).is_none());
    let frame = processor.process(&ramp(5, 8)).expect("eight samples are together");
    assert_eq!(frame, ramp(0, 8));
    assert!(processor.process(&ramp(8, 15)).is_none());
}

#[test]
fn excess_is_kept_for_the_next_frame() {
    let mut processor: FftProcessor<f32, 8> = FftProcessor::new();
    let first = processor.process(&ramp(0, 11)).expect("more than eight samples");
    assert_eq!(first, ramp(0, 8));
    let second = processor.process(&ramp(11, 16)).expect("three kept and five new");
    assert_eq!(second, ramp(8, 16));
    assert!(processor.process(&[]).is_none());
}

#[test]
fn one_frame_for_every_size_samples() {
    let mut processor: FftProcessor<f32, 4> = FftProcessor::new();
    let mut frames = Vec::new();
    let mut fed = 0;
    for len in [1usize, 3, 2, 4, 0, 3, 4, 1] {
        if let Some(frame) = processor.process(&ramp(fed, fed + len)) {
            frames.push(frame);
        }
        fed += len;
    }
    assert_eq!(fed, 18);
    assert_eq!(frames.len(), 18 / 4);
    for (k, frame) in frames.iter().enumerate() {
        assert_eq!(*frame, ramp(4 * k, 4 * k + 4));
    }
    // Two samples are retained: two more complete the next frame.
    assert!(processor.process(&ramp(18, 19)).is_none());
    assert_eq!(processor.process(&ramp(19, 20)), Some(ramp(16, 20)));
}

#[test]
fn a_long_input_gives_one_frame_per_call() {
    let mut processor: FftProcessor<f32, 4> = FftProcessor::new();
    assert_eq!(processor.process(&ramp(0, 9)), Some(ramp(0, 4)));
    assert_eq!(processor.process(&[]), Some(ramp(4, 8)));
    assert!(processor.process(&[]).is_none());
}

#[test]
fn reset_drops_the_carry() {
    let mut processor: FftProcessor<f32, 4> = FftProcessor::new();
    assert!(processor.process(&ramp(0, 3)).is_none());
    processor.reset();
    assert!(processor.process(&ramp(10, 13)).is_none());
    assert_eq!(processor.process(&ramp(13, 14)), Some(ramp(10, 14)));
}
