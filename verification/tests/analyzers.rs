use sample_explorer::pipeline::Analyzers;
use sample_explorer::scope::{self, Scope};
use sample_explorer::spectrum::{self, bin_in_band, Spectrum};
use sample_explorer::tuner::{self, midi_to_note, Tuner};
use sample_explorer::vectorscope::{self, Vectorscope};
use sample_explorer::visualization;
use sample_explorer::vu_meter::{self, VuMeter};

fn generate_sine(size: usize) -> impl Iterator<Item = f32> {
    (0..size)
        .map(move |i| i as f32 / (size as f32) * 2.0 * std::f32::consts::PI)
        .map(f32::sin)
}

fn level(rms: f32) -> f32 {
    let db = 20.0 * rms.max(f32::EPSILON).log10();
    ((db + 60.0) / 60.0).clamp(0.0, 1.0)
}

fn rms(samples: &[f32]) -> f32 {
    let mut sum = 0f32;
    for sample in samples {
        sum += sample * sample;
    }
    (sum / samples.len() as f32).sqrt()
}

fn mean(samples: &[f32]) -> f32 {
    samples.iter().sum::<f32>() / samples.len() as f32
}

fn frequency_to_midi(frequency: f32) -> usize {
    (12.0 * (frequency / 440.0).log2() + 69.0).round() as usize
}

/// Stands for the transform: bin `i` gets the level `i`.
fn ramp_levels(frame: &[f32]) -> Vec<f32> {
    (0..frame.len()).map(|i| i as f32).collect()
}

fn no_pitch(_window: &[f32], _sample_rate: usize) -> Option<usize> {
    None
}

#[test]
fn test_vu_meter_mono() {
    let mut meter = VuMeter::new();
    meter.update(vu_meter::Message::Rms(vec![1.0f32]), level);
    assert_eq!(*meter.levels(), vec![1.0]);
}

#[test]
fn test_vu_meter_stereo() {
    let mut meter = VuMeter::new();
    meter.update(vu_meter::Message::Rms(vec![0.5f32, 0.9]), level);
    assert_eq!(meter.levels().len(), 2);
    assert!((meter.levels()[0] - 0.899_656_7).abs() < 0.000001);
    assert!((meter.levels()[1] - 0.984_747_5).abs() < 0.000001);
}

#[test]
fn test_vu_meter_more_channels() {
    let mut meter = VuMeter::new();
    meter.update(vu_meter::Message::Rms(vec![0.5f32, 0.6, 0.7]), level);
    assert_eq!(*meter.levels(), vec![level(0.5), level(0.6), level(0.7)]);
}

#[test]
fn vu_meter_follows_the_channel_count() {
    let mut meter = VuMeter::new();
    assert!(meter.levels().is_empty());
    meter.update(vu_meter::Message::Rms(vec![0.5f32, 0.6, 0.7]), level);
    assert_eq!(meter.levels().len(), 3);
    meter.update(vu_meter::Message::Rms(vec![0.001f32]), level);
    assert_eq!(*meter.levels(), vec![0.0]);
    meter.update(vu_meter::Message::Rms(Vec::new()), level);
    assert!(meter.levels().is_empty());
}

#[test]
fn test_vectorscope() {
    let mut scope = Vectorscope::new();
    assert!(scope.points().is_empty());
    scope.update(vectorscope::Message::Points(vec![(0.5f32, 0.5), (0.5, 0.0), (0.0, 0.5)]));
    assert_eq!(*scope.points(), vec![(0.5, 0.5), (0.5, 0.0), (0.0, 0.5)]);
    scope.update(vectorscope::Message::Points(vec![(0.1, 0.2)]));
    assert_eq!(*scope.points(), vec![(0.1, 0.2)]);
}

#[test]
fn test_scope() {
    let mut scope = Scope::new();
    let buffer: Vec<f32> = generate_sine(1000).collect();
    scope.update(scope::Message::Buffer(buffer.clone()));
    assert_eq!(*scope.buffer(), buffer);
    scope.update(scope::Message::Buffer(vec![0.5]));
    assert_eq!(*scope.buffer(), vec![0.5]);
}

#[test]
fn test_midi_to_note_c() {
    assert_eq!(midi_to_note(0), "C");
    assert_eq!(midi_to_note(60), "C");
}

#[test]
fn test_midi_to_note_a() {
    assert_eq!(midi_to_note(69), "A");
}

#[test]
fn midi_to_note_names_every_pitch_class() {
    let names = ["C", "C#", "D", "D#", "E", "F", "F#", "G", "G#", "A", "A#", "B"];
    for midi in 0..48 {
        assert_eq!(midi_to_note(midi), names[midi % 12]);
    }
}

#[test]
fn pitch_mapping_of_concert_a_and_middle_c() {
    assert_eq!(frequency_to_midi(440.0), 69);
    assert_eq!(midi_to_note(frequency_to_midi(440.0)), "A");
    assert_eq!(frequency_to_midi(261.6), 60);
    assert_eq!(midi_to_note(frequency_to_midi(261.6)), "C");
}

#[test]
fn tuner_estimates_once_a_window_is_full() {
    let mut tuner = Tuner::new();
    tuner.update(tuner::Message::SampleRateChanged(44100), no_pitch);
    let seen = std::cell::RefCell::new(Vec::new());
    let estimate = |window: &[f32], sample_rate: usize| {
        seen.borrow_mut().push((window.len(), window[0], window[tuner::WINDOW - 1], sample_rate));
        Some(69)
    };
    let block: Vec<f32> = (0..4096).map(|i| i as f32).collect();
    tuner.update(tuner::Message::Buffer(block), &estimate);
    assert_eq!(tuner.text(), "");
    assert!(seen.borrow().is_empty());
    let block: Vec<f32> = (4096..8192 + 100).map(|i| i as f32).collect();
    tuner.update(tuner::Message::Buffer(block), &estimate);
    assert_eq!(tuner.text(), "A");
    assert_eq!(*seen.borrow(), vec![(8192, 0.0, 8191.0, 44100)]);
    // The excess of one hundred samples opens the next window.
    let block: Vec<f32> = (0..8092).map(|i| -(i as f32)).collect();
    tuner.update(tuner::Message::Buffer(block), |window: &[f32], _: usize| {
        assert_eq!(window[0], 8192.0);
        assert_eq!(window[100], 0.0);
        Some(60)
    });
    assert_eq!(tuner.text(), "C");
}

#[test]
fn tuner_shows_nothing_without_a_pitch() {
    let mut tuner = Tuner::new();
    tuner.update(tuner::Message::Buffer(vec![0.5f32; 8192]), |_: &[f32], _: usize| Some(62));
    assert_eq!(tuner.text(), "D");
    tuner.update(tuner::Message::Buffer(vec![0.0f32; 8192]), no_pitch);
    assert_eq!(tuner.text(), "");
}

#[test]
fn tuner_is_cleared_by_an_empty_block() {
    let mut tuner = Tuner::new();
    tuner.update(tuner::Message::Buffer(vec![0.5f32; 8192]), |_: &[f32], _: usize| Some(64));
    assert_eq!(tuner.text(), "E");
    tuner.update(tuner::Message::Buffer(Vec::new()), |_: &[f32], _: usize| Some(64));
    assert_eq!(tuner.text(), "");
}

#[test]
fn tuner_drops_pending_samples_on_a_new_selection() {
    let mut tuner = Tuner::new();
    tuner.update(tuner::Message::Buffer(vec![0.5f32; 8000]), no_pitch);
    tuner.update(tuner::Message::SampleSelectionChanged, no_pitch);
    let calls = std::cell::Cell::new(0);
    tuner.update(tuner::Message::Buffer(vec![0.25f32; 8000]), |_: &[f32], _: usize| {
        calls.set(calls.get() + 1);
        Some(69)
    });
    assert_eq!(calls.get(), 0);
    assert_eq!(tuner.text(), "");
}

#[test]
fn tuner_drops_pending_samples_on_a_new_sample_rate() {
    let mut tuner = Tuner::new();
    tuner.update(tuner::Message::Buffer(vec![0.5f32; 8000]), no_pitch);
    tuner.update(tuner::Message::SampleRateChanged(48000), no_pitch);
    let seen = std::cell::RefCell::new(Vec::new());
    tuner.update(tuner::Message::Buffer(vec![0.25f32; 8000]), |_: &[f32], _: usize| {
        seen.borrow_mut().push(());
        Some(69)
    });
    assert!(seen.borrow().is_empty());
    tuner.update(tuner::Message::Buffer(vec![0.25f32; 192]), |window: &[f32], sample_rate: usize| {
        assert_eq!(window[0], 0.25);
        assert_eq!(sample_rate, 48000);
        Some(69)
    });
    assert_eq!(tuner.text(), "A");
}

#[test]
fn band_edges_at_44100_hertz() {
    // Bin 0 is 0 Hz, bin 1 is 21.5 Hz, bin 1021 is 21984 Hz, bin 1022 is 22006 Hz.
    assert!(!bin_in_band(0, 44100));
    assert!(bin_in_band(1, 44100));
    assert!(bin_in_band(1021, 44100));
    assert!(!bin_in_band(1022, 44100));
}

#[test]
fn band_bounds_are_included() {
    // At 2048 Hz a bin is one hertz wide.
    assert!(!bin_in_band(19, 2048));
    assert!(bin_in_band(20, 2048));
    assert!(bin_in_band(22000, 2048));
    assert!(!bin_in_band(22001, 2048));
    assert!(!bin_in_band(5, 0));
    assert!(!bin_in_band(usize::MAX, usize::MAX));
}

#[test]
fn spectrum_shows_the_audible_bins_of_a_frame() {
    let mut spectrum = Spectrum::new();
    spectrum.update(spectrum::Message::SampleRateChanged(96000), ramp_levels);
    spectrum.update(spectrum::Message::Buffer(vec![0.0f32; 2000]), ramp_levels);
    assert!(spectrum.levels().is_empty());
    spectrum.update(spectrum::Message::Buffer(vec![0.0f32; 48]), ramp_levels);
    // At 96 kHz a bin is 46.875 Hz wide: bins 1 to 469 lie within 20 Hz and 22 kHz.
    let expected: Vec<f32> = (1..=469).map(|i| i as f32).collect();
    assert_eq!(*spectrum.levels(), expected);
}

#[test]
fn spectrum_looks_at_the_first_half_only() {
    let mut spectrum = Spectrum::new();
    spectrum.update(spectrum::Message::SampleRateChanged(8000), ramp_levels);
    spectrum.update(spectrum::Message::Buffer(vec![0.0f32; 2048]), ramp_levels);
    // At 8 kHz bin 6 is the first above 20 Hz, and the band ends with bin 1023.
    let expected: Vec<f32> = (6..1024).map(|i| i as f32).collect();
    assert_eq!(*spectrum.levels(), expected);
}

#[test]
fn spectrum_resets_its_carry_with_the_sample_rate() {
    let mut spectrum = Spectrum::new();
    spectrum.update(spectrum::Message::SampleRateChanged(44100), ramp_levels);
    spectrum.update(spectrum::Message::Buffer(vec![0.0f32; 2000]), ramp_levels);
    spectrum.update(spectrum::Message::SampleRateChanged(48000), ramp_levels);
    spectrum.update(spectrum::Message::Buffer(vec![0.0f32; 48]), ramp_levels);
    assert!(spectrum.levels().is_empty());
}

#[test]
fn spectrum_is_cleared_by_an_empty_block() {
    let mut spectrum = Spectrum::new();
    spectrum.update(spectrum::Message::SampleRateChanged(44100), ramp_levels);
    spectrum.update(spectrum::Message::Buffer(vec![0.0f32; 2048]), ramp_levels);
    assert_eq!(spectrum.levels().len(), 1021);
    spectrum.update(spectrum::Message::Buffer(Vec::new()), ramp_levels);
    assert!(spectrum.levels().is_empty());
}

#[test]
fn empty_block_brings_every_analyzer_to_silence() {
    let mut analyzers = Analyzers::new();
    let estimate = |_: &[f32], _: usize| Some(69);
    analyzers.update(visualization::Message::SampleRateChanged(44100), rms, mean, level, ramp_levels, estimate);
    let block: Vec<f32> = generate_sine(2 * 8192).collect();
    analyzers.update(visualization::Message::AudioBuffer(2, block), rms, mean, level, ramp_levels, estimate);
    assert_eq!(analyzers.vu_meter.levels().len(), 2);
    assert_eq!(analyzers.vectorscope.points().len(), 8192);
    assert_eq!(analyzers.scope.buffer().len(), 8192);
    assert_eq!(analyzers.spectrum.levels().len(), 1021);
    assert_eq!(analyzers.tuner.text(), "A");
    analyzers.update(visualization::Message::AudioBuffer(0, Vec::new()), rms, mean, level, ramp_levels, estimate);
    assert!(analyzers.vu_meter.levels().is_empty());
    assert!(analyzers.vectorscope.points().is_empty());
    assert!(analyzers.scope.buffer().is_empty());
    assert!(analyzers.spectrum.levels().is_empty());
    assert_eq!(analyzers.tuner.text(), "");
}

#[test]
fn deliver_reaches_one_analyzer_only() {
    let mut analyzers = Analyzers::new();
    let estimate = |_: &[f32], _: usize| Some(69);
    analyzers.deliver(
        visualization::Dispatch::VuMeter(vu_meter::Message::Rms(vec![1.0f32])),
        level,
        ramp_levels,
        estimate,
    );
    assert_eq!(*analyzers.vu_meter.levels(), vec![1.0]);
    assert!(analyzers.scope.buffer().is_empty());
    analyzers.deliver(visualization::Dispatch::Scope(scope::Message::Buffer(vec![0.5])), level, ramp_levels, estimate);
    assert_eq!(*analyzers.scope.buffer(), vec![0.5]);
    assert_eq!(*analyzers.vu_meter.levels(), vec![1.0]);
    assert!(analyzers.vectorscope.points().is_empty());
}
