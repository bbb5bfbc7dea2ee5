use sample_explorer::visualization::{Dispatch, Message, Visualization};
use sample_explorer::{scope, spectrum, tuner, vectorscope, vu_meter};

fn rms(samples: &[f32]) -> f32 {
    let mut sum = 0f32;
    for sample in samples {
        sum += sample * sample;
    }
    (sum / samples.len() as f32).sqrt()
}

fn mean(samples: &[f32]) -> f32 {
    samples.iter().sum::<f32>() / samples.len() as f32
}

fn check_rms(channels: u16, buffer: &[f32], expected: &[f32]) {
    let result = Visualization::compute_rms(channels, buffer, rms);
    assert_eq!(result.len(), expected.len());
    for (result, expected) in result.iter().zip(expected.iter()) {
        assert!((result - expected).abs() < 0.00000001);
    }
}

#[test]
fn test_compute_rms_empty() {
    check_rms(2, &[], &[]);
}

#[test]
fn test_compute_rms_mono() {
    check_rms(1, &[0.5, 0.6, 0.7], &[0.605_530_1]);
}

#[test]
fn test_compute_rms_stereo() {
    check_rms(2, &[0.5, 0.6, 0.7, 0.8], &[0.608_276_25, 0.707_106_77]);
}

#[test]
fn compute_rms_without_channels() {
    check_rms(0, &[0.5, 0.6], &[]);
}

#[test]
fn compute_rms_splits_by_channel() {
    let seen = std::cell::RefCell::new(Vec::new());
    let result = Visualization::compute_rms(3, &[1.0, 2.0, 3.0, 4.0, 5.0, 6.0, 7.0], |samples: &[f32]| {
        seen.borrow_mut().push(samples.to_vec());
        samples[0]
    });
    assert_eq!(result, vec![1.0, 2.0, 3.0]);
    assert_eq!(*seen.borrow(), vec![vec![1.0, 4.0, 7.0], vec![2.0, 5.0], vec![3.0, 6.0]]);
}

#[test]
fn vectorscope_mono_pairs_a_sample_with_itself() {
    assert_eq!(Visualization::vectorscope(1, &[0.25f32]), vec![(0.25, 0.25)]);
    assert_eq!(Visualization::vectorscope(1, &[0.1f32, -0.2]), vec![(0.1, 0.1), (-0.2, -0.2)]);
}

#[test]
fn vectorscope_stereo_pairs_left_and_right() {
    assert_eq!(Visualization::vectorscope(2, &[0.25f32, -0.5]), vec![(0.25, -0.5)]);
    assert_eq!(Visualization::vectorscope(2, &[0.1f32, 0.2, 0.3, 0.4]), vec![(0.1, 0.2), (0.3, 0.4)]);
}

#[test]
fn vectorscope_drops_an_incomplete_stereo_frame() {
    assert_eq!(Visualization::vectorscope(2, &[0.1f32, 0.2, 0.3]), vec![(0.1, 0.2)]);
}

#[test]
fn vectorscope_has_no_points_for_other_layouts() {
    assert!(Visualization::vectorscope(3, &[0.1f32, 0.2, 0.3]).is_empty());
    assert!(Visualization::vectorscope(6, &[0.1f32; 12]).is_empty());
    assert!(Visualization::vectorscope(0, &[0.1f32, 0.2]).is_empty());
    assert!(Visualization::vectorscope(2, &[] as &[f32]).is_empty());
}

#[test]
fn mono_passes_a_mono_block_through() {
    assert_eq!(Visualization::mono(1, &[0.1f32, 0.2, 0.3], mean), vec![0.1, 0.2, 0.3]);
    assert!(Visualization::mono(1, &[] as &[f32], mean).is_empty());
}

#[test]
fn mono_averages_each_frame() {
    assert_eq!(Visualization::mono(2, &[0.5f32, 1.0, -1.0, 1.0], mean), vec![0.75, 0.0]);
    assert_eq!(Visualization::mono(3, &[3.0f32, 6.0, 9.0, 1.0, 1.0, 1.0], mean), vec![6.0, 1.0]);
}

#[test]
fn mono_drops_an_incomplete_frame() {
    assert_eq!(Visualization::mono(2, &[0.5f32, 1.0, 4.0], mean), vec![0.75]);
    assert!(Visualization::mono(4, &[0.5f32, 1.0, 4.0], mean).is_empty());
}

#[test]
fn mono_without_channels_is_empty() {
    assert!(Visualization::mono(0, &[0.5f32, 1.0], mean).is_empty());
}

#[test]
fn update_fans_a_block_out_to_every_analyzer() {
    let mut visualization = Visualization::new();
    let out = visualization.update(Message::AudioBuffer(2, vec![0.5f32, 0.6, 0.7, 0.8]), rms, mean);
    assert_eq!(out.len(), 5);
    match &out[0] {
        Dispatch::VuMeter(vu_meter::Message::Rms(values)) => {
            assert_eq!(values.len(), 2);
            assert!((values[0] - 0.608_276_25).abs() < 0.00000001);
            assert!((values[1] - 0.707_106_77).abs() < 0.00000001);
        }
        _ => panic!("the meter comes first"),
    }
    match &out[1] {
        Dispatch::Vectorscope(vectorscope::Message::Points(points)) => {
            assert_eq!(*points, vec![(0.5, 0.6), (0.7, 0.8)]);
        }
        _ => panic!("the stereo scope comes second"),
    }
    let expected = vec![mean(&[0.5, 0.6]), mean(&[0.7, 0.8])];
    assert!(matches!(&out[2], Dispatch::Scope(scope::Message::Buffer(mono)) if *mono == expected));
    assert!(matches!(&out[3], Dispatch::Spectrum(spectrum::Message::Buffer(mono)) if *mono == expected));
    assert!(matches!(&out[4], Dispatch::Tuner(tuner::Message::Buffer(mono)) if *mono == expected));
}

#[test]
fn update_passes_the_sample_rate_to_spectrum_and_tuner() {
    let mut visualization = Visualization::new();
    let out = visualization.update(Message::<f32>::SampleRateChanged(44100), rms, mean);
    assert_eq!(out.len(), 2);
    assert!(matches!(out[0], Dispatch::Spectrum(spectrum::Message::SampleRateChanged(44100))));
    assert!(matches!(out[1], Dispatch::Tuner(tuner::Message::SampleRateChanged(44100))));
}

#[test]
fn update_tells_the_tuner_of_a_new_selection() {
    let mut visualization = Visualization::new();
    let out = visualization.update(Message::<f32>::SampleSelectionChanged, rms, mean);
    assert_eq!(out.len(), 1);
    assert!(matches!(out[0], Dispatch::Tuner(tuner::Message::SampleSelectionChanged)));
}
