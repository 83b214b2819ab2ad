//! The whole pipeline, driven with a real transform.

use chfft::RFft1D;
use shazamio_core::fingerprinting::algorithm::{select_segment, RunError, SignatureGenerator};
use shazamio_core::fingerprinting::pipeline::{PeakMeasure, Phase};
use shazamio_core::fingerprinting::signature_format::{DecodedSignature, FrequencyBand};
use shazamio_core::fingerprinting::spectra::PeakCandidate;

fn window() -> Vec<f32> {
    (0..2048)
        .map(|i| (0.5 - 0.5 * (2.0 * std::f64::consts::PI * (i as f64 + 1.0) / 2049.0).cos()) as f32)
        .collect()
}

fn analyse(fft: &mut RFft1D<f32>, window: &[f32], frame: &[i16]) -> Vec<u32> {
    let windowed: Vec<f32> = frame.iter().zip(window).map(|(s, w)| *s as f32 * w).collect();
    let spectrum = fft.forward(&windowed);
    assert_eq!(spectrum.len(), 1025);
    spectrum
        .iter()
        .map(|c| ((c.re * c.re + c.im * c.im) / 131072.0f32).max(0.0000000001f32).to_bits())
        .collect()
}

fn magnitude(level: u32) -> f32 {
    f32::from_bits(level).max(1.0 / 64.0).ln() * 1477.3 + 6144.0
}

fn measure(candidate: &PeakCandidate) -> Option<PeakMeasure> {
    let before = magnitude(candidate.level_before);
    let at = magnitude(candidate.level);
    let after = magnitude(candidate.level_after);
    let v1 = at * 2.0 - before - after;
    if !(v1 > 0.0) {
        return None;
    }
    let v2 = (after - before) * 32.0 / v1;
    Some(PeakMeasure { magnitude: at.round() as i32, shift: v2.round() as i32 })
}

fn make_signature_from_buffer(samples: Vec<i16>) -> DecodedSignature {
    let window = window();
    let fft = std::cell::RefCell::new(RFft1D::<f32>::new(2048));
    SignatureGenerator::make_signature_from_buffer(
        samples,
        |frame: &Vec<i16>| analyse(&mut fft.borrow_mut(), &window, frame),
        measure,
    )
    .unwrap()
}

/// The same run, made step by step.
fn make_signature_step_by_step(samples: Vec<i16>) -> DecodedSignature {
    let window = window();
    let mut fft = RFft1D::<f32>::new(2048);
    let mut generator = SignatureGenerator::new(samples);
    while let Some(frame) = generator.next_frame() {
        assert_eq!(frame.len(), 2048);
        generator.push_spectrum(analyse(&mut fft, &window, &frame));
        let measures: Vec<Option<PeakMeasure>> = generator.pending().iter().map(measure).collect();
        generator.push_measures(&measures);
    }
    generator.into_signature()
}

fn tone(frequency: f64, seconds: f64, amplitude: f64) -> Vec<i16> {
    let count = (seconds * 16000.0) as usize;
    (0..count)
        .map(|i| {
            (amplitude * (2.0 * std::f64::consts::PI * frequency * i as f64 / 16000.0).sin()).round()
                as i16
        })
        .collect()
}

fn frequency_of(corrected_bin: u16) -> f64 {
    corrected_bin as f64 * 125.0 / 1024.0
}

#[test]
fn two_tones_give_peaks_in_their_bands() {
    // Tones of exactly 440 Hz and 2000 Hz repeat frame for frame at this hop size,
    // and a peak has to exceed its neighbours in time; with one hertz more no two
    // frames of a neighbourhood are alike.
    let mut samples = tone(441.0, 4.0, 20000.0);
    samples.extend(tone(2001.0, 4.0, 20000.0));
    let signature = make_signature_from_buffer(samples);
    assert_eq!(signature.sample_rate_hz, 16000);
    assert_eq!(signature.number_samples, 128000);
    let low = signature.peaks(FrequencyBand::_250_520);
    let high = signature.peaks(FrequencyBand::_1450_3500);
    assert!(!low.is_empty());
    assert!(!high.is_empty());
    assert!(low.iter().all(|p| (frequency_of(p.corrected_peak_frequency_bin) - 441.0).abs() < 1.0));
    assert!(high.iter().all(|p| (frequency_of(p.corrected_peak_frequency_bin) - 2001.0).abs() < 1.0));
    assert!(low.iter().all(|p| p.fft_pass_number < 500));
    assert!(high.iter().all(|p| p.fft_pass_number >= 500));
    assert!(signature.peaks(FrequencyBand::_520_1450).is_empty());
    assert!(signature.peaks(FrequencyBand::_3500_5500).is_empty());
}

#[test]
fn tones_that_repeat_frame_for_frame_give_no_peaks() {
    // At 2000 Hz every frame holds the same samples, at 440 Hz every 25th: no frame
    // exceeds all its neighbours.
    let mut samples = tone(440.0, 4.0, 20000.0);
    samples.extend(tone(2000.0, 4.0, 20000.0));
    assert!(make_signature_from_buffer(samples).is_empty());
}

#[test]
fn silence_gives_no_peaks() {
    for length in [128usize, 5888, 16000, 40000] {
        let signature = make_signature_from_buffer(vec![0i16; length]);
        assert!(signature.is_empty());
        assert_eq!(signature.number_samples as usize, length / 128 * 128);
        assert_eq!(signature.sample_rate_hz, 16000);
    }
}

#[test]
fn buffer_shorter_than_one_hop_gives_an_empty_signature() {
    let signature = make_signature_from_buffer(vec![1000i16; 127]);
    assert!(signature.is_empty());
    assert_eq!(signature.number_samples, 0);
    let signature = make_signature_from_buffer(Vec::new());
    assert!(signature.is_empty());
    assert_eq!(signature.number_samples, 0);
}

#[test]
fn buffer_below_the_latency_gives_no_peaks() {
    let mut samples = tone(1000.0, 1.0, 30000.0);
    samples.truncate(5887);
    let signature = make_signature_from_buffer(samples);
    assert!(signature.is_empty());
    assert_eq!(signature.number_samples, 45 * 128);
}

#[test]
fn trailing_samples_do_not_change_the_signature() {
    let mut samples = tone(441.0, 2.0, 20000.0);
    samples.extend(tone(2001.0, 2.0, 20000.0));
    assert_eq!(samples.len() % 128, 0);
    let reference = make_signature_from_buffer(samples.clone());
    assert!(!reference.is_empty());
    for extra in [1usize, 64, 127] {
        let mut longer = samples.clone();
        longer.extend(tone(3000.0, 1.0, 25000.0).into_iter().take(extra));
        assert_eq!(make_signature_from_buffer(longer), reference);
    }
}

#[test]
fn one_more_hop_changes_the_number_of_samples() {
    let samples = tone(440.0, 1.0, 20000.0);
    let reference = make_signature_from_buffer(samples.clone());
    let mut longer = samples.clone();
    longer.extend(vec![0i16; 128]);
    assert_eq!(make_signature_from_buffer(longer).number_samples, reference.number_samples + 128);
}

#[test]
fn repeated_runs_give_the_same_signature() {
    let mut samples = tone(441.0, 2.0, 20000.0);
    samples.extend(tone(2001.0, 2.0, 12000.0));
    let first = make_signature_from_buffer(samples.clone());
    let second = make_signature_from_buffer(samples);
    assert!(!first.is_empty());
    assert_eq!(first, second);
    assert_eq!(first.encode_to_binary(), second.encode_to_binary());
}

fn with_burst(length: usize, start: usize) -> Vec<i16> {
    let mut samples = vec![0i16; length];
    for (i, sample) in tone(1000.0, 0.02, 30000.0).into_iter().enumerate() {
        samples[start + i] = sample;
    }
    samples
}

#[test]
fn only_a_marker_inside_the_segment_gives_peaks() {
    // Three seconds of silence with a one second segment from 16000 up to 32000, and
    // a burst of 320 samples as the marker.
    let length = 48000usize;
    let inside = with_burst(length, 20000);
    let segment = select_segment(&inside, 1);
    assert_eq!(segment.len(), 16000);
    assert_eq!(segment, inside[16000..32000].to_vec());
    let signature = make_signature_from_buffer(segment);
    assert!(!signature.peaks(FrequencyBand::_520_1450).is_empty());
    for start in [0usize, 15680, 32000, 47680] {
        let outside = with_burst(length, start);
        let segment = select_segment(&outside, 1);
        assert_eq!(segment, vec![0i16; 16000]);
        assert!(make_signature_from_buffer(segment).is_empty());
    }
    for position in [16000usize, 31999] {
        let mut edge = vec![0i16; length];
        edge[position] = 30000;
        assert_eq!(select_segment(&edge, 1)[position - 16000], 30000);
    }
    for position in [15999usize, 32000] {
        let mut edge = vec![0i16; length];
        edge[position] = 30000;
        assert_eq!(select_segment(&edge, 1), vec![0i16; 16000]);
    }
}

#[test]
fn the_generator_goes_through_its_phases() {
    let mut generator = SignatureGenerator::new(vec![7i16; 300]);
    assert_eq!(generator.phase(), Phase::Idle);
    let frame = generator.next_frame().unwrap();
    assert_eq!(generator.phase(), Phase::Analysing);
    assert_eq!(frame.len(), 2048);
    assert_eq!(&frame[..1920], &vec![0i16; 1920][..]);
    assert_eq!(&frame[1920..], &vec![7i16; 128][..]);
    generator.push_spectrum(vec![0u32; 1025]);
    assert_eq!(generator.phase(), Phase::Measuring);
    assert!(generator.pending().is_empty());
    generator.push_measures(&Vec::new());
    assert_eq!(generator.phase(), Phase::Idle);
    let frame = generator.next_frame().unwrap();
    assert_eq!(&frame[..1792], &vec![0i16; 1792][..]);
    assert_eq!(&frame[1792..], &vec![7i16; 256][..]);
    generator.push_spectrum(vec![0u32; 1025]);
    generator.push_measures(&Vec::new());
    assert!(generator.next_frame().is_none());
    assert_eq!(generator.phase(), Phase::Idle);
    let signature = generator.into_signature();
    assert_eq!(signature.number_samples, 256);
    assert!(signature.is_empty());
}

#[test]
fn frames_hold_the_latest_2048_samples_oldest_first() {
    let samples: Vec<i16> = (0..3000).map(|i| i as i16).collect();
    let mut generator = SignatureGenerator::new(samples.clone());
    let mut hop = 0usize;
    while let Some(frame) = generator.next_frame() {
        let end = (hop + 1) * 128;
        for (i, sample) in frame.iter().enumerate() {
            let position = end as i64 - 2048 + i as i64;
            let expected = if position < 0 { 0 } else { samples[position as usize] };
            assert_eq!(*sample, expected);
        }
        generator.push_spectrum(vec![0u32; 1025]);
        generator.push_measures(&Vec::new());
        hop += 1;
    }
    assert_eq!(hop, 23);
}

#[test]
fn a_run_step_by_step_gives_the_same_signature() {
    let mut samples = tone(441.0, 2.0, 20000.0);
    samples.extend(tone(2001.0, 2.0, 12000.0));
    samples.extend(vec![5i16; 77]);
    let signature = make_signature_from_buffer(samples.clone());
    assert!(!signature.is_empty());
    assert_eq!(make_signature_step_by_step(samples), signature);
}

#[test]
fn a_spectrum_of_another_length_ends_the_run() {
    let measure_nothing = |_: &PeakCandidate| None;
    let short = |_: &Vec<i16>| vec![0u32; 1024];
    assert_eq!(
        SignatureGenerator::make_signature_from_buffer(vec![0i16; 128], short, measure_nothing),
        Err(RunError::BadSpectrum)
    );
    let long = |_: &Vec<i16>| vec![0u32; 1026];
    assert_eq!(
        SignatureGenerator::make_signature_from_buffer(vec![0i16; 4000], long, measure_nothing),
        Err(RunError::BadSpectrum)
    );
    // Without a whole hop nothing is asked.
    assert_eq!(
        SignatureGenerator::make_signature_from_buffer(vec![0i16; 127], short, measure_nothing),
        Ok(DecodedSignature::new(16000, 0))
    );
}

#[test]
fn every_frame_is_asked_once_and_in_order() {
    let asked = std::cell::RefCell::new(Vec::new());
    let analyse = |frame: &Vec<i16>| {
        asked.borrow_mut().push(frame[2047]);
        vec![0u32; 1025]
    };
    let samples: Vec<i16> = (0..1000).map(|i| i as i16).collect();
    let signature =
        SignatureGenerator::make_signature_from_buffer(samples, analyse, |_: &PeakCandidate| None);
    assert_eq!(signature, Ok(DecodedSignature::new(16000, 896)));
    assert_eq!(*asked.borrow(), vec![127, 255, 383, 511, 639, 767, 895]);
}

#[test]
fn a_long_waveform_is_fingerprinted_in_its_middle() {
    // A tone of one second in the middle of five seconds, the rest silence.
    let mut samples = vec![0i16; 32000];
    samples.extend(tone(441.0, 1.0, 20000.0));
    samples.extend(vec![0i16; 32000]);
    let window = window();
    let fft = std::cell::RefCell::new(RFft1D::<f32>::new(2048));
    let analyse = |frame: &Vec<i16>| analyse(&mut fft.borrow_mut(), &window, frame);
    let whole =
        SignatureGenerator::make_signature_from_samples(&samples, None, &analyse, measure).unwrap();
    assert_eq!(whole.number_samples, 80000);
    assert_eq!(whole, make_signature_from_buffer(samples.clone()));
    let middle =
        SignatureGenerator::make_signature_from_samples(&samples, Some(1), &analyse, measure)
            .unwrap();
    assert_eq!(middle.number_samples, 16000);
    assert_eq!(middle, make_signature_from_buffer(samples[32000..48000].to_vec()));
    let three =
        SignatureGenerator::make_signature_from_samples(&samples, Some(3), &analyse, measure)
            .unwrap();
    assert_eq!(three.number_samples, 48000);
    assert_eq!(three, make_signature_from_buffer(samples[16000..64000].to_vec()));
    assert!(!three.is_empty());
}
