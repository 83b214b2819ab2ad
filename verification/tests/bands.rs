//! The band of a corrected frequency bin.

use shazamio_core::fingerprinting::signature_format::{
    DecodedSignature, FrequencyBand, FrequencyPeak,
};

fn frequency_of(corrected_bin: u16) -> f64 {
    corrected_bin as f64 * 8000.0 / 1024.0 / 64.0
}

#[test]
fn a_peak_just_below_520_hz_falls_in_the_lowest_band() {
    // 4259 is the last bin below 520 Hz: 519.897 Hz.
    assert!(frequency_of(4259) < 520.0);
    assert!((frequency_of(4259) - 519.9).abs() < 0.01);
    assert_eq!(FrequencyBand::of_corrected_bin(4259), Some(FrequencyBand::_250_520));
}

#[test]
fn a_peak_at_520_hz_falls_in_the_second_band() {
    // 4260 is the first bin at or above 520 Hz: 520.02 Hz.
    assert!(frequency_of(4260) >= 520.0);
    assert!((frequency_of(4260) - 520.0).abs() < 0.03);
    assert_eq!(FrequencyBand::of_corrected_bin(4260), Some(FrequencyBand::_520_1450));
}

#[test]
fn peaks_below_250_hz_are_discarded() {
    assert_eq!(frequency_of(2048), 250.0);
    assert_eq!(FrequencyBand::of_corrected_bin(2048), Some(FrequencyBand::_250_520));
    assert_eq!(FrequencyBand::of_corrected_bin(2047), None);
    assert_eq!(FrequencyBand::of_corrected_bin(640), None);
    assert_eq!(FrequencyBand::of_corrected_bin(0), None);
}

#[test]
fn peaks_at_or_above_5500_hz_are_discarded() {
    assert_eq!(frequency_of(45056), 5500.0);
    assert_eq!(FrequencyBand::of_corrected_bin(45056), None);
    assert_eq!(FrequencyBand::of_corrected_bin(45055), Some(FrequencyBand::_3500_5500));
    assert_eq!(FrequencyBand::of_corrected_bin(45063), None);
    assert_eq!(FrequencyBand::of_corrected_bin(65535), None);
}

#[test]
fn the_inner_band_edges_belong_to_the_band_above() {
    // 1450 Hz lies between the bins 11878 and 11879, 3500 Hz is the bin 28672.
    assert_eq!(FrequencyBand::of_corrected_bin(11878), Some(FrequencyBand::_520_1450));
    assert_eq!(FrequencyBand::of_corrected_bin(11879), Some(FrequencyBand::_1450_3500));
    assert_eq!(frequency_of(28672), 3500.0);
    assert_eq!(FrequencyBand::of_corrected_bin(28671), Some(FrequencyBand::_1450_3500));
    assert_eq!(FrequencyBand::of_corrected_bin(28672), Some(FrequencyBand::_3500_5500));
}

#[test]
fn every_bin_falls_in_the_band_of_its_frequency() {
    for bin in 0..=u16::MAX {
        let frequency = frequency_of(bin);
        let expected = if (250.0..520.0).contains(&frequency) {
            Some(FrequencyBand::_250_520)
        } else if (520.0..1450.0).contains(&frequency) {
            Some(FrequencyBand::_520_1450)
        } else if (1450.0..3500.0).contains(&frequency) {
            Some(FrequencyBand::_1450_3500)
        } else if (3500.0..5500.0).contains(&frequency) {
            Some(FrequencyBand::_3500_5500)
        } else {
            None
        };
        assert_eq!(FrequencyBand::of_corrected_bin(bin), expected);
    }
}

#[test]
fn bands_have_positions() {
    let bands = [
        FrequencyBand::_250_520,
        FrequencyBand::_520_1450,
        FrequencyBand::_1450_3500,
        FrequencyBand::_3500_5500,
    ];
    for (index, band) in bands.iter().enumerate() {
        assert_eq!(band.index(), index);
        assert_eq!(FrequencyBand::from_index(index), Some(*band));
    }
    assert_eq!(FrequencyBand::from_index(4), None);
}

#[test]
fn a_signature_keeps_its_peaks_by_band() {
    let mut signature = DecodedSignature::new(16000, 256);
    assert!(signature.is_empty());
    let first = FrequencyPeak { fft_pass_number: 1, peak_magnitude: 2, corrected_peak_frequency_bin: 3000 };
    let second = FrequencyPeak { fft_pass_number: 4, peak_magnitude: 5, corrected_peak_frequency_bin: 3001 };
    signature.push_peak(FrequencyBand::_250_520, first);
    signature.push_peak(FrequencyBand::_3500_5500, second);
    signature.push_peak(FrequencyBand::_250_520, second);
    assert!(!signature.is_empty());
    assert_eq!(signature.peaks(FrequencyBand::_250_520), &vec![first, second]);
    assert_eq!(signature.peaks(FrequencyBand::_3500_5500), &vec![second]);
    assert!(signature.peaks(FrequencyBand::_520_1450).is_empty());
    assert!(signature.peaks(FrequencyBand::_1450_3500).is_empty());
    assert_eq!(signature.peaks_250_520, vec![first, second]);
}
