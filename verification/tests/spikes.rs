//! The peak tests on spectra made by hand.

use shazamio_core::fingerprinting::algorithm::SignatureGenerator;
use shazamio_core::fingerprinting::pipeline::PeakMeasure;
use shazamio_core::fingerprinting::signature_format::{FrequencyBand, FrequencyPeak};
use shazamio_core::fingerprinting::spectra::{PeakCandidate, PEAK_FLOOR};

const LOUD: u32 = 0x4000_0000;

fn spectrum_with(levels: &[(usize, u32)]) -> Vec<u32> {
    let mut spectrum = vec![0u32; 1025];
    for (bin, level) in levels {
        spectrum[*bin] = *level;
    }
    spectrum
}

/// Runs `hops` hops; `spectrum_of` gives the spectrum of each, `measure` is given to
/// every candidate. Hands back the candidates of each hop and the generator.
fn drive(
    hops: usize,
    spectrum_of: &dyn Fn(usize) -> Vec<u32>,
    measure: Option<PeakMeasure>,
) -> (Vec<Vec<PeakCandidate>>, SignatureGenerator) {
    let mut generator = SignatureGenerator::new(vec![0i16; hops * 128]);
    let mut found = Vec::new();
    for hop in 0..hops {
        assert!(generator.next_frame().is_some());
        generator.push_spectrum(spectrum_of(hop));
        let pending = generator.pending().clone();
        generator.push_measures(&vec![measure; pending.len()]);
        found.push(pending);
    }
    assert!(generator.next_frame().is_none());
    (found, generator)
}

#[test]
fn a_lone_spike_is_a_candidate_46_hops_later() {
    let spike = |hop: usize| if hop == 5 { spectrum_with(&[(500, LOUD)]) } else { vec![0u32; 1025] };
    let measure = Some(PeakMeasure { magnitude: 9000, shift: 3 });
    let (found, generator) = drive(60, &spike, measure);
    for (hop, candidates) in found.iter().enumerate() {
        if hop == 50 {
            assert_eq!(
                candidates,
                &vec![PeakCandidate { bin_position: 500, level_before: 0, level: LOUD, level_after: 0 }]
            );
        } else {
            assert!(candidates.is_empty());
        }
    }
    let signature = generator.into_signature();
    assert_eq!(
        signature.peaks(FrequencyBand::_3500_5500),
        &vec![FrequencyPeak {
            fft_pass_number: 5,
            peak_magnitude: 9000,
            corrected_peak_frequency_bin: 32003,
        }]
    );
    assert!(signature.peaks(FrequencyBand::_250_520).is_empty());
    assert!(signature.peaks(FrequencyBand::_520_1450).is_empty());
    assert!(signature.peaks(FrequencyBand::_1450_3500).is_empty());
}

#[test]
fn a_spike_in_the_first_hop_is_found_at_the_46th() {
    let spike = |hop: usize| if hop == 0 { spectrum_with(&[(100, LOUD)]) } else { vec![0u32; 1025] };
    let (found, generator) = drive(46, &spike, Some(PeakMeasure { magnitude: 1, shift: -32 }));
    for candidates in &found[..45] {
        assert!(candidates.is_empty());
    }
    assert_eq!(found[45].len(), 1);
    assert_eq!(found[45][0].bin_position, 100);
    let signature = generator.into_signature();
    assert_eq!(
        signature.peaks(FrequencyBand::_520_1450),
        &vec![FrequencyPeak {
            fft_pass_number: 0,
            peak_magnitude: 1,
            corrected_peak_frequency_bin: 6368,
        }]
    );
}

#[test]
fn a_level_below_the_floor_is_no_candidate() {
    let quiet = |hop: usize| {
        if hop == 5 {
            spectrum_with(&[(500, PEAK_FLOOR - 1)])
        } else {
            vec![0u32; 1025]
        }
    };
    let (found, generator) = drive(60, &quiet, Some(PeakMeasure { magnitude: 9000, shift: 0 }));
    assert!(found.iter().all(|candidates| candidates.is_empty()));
    assert!(generator.into_signature().is_empty());
    let at_floor =
        |hop: usize| if hop == 5 { spectrum_with(&[(500, PEAK_FLOOR)]) } else { vec![0u32; 1025] };
    let (found, _) = drive(60, &at_floor, None);
    assert_eq!(found[50].len(), 1);
}

#[test]
fn bins_outside_10_to_1014_are_not_searched() {
    for bin in [0usize, 9, 1015, 1024] {
        let spike =
            move |hop: usize| if hop == 5 { spectrum_with(&[(bin, LOUD)]) } else { vec![0u32; 1025] };
        let (found, _) = drive(60, &spike, None);
        assert!(found.iter().all(|candidates| candidates.is_empty()));
    }
    for bin in [10usize, 1014] {
        let spike =
            move |hop: usize| if hop == 5 { spectrum_with(&[(bin, LOUD)]) } else { vec![0u32; 1025] };
        let (found, _) = drive(60, &spike, None);
        assert_eq!(found[50].len(), 1);
        assert_eq!(found[50][0].bin_position as usize, bin);
    }
}

#[test]
fn a_louder_neighbour_in_frequency_hides_a_spike() {
    // The baseline at the offsets 1 and 2 covers the bins 501 to 504.
    for neighbour in [501usize, 502, 503, 504, 508, 510, 490, 491, 497, 499] {
        let spikes = move |hop: usize| {
            if hop == 5 {
                spectrum_with(&[(500, LOUD), (neighbour, LOUD + 1)])
            } else {
                vec![0u32; 1025]
            }
        };
        let (found, _) = drive(60, &spikes, None);
        assert!(found[50].iter().all(|candidate| candidate.bin_position != 500));
    }
    // The bin 505 is covered by none of the offsets.
    let spikes = |hop: usize| {
        if hop == 5 {
            spectrum_with(&[(500, LOUD), (505, LOUD - 1)])
        } else {
            vec![0u32; 1025]
        }
    };
    let (found, _) = drive(60, &spikes, None);
    assert!(found[50].iter().any(|candidate| candidate.bin_position == 500));
}

#[test]
fn an_equal_level_in_a_neighbouring_hop_hides_a_spike() {
    // The spread spectra that a peak has to exceed cover the hop before and the hop
    // after the searched one.
    let spikes = |hop: usize| {
        if hop == 5 || hop == 6 {
            spectrum_with(&[(500, LOUD)])
        } else {
            vec![0u32; 1025]
        }
    };
    let (found, _) = drive(60, &spikes, None);
    assert!(found.iter().all(|candidates| candidates.is_empty()));
    // A lower level does not hide it.
    let spikes = |hop: usize| {
        if hop == 5 {
            spectrum_with(&[(500, LOUD)])
        } else if hop == 6 || hop == 4 {
            spectrum_with(&[(500, LOUD - 1)])
        } else {
            vec![0u32; 1025]
        }
    };
    let (found, _) = drive(60, &spikes, None);
    assert_eq!(found[50].len(), 1);
    assert!(found[49].is_empty());
    assert!(found[51].is_empty());
}

#[test]
fn an_equal_level_three_hops_apart_hides_nothing() {
    // The baseline covers the hops three before and three after the searched one, and
    // a peak has to reach the baseline, not to exceed it.
    let spikes = |hop: usize| {
        if hop == 5 || hop == 8 {
            spectrum_with(&[(500, LOUD)])
        } else {
            vec![0u32; 1025]
        }
    };
    let (found, _) = drive(60, &spikes, None);
    assert_eq!(found[50].len(), 1);
    assert_eq!(found[53].len(), 1);
}

#[test]
fn candidates_come_lowest_bin_first() {
    let spikes = |hop: usize| {
        if hop == 5 {
            spectrum_with(&[(800, LOUD), (40, LOUD), (300, LOUD)])
        } else {
            vec![0u32; 1025]
        }
    };
    let (found, generator) = drive(60, &spikes, Some(PeakMeasure { magnitude: 7, shift: 0 }));
    let bins: Vec<u16> = found[50].iter().map(|candidate| candidate.bin_position).collect();
    assert_eq!(bins, vec![40, 300, 800]);
    let signature = generator.into_signature();
    // 40 * 64 * 125 / 1024 = 312.5 Hz, 300 gives 2343.75 Hz, 800 gives 6250 Hz.
    assert_eq!(signature.peaks(FrequencyBand::_250_520).len(), 1);
    assert_eq!(signature.peaks(FrequencyBand::_1450_3500).len(), 1);
    assert!(signature.peaks(FrequencyBand::_520_1450).is_empty());
    assert!(signature.peaks(FrequencyBand::_3500_5500).is_empty());
}

#[test]
fn a_candidate_without_a_measure_makes_no_peak() {
    let spike = |hop: usize| if hop == 5 { spectrum_with(&[(500, LOUD)]) } else { vec![0u32; 1025] };
    let (found, generator) = drive(60, &spike, None);
    assert_eq!(found[50].len(), 1);
    assert!(generator.into_signature().is_empty());
}

#[test]
fn magnitude_and_corrected_bin_are_cut_to_16_bits() {
    let spike = |hop: usize| if hop == 5 { spectrum_with(&[(100, LOUD)]) } else { vec![0u32; 1025] };
    let measure = Some(PeakMeasure { magnitude: 65536 + 77, shift: 65536 * 3 - 1 });
    let (_, generator) = drive(60, &spike, measure);
    let signature = generator.into_signature();
    assert_eq!(
        signature.peaks(FrequencyBand::_520_1450),
        &vec![FrequencyPeak {
            fft_pass_number: 5,
            peak_magnitude: 77,
            corrected_peak_frequency_bin: 6399,
        }]
    );
    let measure = Some(PeakMeasure { magnitude: -1, shift: -65536 });
    let (_, generator) = drive(60, &spike, measure);
    let signature = generator.into_signature();
    assert_eq!(
        signature.peaks(FrequencyBand::_520_1450),
        &vec![FrequencyPeak {
            fft_pass_number: 5,
            peak_magnitude: 65535,
            corrected_peak_frequency_bin: 6400,
        }]
    );
}

#[test]
fn peaks_stand_in_detection_order() {
    let spikes = |hop: usize| {
        if hop % 50 == 0 {
            spectrum_with(&[(200, LOUD)])
        } else {
            vec![0u32; 1025]
        }
    };
    let (_, generator) = drive(400, &spikes, Some(PeakMeasure { magnitude: 5, shift: 1 }));
    let signature = generator.into_signature();
    let passes: Vec<u32> =
        signature.peaks(FrequencyBand::_1450_3500).iter().map(|p| p.fft_pass_number).collect();
    assert_eq!(passes, vec![0, 50, 100, 150, 200, 250, 300, 350]);
}
