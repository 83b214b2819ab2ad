//! The signature: peaks by frequency band, and the band a frequency bin falls in.

use vstd::prelude::*;

verus! {

/// Sample rate of every waveform the pipeline analyses, in hertz.
pub const SAMPLE_RATE_HZ: u32 = 16000;

/// Number of frequency bands.
pub const BAND_COUNT: usize = 4;

/// The four frequency ranges in which peaks are kept, each closed below and open above.
#[derive(Debug, Clone, Copy, PartialEq, Eq, Structural, Hash)]
pub enum FrequencyBand {
    /// 250 Hz up to 520 Hz.
    _250_520,
    /// 520 Hz up to 1450 Hz.
    _520_1450,
    /// 1450 Hz up to 3500 Hz.
    _1450_3500,
    /// 3500 Hz up to 5500 Hz.
    _3500_5500,
}

/// One accepted local maximum in time and frequency.
#[derive(Debug, Clone, Copy, PartialEq, Eq, Structural)]
pub struct FrequencyPeak {
    /// Hops since the start of the waveform, less the pipeline's latency.
    pub fft_pass_number: u32,
    /// Quantised logarithmic amplitude.
    pub peak_magnitude: u16,
    /// Corrected frequency in sixty-fourths of a bin.
    pub corrected_peak_frequency_bin: u16,
}

/// The frequency of a corrected bin is `bin * 8000 / (1024 * 64)` Hz, that is
/// `bin * 125 / 1024` Hz. This is that frequency times 1024.
pub open spec fn frequency_times_1024(corrected_bin: u16) -> int {
    corrected_bin as int * 125
}

/// The band whose range holds the frequency of a corrected bin, if any does.
pub open spec fn band_of_bin(corrected_bin: u16) -> Option<FrequencyBand> {
    let f = frequency_times_1024(corrected_bin);
    if 250 * 1024 <= f < 520 * 1024 {
        Some(FrequencyBand::_250_520)
    } else if 520 * 1024 <= f < 1450 * 1024 {
        Some(FrequencyBand::_520_1450)
    } else if 1450 * 1024 <= f < 3500 * 1024 {
        Some(FrequencyBand::_1450_3500)
    } else if 3500 * 1024 <= f < 5500 * 1024 {
        Some(FrequencyBand::_3500_5500)
    } else {
        None
    }
}

impl FrequencyBand {
    /// Position of the band, lowest first.
    pub open spec fn spec_index(self) -> int {
        match self {
            FrequencyBand::_250_520 => 0,
            FrequencyBand::_520_1450 => 1,
            FrequencyBand::_1450_3500 => 2,
            FrequencyBand::_3500_5500 => 3,
        }
    }

    /// The band at a position, lowest first.
    pub open spec fn spec_from_index(index: int) -> FrequencyBand {
        if index == 0 {
            FrequencyBand::_250_520
        } else if index == 1 {
            FrequencyBand::_520_1450
        } else if index == 2 {
            FrequencyBand::_1450_3500
        } else {
            FrequencyBand::_3500_5500
        }
    }

    /// Position of the band, lowest first.
    pub fn index(self) -> (index: usize)
        ensures
            index == self.spec_index(),
            index < BAND_COUNT,
    {
        match self {
            FrequencyBand::_250_520 => 0,
            FrequencyBand::_520_1450 => 1,
            FrequencyBand::_1450_3500 => 2,
            FrequencyBand::_3500_5500 => 3,
        }
    }

    /// The band at a position below four, lowest first.
    pub fn from_index(index: usize) -> (band: Option<FrequencyBand>)
        ensures
            band == if index < BAND_COUNT {
                Some(FrequencyBand::spec_from_index(index as int))
            } else {
                None
            },
    {
        if index == 0 {
            Some(FrequencyBand::_250_520)
        } else if index == 1 {
            Some(FrequencyBand::_520_1450)
        } else if index == 2 {
            Some(FrequencyBand::_1450_3500)
        } else if index == 3 {
            Some(FrequencyBand::_3500_5500)
        } else {
            None
        }
    }

    /// The band in which a corrected bin falls. A bin below 250 Hz or at or above
    /// 5500 Hz falls in none.
    pub fn of_corrected_bin(corrected_bin: u16) -> (band: Option<FrequencyBand>)
        ensures
            band == band_of_bin(corrected_bin),
    {
        let scaled: u32 = corrected_bin as u32 * 125;
        if scaled < 250 * 1024 {
            None
        } else if scaled < 520 * 1024 {
            Some(FrequencyBand::_250_520)
        } else if scaled < 1450 * 1024 {
            Some(FrequencyBand::_520_1450)
        } else if scaled < 3500 * 1024 {
            Some(FrequencyBand::_1450_3500)
        } else if scaled < 5500 * 1024 {
            Some(FrequencyBand::_3500_5500)
        } else {
            None
        }
    }
}

/// What a signature holds: the stream's metadata and, for each band by its position,
/// the band's peaks in the order of their detection.
pub struct SignatureModel {
    pub sample_rate_hz: u32,
    pub number_samples: u32,
    pub peaks: Seq<Seq<FrequencyPeak>>,
}

impl SignatureModel {
    /// A signature without peaks.
    pub open spec fn empty(sample_rate_hz: u32, number_samples: u32) -> SignatureModel {
        SignatureModel {
            sample_rate_hz,
            number_samples,
            peaks: Seq::new(BAND_COUNT as nat, |i: int| Seq::<FrequencyPeak>::empty()),
        }
    }

    /// There is one sequence of peaks for each band.
    pub open spec fn wf(self) -> bool {
        self.peaks.len() == BAND_COUNT
    }

    /// The peaks of a band.
    pub open spec fn band(self, band: FrequencyBand) -> Seq<FrequencyPeak> {
        self.peaks[band.spec_index()]
    }

    /// No band holds a peak.
    pub open spec fn has_no_peaks(self) -> bool {
        forall|i: int| 0 <= i < self.peaks.len() ==> (#[trigger] self.peaks[i]).len() == 0
    }

    /// Every peak lies in the band of its corrected bin.
    pub open spec fn peaks_in_their_bands(self) -> bool {
        forall|b: int, j: int|
            0 <= b < self.peaks.len() && 0 <= j < self.peaks[b].len() ==> band_of_bin(
                (#[trigger] self.peaks[b][j]).corrected_peak_frequency_bin,
            ) == Some(FrequencyBand::spec_from_index(b))
    }

    /// No peak has a pass number above `last`.
    pub open spec fn passes_up_to(self, last: int) -> bool {
        forall|b: int, j: int|
            0 <= b < self.peaks.len() && 0 <= j < self.peaks[b].len() ==> (
            #[trigger] self.peaks[b][j]).fft_pass_number <= last
    }

    /// Within each band the peaks stand in the order of their detection: pass numbers
    /// never fall.
    pub open spec fn in_detection_order(self) -> bool {
        forall|b: int, j: int, k: int|
            0 <= b < self.peaks.len() && 0 <= j <= k < self.peaks[b].len() ==> (
            #[trigger] self.peaks[b][j]).fft_pass_number <= (
            #[trigger] self.peaks[b][k]).fft_pass_number
    }

    /// The signature with one more peak at the end of a band.
    pub open spec fn with_peak(self, band: FrequencyBand, peak: FrequencyPeak) -> SignatureModel {
        SignatureModel {
            peaks: self.peaks.update(band.spec_index(), self.band(band).push(peak)),
            ..self
        }
    }
}

/// A peak added to the band of its corrected bin, with a pass number not below the
/// earlier ones, keeps a signature in order.
pub proof fn lemma_with_peak_keeps_order(
    signature: SignatureModel,
    band: FrequencyBand,
    peak: FrequencyPeak,
)
    requires
        signature.wf(),
        signature.peaks_in_their_bands(),
        signature.passes_up_to(peak.fft_pass_number as int),
        signature.in_detection_order(),
        band_of_bin(peak.corrected_peak_frequency_bin) == Some(band),
    ensures
        signature.with_peak(band, peak).wf(),
        signature.with_peak(band, peak).peaks_in_their_bands(),
        signature.with_peak(band, peak).passes_up_to(peak.fft_pass_number as int),
        signature.with_peak(band, peak).in_detection_order(),
        signature.with_peak(band, peak).sample_rate_hz == signature.sample_rate_hz,
        signature.with_peak(band, peak).number_samples == signature.number_samples,
{
    let after = signature.with_peak(band, peak);
    let i = band.spec_index();
    assert forall|b: int, j: int| 0 <= b < after.peaks.len() && 0 <= j < after.peaks[b].len() implies
        band_of_bin((#[trigger] after.peaks[b][j]).corrected_peak_frequency_bin) == Some(
        FrequencyBand::spec_from_index(b),
    ) && after.peaks[b][j].fft_pass_number <= peak.fft_pass_number by {
        if b == i && j == signature.peaks[b].len() {
        } else {
            assert(after.peaks[b][j] == signature.peaks[b][j]);
        }
    }
    assert forall|b: int, j: int, k: int|
        0 <= b < after.peaks.len() && 0 <= j <= k < after.peaks[b].len() implies (
    #[trigger] after.peaks[b][j]).fft_pass_number <= (
    #[trigger] after.peaks[b][k]).fft_pass_number by {
        if b == i && k == signature.peaks[b].len() {
            if j < k {
                assert(after.peaks[b][j] == signature.peaks[b][j]);
            }
        } else {
            assert(after.peaks[b][j] == signature.peaks[b][j]);
            assert(after.peaks[b][k] == signature.peaks[b][k]);
        }
    }
}

/// The fingerprint of a waveform: peaks by frequency band, with the rate and the number
/// of the samples they were found in.
#[derive(Debug, Clone, PartialEq, Eq)]
pub struct DecodedSignature {
    /// Samples per second of the analysed waveform.
    pub sample_rate_hz: u32,
    /// Number of samples that were analysed.
    pub number_samples: u32,
    /// Peaks between 250 Hz and 520 Hz, in detection order.
    pub peaks_250_520: Vec<FrequencyPeak>,
    /// Peaks between 520 Hz and 1450 Hz, in detection order.
    pub peaks_520_1450: Vec<FrequencyPeak>,
    /// Peaks between 1450 Hz and 3500 Hz, in detection order.
    pub peaks_1450_3500: Vec<FrequencyPeak>,
    /// Peaks between 3500 Hz and 5500 Hz, in detection order.
    pub peaks_3500_5500: Vec<FrequencyPeak>,
}

impl View for DecodedSignature {
    type V = SignatureModel;

    open spec fn view(&self) -> SignatureModel {
        SignatureModel {
            sample_rate_hz: self.sample_rate_hz,
            number_samples: self.number_samples,
            peaks: seq![
                self.peaks_250_520@,
                self.peaks_520_1450@,
                self.peaks_1450_3500@,
                self.peaks_3500_5500@,
            ],
        }
    }
}

impl DecodedSignature {
    /// A signature without peaks.
    pub fn new(sample_rate_hz: u32, number_samples: u32) -> (signature: Self)
        ensures
            signature@ == SignatureModel::empty(sample_rate_hz, number_samples),
    {
        let signature = DecodedSignature {
            sample_rate_hz,
            number_samples,
            peaks_250_520: Vec::new(),
            peaks_520_1450: Vec::new(),
            peaks_1450_3500: Vec::new(),
            peaks_3500_5500: Vec::new(),
        };
        assert(signature@.peaks =~= SignatureModel::empty(sample_rate_hz, number_samples).peaks);
        signature
    }

    /// The peaks of a band, in detection order.
    pub fn peaks(&self, band: FrequencyBand) -> (peaks: &Vec<FrequencyPeak>)
        ensures
            peaks@ == self@.band(band),
    {
        match band {
            FrequencyBand::_250_520 => &self.peaks_250_520,
            FrequencyBand::_520_1450 => &self.peaks_520_1450,
            FrequencyBand::_1450_3500 => &self.peaks_1450_3500,
            FrequencyBand::_3500_5500 => &self.peaks_3500_5500,
        }
    }

    /// Appends a peak to a band.
    pub fn push_peak(&mut self, band: FrequencyBand, peak: FrequencyPeak)
        ensures
            final(self)@ == old(self)@.with_peak(band, peak),
    {
        match band {
            FrequencyBand::_250_520 => self.peaks_250_520.push(peak),
            FrequencyBand::_520_1450 => self.peaks_520_1450.push(peak),
            FrequencyBand::_1450_3500 => self.peaks_1450_3500.push(peak),
            FrequencyBand::_3500_5500 => self.peaks_3500_5500.push(peak),
        }
        assert(self@.peaks =~= old(self)@.with_peak(band, peak).peaks);
    }

    /// Whether no band holds a peak.
    pub fn is_empty(&self) -> (empty: bool)
        ensures
            empty == self@.has_no_peaks(),
    {
        let empty = self.peaks_250_520.len() == 0 && self.peaks_520_1450.len() == 0
            && self.peaks_1450_3500.len() == 0 && self.peaks_3500_5500.len() == 0;
        proof {
            if empty {
                assert(self@.has_no_peaks());
            } else {
                assert(self@.peaks[0] == self.peaks_250_520@);
                assert(self@.peaks[1] == self.peaks_520_1450@);
                assert(self@.peaks[2] == self.peaks_1450_3500@);
                assert(self@.peaks[3] == self.peaks_3500_5500@);
            }
        }
        empty
    }
}

} // verus!
