//! The signature generator: a waveform goes in hop by hop, peaks come out.
//!
//! The generator decides; its caller computes. For every hop the generator hands out
//! the frame to transform, takes the power spectrum of that frame as levels, names the
//! bins that are peaks, takes their measures and files the peaks by band.

use vstd::prelude::*;
use crate::fingerprinting::pipeline::{
    after_answers, analysed_length, answers_fit, filed, filed_all, frame_at, hops_in,
    lemma_after_answers_wf, lemma_after_answers_with, lemma_analysed_length, lemma_latency_floor,
    lemma_start_wf, lemma_with_frame_wf, lemma_with_measures_wf, lemma_with_spectrum_wf,
    low_16_bits, Answers, GeneratorModel, PeakMeasure, Phase,
};
use crate::fingerprinting::signature_format::{
    DecodedSignature, FrequencyBand, FrequencyPeak, SAMPLE_RATE_HZ,
};
use crate::params::{SearchParams, DEFAULT_SEGMENT_DURATION_SECONDS};
use crate::fingerprinting::histories::{
    do_peak_spreading, exceeds_frequency_neighbours, exceeds_time_neighbours, histories_hold,
    histories_step, lemma_cursor_after_hop, lemma_frame_of_ring, lemma_histories_after_hop,
    lemma_histories_hold_spectra, lemma_peak_tests, lemma_ring_after_hop, lemma_slot_of_sum,
    reordered, ring_holds, row_holds, rows_are_spectra, slot_at, write_hop, WINDOW_MASK,
};
use crate::fingerprinting::spectra::{
    are_spectra, candidates, candidates_below, hop_in_slot, is_peak, is_spectrum, raw_spectrum,
    spread_spectrum, PeakCandidate, BIN_COUNT, FIRST_BIN, PEAK_FLOOR, HISTORY_SIZE, HOP_SIZE,
    LAST_BIN, LATENCY_HOPS, WINDOW_SIZE,
};

verus! {

/// Samples in a segment of the given duration.
pub open spec fn segment_target(duration_seconds: u32) -> nat {
    duration_seconds as nat * SAMPLE_RATE_HZ as nat
}

/// Where the segment of a waveform starts: at the start of a waveform no longer than
/// the target, else half a target before the middle.
pub open spec fn segment_start(length: nat, target: nat) -> nat {
    if length <= target {
        0
    } else {
        (length / 2 - target / 2) as nat
    }
}

/// Where the segment of a waveform ends: at the end of a waveform no longer than the
/// target, else half a target after the middle.
pub open spec fn segment_end(length: nat, target: nat) -> nat {
    if length <= target {
        length
    } else {
        length / 2 + target / 2
    }
}

/// The part of a waveform that is fingerprinted: all of a waveform no longer than the
/// target duration, else the samples from half a target before the middle up to half
/// a target after it.
pub open spec fn segment_of(samples: Seq<i16>, duration_seconds: u32) -> Seq<i16> {
    let target = segment_target(duration_seconds);
    samples.subrange(
        segment_start(samples.len(), target) as int,
        segment_end(samples.len(), target) as int,
    )
}

/// Cuts the segment to fingerprint out of a waveform of mono 16 kHz samples.
pub fn select_segment(samples: &Vec<i16>, duration_seconds: u32) -> (segment: Vec<i16>)
    ensures
        segment@ == segment_of(samples@, duration_seconds),
        samples@.len() <= segment_target(duration_seconds) ==> segment@ == samples@,
        samples@.len() > segment_target(duration_seconds) ==> segment@.len() == segment_target(
            duration_seconds,
        ),
{
    let length: usize = samples.len();
    let target: u64 = duration_seconds as u64 * SAMPLE_RATE_HZ as u64;
    let mut start: usize = 0;
    let mut end: usize = length;
    if length as u64 > target {
        let half: usize = (target / 2) as usize;
        let middle: usize = length / 2;
        start = middle - half;
        end = middle + half;
    }
    let mut segment: Vec<i16> = Vec::with_capacity(end - start);
    let mut i: usize = start;
    while i < end
        invariant
            start <= i <= end <= samples@.len(),
            segment@ == samples@.subrange(start as int, i as int),
        decreases end - i,
    {
        segment.push(samples[i]);
        assert(samples@.subrange(start as int, i as int).push(samples@[i as int])
            =~= samples@.subrange(start as int, i + 1));
        i += 1;
    }
    proof {
        if samples@.len() <= segment_target(duration_seconds) {
            assert(segment@ =~= samples@);
        }
    }
    segment
}

/// Why a run gave no signature.
#[derive(Debug, Clone, Copy, PartialEq, Eq, Structural)]
pub enum RunError {
    /// The waveform holds more samples than a 32-bit number can count.
    TooLong,
    /// A frame was answered with other than one level for each of the 1025 bins.
    BadSpectrum,
}

/// Whether levels are an answer of `analyse` to a frame.
pub open spec fn is_spectrum_of<A: Fn(&Vec<i16>) -> Vec<u32>>(
    analyse: A,
    frame: Seq<i16>,
    levels: Seq<u32>,
) -> bool {
    exists|given: Vec<i16>, taken: Vec<u32>|
        given@ == frame && taken@ == levels && #[trigger] call_ensures(analyse, (&given,), taken)
}

/// Whether measures are the answers of `measure` to candidates, one to each in their
/// order.
pub open spec fn are_measures_of<M: Fn(&PeakCandidate) -> Option<PeakMeasure>>(
    measure: M,
    pending: Seq<PeakCandidate>,
    measures: Seq<Option<PeakMeasure>>,
) -> bool {
    &&& measures.len() == pending.len()
    &&& forall|i: int|
        0 <= i < pending.len() ==> call_ensures(measure, (&pending[i],), #[trigger] measures[i])
}

/// Whether answers are what `analyse` and `measure` answered in the first `hops` hops
/// of a run: to each hop's frame a spectrum, and to the candidates that the spectra up
/// to the hop bring their measures.
pub open spec fn answered_by<
    A: Fn(&Vec<i16>) -> Vec<u32>,
    M: Fn(&PeakCandidate) -> Option<PeakMeasure>,
>(analyse: A, measure: M, samples: Seq<i16>, answers: Answers, hops: nat) -> bool {
    &&& answers.spectra.len() == hops
    &&& answers.measures.len() == hops
    &&& forall|hop: int|
        0 <= hop < hops ==> is_spectrum(#[trigger] answers.spectra[hop]) && is_spectrum_of(
            analyse,
            frame_at(samples, hop),
            answers.spectra[hop],
        )
    &&& forall|hop: int|
        0 <= hop < hops ==> are_measures_of(
            measure,
            candidates(answers.spectra.take(hop + 1)),
            #[trigger] answers.measures[hop],
        )
}

/// Whether a result is a result of fingerprinting a waveform with `analyse` and
/// `measure`: the signature of the run with answers that the two gave; `TooLong` for a
/// waveform of more than 2^32 - 1 samples; `BadSpectrum` where `analyse` answered a
/// frame of the waveform with other than a spectrum.
pub open spec fn is_run_result<
    A: Fn(&Vec<i16>) -> Vec<u32>,
    M: Fn(&PeakCandidate) -> Option<PeakMeasure>,
>(analyse: A, measure: M, samples: Seq<i16>, result: Result<DecodedSignature, RunError>) -> bool {
    match result {
        Ok(signature) => {
            &&& samples.len() <= u32::MAX
            &&& exists|answers: Answers|
                {
                    &&& answered_by(analyse, measure, samples, answers, hops_in(samples.len()))
                    &&& signature@ == (#[trigger] after_answers(
                        samples,
                        answers,
                        hops_in(samples.len()),
                    )).signature
                }
        },
        Err(RunError::TooLong) => samples.len() > u32::MAX,
        Err(RunError::BadSpectrum) => {
            &&& samples.len() <= u32::MAX
            &&& exists|hop: int, levels: Seq<u32>|
                {
                    &&& 0 <= hop < hops_in(samples.len())
                    &&& #[trigger] is_spectrum_of(analyse, frame_at(samples, hop), levels)
                    &&& !is_spectrum(levels)
                }
        },
    }
}

/// Whatever `analyse` and `measure` answer, a signature that fingerprinting gives is
/// in order: it names 16 kHz and the samples that lie in whole hops, every peak lies in
/// the band of its corrected bin, the peaks of a band stand in the order of their
/// detection, no pass number reaches beyond the last searched spectrum, and a waveform
/// of less than 46 hops has no peak at all.
pub proof fn lemma_run_result_is_in_order<
    A: Fn(&Vec<i16>) -> Vec<u32>,
    M: Fn(&PeakCandidate) -> Option<PeakMeasure>,
>(analyse: A, measure: M, samples: Seq<i16>, signature: DecodedSignature)
    requires
        is_run_result(analyse, measure, samples, Ok(signature)),
    ensures
        signature@.wf(),
        signature@.sample_rate_hz == SAMPLE_RATE_HZ,
        signature@.number_samples == analysed_length(samples.len()),
        signature@.peaks_in_their_bands(),
        signature@.in_detection_order(),
        signature@.passes_up_to(hops_in(samples.len()) - LATENCY_HOPS),
        samples.len() < LATENCY_HOPS * HOP_SIZE ==> signature@.has_no_peaks(),
{
    let hops = hops_in(samples.len());
    let answers = choose|answers: Answers|
        {
            &&& answered_by(analyse, measure, samples, answers, hops)
            &&& signature@ == (#[trigger] after_answers(samples, answers, hops)).signature
        };
    assert(answers_fit(answers, hops));
    lemma_after_answers_wf(samples, answers, hops);
    assert(answers.spectra.take(hops as int) =~= answers.spectra);
    lemma_latency_floor(after_answers(samples, answers, hops));
}

/// One more hop answered by `analyse` and `measure` extends their answers.
proof fn lemma_answered_one_more<
    A: Fn(&Vec<i16>) -> Vec<u32>,
    M: Fn(&PeakCandidate) -> Option<PeakMeasure>,
>(
    analyse: A,
    measure: M,
    samples: Seq<i16>,
    answers: Answers,
    levels: Seq<u32>,
    measures: Seq<Option<PeakMeasure>>,
    hops: nat,
)
    requires
        answered_by(analyse, measure, samples, answers, hops),
        is_spectrum(levels),
        is_spectrum_of(analyse, frame_at(samples, hops as int), levels),
        are_measures_of(measure, candidates(answers.spectra.push(levels)), measures),
    ensures
        answered_by(analyse, measure, samples, answers.with(levels, measures), hops + 1),
{
    let after = answers.with(levels, measures);
    assert forall|hop: int| 0 <= hop < hops + 1 implies is_spectrum(
        #[trigger] after.spectra[hop],
    ) && is_spectrum_of(analyse, frame_at(samples, hop), after.spectra[hop]) by {
        if hop < hops {
            assert(after.spectra[hop] == answers.spectra[hop]);
        }
    }
    assert forall|hop: int| 0 <= hop < hops + 1 implies are_measures_of(
        measure,
        candidates(after.spectra.take(hop + 1)),
        #[trigger] after.measures[hop],
    ) by {
        if hop < hops {
            assert(after.measures[hop] == answers.measures[hop]);
            assert(after.spectra.take(hop + 1) =~= answers.spectra.take(hop + 1));
        } else {
            assert(after.spectra.take(hop + 1) =~= answers.spectra.push(levels));
        }
    }
}

/// Asks `measure` for the measure of each candidate.
fn measure_all<M: Fn(&PeakCandidate) -> Option<PeakMeasure>>(
    pending: &Vec<PeakCandidate>,
    measure: &M,
) -> (measures: Vec<Option<PeakMeasure>>)
    requires
        forall|candidate: &PeakCandidate| call_requires(*measure, (candidate,)),
    ensures
        are_measures_of(*measure, pending@, measures@),
{
    let mut measures: Vec<Option<PeakMeasure>> = Vec::new();
    let mut i: usize = 0;
    while i < pending.len()
        invariant
            i <= pending@.len(),
            measures@.len() == i,
            forall|candidate: &PeakCandidate| call_requires(*measure, (candidate,)),
            forall|j: int|
                0 <= j < i ==> call_ensures(*measure, (&pending@[j],), #[trigger] measures@[j]),
        decreases pending@.len() - i,
    {
        let answer = measure(&pending[i]);
        measures.push(answer);
        i += 1;
    }
    measures
}

/// The generator of one run. It owns the waveform, a ring of the latest 2048 samples,
/// the latest 256 spectra and the latest 256 spread spectra.
pub struct SignatureGenerator {
    samples: Vec<i16>,
    next_sample: usize,
    ring_buffer_of_samples: Vec<i16>,
    ring_buffer_of_samples_index: usize,
    fft_outputs: Vec<Vec<u32>>,
    fft_outputs_index: usize,
    spread_fft_outputs: Vec<Vec<u32>>,
    spread_fft_outputs_index: usize,
    num_spread_ffts_done: u32,
    pending: Vec<PeakCandidate>,
    phase: Phase,
    signature: DecodedSignature,
    spectra: Ghost<Seq<Seq<u32>>>,
}

/// The low sixteen bits of a number, by masking.
fn low_16_bits_of(value: i64) -> (low: u16)
    requires
        -0x1_0000_0000 <= value <= 0x1_0000_0000,
    ensures
        low == low_16_bits(value as int),
{
    let lifted: u64 = (value + 0x1_0000_0000) as u64;
    let masked: u64 = lifted & 0xFFFF;
    assert(masked == lifted % 65536) by (bit_vector)
        requires
            masked == lifted & 0xFFFF,
    ;
    assert(lifted as int % 65536 == value as int % 65536) by {
        let x = value as int;
        let d = (x + 0x1_0000_0000) / 65536 - x / 65536 - 65536;
        assert((x + 0x1_0000_0000) % 65536 - x % 65536 == -65536 * d);
    }
    masked as u16
}

/// Files a measured candidate as a peak of the given pass.
fn file_peak(
    signature: &mut DecodedSignature,
    candidate: &PeakCandidate,
    measure: &Option<PeakMeasure>,
    pass: u32,
)
    ensures
        final(signature)@ == filed(old(signature)@, *candidate, *measure, pass),
{
    match measure {
        None => {},
        Some(measure) => {
            let corrected = low_16_bits_of(
                candidate.bin_position as i64 * 64 + measure.shift as i64,
            );
            let peak = FrequencyPeak {
                fft_pass_number: pass,
                peak_magnitude: low_16_bits_of(measure.magnitude as i64),
                corrected_peak_frequency_bin: corrected,
            };
            match FrequencyBand::of_corrected_bin(corrected) {
                None => {},
                Some(band) => {
                    signature.push_peak(band, peak);
                },
            }
        },
    }
}

impl View for SignatureGenerator {
    type V = GeneratorModel;

    closed spec fn view(&self) -> GeneratorModel {
        GeneratorModel {
            samples: self.samples@,
            frames: (self.next_sample / HOP_SIZE) as nat,
            spectra: self.spectra@,
            pending: self.pending@,
            phase: self.phase,
            signature: self.signature@,
        }
    }
}

impl SignatureGenerator {
    /// The ring and its cursor follow the samples that went in.
    spec fn ring_wf(&self) -> bool {
        &&& self.ring_buffer_of_samples@.len() == WINDOW_SIZE
        &&& self.next_sample % HOP_SIZE == 0
        &&& self.next_sample <= self.samples@.len()
        &&& self.ring_buffer_of_samples_index == self.next_sample % WINDOW_SIZE
        &&& ring_holds(self.ring_buffer_of_samples@, self.samples@, self.next_sample as int)
    }

    /// The histories and their cursors follow the spectra that went in.
    spec fn history_wf(&self) -> bool {
        let done = self.spectra@.len() as int;
        &&& are_spectra(self.spectra@)
        &&& self.num_spread_ffts_done == done
        &&& self.fft_outputs_index == done % (HISTORY_SIZE as int)
        &&& self.spread_fft_outputs_index == done % (HISTORY_SIZE as int)
        &&& histories_hold(self.fft_outputs@, self.spread_fft_outputs@, self.spectra@)
    }

    /// The invariant of the generator: the invariant of the run, and arenas that follow
    /// the samples and the spectra that went in.
    pub closed spec fn wf(&self) -> bool {
        &&& self@.wf()
        &&& self.ring_wf()
        &&& self.history_wf()
    }

    /// What holds of every state of a run holds of the generator's state.
    pub proof fn lemma_wf(&self)
        requires
            self.wf(),
        ensures
            self@.wf(),
    {
    }

    /// A row of 1025 zero levels.
    fn zero_row() -> (row: Vec<u32>)
        ensures
            row@ == Seq::new(BIN_COUNT as nat, |p: int| 0u32),
    {
        let mut row: Vec<u32> = Vec::new();
        let mut p: usize = 0;
        while p < BIN_COUNT
            invariant
                p <= BIN_COUNT,
                row@.len() == p,
                forall|q: int| 0 <= q < p ==> row@[q] == 0u32,
            decreases BIN_COUNT - p,
        {
            row.push(0u32);
            p += 1;
        }
        assert(row@ =~= Seq::new(BIN_COUNT as nat, |p: int| 0u32));
        row
    }

    /// A history of 256 rows of zero levels.
    fn zero_history() -> (rows: Vec<Vec<u32>>)
        ensures
            rows@.len() == HISTORY_SIZE,
            forall|slot: int|
                0 <= slot < HISTORY_SIZE ==> (#[trigger] rows@[slot])@ == Seq::new(
                    BIN_COUNT as nat,
                    |p: int| 0u32,
                ),
    {
        let mut rows: Vec<Vec<u32>> = Vec::new();
        let mut slot: usize = 0;
        while slot < HISTORY_SIZE
            invariant
                slot <= HISTORY_SIZE,
                rows@.len() == slot,
                forall|s: int|
                    0 <= s < slot ==> (#[trigger] rows@[s])@ == Seq::new(
                        BIN_COUNT as nat,
                        |p: int| 0u32,
                    ),
            decreases HISTORY_SIZE - slot,
        {
            rows.push(Self::zero_row());
            slot += 1;
        }
        rows
    }

    /// A ring of 2048 zero samples.
    fn zero_ring() -> (ring: Vec<i16>)
        ensures
            ring@.len() == WINDOW_SIZE,
            forall|slot: int| 0 <= slot < WINDOW_SIZE ==> ring@[slot] == 0i16,
    {
        let mut ring: Vec<i16> = Vec::new();
        let mut slot: usize = 0;
        while slot < WINDOW_SIZE
            invariant
                slot <= WINDOW_SIZE,
                ring@.len() == slot,
                forall|s: int| 0 <= s < slot ==> ring@[s] == 0i16,
            decreases WINDOW_SIZE - slot,
        {
            ring.push(0i16);
            slot += 1;
        }
        ring
    }

    /// Starts a run on a waveform of mono 16 kHz samples.
    pub fn new(samples: Vec<i16>) -> (generator: Self)
        requires
            samples@.len() <= u32::MAX,
        ensures
            generator.wf(),
            generator@ == GeneratorModel::start(samples@),
    {
        let analysed: usize = samples.len() / HOP_SIZE * HOP_SIZE;
        let generator = SignatureGenerator {
            samples,
            next_sample: 0,
            ring_buffer_of_samples: Self::zero_ring(),
            ring_buffer_of_samples_index: 0,
            fft_outputs: Self::zero_history(),
            fft_outputs_index: 0,
            spread_fft_outputs: Self::zero_history(),
            spread_fft_outputs_index: 0,
            num_spread_ffts_done: 0,
            pending: Vec::new(),
            phase: Phase::Idle,
            signature: DecodedSignature::new(SAMPLE_RATE_HZ, analysed as u32),
            spectra: Ghost(Seq::empty()),
        };
        proof {
            reveal(histories_hold);
            reveal(ring_holds);
            lemma_analysed_length(generator.samples@.len());
            lemma_start_wf(generator.samples@);
            let empty = Seq::<Seq<u32>>::empty();
            assert forall|slot: int| 0 <= slot < HISTORY_SIZE implies #[trigger] row_holds(
                generator.fft_outputs@,
                slot,
                raw_spectrum(empty, hop_in_slot(0, slot)),
            ) by {
                assert(generator.fft_outputs@[slot]@ =~= raw_spectrum(empty, hop_in_slot(0, slot)));
            }
            assert forall|slot: int| 0 <= slot < HISTORY_SIZE implies #[trigger] row_holds(
                generator.spread_fft_outputs@,
                slot,
                spread_spectrum(empty, hop_in_slot(0, slot)),
            ) by {
                assert(generator.spread_fft_outputs@[slot]@ =~= spread_spectrum(
                    empty,
                    hop_in_slot(0, slot),
                ));
            }
            assert(generator.pending@ =~= Seq::<PeakCandidate>::empty());
        }
        generator
    }

    /// Takes the next hop of the waveform into the ring and hands out its frame,
    /// or `None` once no whole hop is left.
    pub fn next_frame(&mut self) -> (frame: Option<Vec<i16>>)
        requires
            old(self).wf(),
            old(self)@.phase == Phase::Idle,
        ensures
            final(self).wf(),
            match frame {
                Some(frame) => {
                    &&& old(self)@.has_next_frame()
                    &&& frame@ == frame_at(old(self)@.samples, old(self)@.frames as int)
                    &&& final(self)@ == old(self)@.with_frame()
                },
                None => !old(self)@.has_next_frame() && final(self)@ == old(self)@,
            },
    {
        if self.samples.len() - self.next_sample < HOP_SIZE {
            return None;
        }
        let ghost fed = self.next_sample as int;
        let ghost before = self.ring_buffer_of_samples@;
        proof {
            lemma_cursor_after_hop(fed);
        }
        write_hop(
            &mut self.ring_buffer_of_samples,
            self.ring_buffer_of_samples_index,
            &self.samples,
            self.next_sample,
        );
        self.next_sample += HOP_SIZE;
        let moved: usize = self.ring_buffer_of_samples_index + HOP_SIZE;
        let cursor: usize = moved & WINDOW_MASK;
        assert(cursor == moved % 2048) by (bit_vector)
            requires
                cursor == moved & 2047,
        ;
        self.ring_buffer_of_samples_index = cursor;
        let frame = reordered(&self.ring_buffer_of_samples, self.ring_buffer_of_samples_index);
        self.phase = Phase::Analysing;
        proof {
            lemma_ring_after_hop(before, self.ring_buffer_of_samples@, self.samples@, fed);
            lemma_frame_of_ring(self.ring_buffer_of_samples@, frame@, self.samples@, fed + 128);
            lemma_with_frame_wf(old(self)@);
        }
        Some(frame)
    }

    /// Searches the spectrum 46 hops back for peaks: the bins 10 to 1014 that pass the
    /// three tests, lowest bin first.
    fn do_peak_recognition(&self) -> (found: Vec<PeakCandidate>)
        requires
            self.history_wf(),
            self.spectra@.len() >= LATENCY_HOPS,
        ensures
            found@ == candidates(self.spectra@),
    {
        let ghost spectra = self.spectra@;
        let ghost done = spectra.len() as int;
        proof {
            lemma_histories_hold_spectra(self.fft_outputs@, self.spread_fft_outputs@, spectra);
            lemma_slot_of_sum(done, -46);
            lemma_slot_of_sum(done, -49);
        }
        let raw_slot = slot_at(self.fft_outputs_index, -46);
        let baseline_slot = slot_at(self.spread_fft_outputs_index, -49);
        let row = &self.fft_outputs[raw_slot];
        let baseline = &self.spread_fft_outputs[baseline_slot];
        assert(is_spectrum(row@));
        assert(is_spectrum(baseline@));
        let mut found: Vec<PeakCandidate> = Vec::new();
        let mut bin: usize = FIRST_BIN;
        while bin <= LAST_BIN
            invariant
                FIRST_BIN <= bin <= LAST_BIN + 1,
                self.history_wf(),
                spectra == self.spectra@,
                done == spectra.len(),
                done >= LATENCY_HOPS,
                rows_are_spectra(self.spread_fft_outputs@),
                self.spread_fft_outputs@.len() == HISTORY_SIZE,
                is_spectrum(row@),
                is_spectrum(baseline@),
                row@ == self.fft_outputs@[(done - 46) % 256]@,
                baseline@ == self.spread_fft_outputs@[(done - 49) % 256]@,
                found@ == candidates_below(spectra, bin as int),
            decreases LAST_BIN + 1 - bin,
        {
            let level: u32 = row[bin];
            let mut peak: bool = level >= PEAK_FLOOR && level >= baseline[bin - 1];
            if peak {
                peak = exceeds_frequency_neighbours(baseline, bin, level);
            }
            if peak {
                peak = exceeds_time_neighbours(
                    &self.spread_fft_outputs,
                    self.spread_fft_outputs_index,
                    bin,
                    level,
                );
            }
            proof {
                lemma_peak_tests(
                    self.fft_outputs@,
                    self.spread_fft_outputs@,
                    spectra,
                    bin as int,
                );
                assert(peak == is_peak(spectra, bin as int));
            }
            if peak {
                found.push(
                    PeakCandidate {
                        bin_position: bin as u16,
                        level_before: row[bin - 1],
                        level,
                        level_after: row[bin + 1],
                    },
                );
            }
            bin += 1;
        }
        found
    }

    /// Takes the spectrum of the frame that was handed out last: keeps it in the raw
    /// history, spreads it into the spread history, and searches the spectrum 46 hops
    /// back for peaks.
    pub fn push_spectrum(&mut self, levels: Vec<u32>)
        requires
            old(self).wf(),
            old(self)@.phase == Phase::Analysing,
            is_spectrum(levels@),
        ensures
            final(self).wf(),
            final(self)@ == old(self)@.with_spectrum(levels@),
    {
        let ghost spectra = self.spectra@;
        let ghost done = spectra.len() as int;
        let ghost raw_before = self.fft_outputs@;
        let ghost spread_before = self.spread_fft_outputs@;
        proof {
            lemma_histories_hold_spectra(raw_before, spread_before, spectra);
            lemma_slot_of_sum(done, -1);
            lemma_slot_of_sum(done, -3);
            lemma_slot_of_sum(done, -6);
        }
        do_peak_spreading(&mut self.spread_fft_outputs, self.spread_fft_outputs_index, &levels);
        let ghost taken = levels@;
        self.fft_outputs.set(self.fft_outputs_index, levels);
        let raw_cursor = slot_at(self.fft_outputs_index, 1);
        let spread_cursor = slot_at(self.spread_fft_outputs_index, 1);
        self.fft_outputs_index = raw_cursor;
        self.spread_fft_outputs_index = spread_cursor;
        self.num_spread_ffts_done = self.num_spread_ffts_done + 1;
        self.spectra = Ghost(spectra.push(taken));
        proof {
            lemma_slot_of_sum(done, 1);
            assert(histories_step(
                raw_before,
                spread_before,
                self.fft_outputs@,
                self.spread_fft_outputs@,
                done,
                taken,
            ));
            lemma_histories_after_hop(
                raw_before,
                spread_before,
                self.fft_outputs@,
                self.spread_fft_outputs@,
                spectra,
                taken,
            );
            assert(are_spectra(self.spectra@));
        }
        if self.num_spread_ffts_done >= LATENCY_HOPS {
            self.pending = self.do_peak_recognition();
        } else {
            assert(self.pending@ =~= candidates(self.spectra@));
        }
        self.phase = Phase::Measuring;
        proof {
            lemma_with_spectrum_wf(old(self)@, taken);
        }
    }

    /// The candidates that await their measures, lowest bin first.
    pub fn pending(&self) -> (pending: &Vec<PeakCandidate>)
        ensures
            pending@ == self@.pending,
    {
        &self.pending
    }

    /// Takes the measures of the pending candidates, one for each in their order, and
    /// files the measured ones as peaks. A candidate whose measure is `None` makes no peak.
    pub fn push_measures(&mut self, measures: &Vec<Option<PeakMeasure>>)
        requires
            old(self).wf(),
            old(self)@.phase == Phase::Measuring,
            measures@.len() == old(self)@.pending.len(),
        ensures
            final(self).wf(),
            final(self)@ == old(self)@.with_measures(measures@),
    {
        let pass: u32 = if self.num_spread_ffts_done >= LATENCY_HOPS {
            self.num_spread_ffts_done - LATENCY_HOPS
        } else {
            0
        };
        let ghost before = self.signature@;
        let ghost pending = self.pending@;
        let count: usize = self.pending.len();
        let mut i: usize = 0;
        while i < count
            invariant
                i <= count,
                count == pending.len(),
                count == measures@.len(),
                pending == self.pending@,
                self.signature@ == filed_all(before, pending, measures@, pass, i as int),
                self.signature@.sample_rate_hz == before.sample_rate_hz,
                self.signature@.number_samples == before.number_samples,
                self.samples == old(self).samples,
                self.next_sample == old(self).next_sample,
                self.ring_buffer_of_samples == old(self).ring_buffer_of_samples,
                self.ring_buffer_of_samples_index == old(self).ring_buffer_of_samples_index,
                self.fft_outputs == old(self).fft_outputs,
                self.fft_outputs_index == old(self).fft_outputs_index,
                self.spread_fft_outputs == old(self).spread_fft_outputs,
                self.spread_fft_outputs_index == old(self).spread_fft_outputs_index,
                self.num_spread_ffts_done == old(self).num_spread_ffts_done,
                self.phase == old(self).phase,
                self.spectra == old(self).spectra,
            decreases count - i,
        {
            file_peak(&mut self.signature, &self.pending[i], &measures[i], pass);
            i += 1;
        }
        self.pending = Vec::new();
        self.phase = Phase::Idle;
        proof {
            assert(self.pending@ =~= Seq::<PeakCandidate>::empty());
            lemma_with_measures_wf(old(self)@, measures@);
        }
    }

    /// Ends the run and hands out the signature.
    pub fn into_signature(self) -> (signature: DecodedSignature)
        ensures
            signature@ == self@.signature,
    {
        self.signature
    }

    /// Fingerprints a waveform of mono 16 kHz samples: hands each hop's frame to
    /// `analyse`, takes the levels of its power spectrum from it, hands the candidates
    /// that the hop brings to `measure`, and files the measured ones.
    ///
    /// The signature is that of the run with the answers that the two functions gave.
    /// There is none for a waveform of more than 2^32 - 1 samples, and none once
    /// `analyse` has answered a frame with other than 1025 levels.
    pub fn make_signature_from_buffer<
        A: Fn(&Vec<i16>) -> Vec<u32>,
        M: Fn(&PeakCandidate) -> Option<PeakMeasure>,
    >(s16_mono_16khz_buffer: Vec<i16>, analyse: A, measure: M) -> (result: Result<
        DecodedSignature,
        RunError,
    >)
        requires
            forall|frame: &Vec<i16>| frame@.len() == WINDOW_SIZE ==> call_requires(analyse, (frame,)),
            forall|candidate: &PeakCandidate| call_requires(measure, (candidate,)),
        ensures
            is_run_result(analyse, measure, s16_mono_16khz_buffer@, result),
    {
        if s16_mono_16khz_buffer.len() > u32::MAX as usize {
            return Err(RunError::TooLong);
        }
        let ghost samples = s16_mono_16khz_buffer@;
        let ghost total = hops_in(samples.len());
        let mut generator = SignatureGenerator::new(s16_mono_16khz_buffer);
        let ghost mut answers = Answers::none();
        let ghost mut hops: nat = 0;
        loop
            invariant
                generator.wf(),
                generator@.phase == Phase::Idle,
                samples == s16_mono_16khz_buffer@,
                generator@.samples == samples,
                generator@.frames == hops,
                hops <= total,
                total == hops_in(samples.len()),
                samples.len() <= u32::MAX,
                generator@.spectra == answers.spectra,
                generator@ == after_answers(samples, answers, hops),
                answered_by(analyse, measure, samples, answers, hops),
                forall|frame: &Vec<i16>|
                    frame@.len() == WINDOW_SIZE ==> call_requires(analyse, (frame,)),
                forall|candidate: &PeakCandidate| call_requires(measure, (candidate,)),
            ensures
                hops == total,
            decreases total - hops,
        {
            let ghost before = generator@;
            let frame = match generator.next_frame() {
                Some(frame) => frame,
                None => {
                    break ;
                },
            };
            let levels = analyse(&frame);
            let ghost taken = levels@;
            proof {
                assert(before.has_next_frame());
                assert(frame@ == frame_at(samples, hops as int));
                assert(is_spectrum_of(analyse, frame_at(samples, hops as int), taken));
            }
            if levels.len() != BIN_COUNT {
                proof {
                    assert(0 <= hops < total);
                    assert(!is_spectrum(taken));
                }
                return Err(RunError::BadSpectrum);
            }
            generator.push_spectrum(levels);
            let measures = measure_all(generator.pending(), &measure);
            generator.push_measures(&measures);
            proof {
                lemma_answered_one_more(analyse, measure, samples, answers, taken, measures@, hops);
                lemma_after_answers_with(samples, answers, taken, measures@, hops);
                answers = answers.with(taken, measures@);
                hops = hops + 1;
            }
        }
        proof {
            generator.lemma_wf();
            assert(hops == total);
        }
        Ok(generator.into_signature())
    }

    /// Fingerprints the segment of a waveform of mono 16 kHz samples: the middle of
    /// the waveform, as long as the given duration or, where none is given, the default
    /// one.
    pub fn make_signature_from_samples<
        A: Fn(&Vec<i16>) -> Vec<u32>,
        M: Fn(&PeakCandidate) -> Option<PeakMeasure>,
    >(
        raw_pcm_samples: &Vec<i16>,
        segment_duration_seconds: Option<u32>,
        analyse: A,
        measure: M,
    ) -> (result: Result<DecodedSignature, RunError>)
        requires
            forall|frame: &Vec<i16>| frame@.len() == WINDOW_SIZE ==> call_requires(analyse, (frame,)),
            forall|candidate: &PeakCandidate| call_requires(measure, (candidate,)),
        ensures
            is_run_result(
                analyse,
                measure,
                segment_of(
                    raw_pcm_samples@,
                    match segment_duration_seconds {
                        Some(seconds) => seconds,
                        None => DEFAULT_SEGMENT_DURATION_SECONDS,
                    },
                ),
                result,
            ),
    {
        let duration_seconds = SearchParams::new(segment_duration_seconds).segment_duration_seconds;
        let segment = select_segment(raw_pcm_samples, duration_seconds);
        Self::make_signature_from_buffer(segment, analyse, measure)
    }

    /// What the generator waits for.
    pub fn phase(&self) -> (phase: Phase)
        ensures
            phase == self@.phase,
    {
        self.phase
    }
}

} // verus!
