//! The run of the pipeline as its caller sees it: what is handed out and taken in
//! hop by hop, and what the signature then holds.

use vstd::prelude::*;
use crate::fingerprinting::signature_format::{
    band_of_bin, lemma_with_peak_keeps_order, FrequencyPeak, SignatureModel, SAMPLE_RATE_HZ,
};
use crate::fingerprinting::spectra::{
    are_spectra, candidates, is_quiet, is_spectrum, lemma_quiet_spectrum_has_no_candidates,
    PeakCandidate, HOP_SIZE, LATENCY_HOPS, WINDOW_SIZE,
};

verus! {

/// What the generator waits for.
#[derive(Debug, Clone, Copy, PartialEq, Eq, Structural)]
pub enum Phase {
    /// The next frame can be asked for.
    Idle,
    /// A frame was handed out; its spectrum is awaited.
    Analysing,
    /// Candidates were handed out; their measures are awaited.
    Measuring,
}

/// The sample at a position of the waveform, zero outside it.
pub open spec fn padded_sample(samples: Seq<i16>, position: int) -> i16 {
    if 0 <= position < samples.len() {
        samples[position]
    } else {
        0
    }
}

/// Whole hops in a waveform of the given length; samples after the last whole hop
/// are not analysed.
pub open spec fn hops_in(length: nat) -> nat {
    length / (HOP_SIZE as nat)
}

/// Samples of a waveform of the given length that lie in whole hops.
pub open spec fn analysed_length(length: nat) -> nat {
    hops_in(length) * (HOP_SIZE as nat)
}

/// The frame of a hop, counted from zero: the 2048 samples that end with the hop's
/// last sample, oldest first, with zeros before the start of the waveform.
pub open spec fn frame_at(samples: Seq<i16>, hop: int) -> Seq<i16> {
    Seq::new(
        WINDOW_SIZE as nat,
        |i: int| padded_sample(samples, (hop + 1) * HOP_SIZE - WINDOW_SIZE + i),
    )
}

/// What the caller measured of a candidate.
#[derive(Debug, Clone, Copy, PartialEq, Eq, Structural)]
pub struct PeakMeasure {
    /// The logarithmic amplitude of the bin, rounded.
    pub magnitude: i32,
    /// The offset of the true peak from the bin in sixty-fourths of a bin, rounded.
    pub shift: i32,
}

/// The low sixteen bits of a number.
pub open spec fn low_16_bits(value: int) -> u16 {
    (value % 65536) as u16
}

/// The corrected frequency bin of a peak: sixty-four times the bin plus the shift,
/// cut to sixteen bits.
pub open spec fn corrected_bin(bin_position: u16, shift: i32) -> u16 {
    low_16_bits(bin_position as int * 64 + shift as int)
}

/// The number of the spectrum that is searched once `done` hops are processed.
pub open spec fn pass_number(done: nat) -> u32 {
    if done >= LATENCY_HOPS {
        (done - LATENCY_HOPS) as u32
    } else {
        0
    }
}

/// The peak that a measured candidate makes.
pub open spec fn peak_of(candidate: PeakCandidate, measure: PeakMeasure, pass: u32) -> FrequencyPeak {
    FrequencyPeak {
        fft_pass_number: pass,
        peak_magnitude: low_16_bits(measure.magnitude as int),
        corrected_peak_frequency_bin: corrected_bin(candidate.bin_position, measure.shift),
    }
}

/// A signature after one candidate was measured: without a measure, or with a
/// corrected bin outside the four bands, it is unchanged; else the peak is added to
/// the band of its corrected bin.
pub open spec fn filed(
    signature: SignatureModel,
    candidate: PeakCandidate,
    measure: Option<PeakMeasure>,
    pass: u32,
) -> SignatureModel {
    match measure {
        None => signature,
        Some(measure) => {
            let peak = peak_of(candidate, measure, pass);
            match band_of_bin(peak.corrected_peak_frequency_bin) {
                None => signature,
                Some(band) => signature.with_peak(band, peak),
            }
        },
    }
}

/// A signature after the first `count` candidates were measured, in their order.
pub open spec fn filed_all(
    signature: SignatureModel,
    candidates: Seq<PeakCandidate>,
    measures: Seq<Option<PeakMeasure>>,
    pass: u32,
    count: int,
) -> SignatureModel
    decreases count,
{
    if count <= 0 {
        signature
    } else {
        filed(
            filed_all(signature, candidates, measures, pass, count - 1),
            candidates[count - 1],
            measures[count - 1],
            pass,
        )
    }
}

/// The state of a run as its caller sees it.
pub struct GeneratorModel {
    /// The waveform.
    pub samples: Seq<i16>,
    /// Frames handed out so far.
    pub frames: nat,
    /// Spectra taken so far, one for each processed hop.
    pub spectra: Seq<Seq<u32>>,
    /// Candidates handed out and not yet measured.
    pub pending: Seq<PeakCandidate>,
    /// What the generator waits for.
    pub phase: Phase,
    /// The peaks filed so far.
    pub signature: SignatureModel,
}

impl GeneratorModel {
    /// The state before the first hop.
    pub open spec fn start(samples: Seq<i16>) -> GeneratorModel {
        GeneratorModel {
            samples,
            frames: 0,
            spectra: Seq::empty(),
            pending: Seq::empty(),
            phase: Phase::Idle,
            signature: SignatureModel::empty(SAMPLE_RATE_HZ, analysed_length(samples.len()) as u32),
        }
    }

    /// Whether a whole hop is left to analyse.
    pub open spec fn has_next_frame(self) -> bool {
        self.frames < hops_in(self.samples.len())
    }

    /// The state after the next frame was handed out.
    pub open spec fn with_frame(self) -> GeneratorModel {
        GeneratorModel { frames: self.frames + 1, phase: Phase::Analysing, ..self }
    }

    /// The state after the spectrum of the frame came in: the candidates that the hop
    /// brings await their measures.
    pub open spec fn with_spectrum(self, levels: Seq<u32>) -> GeneratorModel {
        GeneratorModel {
            spectra: self.spectra.push(levels),
            pending: candidates(self.spectra.push(levels)),
            phase: Phase::Measuring,
            ..self
        }
    }

    /// The state after the measures of the pending candidates came in: each measured
    /// candidate is filed as a peak of the searched spectrum.
    pub open spec fn with_measures(self, measures: Seq<Option<PeakMeasure>>) -> GeneratorModel {
        GeneratorModel {
            signature: filed_all(
                self.signature,
                self.pending,
                measures,
                pass_number(self.spectra.len()),
                self.pending.len() as int,
            ),
            pending: Seq::empty(),
            phase: Phase::Idle,
            ..self
        }
    }
}

/// Every spectrum of a run so far is quiet.
pub open spec fn all_quiet(spectra: Seq<Seq<u32>>) -> bool {
    forall|hop: int| 0 <= hop < spectra.len() ==> is_quiet(#[trigger] spectra[hop])
}

impl GeneratorModel {
    /// What holds of every state of a run.
    pub open spec fn wf(self) -> bool {
        let done = self.spectra.len();
        &&& self.samples.len() <= u32::MAX
        &&& self.frames <= hops_in(self.samples.len())
        &&& are_spectra(self.spectra)
        &&& match self.phase {
            Phase::Idle => self.frames == done && self.pending.len() == 0,
            Phase::Analysing => self.frames == done + 1 && self.pending.len() == 0,
            Phase::Measuring => self.frames == done && self.pending == candidates(self.spectra),
        }
        &&& self.signature.wf()
        &&& self.signature.sample_rate_hz == SAMPLE_RATE_HZ
        &&& self.signature.number_samples == analysed_length(self.samples.len())
        &&& self.signature.peaks_in_their_bands()
        &&& self.signature.passes_up_to(done - LATENCY_HOPS)
        &&& self.signature.in_detection_order()
        &&& all_quiet(self.spectra) ==> self.signature.has_no_peaks()
    }
}

/// Filing a candidate keeps a signature in order.
pub proof fn lemma_filed_keeps_order(
    signature: SignatureModel,
    candidate: PeakCandidate,
    measure: Option<PeakMeasure>,
    pass: u32,
)
    requires
        signature.wf(),
        signature.peaks_in_their_bands(),
        signature.passes_up_to(pass as int),
        signature.in_detection_order(),
    ensures
        filed(signature, candidate, measure, pass).wf(),
        filed(signature, candidate, measure, pass).peaks_in_their_bands(),
        filed(signature, candidate, measure, pass).passes_up_to(pass as int),
        filed(signature, candidate, measure, pass).in_detection_order(),
        filed(signature, candidate, measure, pass).sample_rate_hz == signature.sample_rate_hz,
        filed(signature, candidate, measure, pass).number_samples == signature.number_samples,
{
    match measure {
        None => {},
        Some(measure) => {
            let peak = peak_of(candidate, measure, pass);
            match band_of_bin(peak.corrected_peak_frequency_bin) {
                None => {},
                Some(band) => {
                    lemma_with_peak_keeps_order(signature, band, peak);
                },
            }
        },
    }
}

/// Filing candidates keeps a signature in order.
pub proof fn lemma_filed_all_keeps_order(
    signature: SignatureModel,
    candidates: Seq<PeakCandidate>,
    measures: Seq<Option<PeakMeasure>>,
    pass: u32,
    count: int,
)
    requires
        signature.wf(),
        signature.peaks_in_their_bands(),
        signature.passes_up_to(pass as int),
        signature.in_detection_order(),
    ensures
        filed_all(signature, candidates, measures, pass, count).wf(),
        filed_all(signature, candidates, measures, pass, count).peaks_in_their_bands(),
        filed_all(signature, candidates, measures, pass, count).passes_up_to(pass as int),
        filed_all(signature, candidates, measures, pass, count).in_detection_order(),
        filed_all(signature, candidates, measures, pass, count).sample_rate_hz
            == signature.sample_rate_hz,
        filed_all(signature, candidates, measures, pass, count).number_samples
            == signature.number_samples,
        count <= 0 ==> filed_all(signature, candidates, measures, pass, count) == signature,
    decreases count,
{
    if count > 0 {
        lemma_filed_all_keeps_order(signature, candidates, measures, pass, count - 1);
        lemma_filed_keeps_order(
            filed_all(signature, candidates, measures, pass, count - 1),
            candidates[count - 1],
            measures[count - 1],
            pass,
        );
    }
}

/// A run starts in a state of which the invariant holds.
pub proof fn lemma_start_wf(samples: Seq<i16>)
    requires
        samples.len() <= u32::MAX,
    ensures
        GeneratorModel::start(samples).wf(),
{
    lemma_analysed_length(samples.len());
}

/// The analysed length is the greatest multiple of the hop size within the length.
pub proof fn lemma_analysed_length(length: nat)
    ensures
        analysed_length(length) <= length < analysed_length(length) + HOP_SIZE,
        analysed_length(length) % (HOP_SIZE as nat) == 0,
{
    let q = length / 128;
    assert(length == 128 * q + length % 128);
    assert(analysed_length(length) == q * 128);
    assert((q * 128) % 128 == 0) by {
        let d = (q * 128) / 128;
        assert(q * 128 == 128 * d + (q * 128) % 128);
    }
}

/// Handing out a frame keeps the invariant.
pub proof fn lemma_with_frame_wf(state: GeneratorModel)
    requires
        state.wf(),
        state.phase == Phase::Idle,
        state.has_next_frame(),
    ensures
        state.with_frame().wf(),
{
}

/// Taking in a spectrum keeps the invariant.
pub proof fn lemma_with_spectrum_wf(state: GeneratorModel, levels: Seq<u32>)
    requires
        state.wf(),
        state.phase == Phase::Analysing,
        is_spectrum(levels),
    ensures
        state.with_spectrum(levels).wf(),
{
    let after = state.with_spectrum(levels);
    assert forall|hop: int| 0 <= hop < after.spectra.len() implies is_spectrum(
        #[trigger] after.spectra[hop],
    ) by {
        if hop < state.spectra.len() {
            assert(after.spectra[hop] == state.spectra[hop]);
        }
    }
    if all_quiet(after.spectra) {
        assert forall|hop: int| 0 <= hop < state.spectra.len() implies is_quiet(
            #[trigger] state.spectra[hop],
        ) by {
            assert(after.spectra[hop] == state.spectra[hop]);
        }
    }
}

/// Taking in the measures keeps the invariant.
pub proof fn lemma_with_measures_wf(state: GeneratorModel, measures: Seq<Option<PeakMeasure>>)
    requires
        state.wf(),
        state.phase == Phase::Measuring,
        measures.len() == state.pending.len(),
    ensures
        state.with_measures(measures).wf(),
{
    let done = state.spectra.len();
    let pass = pass_number(done);
    let count = state.pending.len() as int;
    if done >= LATENCY_HOPS {
        lemma_filed_all_keeps_order(state.signature, state.pending, measures, pass, count);
        if all_quiet(state.spectra) {
            lemma_quiet_spectrum_has_no_candidates(state.spectra);
        }
    } else {
        lemma_filed_all_keeps_order(state.signature, state.pending, measures, pass, 0);
    }
}

/// During the first 45 hops, and on a waveform shorter than 46 hops at any time, the
/// signature holds no peak.
pub proof fn lemma_latency_floor(state: GeneratorModel)
    requires
        state.wf(),
    ensures
        state.spectra.len() < LATENCY_HOPS ==> state.signature.has_no_peaks(),
        state.samples.len() < LATENCY_HOPS * HOP_SIZE ==> state.signature.has_no_peaks(),
{
    if state.samples.len() < LATENCY_HOPS * HOP_SIZE {
        assert(hops_in(state.samples.len()) < LATENCY_HOPS);
    }
    if state.spectra.len() < LATENCY_HOPS {
        assert forall|i: int| 0 <= i < state.signature.peaks.len() implies (
        #[trigger] state.signature.peaks[i]).len() == 0 by {
            if state.signature.peaks[i].len() > 0 {
                assert(state.signature.peaks[i][0].fft_pass_number <= state.spectra.len()
                    - LATENCY_HOPS);
            }
        }
    }
}

/// What the caller answered in a run, hop by hop: the spectrum of the hop's frame and
/// the measures of the hop's candidates.
pub struct Answers {
    pub spectra: Seq<Seq<u32>>,
    pub measures: Seq<Seq<Option<PeakMeasure>>>,
}

impl Answers {
    /// No answers.
    pub open spec fn none() -> Answers {
        Answers { spectra: Seq::empty(), measures: Seq::empty() }
    }

    /// The answers with those of one more hop.
    pub open spec fn with(self, levels: Seq<u32>, measures: Seq<Option<PeakMeasure>>) -> Answers {
        Answers { spectra: self.spectra.push(levels), measures: self.measures.push(measures) }
    }
}

/// The state after the first `hops` hops of a run with the given answers.
pub open spec fn after_answers(samples: Seq<i16>, answers: Answers, hops: nat) -> GeneratorModel
    decreases hops,
{
    if hops == 0 {
        GeneratorModel::start(samples)
    } else {
        after_answers(samples, answers, (hops - 1) as nat).with_frame().with_spectrum(
            answers.spectra[hops - 1],
        ).with_measures(answers.measures[hops - 1])
    }
}

/// Whether the answers of the first `hops` hops fit a run: each hop has a spectrum and
/// one measure, or none, for each candidate that the spectra up to the hop bring.
pub open spec fn answers_fit(answers: Answers, hops: nat) -> bool {
    &&& answers.spectra.len() >= hops
    &&& answers.measures.len() >= hops
    &&& forall|hop: int| 0 <= hop < hops ==> is_spectrum(#[trigger] answers.spectra[hop])
    &&& forall|hop: int|
        0 <= hop < hops ==> (#[trigger] answers.measures[hop]).len() == candidates(
            answers.spectra.take(hop + 1),
        ).len()
}

/// Later answers do not change the state after earlier hops.
pub proof fn lemma_after_answers_with(
    samples: Seq<i16>,
    answers: Answers,
    levels: Seq<u32>,
    measures: Seq<Option<PeakMeasure>>,
    hops: nat,
)
    requires
        hops <= answers.spectra.len(),
        hops <= answers.measures.len(),
    ensures
        after_answers(samples, answers.with(levels, measures), hops) == after_answers(
            samples,
            answers,
            hops,
        ),
    decreases hops,
{
    if hops > 0 {
        lemma_after_answers_with(samples, answers, levels, measures, (hops - 1) as nat);
    }
}

/// Every state of a run with fitting answers meets the invariant and holds the
/// spectra that were answered.
pub proof fn lemma_after_answers_wf(samples: Seq<i16>, answers: Answers, hops: nat)
    requires
        samples.len() <= u32::MAX,
        hops <= hops_in(samples.len()),
        answers_fit(answers, hops),
    ensures
        after_answers(samples, answers, hops).wf(),
        after_answers(samples, answers, hops).phase == Phase::Idle,
        after_answers(samples, answers, hops).samples == samples,
        after_answers(samples, answers, hops).spectra == answers.spectra.take(hops as int),
    decreases hops,
{
    if hops == 0 {
        lemma_start_wf(samples);
        assert(answers.spectra.take(0) =~= Seq::<Seq<u32>>::empty());
    } else {
        let fewer = (hops - 1) as nat;
        lemma_after_answers_wf(samples, answers, fewer);
        let before = after_answers(samples, answers, fewer);
        let levels = answers.spectra[hops - 1];
        assert(is_spectrum(levels));
        assert(answers.spectra.take(fewer as int).push(levels) =~= answers.spectra.take(
            hops as int,
        ));
        lemma_with_frame_wf(before);
        lemma_with_spectrum_wf(before.with_frame(), levels);
        lemma_with_measures_wf(before.with_frame().with_spectrum(levels), answers.measures[hops - 1]);
    }
}

/// The caller's part of a run: the spectrum it takes of a frame, and the measure it
/// takes of a candidate.
pub struct Analysis {
    pub spectrum_of: spec_fn(Seq<i16>) -> Seq<u32>,
    pub measure_of: spec_fn(PeakCandidate) -> Option<PeakMeasure>,
}

impl GeneratorModel {
    /// The state after one whole hop: the frame is handed out, its spectrum taken in,
    /// the candidates measured and filed.
    pub open spec fn after_hop(self, analysis: Analysis) -> GeneratorModel {
        let frame = frame_at(self.samples, self.frames as int);
        let analysed = self.with_frame().with_spectrum((analysis.spectrum_of)(frame));
        analysed.with_measures(analysed.pending.map_values(analysis.measure_of))
    }
}

/// The state after the first `hops` hops of a run.
pub open spec fn after_hops(samples: Seq<i16>, analysis: Analysis, hops: nat) -> GeneratorModel
    decreases hops,
{
    if hops == 0 {
        GeneratorModel::start(samples)
    } else {
        after_hops(samples, analysis, (hops - 1) as nat).after_hop(analysis)
    }
}

/// The signature of a waveform: what a run holds after every whole hop.
pub open spec fn run(samples: Seq<i16>, analysis: Analysis) -> SignatureModel {
    after_hops(samples, analysis, hops_in(samples.len())).signature
}

/// The answers that a caller gives in the first `hops` hops of a run.
pub open spec fn answers_of(samples: Seq<i16>, analysis: Analysis, hops: nat) -> Answers
    decreases hops,
{
    if hops == 0 {
        Answers::none()
    } else {
        let before = after_hops(samples, analysis, (hops - 1) as nat);
        let levels = (analysis.spectrum_of)(frame_at(samples, hops - 1));
        answers_of(samples, analysis, (hops - 1) as nat).with(
            levels,
            before.with_frame().with_spectrum(levels).pending.map_values(analysis.measure_of),
        )
    }
}

/// A run is the run with the answers that its caller gives.
pub proof fn lemma_after_hops_is_after_answers(samples: Seq<i16>, analysis: Analysis, hops: nat)
    ensures
        answers_of(samples, analysis, hops).spectra.len() == hops,
        answers_of(samples, analysis, hops).measures.len() == hops,
        after_answers(samples, answers_of(samples, analysis, hops), hops) == after_hops(
            samples,
            analysis,
            hops,
        ),
    decreases hops,
{
    if hops > 0 {
        let fewer = (hops - 1) as nat;
        lemma_after_hops_is_after_answers(samples, analysis, fewer);
        lemma_after_hops(samples, analysis, fewer);
        let before = after_hops(samples, analysis, fewer);
        let levels = (analysis.spectrum_of)(frame_at(samples, hops - 1));
        let measures = before.with_frame().with_spectrum(levels).pending.map_values(
            analysis.measure_of,
        );
        lemma_after_answers_with(
            samples,
            answers_of(samples, analysis, fewer),
            levels,
            measures,
            fewer,
        );
    }
}

/// Between hops a run is idle, has handed out as many frames as it has taken spectra,
/// and holds the spectrum that the caller took of each frame.
pub proof fn lemma_after_hops(samples: Seq<i16>, analysis: Analysis, hops: nat)
    ensures
        after_hops(samples, analysis, hops).samples == samples,
        after_hops(samples, analysis, hops).frames == hops,
        after_hops(samples, analysis, hops).spectra.len() == hops,
        after_hops(samples, analysis, hops).phase == Phase::Idle,
        after_hops(samples, analysis, hops).pending.len() == 0,
        forall|hop: int|
            0 <= hop < hops ==> #[trigger] after_hops(samples, analysis, hops).spectra[hop] == (
            analysis.spectrum_of)(frame_at(samples, hop)),
    decreases hops,
{
    if hops > 0 {
        lemma_after_hops(samples, analysis, (hops - 1) as nat);
    }
}

/// Every state of a run meets the invariant, if the waveform is not too long and the
/// caller answers each frame with a spectrum.
pub proof fn lemma_after_hops_wf(samples: Seq<i16>, analysis: Analysis, hops: nat)
    requires
        samples.len() <= u32::MAX,
        hops <= hops_in(samples.len()),
        forall|hop: int|
            0 <= hop < hops ==> is_spectrum(
                #[trigger] (analysis.spectrum_of)(frame_at(samples, hop)),
            ),
    ensures
        after_hops(samples, analysis, hops).wf(),
    decreases hops,
{
    if hops == 0 {
        lemma_start_wf(samples);
    } else {
        let before = after_hops(samples, analysis, (hops - 1) as nat);
        lemma_after_hops_wf(samples, analysis, (hops - 1) as nat);
        lemma_after_hops(samples, analysis, (hops - 1) as nat);
        let levels = (analysis.spectrum_of)(frame_at(samples, hops - 1));
        assert(is_spectrum(levels));
        lemma_with_frame_wf(before);
        lemma_with_spectrum_wf(before.with_frame(), levels);
        let analysed = before.with_frame().with_spectrum(levels);
        lemma_with_measures_wf(analysed, analysed.pending.map_values(analysis.measure_of));
    }
}

/// Two runs on one waveform whose callers answer alike end alike: the signature
/// depends on nothing but the samples, the spectra of the frames and the measures of
/// the candidates.
pub proof fn lemma_run_is_determined(samples: Seq<i16>, first: Analysis, second: Analysis)
    requires
        forall|hop: int|
            0 <= hop < hops_in(samples.len()) ==> (first.spectrum_of)(
                #[trigger] frame_at(samples, hop),
            ) == (second.spectrum_of)(frame_at(samples, hop)),
        forall|candidate: PeakCandidate|
            #[trigger] (first.measure_of)(candidate) == (second.measure_of)(candidate),
    ensures
        run(samples, first) == run(samples, second),
{
    lemma_runs_agree(samples, first, second, hops_in(samples.len()));
}

/// Two runs on one waveform whose callers answer alike stand alike after every hop.
proof fn lemma_runs_agree(samples: Seq<i16>, first: Analysis, second: Analysis, hops: nat)
    requires
        hops <= hops_in(samples.len()),
        forall|hop: int|
            0 <= hop < hops_in(samples.len()) ==> (first.spectrum_of)(
                #[trigger] frame_at(samples, hop),
            ) == (second.spectrum_of)(frame_at(samples, hop)),
        forall|candidate: PeakCandidate|
            #[trigger] (first.measure_of)(candidate) == (second.measure_of)(candidate),
    ensures
        after_hops(samples, first, hops) == after_hops(samples, second, hops),
    decreases hops,
{
    if hops > 0 {
        lemma_runs_agree(samples, first, second, (hops - 1) as nat);
        lemma_after_hops(samples, first, (hops - 1) as nat);
        let before = after_hops(samples, first, (hops - 1) as nat);
        let frame = frame_at(samples, hops - 1);
        let analysed = before.with_frame().with_spectrum((first.spectrum_of)(frame));
        assert(analysed.pending.map_values(first.measure_of) =~= analysed.pending.map_values(
            second.measure_of,
        ));
    }
}

/// A waveform shorter than 46 hops has a signature without peaks, whatever it holds.
pub proof fn lemma_short_waveform_has_no_peaks(samples: Seq<i16>, analysis: Analysis)
    requires
        samples.len() < LATENCY_HOPS * HOP_SIZE,
    ensures
        run(samples, analysis).has_no_peaks(),
        run(samples, analysis) == SignatureModel::empty(
            SAMPLE_RATE_HZ,
            analysed_length(samples.len()) as u32,
        ),
{
    assert(hops_in(samples.len()) < LATENCY_HOPS);
    lemma_early_hops_file_nothing(samples, analysis, hops_in(samples.len()));
}

/// During the first 45 hops nothing is filed.
proof fn lemma_early_hops_file_nothing(samples: Seq<i16>, analysis: Analysis, hops: nat)
    requires
        hops < LATENCY_HOPS,
    ensures
        after_hops(samples, analysis, hops).signature == GeneratorModel::start(samples).signature,
    decreases hops,
{
    if hops > 0 {
        lemma_early_hops_file_nothing(samples, analysis, (hops - 1) as nat);
        lemma_after_hops(samples, analysis, (hops - 1) as nat);
    }
}

/// Samples after the last whole hop are dropped: a waveform with up to 127 samples
/// more, none of which completes a hop, has the same signature.
pub proof fn lemma_trailing_samples_are_dropped(
    samples: Seq<i16>,
    extra: Seq<i16>,
    analysis: Analysis,
)
    requires
        samples.len() % (HOP_SIZE as nat) + extra.len() < HOP_SIZE,
    ensures
        run(samples + extra, analysis) == run(samples, analysis),
{
    lemma_same_hops(samples.len(), extra.len());
    lemma_longer_run_agrees(samples, extra, analysis, hops_in(samples.len()));
}

/// Samples that complete no hop leave the number of hops and the analysed length as
/// they were.
pub proof fn lemma_same_hops(length: nat, more: nat)
    requires
        length % (HOP_SIZE as nat) + more < HOP_SIZE,
    ensures
        hops_in(length + more) == hops_in(length),
        analysed_length(length + more) == analysed_length(length),
{
    let q = length / 128;
    let r = length % 128;
    assert(length == 128 * q + r);
    let total = length + more;
    assert(total == 128 * q + (r + more));
    assert(total / 128 == q) by {
        let d = total / 128 - q;
        assert(total % 128 == (r + more) - 128 * d);
    }
}

/// The frames of the whole hops of a waveform do not depend on what follows it.
pub proof fn lemma_frame_ignores_later_samples(samples: Seq<i16>, extra: Seq<i16>, hop: int)
    requires
        0 <= hop < hops_in(samples.len()),
    ensures
        frame_at(samples + extra, hop) == frame_at(samples, hop),
{
    lemma_analysed_length(samples.len());
    assert((hop + 1) * 128 <= hops_in(samples.len()) * 128) by (nonlinear_arith)
        requires
            hop + 1 <= hops_in(samples.len()),
    ;
    assert(frame_at(samples + extra, hop) =~= frame_at(samples, hop));
}

/// A run on a longer waveform stands, after each whole hop of the shorter one, as the
/// run on the shorter one, but for the waveform itself.
proof fn lemma_longer_run_agrees(
    samples: Seq<i16>,
    extra: Seq<i16>,
    analysis: Analysis,
    hops: nat,
)
    requires
        hops <= hops_in(samples.len()),
        analysed_length((samples + extra).len()) == analysed_length(samples.len()),
    ensures
        after_hops(samples + extra, analysis, hops) == (GeneratorModel {
            samples: samples + extra,
            ..after_hops(samples, analysis, hops)
        }),
    decreases hops,
{
    if hops > 0 {
        lemma_longer_run_agrees(samples, extra, analysis, (hops - 1) as nat);
        lemma_after_hops(samples, analysis, (hops - 1) as nat);
        lemma_after_hops(samples + extra, analysis, (hops - 1) as nat);
        lemma_frame_ignores_later_samples(samples, extra, hops - 1);
    }
}

/// A run whose every spectrum is quiet has a signature without peaks, and the number
/// of its samples is the analysed length.
pub proof fn lemma_quiet_run_has_no_peaks(samples: Seq<i16>, analysis: Analysis)
    requires
        samples.len() <= u32::MAX,
        forall|hop: int|
            0 <= hop < hops_in(samples.len()) ==> is_spectrum(
                #[trigger] (analysis.spectrum_of)(frame_at(samples, hop)),
            ) && is_quiet((analysis.spectrum_of)(frame_at(samples, hop))),
    ensures
        run(samples, analysis).has_no_peaks(),
        run(samples, analysis).number_samples == analysed_length(samples.len()),
        run(samples, analysis).sample_rate_hz == SAMPLE_RATE_HZ,
{
    let hops = hops_in(samples.len());
    lemma_after_hops_wf(samples, analysis, hops);
    lemma_after_hops(samples, analysis, hops);
    let state = after_hops(samples, analysis, hops);
    assert(all_quiet(state.spectra));
}

/// Every frame of a silent waveform is silent.
pub proof fn lemma_silent_frames(samples: Seq<i16>, hop: int)
    requires
        forall|i: int| 0 <= i < samples.len() ==> samples[i] == 0,
    ensures
        frame_at(samples, hop) == Seq::new(WINDOW_SIZE as nat, |i: int| 0i16),
{
    assert(frame_at(samples, hop) =~= Seq::new(WINDOW_SIZE as nat, |i: int| 0i16));
}

/// Silence has a signature without peaks: if the spectrum that the caller takes of a
/// silent frame is quiet, the signature of a silent waveform of any length holds no
/// peak, and the number of its samples is the analysed length.
pub proof fn lemma_silence_has_no_peaks(samples: Seq<i16>, analysis: Analysis)
    requires
        samples.len() <= u32::MAX,
        forall|i: int| 0 <= i < samples.len() ==> samples[i] == 0,
        is_spectrum((analysis.spectrum_of)(Seq::new(WINDOW_SIZE as nat, |i: int| 0i16))),
        is_quiet((analysis.spectrum_of)(Seq::new(WINDOW_SIZE as nat, |i: int| 0i16))),
    ensures
        run(samples, analysis).has_no_peaks(),
        run(samples, analysis).number_samples == analysed_length(samples.len()),
{
    assert forall|hop: int| 0 <= hop < hops_in(samples.len()) implies is_spectrum(
        #[trigger] (analysis.spectrum_of)(frame_at(samples, hop)),
    ) && is_quiet((analysis.spectrum_of)(frame_at(samples, hop))) by {
        lemma_silent_frames(samples, hop);
    }
    lemma_quiet_run_has_no_peaks(samples, analysis);
}

} // verus!
