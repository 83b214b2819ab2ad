//! What the pipeline computes, stated over the whole sequence of spectra of a run.
//!
//! A power is carried as a level: an unsigned 32-bit number whose order is the order
//! of the powers. The bit pattern of a non-negative IEEE 754 binary32 number is such
//! a level, and `PEAK_FLOOR` is the pattern of one sixty-fourth.

use vstd::prelude::*;

verus! {

/// Samples by which the analysis window advances.
pub const HOP_SIZE: usize = 128;

/// Samples in one analysed frame.
pub const WINDOW_SIZE: usize = 2048;

/// Bins of one spectrum: zero frequency up to half the sample rate.
pub const BIN_COUNT: usize = 1025;

/// Spectra kept in each of the two histories.
pub const HISTORY_SIZE: usize = 256;

/// Hops that pass before the spectrum of a hop is searched for peaks.
pub const LATENCY_HOPS: u32 = 46;

/// Hops between a searched spectrum and the spread spectrum it is held against.
pub const BASELINE_LAG: u32 = 49;

/// The level of the power 1/64, the floor below which no bin is a peak.
pub const PEAK_FLOOR: u32 = 0x3C80_0000;

/// First bin that is searched for peaks.
pub const FIRST_BIN: usize = 10;

/// Last bin that is searched for peaks.
pub const LAST_BIN: usize = 1014;

/// A sequence of levels with one level for each bin.
pub open spec fn is_spectrum(levels: Seq<u32>) -> bool {
    levels.len() == BIN_COUNT
}

/// Every member is a spectrum.
pub open spec fn are_spectra(spectra: Seq<Seq<u32>>) -> bool {
    forall|hop: int| 0 <= hop < spectra.len() ==> is_spectrum(#[trigger] spectra[hop])
}

/// The larger of two levels.
pub open spec fn max_level(a: u32, b: u32) -> u32 {
    if a >= b {
        a
    } else {
        b
    }
}

/// A spectrum spread over frequency: each of the bins 0 to 1022 takes the largest level
/// among itself and the two bins above it; the two highest bins keep their level.
pub open spec fn spread_in_frequency(raw: Seq<u32>) -> Seq<u32> {
    Seq::new(
        BIN_COUNT as nat,
        |p: int|
            if p + 2 < BIN_COUNT {
                max_level(max_level(raw[p], raw[p + 1]), raw[p + 2])
            } else {
                raw[p]
            },
    )
}

/// What the spectrum of hop `hop` gives to a spread spectrum at bin `p`: its level
/// spread over frequency, or nothing where the run has no such hop.
pub open spec fn contribution(spectra: Seq<Seq<u32>>, hop: int, p: int) -> u32 {
    if 0 <= hop < spectra.len() {
        spread_in_frequency(spectra[hop])[p]
    } else {
        0
    }
}

/// The spread level of hop `hop` at bin `p`: the largest contribution among the hop
/// itself and the hops one, three and six later, as far as the run has reached them.
/// Hops before the start of the run have a spread level too, made of the later hops alone.
pub open spec fn spread_level(spectra: Seq<Seq<u32>>, hop: int, p: int) -> u32 {
    max_level(
        max_level(
            max_level(contribution(spectra, hop, p), contribution(spectra, hop + 1, p)),
            contribution(spectra, hop + 3, p),
        ),
        contribution(spectra, hop + 6, p),
    )
}

/// The spread spectrum of a hop.
pub open spec fn spread_spectrum(spectra: Seq<Seq<u32>>, hop: int) -> Seq<u32> {
    Seq::new(BIN_COUNT as nat, |p: int| spread_level(spectra, hop, p))
}

/// The raw level of hop `hop` at bin `p`, zero before the start of the run.
pub open spec fn raw_level(spectra: Seq<Seq<u32>>, hop: int, p: int) -> u32 {
    if 0 <= hop < spectra.len() {
        spectra[hop][p]
    } else {
        0
    }
}

/// The raw spectrum of a hop, all zero before the start of the run.
pub open spec fn raw_spectrum(spectra: Seq<Seq<u32>>, hop: int) -> Seq<u32> {
    Seq::new(BIN_COUNT as nat, |p: int| raw_level(spectra, hop, p))
}

/// The hop whose spectrum a history keeps in slot `slot` once `done` hops are
/// processed: the latest hop before `done` that is `slot` modulo 256. It is negative
/// while the slot has not been written.
pub open spec fn hop_in_slot(done: int, slot: int) -> int {
    done - 1 - (done - 1 - slot) % (HISTORY_SIZE as int)
}

/// The eight bin offsets at which a peak must exceed its baseline.
pub open spec fn frequency_offset(i: int) -> int {
    if i == 0 {
        -10
    } else if i == 1 {
        -7
    } else if i == 2 {
        -4
    } else if i == 3 {
        -3
    } else if i == 4 {
        1
    } else if i == 5 {
        2
    } else if i == 6 {
        5
    } else {
        8
    }
}

/// Number of bin offsets.
pub const FREQUENCY_OFFSET_COUNT: usize = 8;

/// The fourteen slot offsets, counted from the write cursor of the spread history
/// and taken modulo 256, at which a peak must exceed the spread spectra.
pub open spec fn time_offset(i: int) -> int {
    if i == 0 {
        -53
    } else if i == 1 {
        -45
    } else if i == 2 {
        165
    } else if i == 3 {
        172
    } else if i == 4 {
        179
    } else if i == 5 {
        186
    } else if i == 6 {
        193
    } else if i == 7 {
        200
    } else if i == 8 {
        214
    } else if i == 9 {
        221
    } else if i == 10 {
        228
    } else if i == 11 {
        235
    } else if i == 12 {
        242
    } else {
        249
    }
}

/// Number of slot offsets.
pub const TIME_OFFSET_COUNT: usize = 14;

/// The hop that the `i`-th slot offset names once `done` hops are processed.
pub open spec fn time_neighbour(done: int, i: int) -> int {
    hop_in_slot(done, (done + time_offset(i)) % (HISTORY_SIZE as int))
}

/// A level exceeds the baseline at each of the eight bin offsets from a bin. The
/// baseline is the spread spectrum 49 hops back.
pub open spec fn exceeds_baseline(spectra: Seq<Seq<u32>>, bin: int, level: u32) -> bool {
    forall|i: int|
        0 <= i < FREQUENCY_OFFSET_COUNT ==> level > spread_level(
            spectra,
            spectra.len() - BASELINE_LAG,
            bin + #[trigger] frequency_offset(i),
        )
}

/// A level exceeds, one bin below a bin, the spread spectra at each of the fourteen
/// slot offsets.
pub open spec fn exceeds_neighbours(spectra: Seq<Seq<u32>>, bin: int, level: u32) -> bool {
    forall|i: int|
        0 <= i < TIME_OFFSET_COUNT ==> level > spread_level(
            spectra,
            #[trigger] time_neighbour(spectra.len() as int, i),
            bin - 1,
        )
}

/// Whether bin `bin` of the spectrum 46 hops back is a peak, once the spectra of a
/// run so far are `spectra`.
///
/// The level must reach the floor and the baseline one bin below; it must exceed the
/// baseline at the eight bin offsets; and it must exceed, one bin below, the spread
/// spectra at the fourteen slot offsets.
pub open spec fn is_peak(spectra: Seq<Seq<u32>>, bin: int) -> bool {
    let level = raw_level(spectra, spectra.len() - LATENCY_HOPS, bin);
    &&& level >= PEAK_FLOOR
    &&& level >= spread_level(spectra, spectra.len() - BASELINE_LAG, bin - 1)
    &&& exceeds_baseline(spectra, bin, level)
    &&& exceeds_neighbours(spectra, bin, level)
}

/// A bin that passed the three tests, with the levels that its measure is taken from.
#[derive(Debug, Clone, Copy, PartialEq, Eq, Structural)]
pub struct PeakCandidate {
    /// The bin, between 10 and 1014.
    pub bin_position: u16,
    /// Level of the bin below.
    pub level_before: u32,
    /// Level of the bin itself.
    pub level: u32,
    /// Level of the bin above.
    pub level_after: u32,
}

/// The candidate at a bin of the spectrum 46 hops back.
pub open spec fn candidate_at(spectra: Seq<Seq<u32>>, bin: int) -> PeakCandidate {
    let hop = spectra.len() - LATENCY_HOPS;
    PeakCandidate {
        bin_position: bin as u16,
        level_before: raw_level(spectra, hop, bin - 1),
        level: raw_level(spectra, hop, bin),
        level_after: raw_level(spectra, hop, bin + 1),
    }
}

/// The candidates among the bins from 10 up to, not including, `end`, lowest bin first.
pub open spec fn candidates_below(spectra: Seq<Seq<u32>>, end: int) -> Seq<PeakCandidate>
    decreases end,
{
    if end <= FIRST_BIN {
        Seq::empty()
    } else if is_peak(spectra, end - 1) {
        candidates_below(spectra, end - 1).push(candidate_at(spectra, end - 1))
    } else {
        candidates_below(spectra, end - 1)
    }
}

/// The candidates that the latest hop brings: none during the first 45 hops, then the
/// peaks among the bins 10 to 1014 of the spectrum 46 hops back, lowest bin first.
pub open spec fn candidates(spectra: Seq<Seq<u32>>) -> Seq<PeakCandidate> {
    if spectra.len() >= LATENCY_HOPS {
        candidates_below(spectra, LAST_BIN + 1)
    } else {
        Seq::empty()
    }
}

/// Every bin of a spectrum lies below the floor.
pub open spec fn is_quiet(levels: Seq<u32>) -> bool {
    forall|p: int| 0 <= p < BIN_COUNT ==> #[trigger] levels[p] < PEAK_FLOOR
}

/// A spectrum that is quiet holds no peak: whatever the spectra around it are, the
/// hop that searches it brings no candidate.
pub proof fn lemma_quiet_spectrum_has_no_candidates(spectra: Seq<Seq<u32>>)
    requires
        spectra.len() >= LATENCY_HOPS,
        is_quiet(spectra[spectra.len() - LATENCY_HOPS]),
    ensures
        candidates(spectra) == Seq::<PeakCandidate>::empty(),
{
    lemma_quiet_below(spectra, LAST_BIN + 1);
}

/// No bin of a quiet spectrum is a candidate.
proof fn lemma_quiet_below(spectra: Seq<Seq<u32>>, end: int)
    requires
        spectra.len() >= LATENCY_HOPS,
        is_quiet(spectra[spectra.len() - LATENCY_HOPS]),
        end <= LAST_BIN + 1,
    ensures
        candidates_below(spectra, end) == Seq::<PeakCandidate>::empty(),
    decreases end,
{
    if end > FIRST_BIN {
        lemma_quiet_below(spectra, end - 1);
        let level = raw_level(spectra, spectra.len() - LATENCY_HOPS, end - 1);
        assert(level == spectra[spectra.len() - LATENCY_HOPS][end - 1]);
        assert(!is_peak(spectra, end - 1));
    }
}

/// A spread level covers three bins of four hops: it is never below the level of
/// its own bin or of the two bins above, in the hop itself and one, three and six hops
/// later.
pub proof fn lemma_spread_level_covers(spectra: Seq<Seq<u32>>, hop: int, lag: int, p: int, bin: int)
    requires
        0 <= hop < spectra.len(),
        is_spectrum(spectra[hop]),
        lag == 0 || lag == 1 || lag == 3 || lag == 6,
        0 <= p,
        p <= bin <= p + 2,
        p + 2 < BIN_COUNT,
    ensures
        spread_level(spectra, hop - lag, p) >= spectra[hop][bin],
{
    assert(contribution(spectra, hop, p) >= spectra[hop][bin]);
}

/// The baseline one bin below a bin is never below the level of the bin: it covers the
/// bin in the searched spectrum itself. So a level can reach that baseline and cannot
/// exceed it, and a peak equals it.
pub proof fn lemma_baseline_covers_bin(spectra: Seq<Seq<u32>>, bin: int)
    requires
        spectra.len() >= LATENCY_HOPS,
        are_spectra(spectra),
        FIRST_BIN <= bin <= LAST_BIN,
    ensures
        spread_level(spectra, spectra.len() - BASELINE_LAG, bin - 1) >= raw_level(
            spectra,
            spectra.len() - LATENCY_HOPS,
            bin,
        ),
        is_peak(spectra, bin) ==> spread_level(spectra, spectra.len() - BASELINE_LAG, bin - 1)
            == raw_level(spectra, spectra.len() - LATENCY_HOPS, bin),
{
    let hop = spectra.len() - LATENCY_HOPS;
    assert(is_spectrum(spectra[hop]));
    lemma_spread_level_covers(spectra, hop, 3, bin - 1, bin);
}

/// A peak is a strict local maximum of its own spectrum: its level exceeds the level
/// of the bin below and of the bin above.
pub proof fn lemma_peak_is_local_maximum(spectra: Seq<Seq<u32>>, bin: int)
    requires
        spectra.len() >= LATENCY_HOPS,
        are_spectra(spectra),
        FIRST_BIN <= bin <= LAST_BIN,
        is_peak(spectra, bin),
    ensures
        candidate_at(spectra, bin).level > candidate_at(spectra, bin).level_before,
        candidate_at(spectra, bin).level > candidate_at(spectra, bin).level_after,
        candidate_at(spectra, bin).level >= PEAK_FLOOR,
{
    let done = spectra.len() as int;
    let hop = done - LATENCY_HOPS;
    let level = raw_level(spectra, hop, bin);
    assert(is_spectrum(spectra[hop]));
    // The bin below is covered by the baseline three bins below the peak, the bin
    // above by the baseline one bin above it.
    assert(frequency_offset(3) == -3);
    assert(frequency_offset(4) == 1);
    assert(level > spread_level(spectra, done - BASELINE_LAG, bin + frequency_offset(3)));
    assert(level > spread_level(spectra, done - BASELINE_LAG, bin + frequency_offset(4)));
    lemma_spread_level_covers(spectra, hop, 3, bin - 3, bin - 1);
    lemma_spread_level_covers(spectra, hop, 3, bin + 1, bin + 1);
}

} // verus!
