//! The three arenas of a run and what they hold: a ring of the latest 2048 samples
//! and two histories of the latest 256 spectra, raw and spread, each addressed by
//! masking.

use vstd::prelude::*;
use crate::fingerprinting::pipeline::{frame_at, padded_sample};
use crate::fingerprinting::spectra::{
    candidate_at, contribution, exceeds_baseline, exceeds_neighbours, frequency_offset,
    hop_in_slot, is_peak, is_spectrum, max_level, raw_spectrum, spread_in_frequency,
    spread_level, spread_spectrum, time_neighbour, time_offset, PeakCandidate, BASELINE_LAG,
    BIN_COUNT, FIRST_BIN, FREQUENCY_OFFSET_COUNT, PEAK_FLOOR, HISTORY_SIZE, HOP_SIZE,
    LAST_BIN, LATENCY_HOPS, TIME_OFFSET_COUNT, WINDOW_SIZE,
};

verus! {

/// Length of the ring of samples as a mask.
pub(crate) const WINDOW_MASK: usize = 2047;

/// Length of a history as a mask.
pub(crate) const HISTORY_MASK: usize = 255;

/// The position in the waveform of the sample that a slot of the ring holds once
/// `fed` samples went in: the latest position before `fed` that is `slot` modulo 2048.
pub open spec fn position_in_slot(fed: int, slot: int) -> int {
    fed - 1 - (fed - 1 - slot) % (WINDOW_SIZE as int)
}

/// A row of a history holds the given levels.
pub open spec fn row_holds(rows: Seq<Vec<u32>>, slot: int, levels: Seq<u32>) -> bool {
    rows[slot]@ == levels
}

/// The ring holds the latest 2048 of the first `fed` samples, each in the slot of its
/// position modulo 2048, and zeros where no sample went in yet.
#[verifier::opaque]
pub open spec fn ring_holds(ring: Seq<i16>, samples: Seq<i16>, fed: int) -> bool {
    &&& ring.len() == WINDOW_SIZE
    &&& forall|slot: int|
        0 <= slot < WINDOW_SIZE ==> #[trigger] ring[slot] == padded_sample(
            samples,
            position_in_slot(fed, slot),
        )
}

/// Where the cursor of the ring stands before and after a hop.
pub(crate) proof fn lemma_cursor_after_hop(fed: int)
    requires
        0 <= fed,
        fed % 128 == 0,
    ensures
        fed % 2048 + 128 <= 2048,
        (fed % 2048 + 128) % 2048 == (fed + 128) % 2048,
        (fed + 128) % 128 == 0,
        (fed + 128) / 128 == fed / 128 + 1,
{
}

/// The position in a slot of the ring is among the latest 2048 positions.
pub(crate) proof fn lemma_position_in_slot_range(fed: int, slot: int)
    requires
        0 <= slot < WINDOW_SIZE,
    ensures
        fed - 2048 <= position_in_slot(fed, slot) < fed,
        position_in_slot(fed, slot) % 2048 == slot,
{
    let x = fed - 1 - slot;
    let position = fed - 1 - x % 2048;
    assert(position == slot + 2048 * (x / 2048));
}

/// The only position among the latest 2048 that is a slot modulo 2048 is the position
/// in the slot.
pub(crate) proof fn lemma_position_in_slot_unique(fed: int, slot: int, position: int)
    requires
        0 <= slot < WINDOW_SIZE,
        fed - 2048 <= position < fed,
        position % 2048 == slot,
    ensures
        position_in_slot(fed, slot) == position,
{
    lemma_position_in_slot_range(fed, slot);
    let other = position_in_slot(fed, slot);
    assert(other - position == 2048 * (other / 2048 - position / 2048));
}

/// A position and its slot: the slot lies as far from the cursor as the position
/// from the number of samples that went in.
pub(crate) proof fn lemma_slot_of_position(fed: int, offset: int)
    requires
        0 <= fed,
        0 <= fed % 2048 + offset < 2048,
    ensures
        (fed + offset) % 2048 == fed % 2048 + offset,
{
    let q = fed / 2048;
    assert(fed + offset == 2048 * q + (fed % 2048 + offset));
    let x = fed + offset;
    assert(x % 2048 - (fed % 2048 + offset) == 2048 * (q - x / 2048));
}

/// Writing the next hop at the cursor keeps the ring in step with the waveform.
pub(crate) proof fn lemma_ring_after_hop(before: Seq<i16>, after: Seq<i16>, samples: Seq<i16>, fed: int)
    requires
        ring_holds(before, samples, fed),
        0 <= fed,
        fed % 128 == 0,
        fed + 128 <= samples.len(),
        after.len() == WINDOW_SIZE,
        forall|slot: int|
            0 <= slot < WINDOW_SIZE ==> #[trigger] after[slot] == if fed % 2048 <= slot < fed % 2048
                + 128 {
                samples[fed + slot - fed % 2048]
            } else {
                before[slot]
            },
    ensures
        ring_holds(after, samples, fed + 128),
{
    reveal(ring_holds);
    let cursor = fed % 2048;
    lemma_cursor_after_hop(fed);
    assert forall|slot: int| 0 <= slot < WINDOW_SIZE implies #[trigger] after[slot]
        == padded_sample(samples, position_in_slot(fed + 128, slot)) by {
        lemma_position_in_slot_range(fed, slot);
        if cursor <= slot < cursor + 128 {
            lemma_slot_of_position(fed, slot - cursor);
            lemma_position_in_slot_unique(fed + 128, slot, fed + slot - cursor);
        } else {
            let position = position_in_slot(fed, slot);
            assert(position >= fed - 2048 + 128) by {
                if position < fed - 2048 + 128 {
                    let offset = position + 2048 - fed;
                    assert((position + 2048) % 2048 == position % 2048) by {
                        let d = (position + 2048) / 2048 - position / 2048 - 1;
                        assert((position + 2048) % 2048 - position % 2048 == -2048 * d);
                    }
                    if cursor + offset < 2048 {
                        lemma_slot_of_position(fed, offset);
                    } else {
                        assert(cursor + 128 <= 2048);
                    }
                }
            }
            lemma_position_in_slot_unique(fed + 128, slot, position);
            assert(before[slot] == padded_sample(samples, position_in_slot(fed, slot)));
        }
    }
}

/// Read from the cursor on, the ring is the frame of the hop that went in last.
pub(crate) proof fn lemma_frame_of_ring(ring: Seq<i16>, frame: Seq<i16>, samples: Seq<i16>, fed: int)
    requires
        ring_holds(ring, samples, fed),
        0 < fed <= samples.len(),
        fed % 128 == 0,
        frame.len() == WINDOW_SIZE,
        forall|i: int|
            0 <= i < WINDOW_SIZE ==> #[trigger] frame[i] == ring[(fed % 2048 + i) % 2048],
    ensures
        frame == frame_at(samples, fed / 128 - 1),
{
    reveal(ring_holds);
    let expected = frame_at(samples, fed / 128 - 1);
    assert forall|i: int| 0 <= i < WINDOW_SIZE implies frame[i] == expected[i] by {
        let slot = (fed % 2048 + i) % 2048;
        let position = fed - 2048 + i;
        assert(position % 2048 == slot) by {
            let x = fed % 2048 + i;
            let q = fed / 2048;
            assert(position == x + 2048 * (q - 1));
            let d = position / 2048 - (q - 1) - x / 2048;
            assert(position % 2048 - x % 2048 == -2048 * d);
        }
        lemma_position_in_slot_unique(fed, slot, position);
        assert(ring[slot] == padded_sample(samples, position_in_slot(fed, slot)));
        assert(expected[i] == padded_sample(samples, (fed / 128 - 1 + 1) * 128 - 2048 + i));
    }
    assert(frame =~= expected);
}

/// Each history holds, in the slot of a hop modulo 256, the latest spectrum of such a
/// hop: the raw history the raw spectrum, the spread history the spread spectrum.
#[verifier::opaque]
pub open spec fn histories_hold(
    raw: Seq<Vec<u32>>,
    spread: Seq<Vec<u32>>,
    spectra: Seq<Seq<u32>>,
) -> bool {
    let done = spectra.len() as int;
    &&& raw.len() == HISTORY_SIZE
    &&& spread.len() == HISTORY_SIZE
    &&& forall|slot: int|
        0 <= slot < HISTORY_SIZE ==> #[trigger] row_holds(
            raw,
            slot,
            raw_spectrum(spectra, hop_in_slot(done, slot)),
        )
    &&& forall|slot: int|
        0 <= slot < HISTORY_SIZE ==> #[trigger] row_holds(
            spread,
            slot,
            spread_spectrum(spectra, hop_in_slot(done, slot)),
        )
}

/// Two rows joined bin by bin, the larger level taken.
pub open spec fn larger_levels(a: Seq<u32>, b: Seq<u32>) -> Seq<u32> {
    Seq::new(BIN_COUNT as nat, |p: int| max_level(a[p], b[p]))
}

/// What the histories hold after one more hop, row by row: the raw history takes the
/// spectrum at the cursor; the spread history takes the spectrum spread over frequency
/// at the cursor, and the rows one, three and six slots back are raised to it.
pub(crate) open spec fn histories_step(
    raw: Seq<Vec<u32>>,
    spread: Seq<Vec<u32>>,
    raw_after: Seq<Vec<u32>>,
    spread_after: Seq<Vec<u32>>,
    done: int,
    levels: Seq<u32>,
) -> bool {
    let fresh = spread_in_frequency(levels);
    &&& raw_after.len() == HISTORY_SIZE
    &&& spread_after.len() == HISTORY_SIZE
    &&& forall|slot: int|
        0 <= slot < HISTORY_SIZE ==> (#[trigger] raw_after[slot])@ == if slot == done % 256 {
            levels
        } else {
            raw[slot]@
        }
    &&& forall|slot: int|
        0 <= slot < HISTORY_SIZE ==> (#[trigger] spread_after[slot])@ == if slot == done % 256 {
            fresh
        } else if slot == (done - 1) % 256 || slot == (done - 3) % 256 || slot == (done - 6)
            % 256 {
            larger_levels(spread[slot]@, fresh)
        } else {
            spread[slot]@
        }
}

/// The hop in a slot is among the latest 256 hops.
pub(crate) proof fn lemma_hop_in_slot_range(done: int, slot: int)
    requires
        0 <= slot < HISTORY_SIZE,
    ensures
        done - 256 <= hop_in_slot(done, slot) < done,
        hop_in_slot(done, slot) % 256 == slot,
{
    let x = done - 1 - slot;
    let r = x % 256;
    let hop = done - 1 - r;
    assert(hop == slot + 256 * (x / 256));
}

/// The only hop among the latest 256 that is a slot modulo 256 is the hop in the slot.
pub(crate) proof fn lemma_hop_in_slot_unique(done: int, slot: int, hop: int)
    requires
        0 <= slot < HISTORY_SIZE,
        done - 256 <= hop < done,
        hop % 256 == slot,
    ensures
        hop_in_slot(done, slot) == hop,
{
    lemma_hop_in_slot_range(done, slot);
    let other = hop_in_slot(done, slot);
    assert(other - hop == 256 * (other / 256 - hop / 256));
}

/// How the hop in a slot moves when one more hop is processed.
pub(crate) proof fn lemma_hop_in_slot_step(done: int, slot: int)
    requires
        0 <= done,
        0 <= slot < HISTORY_SIZE,
    ensures
        done - 256 <= hop_in_slot(done, slot) < done,
        slot == done % 256 ==> hop_in_slot(done + 1, slot) == done,
        slot != done % 256 ==> hop_in_slot(done + 1, slot) == hop_in_slot(done, slot),
        slot == (done - 1) % 256 <==> hop_in_slot(done, slot) == done - 1,
        slot == (done - 3) % 256 <==> hop_in_slot(done, slot) == done - 3,
        slot == (done - 6) % 256 <==> hop_in_slot(done, slot) == done - 6,
{
    lemma_hop_in_slot_range(done, slot);
    let hop = hop_in_slot(done, slot);
    if slot == done % 256 {
        lemma_hop_in_slot_unique(done + 1, slot, done);
    } else {
        assert(hop != done - 256) by {
            if hop == done - 256 {
                assert(done % 256 == (done - 256) % 256);
            }
        }
        lemma_hop_in_slot_unique(done + 1, slot, hop);
    }
    if slot == (done - 1) % 256 {
        lemma_hop_in_slot_unique(done, slot, done - 1);
    }
    if slot == (done - 3) % 256 {
        lemma_hop_in_slot_unique(done, slot, done - 3);
    }
    if slot == (done - 6) % 256 {
        lemma_hop_in_slot_unique(done, slot, done - 6);
    }
}

/// The spread level of a hop once one more spectrum came in: the spectrum raises the
/// hops one, three and six before it and leaves the other earlier hops as they were.
pub(crate) proof fn lemma_spread_level_after_hop(spectra: Seq<Seq<u32>>, levels: Seq<u32>, hop: int, p: int)
    requires
        hop < spectra.len(),
    ensures
        spread_level(spectra.push(levels), hop, p) == if hop == spectra.len() - 1 || hop
            == spectra.len() - 3 || hop == spectra.len() - 6 {
            max_level(spread_level(spectra, hop, p), spread_in_frequency(levels)[p])
        } else {
            spread_level(spectra, hop, p)
        },
{
    lemma_contribution_after_hop(spectra, levels, hop, p);
    lemma_contribution_after_hop(spectra, levels, hop + 1, p);
    lemma_contribution_after_hop(spectra, levels, hop + 3, p);
    lemma_contribution_after_hop(spectra, levels, hop + 6, p);
}

/// The spread level of the latest hop is its own contribution.
pub(crate) proof fn lemma_spread_level_of_latest(spectra: Seq<Seq<u32>>, levels: Seq<u32>, p: int)
    ensures
        spread_level(spectra.push(levels), spectra.len() as int, p) == spread_in_frequency(
            levels,
        )[p],
{
}

/// One more hop keeps a row of the raw history in step with the spectra.
pub(crate) proof fn lemma_raw_row_after_hop(
    before: Seq<u32>,
    after: Seq<u32>,
    spectra: Seq<Seq<u32>>,
    levels: Seq<u32>,
    slot: int,
)
    requires
        0 <= slot < HISTORY_SIZE,
        is_spectrum(levels),
        before == raw_spectrum(spectra, hop_in_slot(spectra.len() as int, slot)),
        after == if slot == spectra.len() % 256 {
            levels
        } else {
            before
        },
    ensures
        after == raw_spectrum(spectra.push(levels), hop_in_slot(spectra.len() as int + 1, slot)),
{
    let done = spectra.len() as int;
    lemma_hop_in_slot_step(done, slot);
    let hop = hop_in_slot(done + 1, slot);
    assert(after =~= raw_spectrum(spectra.push(levels), hop));
}

/// One more hop keeps a row of the spread history in step with the spectra.
pub(crate) proof fn lemma_spread_row_after_hop(
    before: Seq<u32>,
    after: Seq<u32>,
    spectra: Seq<Seq<u32>>,
    levels: Seq<u32>,
    slot: int,
)
    requires
        0 <= slot < HISTORY_SIZE,
        before == spread_spectrum(spectra, hop_in_slot(spectra.len() as int, slot)),
        after == if slot == spectra.len() % 256 {
            spread_in_frequency(levels)
        } else if slot == (spectra.len() - 1) % 256 || slot == (spectra.len() - 3) % 256 || slot
            == (spectra.len() - 6) % 256 {
            larger_levels(before, spread_in_frequency(levels))
        } else {
            before
        },
    ensures
        after == spread_spectrum(spectra.push(levels), hop_in_slot(spectra.len() as int + 1, slot)),
{
    let done = spectra.len() as int;
    lemma_hop_in_slot_step(done, slot);
    let hop = hop_in_slot(done + 1, slot);
    let expected = spread_spectrum(spectra.push(levels), hop);
    assert forall|p: int| 0 <= p < BIN_COUNT implies after[p] == expected[p] by {
        if slot == done % 256 {
            lemma_spread_level_of_latest(spectra, levels, p);
        } else {
            lemma_spread_level_after_hop(spectra, levels, hop, p);
        }
    }
    assert(after =~= expected);
}

/// One more hop keeps the histories in step with the spectra.
pub(crate) proof fn lemma_histories_after_hop(
    raw: Seq<Vec<u32>>,
    spread: Seq<Vec<u32>>,
    raw_after: Seq<Vec<u32>>,
    spread_after: Seq<Vec<u32>>,
    spectra: Seq<Seq<u32>>,
    levels: Seq<u32>,
)
    requires
        histories_hold(raw, spread, spectra),
        is_spectrum(levels),
        histories_step(raw, spread, raw_after, spread_after, spectra.len() as int, levels),
    ensures
        histories_hold(raw_after, spread_after, spectra.push(levels)),
{
    reveal(histories_hold);
    let done = spectra.len() as int;
    let after = spectra.push(levels);
    assert forall|slot: int| 0 <= slot < HISTORY_SIZE implies #[trigger] row_holds(
        raw_after,
        slot,
        raw_spectrum(after, hop_in_slot(done + 1, slot)),
    ) by {
        assert(row_holds(raw, slot, raw_spectrum(spectra, hop_in_slot(done, slot))));
        lemma_raw_row_after_hop(raw[slot]@, raw_after[slot]@, spectra, levels, slot);
    }
    assert forall|slot: int| 0 <= slot < HISTORY_SIZE implies #[trigger] row_holds(
        spread_after,
        slot,
        spread_spectrum(after, hop_in_slot(done + 1, slot)),
    ) by {
        assert(row_holds(spread, slot, spread_spectrum(spectra, hop_in_slot(done, slot))));
        lemma_spread_row_after_hop(spread[slot]@, spread_after[slot]@, spectra, levels, slot);
    }
}

/// What a hop contributes once one more spectrum came in.
pub(crate) proof fn lemma_contribution_after_hop(spectra: Seq<Seq<u32>>, levels: Seq<u32>, hop: int, p: int)
    ensures
        contribution(spectra.push(levels), hop, p) == if hop == spectra.len() {
            spread_in_frequency(levels)[p]
        } else {
            contribution(spectra, hop, p)
        },
{
}

/// A spectrum spread over frequency.
pub(crate) fn spread_row(raw: &Vec<u32>) -> (row: Vec<u32>)
    requires
        is_spectrum(raw@),
    ensures
        row@ == spread_in_frequency(raw@),
{
    let mut row: Vec<u32> = Vec::with_capacity(BIN_COUNT);
    let mut p: usize = 0;
    while p < BIN_COUNT
        invariant
            p <= BIN_COUNT,
            is_spectrum(raw@),
            row@.len() == p,
            forall|q: int| 0 <= q < p ==> #[trigger] row@[q] == spread_in_frequency(raw@)[q],
        decreases BIN_COUNT - p,
    {
        let mut level: u32 = raw[p];
        if p + 2 < BIN_COUNT {
            if raw[p + 1] > level {
                level = raw[p + 1];
            }
            if raw[p + 2] > level {
                level = raw[p + 2];
            }
        }
        row.push(level);
        p += 1;
    }
    assert(row@ =~= spread_in_frequency(raw@));
    row
}

/// A row of the spread history raised to a fresh spread spectrum.
pub(crate) fn raised_row(former: &Vec<u32>, fresh: &Vec<u32>) -> (row: Vec<u32>)
    requires
        is_spectrum(former@),
        is_spectrum(fresh@),
    ensures
        row@ == larger_levels(former@, fresh@),
{
    let mut row: Vec<u32> = Vec::with_capacity(BIN_COUNT);
    let mut p: usize = 0;
    while p < BIN_COUNT
        invariant
            p <= BIN_COUNT,
            is_spectrum(former@),
            is_spectrum(fresh@),
            row@.len() == p,
            forall|q: int| 0 <= q < p ==> #[trigger] row@[q] == max_level(former@[q], fresh@[q]),
        decreases BIN_COUNT - p,
    {
        let level: u32 = if former[p] >= fresh[p] {
            former[p]
        } else {
            fresh[p]
        };
        row.push(level);
        p += 1;
    }
    assert(row@ =~= larger_levels(former@, fresh@));
    row
}

/// The slot at an offset from a cursor, taken modulo 256 by masking.
pub(crate) fn slot_at(cursor: usize, offset: i32) -> (slot: usize)
    requires
        cursor < HISTORY_SIZE,
        -256 <= offset < 256,
    ensures
        slot == (cursor + offset) % 256,
        slot < HISTORY_SIZE,
{
    let forward: usize = (256 + offset) as usize;
    let sum: usize = cursor + forward;
    let slot: usize = sum & HISTORY_MASK;
    assert(slot == sum % 256) by (bit_vector)
        requires
            slot == sum & 255,
    ;
    slot
}

/// Every row of a history is a spectrum.
pub open spec fn rows_are_spectra(rows: Seq<Vec<u32>>) -> bool {
    forall|slot: int| 0 <= slot < rows.len() ==> is_spectrum((#[trigger] rows[slot])@)
}

/// Histories in step with the spectra hold spectra.
pub(crate) proof fn lemma_histories_hold_spectra(
    raw: Seq<Vec<u32>>,
    spread: Seq<Vec<u32>>,
    spectra: Seq<Seq<u32>>,
)
    requires
        histories_hold(raw, spread, spectra),
    ensures
        raw.len() == HISTORY_SIZE,
        spread.len() == HISTORY_SIZE,
        rows_are_spectra(raw),
        rows_are_spectra(spread),
{
    reveal(histories_hold);
    let done = spectra.len() as int;
    assert forall|slot: int| 0 <= slot < raw.len() implies is_spectrum((#[trigger] raw[slot])@) by {
        assert(row_holds(raw, slot, raw_spectrum(spectra, hop_in_slot(done, slot))));
    }
    assert forall|slot: int| 0 <= slot < spread.len() implies is_spectrum(
        (#[trigger] spread[slot])@,
    ) by {
        assert(row_holds(spread, slot, spread_spectrum(spectra, hop_in_slot(done, slot))));
    }
}

/// The slot a given number of hops back from the cursor holds the hop that many hops
/// back.
pub(crate) proof fn lemma_hop_at_lag(done: int, lag: int)
    requires
        0 <= done,
        1 <= lag <= HISTORY_SIZE,
    ensures
        hop_in_slot(done, (done - lag) % 256) == done - lag,
{
    lemma_hop_in_slot_unique(done, (done - lag) % 256, done - lag);
}

/// Spreads a spectrum into the spread history: the slot at the cursor takes the spectrum
/// spread over frequency, and the rows one, three and six slots back are raised to it.
pub(crate) fn do_peak_spreading(spread: &mut Vec<Vec<u32>>, cursor: usize, levels: &Vec<u32>)
    requires
        old(spread)@.len() == HISTORY_SIZE,
        rows_are_spectra(old(spread)@),
        cursor < HISTORY_SIZE,
        is_spectrum(levels@),
    ensures
        final(spread)@.len() == HISTORY_SIZE,
        forall|slot: int|
            0 <= slot < HISTORY_SIZE ==> (#[trigger] final(spread)@[slot])@ == if slot == cursor {
                spread_in_frequency(levels@)
            } else if slot == (cursor - 1) % 256 || slot == (cursor - 3) % 256 || slot == (cursor
                - 6) % 256 {
                larger_levels(old(spread)@[slot]@, spread_in_frequency(levels@))
            } else {
                old(spread)@[slot]@
            },
{
    let fresh = spread_row(levels);
    let one_back = slot_at(cursor, -1);
    let three_back = slot_at(cursor, -3);
    let six_back = slot_at(cursor, -6);
    let raised_one = raised_row(&spread[one_back], &fresh);
    let raised_three = raised_row(&spread[three_back], &fresh);
    let raised_six = raised_row(&spread[six_back], &fresh);
    spread.set(one_back, raised_one);
    spread.set(three_back, raised_three);
    spread.set(six_back, raised_six);
    spread.set(cursor, fresh);
}

/// The bin offset at a position of the list of eight.
pub(crate) fn frequency_offset_at(i: usize) -> (offset: i32)
    requires
        i < FREQUENCY_OFFSET_COUNT,
    ensures
        offset == frequency_offset(i as int),
{
    if i == 0 {
        -10
    } else if i == 1 {
        -7
    } else if i == 2 {
        -4
    } else if i == 3 {
        -3
    } else if i == 4 {
        1
    } else if i == 5 {
        2
    } else if i == 6 {
        5
    } else {
        8
    }
}

/// The slot offset at a position of the list of fourteen.
pub(crate) fn time_offset_at(i: usize) -> (offset: i32)
    requires
        i < TIME_OFFSET_COUNT,
    ensures
        offset == time_offset(i as int),
{
    if i == 0 {
        -53
    } else if i == 1 {
        -45
    } else if i == 2 {
        165
    } else if i == 3 {
        172
    } else if i == 4 {
        179
    } else if i == 5 {
        186
    } else if i == 6 {
        193
    } else if i == 7 {
        200
    } else if i == 8 {
        214
    } else if i == 9 {
        221
    } else if i == 10 {
        228
    } else if i == 11 {
        235
    } else if i == 12 {
        242
    } else {
        249
    }
}

/// A level exceeds a baseline at each of the eight bin offsets from a bin.
pub open spec fn exceeds_in_frequency(baseline: Seq<u32>, bin: int, level: u32) -> bool {
    forall|i: int|
        0 <= i < FREQUENCY_OFFSET_COUNT ==> level > baseline[bin + #[trigger] frequency_offset(i)]
}

/// A level exceeds, one bin below a bin, the rows of the spread history at each of the
/// fourteen slot offsets from the cursor.
pub open spec fn exceeds_in_time(spread: Seq<Vec<u32>>, cursor: int, bin: int, level: u32) -> bool {
    forall|i: int|
        0 <= i < TIME_OFFSET_COUNT ==> level > spread[(cursor + #[trigger] time_offset(i)) % 256]@[bin
            - 1]
}

/// Taking a remainder before adding does not change the remainder of the sum.
pub(crate) proof fn lemma_slot_of_sum(done: int, offset: int)
    ensures
        (done % 256 + offset) % 256 == (done + offset) % 256,
{
    let q = done / 256;
    assert(done + offset == (done % 256 + offset) + 256 * q);
    let x = done % 256 + offset;
    assert(x + 256 * q - 256 * ((x + 256 * q) / 256) == (x + 256 * q) % 256);
    assert(x - 256 * (x / 256) == x % 256);
    assert((x + 256 * q) % 256 == x % 256) by {
        let d = (x + 256 * q) / 256 - q - x / 256;
        assert((x + 256 * q) % 256 - x % 256 == -256 * d);
    }
}

/// Every bin offset leaves a searched bin inside the spectrum.
pub(crate) proof fn lemma_frequency_offset_range(i: int)
    ensures
        -10 <= frequency_offset(i) <= 8,
{
}

/// The test on the baseline row is the test on the spread spectrum 49 hops back.
pub(crate) proof fn lemma_frequency_test(
    baseline: Seq<u32>,
    spectra: Seq<Seq<u32>>,
    bin: int,
    level: u32,
)
    requires
        baseline == spread_spectrum(spectra, spectra.len() - BASELINE_LAG),
        FIRST_BIN <= bin <= LAST_BIN,
    ensures
        exceeds_in_frequency(baseline, bin, level) == exceeds_baseline(spectra, bin, level),
{
    let hop = spectra.len() - BASELINE_LAG;
    assert forall|i: int| 0 <= i < FREQUENCY_OFFSET_COUNT implies baseline[bin
        + #[trigger] frequency_offset(i)] == spread_level(spectra, hop, bin + frequency_offset(i)) by {
        lemma_frequency_offset_range(i);
    }
    if exceeds_in_frequency(baseline, bin, level) {
        assert forall|i: int| 0 <= i < FREQUENCY_OFFSET_COUNT implies level > spread_level(
            spectra,
            hop,
            bin + #[trigger] frequency_offset(i),
        ) by {
            assert(level > baseline[bin + frequency_offset(i)]);
        }
    }
    if exceeds_baseline(spectra, bin, level) {
        assert forall|i: int| 0 <= i < FREQUENCY_OFFSET_COUNT implies level > baseline[bin
            + #[trigger] frequency_offset(i)] by {
            assert(level > spread_level(spectra, hop, bin + frequency_offset(i)));
        }
    }
}

/// The row of the spread history at a slot offset holds the spread spectrum of the
/// hop that the offset names.
pub(crate) proof fn lemma_time_row(
    raw: Seq<Vec<u32>>,
    spread: Seq<Vec<u32>>,
    spectra: Seq<Seq<u32>>,
    offset: int,
)
    requires
        histories_hold(raw, spread, spectra),
    ensures
        ({
            let done = spectra.len() as int;
            spread[(done % 256 + offset) % 256]@ == spread_spectrum(
                spectra,
                hop_in_slot(done, (done + offset) % 256),
            )
        }),
{
    reveal(histories_hold);
    let done = spectra.len() as int;
    let slot = (done + offset) % 256;
    lemma_slot_of_sum(done, offset);
    assert(row_holds(spread, slot, spread_spectrum(spectra, hop_in_slot(done, slot))));
}

/// The test on the rows of the spread history is the test on the spread spectra.
pub(crate) proof fn lemma_time_test(
    raw: Seq<Vec<u32>>,
    spread: Seq<Vec<u32>>,
    spectra: Seq<Seq<u32>>,
    bin: int,
    level: u32,
)
    requires
        histories_hold(raw, spread, spectra),
        FIRST_BIN <= bin <= LAST_BIN,
    ensures
        exceeds_in_time(spread, spectra.len() as int % 256, bin, level) == exceeds_neighbours(
            spectra,
            bin,
            level,
        ),
{
    let done = spectra.len() as int;
    assert forall|i: int| 0 <= i < TIME_OFFSET_COUNT implies spread[(done % 256
        + #[trigger] time_offset(i)) % 256]@[bin - 1] == spread_level(
        spectra,
        time_neighbour(done, i),
        bin - 1,
    ) by {
        lemma_time_row(raw, spread, spectra, time_offset(i));
    }
    if exceeds_in_time(spread, done % 256, bin, level) {
        assert forall|i: int| 0 <= i < TIME_OFFSET_COUNT implies level > spread_level(
            spectra,
            #[trigger] time_neighbour(done, i),
            bin - 1,
        ) by {
            assert(level > spread[(done % 256 + time_offset(i)) % 256]@[bin - 1]);
        }
    }
    if exceeds_neighbours(spectra, bin, level) {
        assert forall|i: int| 0 <= i < TIME_OFFSET_COUNT implies level > spread[(done % 256
            + #[trigger] time_offset(i)) % 256]@[bin - 1] by {
            assert(level > spread_level(spectra, time_neighbour(done, i), bin - 1));
        }
    }
}

/// The rows that a search reads hold the spectrum 46 hops back and the spread spectrum
/// 49 hops back.
pub(crate) proof fn lemma_searched_rows(raw: Seq<Vec<u32>>, spread: Seq<Vec<u32>>, spectra: Seq<Seq<u32>>)
    requires
        histories_hold(raw, spread, spectra),
    ensures
        raw[(spectra.len() - LATENCY_HOPS) % 256]@ == raw_spectrum(
            spectra,
            spectra.len() - LATENCY_HOPS,
        ),
        spread[(spectra.len() - BASELINE_LAG) % 256]@ == spread_spectrum(
            spectra,
            spectra.len() - BASELINE_LAG,
        ),
{
    reveal(histories_hold);
    let done = spectra.len() as int;
    lemma_hop_at_lag(done, 46);
    lemma_hop_at_lag(done, 49);
    assert(row_holds(
        raw,
        (done - 46) % 256,
        raw_spectrum(spectra, hop_in_slot(done, (done - 46) % 256)),
    ));
    assert(row_holds(
        spread,
        (done - 49) % 256,
        spread_spectrum(spectra, hop_in_slot(done, (done - 49) % 256)),
    ));
}

/// The three tests on the rows of the histories decide whether a bin is a peak.
pub(crate) proof fn lemma_peak_tests(
    raw: Seq<Vec<u32>>,
    spread: Seq<Vec<u32>>,
    spectra: Seq<Seq<u32>>,
    bin: int,
)
    requires
        histories_hold(raw, spread, spectra),
        spectra.len() >= LATENCY_HOPS,
        FIRST_BIN <= bin <= LAST_BIN,
    ensures
        ({
            let done = spectra.len() as int;
            let row = raw[(done - 46) % 256]@;
            let baseline = spread[(done - 49) % 256]@;
            &&& is_peak(spectra, bin) == (row[bin] >= PEAK_FLOOR && row[bin] >= baseline[bin - 1]
                && exceeds_in_frequency(baseline, bin, row[bin]) && exceeds_in_time(
                spread,
                done % 256,
                bin,
                row[bin],
            ))
            &&& candidate_at(spectra, bin) == (PeakCandidate {
                bin_position: bin as u16,
                level_before: row[bin - 1],
                level: row[bin],
                level_after: row[bin + 1],
            })
        }),
{
    let done = spectra.len() as int;
    let row = raw[(done - 46) % 256]@;
    let baseline = spread[(done - 49) % 256]@;
    lemma_searched_rows(raw, spread, spectra);
    lemma_frequency_test(baseline, spectra, bin, row[bin]);
    lemma_time_test(raw, spread, spectra, bin, row[bin]);
}

/// Whether a level exceeds a baseline at each of the eight bin offsets from a bin.
pub(crate) fn exceeds_frequency_neighbours(baseline: &Vec<u32>, bin: usize, level: u32) -> (exceeds: bool)
    requires
        is_spectrum(baseline@),
        FIRST_BIN <= bin <= LAST_BIN,
    ensures
        exceeds == exceeds_in_frequency(baseline@, bin as int, level),
{
    let mut i: usize = 0;
    while i < FREQUENCY_OFFSET_COUNT
        invariant
            i <= FREQUENCY_OFFSET_COUNT,
            is_spectrum(baseline@),
            FIRST_BIN <= bin <= LAST_BIN,
            forall|j: int| 0 <= j < i ==> level > baseline@[bin + #[trigger] frequency_offset(j)],
        decreases FREQUENCY_OFFSET_COUNT - i,
    {
        let neighbour: usize = (bin as i32 + frequency_offset_at(i)) as usize;
        if level <= baseline[neighbour] {
            assert(!(level > baseline@[bin + frequency_offset(i as int)]));
            return false;
        }
        i += 1;
    }
    true
}

/// Whether a level exceeds, one bin below a bin, the rows of the spread history at each
/// of the fourteen slot offsets from the cursor.
pub(crate) fn exceeds_time_neighbours(
    spread: &Vec<Vec<u32>>,
    cursor: usize,
    bin: usize,
    level: u32,
) -> (exceeds: bool)
    requires
        spread@.len() == HISTORY_SIZE,
        rows_are_spectra(spread@),
        cursor < HISTORY_SIZE,
        FIRST_BIN <= bin <= LAST_BIN,
    ensures
        exceeds == exceeds_in_time(spread@, cursor as int, bin as int, level),
{
    let mut i: usize = 0;
    while i < TIME_OFFSET_COUNT
        invariant
            i <= TIME_OFFSET_COUNT,
            spread@.len() == HISTORY_SIZE,
            rows_are_spectra(spread@),
            cursor < HISTORY_SIZE,
            FIRST_BIN <= bin <= LAST_BIN,
            forall|j: int|
                0 <= j < i ==> level > spread@[(cursor + #[trigger] time_offset(j)) % 256]@[bin
                    - 1],
        decreases TIME_OFFSET_COUNT - i,
    {
        let slot = slot_at(cursor, time_offset_at(i));
        assert(is_spectrum(spread@[slot as int]@));
        if level <= spread[slot][bin - 1] {
            assert(!(level > spread@[(cursor + time_offset(i as int)) % 256]@[bin - 1]));
            return false;
        }
        i += 1;
    }
    true
}

/// Copies the hop that starts at `start` of the waveform into the ring at the cursor.
pub(crate) fn write_hop(ring: &mut Vec<i16>, cursor: usize, samples: &Vec<i16>, start: usize)
    requires
        old(ring)@.len() == WINDOW_SIZE,
        cursor + HOP_SIZE <= WINDOW_SIZE,
        start + HOP_SIZE <= samples.len(),
    ensures
        final(ring)@.len() == WINDOW_SIZE,
        forall|slot: int|
            0 <= slot < WINDOW_SIZE ==> #[trigger] final(ring)@[slot] == if cursor <= slot < cursor
                + HOP_SIZE {
                samples@[start + slot - cursor]
            } else {
                old(ring)@[slot]
            },
{
    let ghost before = ring@;
    let mut i: usize = 0;
    while i < HOP_SIZE
        invariant
            i <= HOP_SIZE,
            ring@.len() == WINDOW_SIZE,
            before.len() == WINDOW_SIZE,
            cursor + HOP_SIZE <= WINDOW_SIZE,
            start + HOP_SIZE <= samples.len(),
            forall|slot: int|
                0 <= slot < WINDOW_SIZE ==> #[trigger] ring@[slot] == if cursor <= slot < cursor + i {
                    samples@[start + slot - cursor]
                } else {
                    before[slot]
                },
        decreases HOP_SIZE - i,
    {
        ring.set(cursor + i, samples[start + i]);
        i += 1;
    }
}

/// The ring read from the cursor on, once around: the oldest sample first.
pub(crate) fn reordered(ring: &Vec<i16>, cursor: usize) -> (frame: Vec<i16>)
    requires
        ring@.len() == WINDOW_SIZE,
        cursor < WINDOW_SIZE,
    ensures
        frame@.len() == WINDOW_SIZE,
        forall|i: int|
            0 <= i < WINDOW_SIZE ==> #[trigger] frame@[i] == ring@[(cursor + i) % (
            WINDOW_SIZE as int)],
{
    let mut frame: Vec<i16> = Vec::with_capacity(WINDOW_SIZE);
    let mut i: usize = 0;
    while i < WINDOW_SIZE
        invariant
            i <= WINDOW_SIZE,
            ring@.len() == WINDOW_SIZE,
            cursor < WINDOW_SIZE,
            frame@.len() == i,
            forall|j: int|
                0 <= j < i ==> #[trigger] frame@[j] == ring@[(cursor + j) % (WINDOW_SIZE as int)],
        decreases WINDOW_SIZE - i,
    {
        let sum: usize = i + cursor;
        let slot: usize = sum & WINDOW_MASK;
        assert(slot == sum % 2048) by (bit_vector)
            requires
                slot == sum & 2047,
        ;
        frame.push(ring[slot]);
        i += 1;
    }
    frame
}

} // verus!
