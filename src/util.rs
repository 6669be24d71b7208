use vstd::prelude::*;
use vstd::arithmetic::div_mod::{
    lemma_div_is_ordered, lemma_div_by_multiple, lemma_fundamental_div_mod_converse,
};
use vstd::arithmetic::mul::{lemma_mul_inequality, lemma_mul_is_distributive_add_other_way};
use crate::structs::{
    FrequencyBand, FrequencyInterval, VisualiserType, MIN_FREQ_MHZ, FREQ_RANGE_MHZ,
    LOG_POSITION_SCALE,
};

verus! {

/// Largest volume a band can carry.
pub open spec fn max_volume() -> nat {
    u32::MAX as nat
}

/// Sum of the volumes of `s`.
pub open spec fn sum_volumes(s: Seq<FrequencyBand>) -> nat
    decreases s.len(),
{
    if s.len() == 0 {
        0
    } else {
        sum_volumes(s.drop_last()) + s.last().volume as nat
    }
}

/// Mean volume of `s`, rounded down; 0 for an empty `s`.
pub open spec fn mean_volume(s: Seq<FrequencyBand>) -> nat {
    if s.len() == 0 {
        0
    } else {
        sum_volumes(s) / s.len()
    }
}

/// Slice of a frequency (millihertz) among `r` equal-width slices of
/// 20 Hz to 20,000 Hz. A frequency on a boundary belongs to the upper slice;
/// frequencies outside the range fall into the first or the last slice.
pub open spec fn frequency_slot(freq: nat, r: nat) -> nat {
    if freq <= MIN_FREQ_MHZ {
        0
    } else {
        let q = (((freq - MIN_FREQ_MHZ) as nat) * r) / (FREQ_RANGE_MHZ as nat);
        if q >= r { (r - 1) as nat } else { q }
    }
}

/// Slot of a logarithmic position (millionths of log2(20 Hz)..log2(20,000 Hz))
/// among `r` slots: `floor(position * (r - 0.001))`, clamped to the last slot.
pub open spec fn log_slot(pos: nat, r: nat) -> nat {
    let q = (pos * ((1000 * r - 1) as nat)) / (1000 * LOG_POSITION_SCALE as nat);
    if q >= r { (r - 1) as nat } else { q }
}

/// Slot of a band under a frequency-based strategy.
pub open spec fn band_slot(b: FrequencyBand, r: nat, mode: VisualiserType) -> nat {
    match mode {
        VisualiserType::Log => log_slot(b.log_position as nat, r),
        _ => frequency_slot(b.freq as nat, r),
    }
}

/// Number of bands of `s` that fall into slot `k`.
pub open spec fn slot_count(s: Seq<FrequencyBand>, r: nat, mode: VisualiserType, k: nat) -> nat
    decreases s.len(),
{
    if s.len() == 0 {
        0
    } else {
        slot_count(s.drop_last(), r, mode, k) + if band_slot(s.last(), r, mode) == k {
            1nat
        } else {
            0nat
        }
    }
}

/// Sum of the volumes of the bands of `s` that fall into slot `k`.
pub open spec fn slot_total(s: Seq<FrequencyBand>, r: nat, mode: VisualiserType, k: nat) -> nat
    decreases s.len(),
{
    if s.len() == 0 {
        0
    } else {
        slot_total(s.drop_last(), r, mode, k) + if band_slot(s.last(), r, mode) == k {
            s.last().volume as nat
        } else {
            0nat
        }
    }
}

/// First position of group `i` when `n` bands are split into `r` groups.
pub open spec fn group_start(n: nat, r: nat, i: nat) -> nat {
    (i * n) / r
}

/// Bands of group `i` of `s` when split into `r` groups by position.
pub open spec fn count_group(s: Seq<FrequencyBand>, r: nat, i: nat) -> Seq<FrequencyBand> {
    s.subrange(group_start(s.len(), r, i) as int, group_start(s.len(), r, i + 1) as int)
}

/// Volume of slot `k` of the binning of `s` into `r` slots.
pub open spec fn interval_volume(s: Seq<FrequencyBand>, r: nat, mode: VisualiserType, k: nat) -> nat {
    match mode {
        VisualiserType::Linear2 => mean_volume(count_group(s, r, k)),
        _ => {
            let c = slot_count(s, r, mode, k);
            if c == 0 { 0 } else { slot_total(s, r, mode, k) / c }
        },
    }
}

/// The binning of `s` into `r` slots: slot `k` has index `k` and the volume
/// `interval_volume(s, r, mode, k)`; no slots at all where `r` is 0.
pub open spec fn is_distribution(
    out: Seq<FrequencyInterval>,
    s: Seq<FrequencyBand>,
    r: nat,
    mode: VisualiserType,
) -> bool {
    &&& out.len() == r
    &&& forall|k: int|
        0 <= k < r ==> #[trigger] out[k].index == k && out[k].volume == interval_volume(
            s,
            r,
            mode,
            k as nat,
        )
}

proof fn lemma_sum_bound(s: Seq<FrequencyBand>)
    ensures
        sum_volumes(s) <= s.len() * max_volume(),
    decreases s.len(),
{
    if s.len() > 0 {
        lemma_sum_bound(s.drop_last());
        assert(sum_volumes(s) <= s.len() * max_volume()) by (nonlinear_arith)
            requires
                sum_volumes(s) == sum_volumes(s.drop_last()) + s.last().volume,
                sum_volumes(s.drop_last()) <= (s.len() - 1) * max_volume(),
                s.last().volume <= max_volume(),
                s.len() >= 1,
        ;
    }
}

proof fn lemma_slot_bound(s: Seq<FrequencyBand>, r: nat, mode: VisualiserType, k: nat)
    ensures
        slot_count(s, r, mode, k) <= s.len(),
        slot_total(s, r, mode, k) <= slot_count(s, r, mode, k) * max_volume(),
    decreases s.len(),
{
    if s.len() > 0 {
        lemma_slot_bound(s.drop_last(), r, mode, k);
        let c0 = slot_count(s.drop_last(), r, mode, k);
        let t0 = slot_total(s.drop_last(), r, mode, k);
        if band_slot(s.last(), r, mode) == k {
            assert(t0 + s.last().volume <= (c0 + 1) * max_volume()) by (nonlinear_arith)
                requires
                    t0 <= c0 * max_volume(),
                    s.last().volume <= max_volume(),
            ;
        }
    }
}

/// A quotient `t / c` with `t <= c * m` is at most `m`.
proof fn lemma_mean_bound(t: nat, c: nat, m: nat)
    requires
        c > 0,
        t <= c * m,
    ensures
        t / c <= m,
{
    lemma_div_is_ordered(t as int, (m * c) as int, c as int);
    lemma_div_by_multiple(m as int, c as int);
    assert(c * m == m * c) by (nonlinear_arith);
}

/// Slot of a band in exec code, under a frequency-based strategy.
fn slot_of(b: &FrequencyBand, r: usize, mode: VisualiserType) -> (k: usize)
    requires
        0 < r <= 65536,
        mode != VisualiserType::Linear2,
    ensures
        k == band_slot(*b, r as nat, mode),
        k < r,
{
    let q: u128 = match mode {
        VisualiserType::Log => {
            assert(b.log_position as nat * (1000 * r as nat - 1) <= 0x1_0000_0000 * 65_536_000)
                by (nonlinear_arith)
                requires
                    b.log_position < 0x1_0000_0000,
                    1 <= r <= 65536,
            ;
            (b.log_position as u128 * (1000 * r as u128 - 1)) / (1000 * LOG_POSITION_SCALE as u128)
        },
        _ => {
            if b.freq <= MIN_FREQ_MHZ {
                0
            } else {
                assert((b.freq - MIN_FREQ_MHZ) as nat * r as nat <= 0x1_0000_0000 * 65536)
                    by (nonlinear_arith)
                    requires
                        MIN_FREQ_MHZ < b.freq < 0x1_0000_0000,
                        1 <= r <= 65536,
                ;
                ((b.freq - MIN_FREQ_MHZ) as u128 * r as u128) / (FREQ_RANGE_MHZ as u128)
            }
        },
    };
    if q >= r as u128 {
        r - 1
    } else {
        q as usize
    }
}

/// Bins by slot (frequency slices or logarithmic slices): each slot gets the
/// mean volume of the bands that fall into it, 0 where none do.
fn bin_by_slot(data: &[FrequencyBand], resolution: usize, mode: VisualiserType) -> (out: Vec<
    FrequencyInterval,
>)
    requires
        0 < resolution <= 65536,
        mode != VisualiserType::Linear2,
    ensures
        is_distribution(out@, data@, resolution as nat, mode),
{
    let r = Ghost(resolution as nat);
    let mut totals: Vec<u128> = vec![0u128; resolution];
    let mut counts: Vec<usize> = vec![0usize; resolution];
    let mut i: usize = 0;
    while i < data.len()
        invariant
            i <= data@.len(),
            0 < resolution <= 65536,
            r@ == resolution,
            mode != VisualiserType::Linear2,
            totals@.len() == resolution,
            counts@.len() == resolution,
            forall|k: int|
                0 <= k < resolution ==> #[trigger] totals@[k] == slot_total(
                    data@.take(i as int),
                    r@,
                    mode,
                    k as nat,
                ),
            forall|k: int|
                0 <= k < resolution ==> #[trigger] counts@[k] == slot_count(
                    data@.take(i as int),
                    r@,
                    mode,
                    k as nat,
                ),
        decreases data@.len() - i,
    {
        let b = &data[i];
        let k = slot_of(b, resolution, mode);
        let ghost prev = data@.take(i as int);
        let ghost next = data@.take(i + 1);
        proof {
            assert(next.drop_last() =~= prev);
            assert(next.last() == *b);
            lemma_slot_bound(prev, r@, mode, k as nat);
            assert(slot_total(prev, r@, mode, k as nat) + b.volume <= (i + 1) * max_volume())
                by (nonlinear_arith)
                requires
                    slot_total(prev, r@, mode, k as nat) <= slot_count(prev, r@, mode, k as nat)
                        * max_volume(),
                    slot_count(prev, r@, mode, k as nat) <= i,
                    b.volume <= max_volume(),
            ;
            assert((i + 1) * max_volume() <= 0x1_0000_0000_0000_0000 * 0x1_0000_0000)
                by (nonlinear_arith)
                requires
                    i < 0x1_0000_0000_0000_0000,
            ;
        }
        let t = totals[k] + b.volume as u128;
        let c = counts[k] + 1;
        totals.set(k, t);
        counts.set(k, c);
        i += 1;
    }
    proof {
        assert(data@.take(data@.len() as int) =~= data@);
    }
    let mut out: Vec<FrequencyInterval> = Vec::with_capacity(resolution);
    let mut k: usize = 0;
    while k < resolution
        invariant
            k <= resolution,
            0 < resolution <= 65536,
            r@ == resolution,
            mode != VisualiserType::Linear2,
            totals@.len() == resolution,
            counts@.len() == resolution,
            out@.len() == k,
            forall|j: int|
                0 <= j < resolution ==> #[trigger] totals@[j] == slot_total(data@, r@, mode, j as nat),
            forall|j: int|
                0 <= j < resolution ==> #[trigger] counts@[j] == slot_count(data@, r@, mode, j as nat),
            forall|j: int| 0 <= j < k ==> #[trigger] out@[j].index == j,
            forall|j: int|
                0 <= j < k ==> #[trigger] out@[j].volume == interval_volume(
                    data@,
                    r@,
                    mode,
                    j as nat,
                ),
        decreases resolution - k,
    {
        let volume: u32 = if counts[k] == 0 {
            0
        } else {
            proof {
                lemma_slot_bound(data@, r@, mode, k as nat);
                lemma_mean_bound(totals@[k as int] as nat, counts@[k as int] as nat, max_volume());
            }
            (totals[k] / counts[k] as u128) as u32
        };
        out.push(FrequencyInterval { index: k as u16, volume });
        assert(out@[k as int].volume == interval_volume(data@, r@, mode, k as nat));
        k += 1;
    }
    out
}

/// Bins by position: the bands are split into `resolution` contiguous groups
/// whose bounds are `floor(i * n / resolution)`; each slot gets the mean
/// volume of its group, 0 for an empty group.
fn bin_by_count(data: &[FrequencyBand], resolution: usize) -> (out: Vec<FrequencyInterval>)
    requires
        0 < resolution <= 65536,
    ensures
        is_distribution(out@, data@, resolution as nat, VisualiserType::Linear2),
{
    let n = data.len();
    let r = Ghost(resolution as nat);
    let mut out: Vec<FrequencyInterval> = Vec::with_capacity(resolution);
    let mut i: usize = 0;
    while i < resolution
        invariant
            i <= resolution,
            0 < resolution <= 65536,
            r@ == resolution,
            n == data@.len(),
            out@.len() == i,
            forall|j: int| 0 <= j < i ==> #[trigger] out@[j].index == j,
            forall|j: int|
                0 <= j < i ==> #[trigger] out@[j].volume == interval_volume(
                    data@,
                    r@,
                    VisualiserType::Linear2,
                    j as nat,
                ),
        decreases resolution - i,
    {
        proof {
            lemma_group_bounds(n as nat, r@, i as nat);
            assert(i * n <= (i + 1) * n <= 65536 * 0x1_0000_0000_0000_0000) by (nonlinear_arith)
                requires
                    i < 65536,
                    n < 0x1_0000_0000_0000_0000,
            ;
        }
        let start = ((i as u128 * n as u128) / resolution as u128) as usize;
        let end = (((i + 1) as u128 * n as u128) / resolution as u128) as usize;
        let mut sum: u128 = 0;
        let mut j: usize = start;
        while j < end
            invariant
                start <= j <= end <= n,
                n == data@.len(),
                sum == sum_volumes(data@.subrange(start as int, j as int)),
            decreases end - j,
        {
            proof {
                let part = data@.subrange(start as int, j as int);
                let more = data@.subrange(start as int, j + 1);
                assert(more.drop_last() =~= part);
                lemma_sum_bound(part);
                assert(sum + data@[j as int].volume <= 0x1_0000_0000_0000_0000 * 0x1_0000_0000)
                    by (nonlinear_arith)
                    requires
                        sum <= part.len() * max_volume(),
                        part.len() < 0x1_0000_0000_0000_0000,
                        data@[j as int].volume <= max_volume(),
                ;
            }
            sum = sum + data[j].volume as u128;
            j += 1;
        }
        assert(start == group_start(n as nat, r@, i as nat));
        assert(end == group_start(n as nat, r@, (i + 1) as nat));
        let volume: u32 = if start < end {
            proof {
                let g = data@.subrange(start as int, end as int);
                assert(g == count_group(data@, r@, i as nat));
                lemma_sum_bound(g);
                lemma_mean_bound(sum as nat, g.len(), max_volume());
            }
            (sum / (end - start) as u128) as u32
        } else {
            0
        };
        out.push(FrequencyInterval { index: i as u16, volume });
        assert(out@[i as int].volume == interval_volume(data@, r@, VisualiserType::Linear2, i as nat));
        i += 1;
    }
    out
}

/// Group bounds are ordered and never pass the end of the list.
proof fn lemma_group_bounds(n: nat, r: nat, i: nat)
    requires
        0 < r,
        i < r,
    ensures
        group_start(n, r, i) <= group_start(n, r, i + 1) <= n,
{
    lemma_group_start_monotonic(n, r, i, i + 1);
    lemma_group_start_monotonic(n, r, i + 1, r);
    assert(r * n == n * r) by (nonlinear_arith);
    lemma_div_by_multiple(n as int, r as int);
}

/// Reduces a frequency-ascending band list to `resolution` display slots
/// with the strategy `mode`. No slots at all for a resolution of 0.
pub fn makeDistribution(data: &[FrequencyBand], resolution: usize, mode: VisualiserType) -> (out:
    Vec<FrequencyInterval>)
    requires
        resolution <= 65536,
    ensures
        is_distribution(out@, data@, resolution as nat, mode),
{
    if resolution == 0 {
        return Vec::new();
    }
    match mode {
        VisualiserType::Linear2 => bin_by_count(data, resolution),
        _ => bin_by_slot(data, resolution, mode),
    }
}

/// Total size of the first `k` groups when `n` bands are split into `r` groups.
pub open spec fn group_sizes_total(n: nat, r: nat, k: nat) -> int
    decreases k,
{
    if k == 0 {
        0
    } else {
        group_sizes_total(n, r, (k - 1) as nat) + (group_start(n, r, k) - group_start(
            n,
            r,
            (k - 1) as nat,
        ))
    }
}

/// With a resolution of 0 every strategy yields no slots, whatever the bands.
pub proof fn lemma_zero_resolution_is_empty(
    out: Seq<FrequencyInterval>,
    s: Seq<FrequencyBand>,
    mode: VisualiserType,
)
    requires
        is_distribution(out, s, 0, mode),
    ensures
        out.len() == 0,
{
}

/// With a positive resolution every strategy yields exactly `r` slots whose
/// indices are exactly `0..r`, each once.
pub proof fn lemma_indices_dense(
    out: Seq<FrequencyInterval>,
    s: Seq<FrequencyBand>,
    r: nat,
    mode: VisualiserType,
)
    requires
        r > 0,
        is_distribution(out, s, r, mode),
    ensures
        out.len() == r,
        forall|j: int| 0 <= j < out.len() ==> #[trigger] out[j].index < r,
        forall|k: int| 0 <= k < r ==> #[trigger] out[k].index == k,
        forall|i: int, j: int|
            0 <= i < j < out.len() ==> #[trigger] out[i].index != #[trigger] out[j].index,
{
}

/// Group bounds never decrease: group `i` starts no later than group `j`
/// for `i <= j`.
pub proof fn lemma_group_start_monotonic(n: nat, r: nat, i: nat, j: nat)
    requires
        0 < r,
        i <= j,
    ensures
        group_start(n, r, i) <= group_start(n, r, j),
{
    lemma_mul_inequality(i as int, j as int, n as int);
    lemma_div_is_ordered((i * n) as int, (j * n) as int, r as int);
}

/// Splitting `n` bands into `r > 0` groups by position neither drops nor
/// repeats a band: the group sizes add up to `n`, the first group starts at 0,
/// the last ends at `n`, and the bounds never decrease.
pub proof fn lemma_count_groups_partition(n: nat, r: nat)
    requires
        0 < r,
    ensures
        group_sizes_total(n, r, r) == n,
        group_start(n, r, 0) == 0,
        group_start(n, r, r) == n,
        forall|i: nat, j: nat|
            i <= j ==> #[trigger] group_start(n, r, i) <= #[trigger] group_start(n, r, j),
{
    lemma_sizes_total_telescopes(n, r, r);
    assert(r * n == n * r) by (nonlinear_arith);
    lemma_div_by_multiple(n as int, r as int);
    assert forall|i: nat, j: nat| i <= j implies #[trigger] group_start(n, r, i)
        <= #[trigger] group_start(n, r, j) by {
        lemma_group_start_monotonic(n, r, i, j);
    }
}

proof fn lemma_sizes_total_telescopes(n: nat, r: nat, k: nat)
    requires
        0 < r,
    ensures
        group_sizes_total(n, r, k) == group_start(n, r, k),
    decreases k,
{
    if k > 0 {
        lemma_sizes_total_telescopes(n, r, (k - 1) as nat);
    } else {
        assert(0 * n == 0);
    }
}

/// The bottom of the audible range lands in the first slot and the top of
/// it in the last, both by frequency and by logarithmic position.
pub proof fn lemma_range_ends_map_to_end_slots(r: nat)
    requires
        r > 0,
    ensures
        frequency_slot(MIN_FREQ_MHZ as nat, r) == 0,
        frequency_slot((MIN_FREQ_MHZ + FREQ_RANGE_MHZ) as nat, r) == r - 1,
        log_slot(0, r) == 0,
        log_slot(LOG_POSITION_SCALE as nat, r) == r - 1,
{
    assert((FREQ_RANGE_MHZ as nat * r) / (FREQ_RANGE_MHZ as nat) == r) by {
        assert(FREQ_RANGE_MHZ as nat * r == r * FREQ_RANGE_MHZ as nat) by (nonlinear_arith);
        lemma_div_by_multiple(r as int, FREQ_RANGE_MHZ as int);
    }
    let top = LOG_POSITION_SCALE as nat * ((1000 * r - 1) as nat);
    assert(top == (r - 1) * 1_000_000_000 + 999_000_000) by (nonlinear_arith)
        requires
            top == 1_000_000 * ((1000 * r - 1) as nat),
            r > 0,
    ;
    lemma_fundamental_div_mod_converse(
        top as int,
        1_000_000_000,
        (r - 1) as int,
        999_000_000,
    );
}

} // verus!
