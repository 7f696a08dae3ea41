//! Utilities for measuring time.

use crate::samples::{
    ascending, greatest_square, is_greatest, lemma_last_sorted_is_greatest, lemma_rank_in_bounds,
    lemma_scaled_squares_bound, lemma_sort_is_unique, lemma_sorted_is_sort, lemma_sum_bound, rank,
    scaled_squares, sort_ascending, sorted, sum,
};
use crate::wide::{lemma_limbs_are_unique, three_limbs, Wide};
use std::collections::HashMap;
use std::time::{Duration, Instant};
use vstd::prelude::*;

verus! {

broadcast use vstd::std_specs::hash::group_hash_axioms;

/// A trait for time sources. This allows methods to be generic over different ways of measuring
/// time.
pub trait Clock: Sized {
    /// Whether `self` was not read before `earlier`, so that there is a
    /// duration from `earlier` to `self`. A clock that does not say which
    /// of its readings follow which accepts every two of them.
    open spec fn not_before(&self, earlier: &Self) -> bool {
        true
    }

    /// Get a timestamp.
    fn now() -> Self;

    /// Set a scaling factor, which can be used to convert a difference of timestamps to seconds.
    fn set_scaling_factor(&mut self, scaling: usize);

    /// Get the duration from `earlier` to `self` as a `std::time::Duration`.
    fn duration_since(&self, earlier: Self) -> Duration
        requires
            self.not_before(&earlier),
    ;
}

/// The nanoseconds that `ticks` ticks of a counter take, where the counter
/// makes `freq` ticks in a microsecond: `ticks * 1000 / freq`, rounded down.
pub open spec fn ticks_to_nanos(ticks: nat, freq: nat) -> nat {
    ticks * 1000 / freq
}

/// Like std::time::Instant but for a cycle counter: a reading of the
/// counter, and the scaling factor that turns a difference of readings into
/// time once it has been set.
pub struct Tsc {
    tsc: u64,
    freq: Option<usize>,
}

impl Tsc {
    /// The reading of the counter.
    pub closed spec fn spec_ticks(&self) -> u64 {
        self.tsc
    }

    /// The scaling factor, if one has been set.
    pub closed spec fn spec_scaling_factor(&self) -> Option<usize> {
        self.freq
    }

    /// Whether the time from `earlier` to `self` can be computed: `earlier`
    /// was read before `self`, and `self` has a scaling factor, which is not
    /// zero.
    pub open spec fn follows(&self, earlier: &Tsc) -> bool {
        &&& earlier.spec_ticks() < self.spec_ticks()
        &&& self.spec_scaling_factor() matches Some(freq) && freq > 0
    }

    /// A timestamp that holds the reading `tsc` of the counter. It has no
    /// scaling factor yet.
    pub fn new(tsc: u64) -> (now: Tsc)
        ensures
            now.spec_ticks() == tsc,
            now.spec_scaling_factor() is None,
    {
        Tsc { tsc, freq: None }
    }

    /// The reading of the counter.
    #[verifier::when_used_as_spec(spec_ticks)]
    pub fn ticks(&self) -> (tsc: u64)
        ensures
            tsc == self.spec_ticks(),
    {
        self.tsc
    }

    /// The scaling factor, if one has been set.
    #[verifier::when_used_as_spec(spec_scaling_factor)]
    pub fn scaling_factor(&self) -> (freq: Option<usize>)
        ensures
            freq == self.spec_scaling_factor(),
    {
        self.freq
    }

    /// Set the scaling factor: the number of ticks that the counter makes in
    /// a microsecond.
    pub fn set_scaling_factor(&mut self, freq: usize)
        ensures
            final(self).spec_ticks() == old(self).spec_ticks(),
            final(self).spec_scaling_factor() == Some(freq),
    {
        self.freq = Some(freq);
    }

    /// Get the duration from `earlier` to `self` in nanoseconds.
    pub fn duration_since(&self, earlier: Tsc) -> (nanos: u128)
        requires
            self.follows(&earlier),
        ensures
            nanos == ticks_to_nanos(
                (self.spec_ticks() - earlier.spec_ticks()) as nat,
                self.spec_scaling_factor().unwrap() as nat,
            ),
    {
        let diff = self.tsc - earlier.tsc;
        match self.freq {
            Some(freq) => diff as u128 * 1000 / freq as u128,
            None => vstd::pervasive::unreached(),
        }
    }
}

/// The time between two readings is never negative, and it scales linearly
/// with the difference of the readings: `freq` nanoseconds are to 1000 ticks
/// as the result is to `ticks`, rounded down to a whole nanosecond. More
/// ticks never take less time, and `times` spans of `ticks` ticks take
/// `times` times as long as one, to within one nanosecond for each span;
/// exactly, where one span is a whole number of nanoseconds.
pub proof fn lemma_duration_scales_linearly(ticks: nat, more: nat, times: nat, freq: nat)
    requires
        freq > 0,
    ensures
        ticks_to_nanos(ticks, freq) >= 0,
        ticks_to_nanos(ticks, freq) * freq <= ticks * 1000 < (ticks_to_nanos(ticks, freq) + 1)
            * freq,
        ticks <= more ==> ticks_to_nanos(ticks, freq) <= ticks_to_nanos(more, freq),
        times * ticks_to_nanos(ticks, freq) <= ticks_to_nanos(times * ticks, freq),
        times > 0 ==> ticks_to_nanos(times * ticks, freq) < times * (ticks_to_nanos(ticks, freq)
            + 1),
        (ticks * 1000) % freq == 0 ==> ticks_to_nanos(times * ticks, freq) == times
            * ticks_to_nanos(ticks, freq),
{
    let f = freq as int;
    let a = (ticks * 1000) as int;
    let b = (more * 1000) as int;
    let c = (times * ticks * 1000) as int;
    let q = a / f;
    vstd::arithmetic::div_mod::lemma_fundamental_div_mod(a, f);
    vstd::arithmetic::div_mod::lemma_mod_bound(a, f);
    vstd::arithmetic::div_mod::lemma_fundamental_div_mod(c, f);
    vstd::arithmetic::div_mod::lemma_mod_bound(c, f);
    assert(q * f <= a < (q + 1) * f) by (nonlinear_arith)
        requires
            a == f * q + a % f,
            0 <= a % f < f,
    ;
    if ticks <= more {
        vstd::arithmetic::div_mod::lemma_div_is_ordered(a, b, f);
    }
    assert(c == times * a) by (nonlinear_arith)
        requires
            c == times * ticks * 1000,
            a == ticks * 1000,
    ;
    // times * q * f <= c < times * (q + 1) * f
    assert(times * q <= c / f) by (nonlinear_arith)
        requires
            c == times * a,
            q * f <= a,
            f > 0,
            c == f * (c / f) + c % f,
            0 <= c % f < f,
    {
        assert((times * q) * f <= c);
        assert((times * q) * f < (c / f + 1) * f);
    }
    if times > 0 {
        assert(c / f < times * (q + 1)) by (nonlinear_arith)
            requires
                c == times * a,
                a < (q + 1) * f,
                f > 0,
                times > 0,
                c == f * (c / f) + c % f,
                0 <= c % f < f,
        {
            assert(c < (times * (q + 1)) * f);
            assert((c / f) * f < (times * (q + 1)) * f);
        }
    }
    if a % f == 0 {
        assert(c / f == times * q) by (nonlinear_arith)
            requires
                c == times * a,
                a == f * q,
                f > 0,
                c == f * (c / f) + c % f,
                0 <= c % f < f,
        {
            assert(c == (times * q) * f);
            assert((c / f - times * q) * f == c % f);
        }
    }
}

/// `Instant::now`: a reading of the monotonic clock. Nothing is known of it
/// before it is taken.
#[verifier::external_body]
fn read_monotonic() -> Instant {
    Instant::now()
}

/// Whether the reading `earlier` of the monotonic clock was taken no later
/// than the reading `later`: what `earlier <= later` gives for them.
pub uninterp spec fn read_in_order(earlier: Instant, later: Instant) -> bool;

/// The time that passed from the reading `earlier` of the monotonic clock to
/// the reading `later`: what `Instant::duration_since` gives for them.
pub uninterp spec fn time_between(later: Instant, earlier: Instant) -> Duration;

/// The order of two readings, `earlier <= later`: whether `earlier` was taken
/// no later than `later`.
#[verifier::external_body]
fn in_order(earlier: &Instant, later: &Instant) -> (ordered: bool)
    ensures
        ordered == read_in_order(*earlier, *later),
{
    earlier <= later
}

/// `Instant::duration_since`: the time from `earlier` to `later`, which
/// depends on the two readings alone. Readings in the other order are left
/// out: the standard library returns zero for them, and keeps a panic open.
#[verifier::external_body]
fn monotonic_between(later: &Instant, earlier: Instant) -> (elapsed: Duration)
    requires
        read_in_order(earlier, *later),
    ensures
        elapsed == time_between(*later, earlier),
{
    later.duration_since(earlier)
}

/// A reading of the operating system's monotonic clock.
#[verifier::external_type_specification]
#[verifier::external_body]
pub struct ExInstant(Instant);

impl Clock for Instant {
    open spec fn not_before(&self, earlier: &Self) -> bool {
        read_in_order(*earlier, *self)
    }

    #[inline(always)]
    fn now() -> Self {
        read_monotonic()
    }

    fn set_scaling_factor(&mut self, _freq: usize)
        ensures
            *final(self) == *old(self),
    {
        // nop because we are already in seconds...
    }

    fn duration_since(&self, earlier: Self) -> (elapsed: Duration)
        ensures
            elapsed == time_between(*self, earlier),
    {
        monotonic_between(self, earlier)
    }
}

/// The duration from `earlier` to `later` on the monotonic clock; `None`
/// where `earlier` was read after `later`.
pub fn checked_duration_since(later: &Instant, earlier: Instant) -> (elapsed: Option<Duration>)
    ensures
        elapsed == if read_in_order(earlier, *later) {
            Some(time_between(*later, earlier))
        } else {
            None
        },
{
    if in_order(&earlier, later) {
        Some(<Instant as Clock>::duration_since(later, earlier))
    } else {
        None
    }
}

/// An arithmetic mean, exactly: the sum of `count` samples. The mean is
/// `sum / count`; of no samples there is none.
#[derive(Clone, Copy, Debug, PartialEq, Eq, Structural)]
pub struct Mean {
    pub sum: u128,
    pub count: usize,
}

/// A population standard deviation, exactly: `squares` is the sum, over
/// `count` samples `x`, of the squares of `mean.count * x - mean.sum`. The
/// samples' mean squared deviation from `mean` is
/// `squares / (mean.count * mean.count * count)`, and the standard deviation
/// is the square root of that.
#[derive(Clone, Copy, Debug, PartialEq, Eq, Structural)]
pub struct Deviation {
    pub squares: Wide,
    pub mean: Mean,
    pub count: usize,
}

/// What a `MemoizedTimingData` has computed so far. Each statistic is
/// computed when it is first asked for and kept from then on, whatever
/// samples a later call is given.
pub struct Memo {
    pub avg: Option<Mean>,
    pub sd: Option<Deviation>,
    pub max: Option<u64>,
    /// The samples in ascending order, from which `max` and all ranks are
    /// taken.
    pub sorted: Option<Seq<u64>>,
    pub percentiles: Map<usize, u64>,
    pub permicrotiles: Map<usize, u64>,
}

impl Memo {
    /// Nothing has been computed.
    pub open spec fn empty() -> Memo {
        Memo {
            avg: None,
            sd: None,
            max: None,
            sorted: None,
            percentiles: Map::empty(),
            permicrotiles: Map::empty(),
        }
    }

    /// `v` is the sample of rank `part / whole` in the kept order.
    pub open spec fn ranked(self, part: usize, whole: usize, v: u64) -> bool {
        &&& self.sorted matches Some(s)
        &&& s.len() > 0
        &&& v == s[rank(s.len(), part as nat, whole as nat) as int]
    }

    /// What has been computed fits together: the kept order is ascending,
    /// the maximum and each rank are taken from it, and the standard
    /// deviation is about the kept mean.
    pub open spec fn wf(self) -> bool {
        &&& self.sorted matches Some(s) ==> ascending(s)
        &&& self.max matches Some(v) ==> (self.sorted matches Some(s) && s.len() > 0 && v
            == s.last())
        &&& forall|p: usize| #[trigger]
            self.percentiles.contains_key(p) ==> p < 100 && self.ranked(p, 100, self.percentiles[p])
        &&& forall|q: usize| #[trigger]
            self.permicrotiles.contains_key(q) ==> 990_000 < q < 1_000_000 && self.ranked(
                q,
                1_000_000,
                self.permicrotiles[q],
            )
        &&& self.sd matches Some(d) ==> self.avg == Some(d.mean)
    }

    /// The samples in ascending order that `max` and the ranks are taken
    /// from when they are asked of `m`: the kept order if there is one.
    pub open spec fn samples(self, m: Seq<u64>) -> Seq<u64> {
        match self.sorted {
            Some(s) => s,
            None => sorted(m),
        }
    }

    /// `self` after the samples of `m` have been put in order.
    pub open spec fn after_sort(self, m: Seq<u64>) -> Memo {
        Memo { sorted: Some(self.samples(m)), ..self }
    }

    /// What `avg` returns for `m`.
    pub open spec fn avg_of(self, m: Seq<u64>) -> Mean {
        match self.avg {
            Some(avg) => avg,
            None => Mean { sum: sum(m) as u128, count: m.len() as usize },
        }
    }

    /// `self` after `avg` has been asked of `m`.
    pub open spec fn after_avg(self, m: Seq<u64>) -> Memo {
        Memo { avg: Some(self.avg_of(m)), ..self }
    }

    /// What `sd` returns for `m`: the deviation of the samples from the
    /// mean that `avg` returns for them.
    pub open spec fn sd_of(self, m: Seq<u64>) -> Deviation {
        match self.sd {
            Some(sd) => sd,
            None => {
                let mean = self.avg_of(m);
                Deviation {
                    squares: Wide::of(scaled_squares(m, mean.sum as int, mean.count as int)),
                    mean,
                    count: m.len() as usize,
                }
            },
        }
    }

    /// `self` after `sd` has been asked of `m`.
    pub open spec fn after_sd(self, m: Seq<u64>) -> Memo {
        match self.sd {
            Some(_) => self,
            None => Memo { sd: Some(self.sd_of(m)), ..self.after_avg(m) },
        }
    }

    /// What `max` returns for `m`.
    pub open spec fn max_of(self, m: Seq<u64>) -> u64 {
        match self.max {
            Some(max) => max,
            None => self.samples(m).last(),
        }
    }

    /// `self` after `max` has been asked of `m`.
    pub open spec fn after_max(self, m: Seq<u64>) -> Memo {
        match self.max {
            Some(_) => self,
            None => Memo { max: Some(self.max_of(m)), ..self.after_sort(m) },
        }
    }

    /// The sample of rank `part / whole` among those that ranks are taken
    /// from when they are asked of `m`.
    pub open spec fn ranked_sample(self, m: Seq<u64>, part: usize, whole: usize) -> u64 {
        let s = self.samples(m);
        s[rank(s.len(), part as nat, whole as nat) as int]
    }

    /// What `percentile` returns for `m` and `p`.
    pub open spec fn percentile_of(self, m: Seq<u64>, p: usize) -> u64 {
        if self.percentiles.contains_key(p) {
            self.percentiles[p]
        } else {
            self.ranked_sample(m, p, 100)
        }
    }

    /// `self` after `percentile` has been asked of `m` and `p`.
    pub open spec fn after_percentile(self, m: Seq<u64>, p: usize) -> Memo {
        if self.percentiles.contains_key(p) {
            self
        } else {
            Memo {
                percentiles: self.percentiles.insert(p, self.ranked_sample(m, p, 100)),
                ..self.after_sort(m)
            }
        }
    }

    /// What `permicrotile` returns for `m` and `q`.
    pub open spec fn permicrotile_of(self, m: Seq<u64>, q: usize) -> u64 {
        if self.permicrotiles.contains_key(q) {
            self.permicrotiles[q]
        } else {
            self.ranked_sample(m, q, 1_000_000)
        }
    }

    /// `self` after `permicrotile` has been asked of `m` and `q`.
    pub open spec fn after_permicrotile(self, m: Seq<u64>, q: usize) -> Memo {
        if self.permicrotiles.contains_key(q) {
            self
        } else {
            Memo {
                permicrotiles: self.permicrotiles.insert(q, self.ranked_sample(m, q, 1_000_000)),
                ..self.after_sort(m)
            }
        }
    }
}

/// A statistic is computed once. After it has been asked for, every later
/// call for it returns what the first call returned, whatever measurements
/// the later call is given, and changes nothing.
pub proof fn lemma_statistics_are_kept(
    memo: Memo,
    first: Seq<u64>,
    later: Seq<u64>,
    percentile: usize,
    permicrotile: usize,
)
    ensures
        memo.after_avg(first).avg_of(later) == memo.avg_of(first),
        memo.after_avg(first).after_avg(later) == memo.after_avg(first),
        memo.after_sd(first).sd_of(later) == memo.sd_of(first),
        memo.after_sd(first).after_sd(later) == memo.after_sd(first),
        memo.after_max(first).max_of(later) == memo.max_of(first),
        memo.after_max(first).after_max(later) == memo.after_max(first),
        memo.after_percentile(first, percentile).percentile_of(later, percentile)
            == memo.percentile_of(first, percentile),
        memo.after_percentile(first, percentile).after_percentile(later, percentile)
            == memo.after_percentile(first, percentile),
        memo.after_permicrotile(first, permicrotile).permicrotile_of(later, permicrotile)
            == memo.permicrotile_of(first, permicrotile),
        memo.after_permicrotile(first, permicrotile).after_permicrotile(later, permicrotile)
            == memo.after_permicrotile(first, permicrotile),
{
}

/// The measurements are put in order once, by the first call that needs
/// their order, and `max` and all ranks are taken from that one order: each
/// of them, asked of any measurements later, is taken from the first ones.
pub proof fn lemma_order_is_shared(
    memo: Memo,
    first: Seq<u64>,
    later: Seq<u64>,
    percentile: usize,
    permicrotile: usize,
)
    requires
        memo.wf(),
        memo.sorted is None,
    ensures
        memo.after_sort(first).samples(later) == sorted(first),
        memo.after_max(first).samples(later) == sorted(first),
        memo.after_percentile(first, percentile).samples(later) == sorted(first),
        memo.after_permicrotile(first, permicrotile).samples(later) == sorted(first),
        memo.after_sort(first).max_of(later) == memo.max_of(first),
        memo.after_sort(first).percentile_of(later, percentile) == memo.percentile_of(
            first,
            percentile,
        ),
        memo.after_sort(first).permicrotile_of(later, permicrotile) == memo.permicrotile_of(
            first,
            permicrotile,
        ),
{
    assert(!memo.percentiles.contains_key(percentile));
    assert(!memo.permicrotiles.contains_key(permicrotile));
}

/// What has been computed always fits together: nothing does not, and each
/// call that can be made leaves what fits together so.
pub proof fn lemma_calls_keep_well_formed(
    memo: Memo,
    m: Seq<u64>,
    percentile: usize,
    permicrotile: usize,
)
    requires
        memo.wf(),
    ensures
        Memo::empty().wf(),
        memo.after_sort(m).wf(),
        memo.after_avg(m).wf(),
        memo.after_sd(m).wf(),
        memo.samples(m).len() > 0 ==> memo.after_max(m).wf(),
        memo.samples(m).len() > 0 && percentile < 100 ==> memo.after_percentile(
            m,
            percentile,
        ).wf(),
        memo.samples(m).len() > 0 && 990_000 < permicrotile < 1_000_000
            ==> memo.after_permicrotile(m, permicrotile).wf(),
{
    lemma_sorted_is_sort(m);
    assert(memo.after_sort(m).wf());
    assert(memo.after_avg(m).wf());
    assert(memo.after_sd(m).wf());
}

/// Statistics of a set of measurements, each computed when it is first
/// asked for and kept from then on.
#[derive(Debug)]
pub struct MemoizedTimingData {
    cached_avg: Option<Mean>,
    cached_sd: Option<Deviation>,
    cached_max: Option<u64>,
    cached_sorted: Option<Vec<u64>>,
    cached_percentiles: HashMap<usize, u64>,
    cached_permicrotiles: HashMap<usize, u64>,
}

/// The rank that `part / whole` selects among `n` samples.
fn rank_among(n: usize, part: usize, whole: usize) -> (idx: usize)
    requires
        n > 0,
        part < whole,
    ensures
        idx == rank(n as nat, part as nat, whole as nat),
        idx < n,
{
    proof {
        lemma_rank_in_bounds(n as nat, part as nat, whole as nat);
        assert(n * part <= u128::MAX) by (nonlinear_arith)
            requires
                n <= u64::MAX,
                part <= u64::MAX,
        ;
    }
    (n as u128 * part as u128 / whole as u128) as usize
}

impl MemoizedTimingData {
    #[verifier::type_invariant]
    spec fn inv(self) -> bool {
        self@.wf()
    }

    /// What has been computed so far.
    pub closed spec fn view(&self) -> Memo {
        Memo {
            avg: self.cached_avg,
            sd: self.cached_sd,
            max: self.cached_max,
            sorted: match self.cached_sorted {
                Some(sorted) => Some(sorted@),
                None => None,
            },
            percentiles: self.cached_percentiles@,
            permicrotiles: self.cached_permicrotiles@,
        }
    }

    /// Statistics of which none has been computed yet.
    pub fn new() -> (data: Self)
        ensures
            data@ == Memo::empty(),
    {
        Self {
            cached_avg: None,
            cached_sd: None,
            cached_max: None,
            cached_sorted: None,
            cached_percentiles: HashMap::new(),
            cached_permicrotiles: HashMap::new(),
        }
    }

    /// The arithmetic mean of the measurements.
    pub fn avg(&mut self, measurements: &[u64]) -> (avg: Mean)
        ensures
            avg == old(self)@.avg_of(measurements@),
            final(self)@ == old(self)@.after_avg(measurements@),
            final(self)@.wf(),
            old(self)@.avg is None ==> avg.sum == sum(measurements@) && avg.count
                == measurements@.len(),
    {
        proof {
            use_type_invariant(&*self);
        }
        if let Some(avg) = self.cached_avg {
            return avg;
        }
        let n = measurements.len();
        let mut total: u128 = 0;
        let mut i: usize = 0;
        while i < n
            invariant
                i <= n,
                n == measurements@.len(),
                total == sum(measurements@.take(i as int)),
            decreases n - i,
        {
            proof {
                lemma_sum_bound(measurements@.take(i as int));
                assert(measurements@.take(i + 1).drop_last() =~= measurements@.take(i as int));
            }
            total = total + measurements[i] as u128;
            i = i + 1;
        }
        assert(measurements@.take(n as int) =~= measurements@);
        let avg = Mean { sum: total, count: n };
        self.cached_avg = Some(avg);
        avg
    }

    /// The population standard deviation of the measurements about their
    /// mean, as `avg` gives it.
    pub fn sd(&mut self, measurements: &[u64]) -> (sd: Deviation)
        ensures
            sd == old(self)@.sd_of(measurements@),
            final(self)@ == old(self)@.after_sd(measurements@),
            final(self)@.wf(),
            old(self)@.sd is None ==> {
                &&& sd.mean == old(self)@.avg_of(measurements@)
                &&& sd.count == measurements@.len()
                &&& sd.squares.value() == scaled_squares(
                    measurements@,
                    sd.mean.sum as int,
                    sd.mean.count as int,
                )
            },
    {
        proof {
            use_type_invariant(&*self);
        }
        if let Some(sd) = self.cached_sd {
            return sd;
        }
        let n = measurements.len();
        let mean = self.avg(measurements);
        let mut squares = Wide::zero();
        let mut i: usize = 0;
        while i < n
            invariant
                i <= n,
                n == measurements@.len(),
                squares.value() == scaled_squares(
                    measurements@.take(i as int),
                    mean.sum as int,
                    mean.count as int,
                ),
            decreases n - i,
        {
            let x = measurements[i];
            proof {
                lemma_scaled_squares_bound(
                    measurements@.take(i + 1),
                    mean.sum as int,
                    mean.count as int,
                );
                assert(measurements@.take(i + 1).drop_last() =~= measurements@.take(i as int));
                assert(mean.count * x <= u128::MAX) by (nonlinear_arith)
                    requires
                        mean.count <= u64::MAX,
                        x <= u64::MAX,
                ;
                assert((i + 1) * greatest_square() < three_limbs()) by (nonlinear_arith)
                    requires
                        0 <= i + 1 <= 0xffff_ffff_ffff_ffff,
                        greatest_square() * 0xffff_ffff_ffff_ffff < three_limbs(),
                        greatest_square() >= 0,
                ;
            }
            let scaled = mean.count as u128 * x as u128;
            let d = if scaled >= mean.sum {
                scaled - mean.sum
            } else {
                mean.sum - scaled
            };
            assert(d * d == (mean.count * x - mean.sum) * (mean.count * x - mean.sum))
                by (nonlinear_arith)
                requires
                    d == mean.count * x - mean.sum || d == mean.sum - mean.count * x,
            ;
            squares = squares.add_square(d);
            i = i + 1;
        }
        proof {
            assert(measurements@.take(n as int) =~= measurements@);
            lemma_limbs_are_unique(squares);
        }
        let sd = Deviation { squares, mean, count: n };
        self.cached_sd = Some(sd);
        sd
    }

    /// Puts the measurements in ascending order, unless an order is kept
    /// already.
    fn sorted_data(&mut self, measurements: &[u64])
        ensures
            final(self)@ == old(self)@.after_sort(measurements@),
            final(self)@.wf(),
    {
        proof {
            use_type_invariant(&*self);
        }
        if self.cached_sorted.is_some() {
            return ;
        }
        let mut clone = vstd::slice::slice_to_vec(measurements);
        sort_ascending(&mut clone);
        proof {
            lemma_sort_is_unique(clone@, measurements@);
        }
        self.cached_sorted = Some(clone);
    }

    /// How many samples `max` and the ranks are taken from when they are
    /// asked of the measurements.
    pub fn sample_count(&self, measurements: &[u64]) -> (n: usize)
        ensures
            n == self@.samples(measurements@).len(),
            self@.wf(),
    {
        proof {
            use_type_invariant(self);
            lemma_sorted_is_sort(measurements@);
        }
        match &self.cached_sorted {
            Some(sorted) => sorted.len(),
            None => measurements.len(),
        }
    }

    /// The sample of rank `part / whole` in the kept order.
    fn sample_at(&self, part: usize, whole: usize) -> (value: u64)
        requires
            part < whole,
            self@.sorted matches Some(s) && s.len() > 0,
        ensures
            self@.ranked(part, whole, value),
    {
        match &self.cached_sorted {
            Some(sorted) => {
                let idx = rank_among(sorted.len(), part, whole);
                sorted[idx]
            },
            None => vstd::pervasive::unreached(),
        }
    }

    /// The sample below which `percentile` hundredths of the measurements
    /// lie: the one at index `n * percentile / 100`, rounded down, of the
    /// `n` measurements in ascending order.
    pub fn percentile(&mut self, measurements: &[u64], percentile: usize) -> (value: u64)
        requires
            percentile < 100,
            old(self)@.samples(measurements@).len() > 0,
        ensures
            value == old(self)@.percentile_of(measurements@, percentile),
            final(self)@ == old(self)@.after_percentile(measurements@, percentile),
            final(self)@.wf(),
    {
        proof {
            use_type_invariant(&*self);
        }
        if let Some(value) = self.cached_percentiles.get(&percentile) {
            return *value;
        }
        self.sorted_data(measurements);
        let val = self.sample_at(percentile, 100);
        proof {
            use_type_invariant(&*self);
        }
        let mut percentiles = HashMap::new();
        core::mem::swap(&mut percentiles, &mut self.cached_percentiles);
        percentiles.insert(percentile, val);
        self.cached_percentiles = percentiles;
        val
    }

    /// Like `percentile`, in millionths, for the upper tail: the sample at
    /// index `n * permicrotile / 1_000_000`, rounded down.
    pub fn permicrotile(&mut self, measurements: &[u64], permicrotile: usize) -> (value: u64)
        requires
            990_000 < permicrotile < 1_000_000,
            old(self)@.samples(measurements@).len() > 0,
        ensures
            value == old(self)@.permicrotile_of(measurements@, permicrotile),
            final(self)@ == old(self)@.after_permicrotile(measurements@, permicrotile),
            final(self)@.wf(),
    {
        proof {
            use_type_invariant(&*self);
        }
        if let Some(value) = self.cached_permicrotiles.get(&permicrotile) {
            return *value;
        }
        self.sorted_data(measurements);
        let val = self.sample_at(permicrotile, 1_000_000);
        proof {
            use_type_invariant(&*self);
        }
        let mut permicrotiles = HashMap::new();
        core::mem::swap(&mut permicrotiles, &mut self.cached_permicrotiles);
        permicrotiles.insert(permicrotile, val);
        self.cached_permicrotiles = permicrotiles;
        val
    }

    /// The greatest of the measurements.
    pub fn max(&mut self, measurements: &[u64]) -> (max: u64)
        requires
            old(self)@.samples(measurements@).len() > 0,
        ensures
            max == old(self)@.max_of(measurements@),
            final(self)@ == old(self)@.after_max(measurements@),
            final(self)@.wf(),
            old(self)@.sorted is None ==> is_greatest(measurements@, max),
    {
        proof {
            use_type_invariant(&*self);
        }
        if let Some(max) = self.cached_max {
            return max;
        }
        self.sorted_data(measurements);
        let val = match &self.cached_sorted {
            Some(sorted) => sorted[sorted.len() - 1],
            None => vstd::pervasive::unreached(),
        };
        proof {
            if old(self)@.sorted is None {
                lemma_sorted_is_sort(measurements@);
                lemma_last_sorted_is_greatest(measurements@);
            }
        }
        self.cached_max = Some(val);
        val
    }
}

impl Default for MemoizedTimingData {
    fn default() -> (data: Self)
        ensures
            data@ == Memo::empty(),
    {
        MemoizedTimingData::new()
    }
}

} // verus!
