//! Bandwidth smoothing for the traffic shaper.
//!
//! A link's reported bitrate is noisy. Before a new shaping bandwidth is
//! approved, the readings pass a rolling median, which drops spikes, and an
//! exponential moving average, which evens out the rest. A change is then
//! approved only when it is large enough and has kept its direction for
//! several ticks in a row.

use crate::command::{push_word, push_words, words, CommandLine, Invocation};
use crate::fixed::{ema_next, lemma_blend_between, lemma_blend_same, round_micro, to_micro, Ema, PPM};
use crate::text::{decimal, decimal_digits};
use std::collections::VecDeque;
use vstd::prelude::*;
use vstd::relations::*;
use vstd::seq_lib::*;

verus! {

/// Samples the rolling window holds.
pub const WINDOW_SIZE: usize = 5;

/// Samples the window must hold before any decision is made.
pub const WARM_UP_SAMPLES: usize = 3;

/// Consecutive ticks a change must persist before it is approved.
pub const HYSTERESIS_TICKS: u32 = 3;

/// The order in which samples are sorted for the median.
pub open spec fn ascending() -> spec_fn(u32, u32) -> bool {
    |a: u32, b: u32| a <= b
}

/// The window after `sample` has entered it: the oldest sample leaves once the
/// window is full.
pub open spec fn slide(window: Seq<u32>, sample: u32) -> Seq<u32> {
    let grown = window.push(sample);
    if grown.len() > WINDOW_SIZE {
        grown.subrange(1, grown.len() as int)
    } else {
        grown
    }
}

/// The median of a non-empty window: the middle one of its samples in
/// ascending order, or the mean of the two middle ones, rounded down.
pub open spec fn median_of(window: Seq<u32>) -> int {
    let sorted = window.sort_by(ascending());
    let mid = sorted.len() as int / 2;
    if sorted.len() % 2 == 0 {
        (sorted[mid - 1] + sorted[mid]) / 2
    } else {
        sorted[mid] as int
    }
}

/// The distance between two numbers.
pub open spec fn distance(a: int, b: int) -> int {
    if a >= b {
        a - b
    } else {
        b - a
    }
}

/// Whether `target` is far enough from the bandwidth last applied to be worth
/// a change: by at least `threshold_mbit`, or by at least the fraction
/// `threshold_pct_ppm` of the applied bandwidth. With nothing applied yet any
/// target is. Of an applied bandwidth of 0 every other target is.
pub open spec fn significant(
    target: int,
    last_applied: Option<u32>,
    threshold_mbit: int,
    threshold_pct_ppm: int,
) -> bool {
    match last_applied {
        None => true,
        Some(last) => {
            let diff = distance(target, last as int);
            ||| diff >= threshold_mbit
            ||| if last == 0 {
                diff > 0
            } else {
                diff * 1_000_000 >= threshold_pct_ppm * last
            }
        },
    }
}

/// Whether `target` lies on the other side of the applied bandwidth than the
/// pending candidate does. Nothing applied counts as 0.
pub open spec fn reverses(pending: Option<u32>, target: int, last_applied: Option<u32>) -> bool {
    match pending {
        None => false,
        Some(p) => {
            let base: int = match last_applied {
                Some(last) => last as int,
                None => 0,
            };
            (p > base && target < base) || (p < base && target > base)
        },
    }
}

/// The state of a bandwidth smoother, as contracts see it.
pub struct Smoother {
    /// The recent samples, oldest first.
    pub window: Seq<u32>,
    /// The smoothed bandwidth in millionths of a Mbit; `None` until the window
    /// has warmed up.
    pub smoothed: Option<int>,
    /// The bandwidth last committed.
    pub last_applied: Option<u32>,
    /// The candidate that is waiting for approval.
    pub pending: Option<u32>,
    /// Consecutive ticks the candidate has kept its direction.
    pub stable_ticks: nat,
    /// Weight of a new median in the moving average, in parts per million.
    pub alpha_ppm: int,
    /// Smallest absolute change (Mbit) that counts.
    pub threshold_mbit: int,
    /// Smallest relative change that counts, in parts per million.
    pub threshold_pct_ppm: int,
}

impl Smoother {
    /// What holds of every smoother between two calls.
    pub open spec fn wf(self) -> bool {
        &&& 0 <= self.alpha_ppm <= 1_000_000
        &&& 0 <= self.threshold_mbit <= u32::MAX
        &&& 0 <= self.threshold_pct_ppm <= u32::MAX
        &&& self.window.len() <= WINDOW_SIZE
        &&& forall|i: int| 0 <= i < self.window.len() ==> #[trigger] self.window[i] > 0
        &&& self.smoothed matches Some(m) ==> 0 <= m <= to_micro(u32::MAX as int)
        &&& self.pending is Some <==> self.stable_ticks >= 1
        &&& self.stable_ticks < HYSTERESIS_TICKS
    }

    /// A smoother that has seen nothing.
    pub open spec fn fresh(alpha_ppm: int, threshold_mbit: int, threshold_pct_ppm: int) -> Smoother {
        Smoother {
            window: Seq::empty(),
            smoothed: None,
            last_applied: None,
            pending: None,
            stable_ticks: 0,
            alpha_ppm,
            threshold_mbit,
            threshold_pct_ppm,
        }
    }

    /// The smoothed bandwidth in whole Mbit; 0 until the window has warmed up.
    pub open spec fn smoothed_mbit(self) -> int {
        match self.smoothed {
            None => 0,
            Some(m) => round_micro(m),
        }
    }

    /// The bandwidth to shape to: the smoothed bandwidth, but at least 1 Mbit.
    pub open spec fn target(self) -> int {
        if self.smoothed_mbit() < 1 {
            1
        } else {
            self.smoothed_mbit()
        }
    }

    /// The smoother after `mbit` has been recorded as applied.
    pub open spec fn commit(self, mbit: u32) -> Smoother {
        Smoother { last_applied: Some(mbit), ..self }
    }

    /// The smoother after `sample`, and whether the change is approved.
    ///
    /// A sample of 0 is an invalid reading and changes nothing. Any other
    /// sample enters the window. Once the window has warmed up, its median
    /// moves the average, and the rounded average is the new target. A target
    /// that is not far enough from the applied bandwidth drops the pending
    /// candidate. One that is becomes the candidate: it continues the count of
    /// a candidate on the same side of the applied bandwidth and restarts the
    /// count at 1 otherwise. When the count reaches `HYSTERESIS_TICKS`, the
    /// change is approved and the candidate cleared.
    pub open spec fn update(self, sample: u32) -> (Smoother, bool) {
        if sample == 0 {
            (self, false)
        } else {
            let window = slide(self.window, sample);
            if window.len() < WARM_UP_SAMPLES {
                (Smoother { window, ..self }, false)
            } else {
                let smoothed = ema_next(self.alpha_ppm, self.smoothed, median_of(window));
                let target = round_micro(smoothed);
                let seen = Smoother { window, smoothed: Some(smoothed), ..self };
                if !significant(
                    target,
                    self.last_applied,
                    self.threshold_mbit,
                    self.threshold_pct_ppm,
                ) {
                    (Smoother { pending: None, stable_ticks: 0, ..seen }, false)
                } else {
                    let ticks: nat = if self.pending is Some && !reverses(
                        self.pending,
                        target,
                        self.last_applied,
                    ) {
                        self.stable_ticks + 1
                    } else {
                        1
                    };
                    if ticks >= HYSTERESIS_TICKS {
                        (Smoother { pending: None, stable_ticks: 0, ..seen }, true)
                    } else {
                        (Smoother { pending: Some(target as u32), stable_ticks: ticks, ..seen }, false)
                    }
                }
            }
        }
    }
}

/// `<=` on `u32` is a total order.
pub proof fn lemma_ascending_total()
    ensures
        total_ordering(ascending()),
{
}

/// The median of a non-empty window lies between its smallest and its largest
/// sample.
pub proof fn lemma_median_bounds(window: Seq<u32>, lo: u32, hi: u32)
    requires
        window.len() > 0,
        forall|i: int| 0 <= i < window.len() ==> lo <= #[trigger] window[i] <= hi,
    ensures
        lo <= median_of(window) <= hi,
{
    broadcast use group_to_multiset_ensures;

    lemma_ascending_total();
    let sorted = window.sort_by(ascending());
    window.lemma_sort_by_ensures(ascending());
    assert(sorted.len() == window.len()) by {
        assert(sorted.to_multiset().len() == window.to_multiset().len());
    }
    assert forall|i: int| 0 <= i < sorted.len() implies lo <= #[trigger] sorted[i] <= hi by {
        assert(sorted.to_multiset().contains(sorted[i]));
        assert(window.to_multiset().contains(sorted[i]));
        assert(window.contains(sorted[i]));
    }
    let mid = sorted.len() as int / 2;
    assert(lo <= sorted[mid] <= hi);
    if sorted.len() % 2 == 0 {
        assert(lo <= sorted[mid - 1] <= hi);
    }
}

/// An update keeps a smoother well formed.
pub proof fn lemma_update_wf(smoother: Smoother, sample: u32)
    requires
        smoother.wf(),
    ensures
        smoother.update(sample).0.wf(),
{
    if sample != 0 {
        let window = slide(smoother.window, sample);
        assert forall|i: int| 0 <= i < window.len() implies #[trigger] window[i] > 0 by {
            let grown = smoother.window.push(sample);
            if grown.len() > WINDOW_SIZE {
                assert(window[i] == grown[i + 1]);
            }
        }
        if window.len() >= WARM_UP_SAMPLES {
            lemma_median_bounds(window, 0, u32::MAX);
            let median = median_of(window);
            if smoother.smoothed is Some {
                lemma_blend_between(smoother.alpha_ppm, to_micro(median), smoother.smoothed->0);
            }
        }
    }
}

/// The median of a window whose samples are all `value` is `value`.
pub proof fn lemma_median_of_equal_samples(window: Seq<u32>, value: u32)
    requires
        window.len() > 0,
        forall|i: int| 0 <= i < window.len() ==> #[trigger] window[i] == value,
    ensures
        median_of(window) == value,
{
    lemma_median_bounds(window, value, value);
}

/// Warm-up: a smoother that holds fewer than two samples approves nothing,
/// whatever the sample. So the first two samples are never approved, and an
/// approval comes from the third sample on.
pub proof fn lemma_warm_up(smoother: Smoother, first: u32, second: u32)
    ensures
        smoother.window.len() < 2 ==> !smoother.update(first).1,
        smoother.window.len() == 0 ==> !smoother.update(first).0.update(second).1,
{
    if smoother.window.len() == 0 {
        let after = smoother.update(first).0;
        assert(after.window.len() <= 1);
    }
}

/// An outlier among equal samples is dropped: in a window of at least three
/// samples of which all but one are `value`, the median is `value`.
pub proof fn lemma_median_drops_outlier(window: Seq<u32>, value: u32, outlier: int)
    requires
        window.len() >= 3,
        0 <= outlier < window.len(),
        forall|i: int| 0 <= i < window.len() && i != outlier ==> #[trigger] window[i] == value,
    ensures
        median_of(window) == value,
{
    broadcast use group_to_multiset_ensures;

    lemma_ascending_total();
    let sorted = window.sort_by(ascending());
    window.lemma_sort_by_ensures(ascending());
    let n = window.len() as int;
    assert(sorted.len() == n) by {
        assert(sorted.to_multiset().len() == window.to_multiset().len());
    }
    // The samples other than the outlier, `value` each, are found in the
    // sorted window as often as in the window itself.
    let rest = window.remove(outlier);
    assert(rest.len() == n - 1);
    assert forall|i: int| 0 <= i < rest.len() implies #[trigger] rest[i] == value by {
        if i < outlier {
            assert(rest[i] == window[i]);
        } else {
            assert(rest[i] == window[i + 1]);
        }
    }
    let odd = window[outlier];
    assert(rest.to_multiset() == window.to_multiset().remove(odd));
    // Where the odd sample stands in the sorted window.
    assert(window.to_multiset().contains(odd));
    assert(sorted.to_multiset().contains(odd));
    assert(sorted.contains(odd));
    let place = choose|k: int| 0 <= k < sorted.len() && sorted[k] == odd;
    let others = sorted.remove(place);
    assert(others.to_multiset() == sorted.to_multiset().remove(odd));
    assert(others.to_multiset() == rest.to_multiset());
    assert forall|i: int| 0 <= i < others.len() implies #[trigger] others[i] == value by {
        assert(others.to_multiset().contains(others[i]));
        assert(rest.to_multiset().contains(others[i]));
        assert(rest.contains(others[i]));
    }
    assert forall|i: int| 0 <= i < n && i != place implies #[trigger] sorted[i] == value by {
        if i < place {
            assert(others[i] == sorted[i]);
        } else {
            assert(others[i - 1] == sorted[i]);
        }
    }
    // Each sample strictly inside the sorted window lies between two samples
    // of which at least one pair is `value` on both sides.
    assert forall|i: int| 1 <= i < n - 1 implies #[trigger] sorted[i] == value by {
        if i == place {
            assert(sorted[0] == value);
            assert(sorted[n - 1] == value);
            assert(ascending()(sorted[0], sorted[i]));
            assert(ascending()(sorted[i], sorted[n - 1]));
        }
    }
    let mid = n / 2;
    assert(sorted[mid] == value);
    if n % 2 == 0 {
        assert(sorted[mid - 1] == value);
    }
}

/// Outlier rejection: while the window is full of one value and the average
/// rests on it, a single sample of any size moves neither the median nor the
/// average.
pub proof fn lemma_outlier_leaves_average(smoother: Smoother, value: u32, sample: u32)
    requires
        smoother.wf(),
        smoother.window.len() == WINDOW_SIZE,
        forall|i: int| 0 <= i < smoother.window.len() ==> #[trigger] smoother.window[i] == value,
        smoother.smoothed == Some(to_micro(value as int)),
        sample > 0,
    ensures
        median_of(slide(smoother.window, sample)) == value,
        smoother.update(sample).0.smoothed == Some(to_micro(value as int)),
        smoother.update(sample).0.smoothed_mbit() == value,
{
    let window = slide(smoother.window, sample);
    assert(window.len() == WINDOW_SIZE);
    assert forall|i: int| 0 <= i < window.len() && i != 4 implies #[trigger] window[i] == value by {
        assert(window[i] == smoother.window[i + 1]);
    }
    lemma_median_drops_outlier(window, value, 4);
    lemma_blend_same(smoother.alpha_ppm, to_micro(value as int));
}

impl Smoother {
    /// The smoother after the sample `sample` has come `times` times in a row.
    pub open spec fn update_repeatedly(self, sample: u32, times: nat) -> Smoother
        decreases times,
    {
        if times == 0 {
            self
        } else {
            self.update_repeatedly(sample, (times - 1) as nat).update(sample).0
        }
    }
}

/// From a smoother that has seen nothing, equal samples are approved on the
/// fifth and on none before: two samples of warm-up, then three ticks of
/// stability. This holds for every weight and every threshold.
pub proof fn lemma_steady_samples_approved_once(
    alpha_ppm: int,
    threshold_mbit: int,
    threshold_pct_ppm: int,
    sample: u32,
    tick: nat,
)
    requires
        0 <= alpha_ppm <= 1_000_000,
        sample > 0,
        1 <= tick <= 5,
    ensures
        Smoother::fresh(alpha_ppm, threshold_mbit, threshold_pct_ppm).update_repeatedly(
            sample,
            (tick - 1) as nat,
        ).update(sample).1 == (tick == 5),
{
    let fresh = Smoother::fresh(alpha_ppm, threshold_mbit, threshold_pct_ppm);
    reveal_with_fuel(Smoother::update_repeatedly, 6);
    let s1 = fresh.update(sample).0;
    assert(s1.window =~= seq![sample]);
    let s2 = s1.update(sample).0;
    assert(s2.window =~= seq![sample, sample]);
    let w3 = seq![sample, sample, sample];
    assert(slide(s2.window, sample) =~= w3);
    lemma_median_of_equal_samples(w3, sample);
    let s3 = s2.update(sample).0;
    assert(s3.smoothed == Some(to_micro(sample as int)));
    assert(s3.stable_ticks == 1);
    let w4 = seq![sample, sample, sample, sample];
    assert(slide(s3.window, sample) =~= w4);
    lemma_median_of_equal_samples(w4, sample);
    lemma_blend_same(alpha_ppm, to_micro(sample as int));
    let s4 = s3.update(sample).0;
    assert(s4.smoothed == Some(to_micro(sample as int)));
    assert(s4.stable_ticks == 2);
    let w5 = seq![sample, sample, sample, sample, sample];
    assert(slide(s4.window, sample) =~= w5);
    lemma_median_of_equal_samples(w5, sample);
    assert(s4.update(sample).1);
}

/// Flap resistance: a target on the other side of the applied bandwidth than
/// the pending candidate is not approved. It becomes the candidate, and the
/// count starts over at 1.
pub proof fn lemma_reversal_restarts_count(smoother: Smoother, sample: u32)
    requires
        smoother.wf(),
        sample > 0,
        slide(smoother.window, sample).len() >= WARM_UP_SAMPLES,
        ({
            let target = round_micro(
                ema_next(
                    smoother.alpha_ppm,
                    smoother.smoothed,
                    median_of(slide(smoother.window, sample)),
                ),
            );
            &&& significant(
                target,
                smoother.last_applied,
                smoother.threshold_mbit,
                smoother.threshold_pct_ppm,
            )
            &&& reverses(smoother.pending, target, smoother.last_applied)
        }),
    ensures
        !smoother.update(sample).1,
        smoother.update(sample).0.stable_ticks == 1,
        smoother.update(sample).0.pending == Some(
            round_micro(
                ema_next(
                    smoother.alpha_ppm,
                    smoother.smoothed,
                    median_of(slide(smoother.window, sample)),
                ),
            ) as u32,
        ),
{
}

/// A change that is not large enough drops the pending candidate, so that a
/// later change starts its count from nothing.
pub proof fn lemma_small_change_drops_candidate(smoother: Smoother, sample: u32)
    requires
        sample > 0,
        slide(smoother.window, sample).len() >= WARM_UP_SAMPLES,
        !significant(
            round_micro(
                ema_next(
                    smoother.alpha_ppm,
                    smoother.smoothed,
                    median_of(slide(smoother.window, sample)),
                ),
            ),
            smoother.last_applied,
            smoother.threshold_mbit,
            smoother.threshold_pct_ppm,
        ),
    ensures
        !smoother.update(sample).1,
        smoother.update(sample).0.pending is None,
        smoother.update(sample).0.stable_ticks == 0,
{
}

/// Traffic-control manager: decides when the shaping bandwidth of an
/// interface is to change, from one bitrate sample per tick.
pub struct TcManager {
    /// Last applied bandwidth (Mbit).
    last_bandwidth: Option<u32>,
    /// Moving average of the window's median.
    smoothed_bandwidth: Ema,
    /// Minimum change (Mbit) to trigger an update.
    change_threshold_mbit: u32,
    /// Minimum relative change to trigger an update, in parts per million.
    change_threshold_pct: u32,
    /// Rolling window for the median.
    sample_window: VecDeque<u32>,
    /// Consecutive ticks the target has been stable.
    stable_ticks: u32,
    /// Target bandwidth, proposed but not yet applied.
    pending_bandwidth: Option<u32>,
}

impl View for TcManager {
    type V = Smoother;

    closed spec fn view(&self) -> Smoother {
        Smoother {
            window: self.sample_window@,
            smoothed: self.smoothed_bandwidth.value(),
            last_applied: self.last_bandwidth,
            pending: self.pending_bandwidth,
            stable_ticks: self.stable_ticks as nat,
            alpha_ppm: self.smoothed_bandwidth.alpha(),
            threshold_mbit: self.change_threshold_mbit as int,
            threshold_pct_ppm: self.change_threshold_pct as int,
        }
    }
}

impl TcManager {
    /// What holds of every manager between two calls.
    pub closed spec fn wf(&self) -> bool {
        &&& self@.wf()
        &&& self.smoothed_bandwidth.wf()
    }

    /// The model of a well-formed manager is well formed.
    pub proof fn lemma_wf_model(&self)
        requires
            self.wf(),
        ensures
            self@.wf(),
    {
    }

    /// A manager that has seen no sample and applied nothing. The weight of
    /// the moving average and the relative threshold are in parts per million.
    pub fn new(ema_alpha_ppm: u32, threshold_mbit: u32, threshold_pct_ppm: u32) -> (tc: TcManager)
        requires
            ema_alpha_ppm <= PPM,
        ensures
            tc.wf(),
            tc@ == Smoother::fresh(
                ema_alpha_ppm as int,
                threshold_mbit as int,
                threshold_pct_ppm as int,
            ),
    {
        let tc = TcManager {
            last_bandwidth: None,
            smoothed_bandwidth: Ema::new(ema_alpha_ppm),
            change_threshold_mbit: threshold_mbit,
            change_threshold_pct: threshold_pct_ppm,
            sample_window: VecDeque::with_capacity(10),
            stable_ticks: 0,
            pending_bandwidth: None,
        };
        assert(tc@.window =~= Seq::empty());
        tc
    }

    /// The window's samples in ascending order.
    fn sorted_samples(&self) -> (sorted: Vec<u32>)
        ensures
            sorted@ == self@.window.sort_by(ascending()),
            sorted@.len() == self@.window.len(),
    {
        broadcast use group_to_multiset_ensures;

        let n: usize = self.sample_window.len();
        let mut sorted: Vec<u32> = Vec::new();
        let mut k: usize = 0;
        assert(self.sample_window@.subrange(0, 0) =~= Seq::<u32>::empty());
        while k < n
            invariant
                n == self.sample_window@.len(),
                k <= n,
                sorted@.len() == k,
                sorted_by(sorted@, ascending()),
                sorted@.to_multiset() == self.sample_window@.subrange(0, k as int).to_multiset(),
            decreases n - k,
        {
            let x: u32 = self.sample_window[k];
            let mut pos: usize = 0;
            while pos < sorted.len() && sorted[pos] <= x
                invariant
                    pos <= sorted.len(),
                    forall|i: int| 0 <= i < pos ==> sorted@[i] <= x,
                decreases sorted.len() - pos,
            {
                pos += 1;
            }
            let ghost before = sorted@;
            sorted.insert(pos, x);
            proof {
                let prefix = self.sample_window@.subrange(0, k as int);
                assert(self.sample_window@.subrange(0, k + 1) =~= prefix.push(x));
                to_multiset_build(prefix, x);
                to_multiset_insert(before, pos as int, x);
                assert forall|i: int, j: int| 0 <= i < j < sorted@.len() implies #[trigger] ascending()(
                    sorted@[i],
                    sorted@[j],
                ) by {
                    if j < pos {
                        assert(ascending()(before[i], before[j]));
                    } else if j == pos {
                    } else if i < pos {
                        assert(ascending()(before[i], before[j - 1]));
                    } else if i == pos {
                        if pos < j - 1 {
                            assert(ascending()(before[pos as int], before[j - 1]));
                        }
                    } else {
                        assert(ascending()(before[i - 1], before[j - 1]));
                    }
                }
            }
            k += 1;
        }
        proof {
            assert(self.sample_window@.subrange(0, n as int) =~= self.sample_window@);
            lemma_ascending_total();
            self.sample_window@.lemma_sort_by_ensures(ascending());
            lemma_sorted_unique(sorted@, self.sample_window@.sort_by(ascending()), ascending());
        }
        sorted
    }

    /// The median of the samples in the window, `None` while it is empty.
    pub fn median(&self) -> (median: Option<u32>)
        ensures
            self@.window.len() == 0 ==> median is None,
            self@.window.len() > 0 ==> median == Some(median_of(self@.window) as u32),
            self@.window.len() > 0 ==> 0 <= median_of(self@.window) <= u32::MAX,
    {
        if self.sample_window.len() == 0 {
            return None;
        }
        let sorted = self.sorted_samples();
        let mid: usize = sorted.len() / 2;
        proof {
            lemma_median_bounds(self@.window, 0, u32::MAX);
        }
        if sorted.len() % 2 == 0 {
            let sum: u64 = sorted[mid - 1] as u64 + sorted[mid] as u64;
            Some((sum / 2) as u32)
        } else {
            Some(sorted[mid])
        }
    }

    /// Takes one bitrate sample (Mbit) and says whether the shaper is to be
    /// set anew.
    pub fn update_bandwidth(&mut self, current_speed_mbit: u32) -> (should_apply: bool)
        requires
            old(self).wf(),
        ensures
            final(self).wf(),
            final(self)@ == old(self)@.update(current_speed_mbit).0,
            should_apply == old(self)@.update(current_speed_mbit).1,
    {
        if current_speed_mbit == 0 {
            return false;
        }
        // Stage 1: the sample enters the rolling window.
        self.sample_window.push_back(current_speed_mbit);
        if self.sample_window.len() > WINDOW_SIZE {
            self.sample_window.pop_front();
        }
        assert(self.sample_window@ =~= slide(old(self)@.window, current_speed_mbit));
        if self.sample_window.len() < WARM_UP_SAMPLES {
            return false;
        }
        // Stage 2: the median drops outliers.
        let median_mbit: u32 = match self.median() {
            Some(m) => m,
            None => {
                return false;
            },
        };
        // Stage 3: the moving average evens out what is left.
        proof {
            old(self).smoothed_bandwidth.lemma_value_range();
            if old(self)@.smoothed is Some {
                lemma_blend_between(
                    old(self)@.alpha_ppm,
                    to_micro(median_mbit as int),
                    old(self)@.smoothed->0,
                );
            }
        }
        self.smoothed_bandwidth.observe(median_mbit as u64);
        let target_mbit: u32 = self.smoothed_bandwidth.rounded() as u32;

        // Stage 4: is the change large enough?
        let should_consider: bool = match self.last_bandwidth {
            Some(last) => {
                let abs_diff: u32 = if target_mbit >= last {
                    target_mbit - last
                } else {
                    last - target_mbit
                };
                assert(self.change_threshold_pct as u64 * last as u64 <= 0xffff_ffff * 0xffff_ffff)
                    by (nonlinear_arith)
                    requires
                        self.change_threshold_pct <= 0xffff_ffff,
                        last <= 0xffff_ffff,
                ;
                abs_diff >= self.change_threshold_mbit || if last == 0 {
                    abs_diff > 0
                } else {
                    abs_diff as u64 * 1_000_000 >= self.change_threshold_pct as u64 * last as u64
                }
            },
            None => true,
        };
        if !should_consider {
            self.stable_ticks = 0;
            self.pending_bandwidth = None;
            return false;
        }
        // Stage 5: the candidate must keep its direction.
        let base: u32 = match self.last_bandwidth {
            Some(last) => last,
            None => 0,
        };
        let direction_change: bool = match self.pending_bandwidth {
            Some(pending) => (pending > base && target_mbit < base) || (pending < base
                && target_mbit > base),
            None => false,
        };
        if direction_change {
            self.stable_ticks = 1;
        } else if self.pending_bandwidth.is_some() {
            self.stable_ticks += 1;
        } else {
            self.stable_ticks = 1;
        }
        self.pending_bandwidth = Some(target_mbit);

        if self.stable_ticks >= HYSTERESIS_TICKS {
            self.stable_ticks = 0;
            self.pending_bandwidth = None;
            true
        } else {
            false
        }
    }

    /// The smoothed bandwidth in whole Mbit; 0 until the window has warmed up.
    pub fn get_smoothed_mbit(&self) -> (mbit: u32)
        requires
            self.wf(),
        ensures
            mbit == self@.smoothed_mbit(),
    {
        self.smoothed_bandwidth.rounded() as u32
    }

    /// The bandwidth the shaper is to be set to: the smoothed bandwidth, but
    /// at least 1 Mbit.
    pub fn current_target(&self) -> (mbit: u32)
        requires
            self.wf(),
        ensures
            mbit == self@.target(),
            mbit >= 1,
    {
        let smoothed: u32 = self.get_smoothed_mbit();
        if smoothed < 1 {
            1
        } else {
            smoothed
        }
    }

    /// Records `mbit` as the bandwidth that is now applied.
    pub fn set_last_applied(&mut self, mbit: u32)
        requires
            old(self).wf(),
        ensures
            final(self).wf(),
            final(self)@ == old(self)@.commit(mbit),
    {
        self.last_bandwidth = Some(mbit);
    }
}

/// How the shaper is set up.
#[derive(Debug, Clone, Copy, PartialEq, Eq, Structural)]
pub enum CakeProfile {
    /// Classification by differentiated services, fairness per destination
    /// host, awareness of address translation, washing of DSCP marks on
    /// ingress, and ACK filtering.
    Full,
    /// Best effort with awareness of address translation: what is tried when
    /// the full profile is refused.
    Minimal,
}

impl CakeProfile {
    /// The profile to try after this one was refused; `None` when none is
    /// left and the failure is to be reported.
    pub open spec fn fallback_of(self) -> Option<CakeProfile> {
        match self {
            CakeProfile::Full => Some(CakeProfile::Minimal),
            CakeProfile::Minimal => None,
        }
    }

    /// The options that select the profile.
    pub open spec fn options(self) -> Seq<Seq<char>> {
        match self {
            CakeProfile::Full => seq![
                "diffserv4"@,
                "dual-dsthost"@,
                "nat"@,
                "wash"@,
                "ack-filter"@,
            ],
            CakeProfile::Minimal => seq!["besteffort"@, "nat"@],
        }
    }

    /// The profile to try first.
    pub fn primary() -> (profile: CakeProfile)
        ensures
            profile == CakeProfile::Full,
    {
        CakeProfile::Full
    }

    /// The profile to try after this one was refused.
    pub fn fallback(self) -> (next: Option<CakeProfile>)
        ensures
            next == self.fallback_of(),
    {
        match self {
            CakeProfile::Full => Some(CakeProfile::Minimal),
            CakeProfile::Minimal => None,
        }
    }
}

/// The command that sets the shaper of `interface` to `mbit` Mbit.
pub open spec fn apply_cake_command(interface: Seq<char>, mbit: u32, profile: CakeProfile) -> CommandLine {
    CommandLine {
        program: "tc"@,
        args: seq![
            "qdisc"@,
            "replace"@,
            "dev"@,
            interface,
            "root"@,
            "cake"@,
            "bandwidth"@,
            decimal_digits(mbit as nat) + "mbit"@,
        ] + profile.options(),
    }
}

/// The command that removes the shaper of `interface`.
pub open spec fn remove_cake_command(interface: Seq<char>) -> CommandLine {
    CommandLine { program: "tc"@, args: seq!["qdisc"@, "del"@, "dev"@, interface, "root"@] }
}

/// The command that switches adaptive interrupt coalescing of `interface`.
pub open spec fn coalescing_command(interface: Seq<char>, enabled: bool) -> CommandLine {
    CommandLine {
        program: "ethtool"@,
        args: seq![
            "-C"@,
            interface,
            "adaptive-rx"@,
            if enabled {
                "on"@
            } else {
                "off"@
            },
        ],
    }
}

impl TcManager {
    /// The command that sets the shaper of `interface` to `bandwidth_mbit`
    /// under `profile`. The host runs it with the primary profile first and
    /// with each fallback after a refusal, and records the bandwidth as
    /// applied once a profile was accepted.
    pub fn apply_cake(interface: &str, bandwidth_mbit: u32, profile: CakeProfile) -> (command:
        Invocation)
        ensures
            command@ == apply_cake_command(interface@, bandwidth_mbit, profile),
    {
        let mut args: Vec<String> = Vec::new();
        assert(words(args@) =~= Seq::empty());
        push_words(&mut args, &["qdisc", "replace", "dev"]);
        push_word(&mut args, interface);
        push_words(&mut args, &["root", "cake", "bandwidth"]);
        let mut bandwidth: String = decimal(bandwidth_mbit);
        bandwidth.append("mbit");
        push_word(&mut args, bandwidth.as_str());
        match profile {
            CakeProfile::Full => {
                push_words(&mut args, &["diffserv4", "dual-dsthost", "nat", "wash", "ack-filter"]);
            },
            CakeProfile::Minimal => {
                push_words(&mut args, &["besteffort", "nat"]);
            },
        }
        let command = Invocation { program: "tc".to_owned(), args };
        assert(command@.args =~= apply_cake_command(interface@, bandwidth_mbit, profile).args);
        command
    }

    /// The command that removes the shaper of `interface`. That there was
    /// none to remove is no failure.
    pub fn remove_cake(interface: &str) -> (command: Invocation)
        ensures
            command@ == remove_cake_command(interface@),
    {
        let mut args: Vec<String> = Vec::new();
        assert(words(args@) =~= Seq::empty());
        push_words(&mut args, &["qdisc", "del", "dev"]);
        push_word(&mut args, interface);
        push_word(&mut args, "root");
        let command = Invocation { program: "tc".to_owned(), args };
        assert(command@.args =~= remove_cake_command(interface@).args);
        command
    }
}

/// Hardware offload settings of an interface.
pub struct EthtoolManager;

impl EthtoolManager {
    /// The command that switches adaptive interrupt coalescing.
    fn coalescing(interface: &str, enabled: bool) -> (command: Invocation)
        ensures
            command@ == coalescing_command(interface@, enabled),
    {
        let mut args: Vec<String> = Vec::new();
        assert(words(args@) =~= Seq::empty());
        push_word(&mut args, "-C");
        push_word(&mut args, interface);
        push_word(&mut args, "adaptive-rx");
        if enabled {
            push_word(&mut args, "on");
        } else {
            push_word(&mut args, "off");
        }
        let command = Invocation { program: "ethtool".to_owned(), args };
        assert(command@.args =~= coalescing_command(interface@, enabled).args);
        command
    }

    /// The command that enables interrupt coalescing, for efficiency under
    /// load.
    pub fn enable_coalescing(interface: &str) -> (command: Invocation)
        ensures
            command@ == coalescing_command(interface@, true),
    {
        EthtoolManager::coalescing(interface, true)
    }

    /// The command that disables interrupt coalescing, for low latency.
    pub fn disable_coalescing(interface: &str) -> (command: Invocation)
        ensures
            command@ == coalescing_command(interface@, false),
    {
        EthtoolManager::coalescing(interface, false)
    }
}

impl Default for TcManager {
    /// Conservative settings: a weight of 0.1, and a change counts from
    /// 25 Mbit or 20 percent.
    fn default() -> (tc: TcManager)
        ensures
            tc.wf(),
            tc@ == Smoother::fresh(100_000, 25, 200_000),
    {
        TcManager::new(100_000, 25, 200_000)
    }
}

} // verus!
