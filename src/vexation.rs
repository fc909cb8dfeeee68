//! The vexation tracker: a history of stress indicators and an index computed
//! from it, in which each indicator's weight decays exponentially with its
//! half-life.
//!
//! Magnitudes are fixed-point numbers in millionths (`UNIT` is 1.0) and times
//! are milliseconds. Contributions are kept on a finer scale, `FINE` load
//! units per millionth. A contribution halves at each whole half-life; within
//! a half-life the factor `2^(-x)` is taken from a table of 41 points, each
//! `2^(-j/40) * 2^32` rounded to the nearest integer, and is linear between
//! them (`law_table_points` states the value at the points). Each contribution
//! also loses one load
//! unit per elapsed millisecond (less than 1e-9 of a magnitude per second), so
//! every contribution that still counts falls at every millisecond. Reads
//! come no earlier than the indicators they cover. The index
//! is the saturating ratio `load / (load + LOAD_UNIT)`, so it stays in `[0, 1)`.
use vstd::prelude::*;
use vstd::arithmetic::div_mod::{lemma_div_is_ordered, lemma_fundamental_div_mod};
use crate::constraint::ConstraintKind;
use crate::validator::{ConstraintSet, Verdict};

verus! {

/// The fixed-point value of a magnitude of 1.0.
pub const UNIT: u64 = 1_000_000;

/// Load units per millionth of magnitude.
pub const FINE: u64 = 4_294_967_296;

/// The load of a magnitude of 1.0: `UNIT * FINE`.
pub const LOAD_UNIT: u128 = 4_294_967_296_000_000;

/// Table points per half-life.
pub const STEPS: u64 = 40;

/// The longest half-life, in milliseconds.
pub const LONGEST_HALF_LIFE: u64 = 3_600_000;

/// How fast an indicator fades.
#[derive(Clone, Copy, Debug, PartialEq, Eq, Structural)]
pub enum HalfLife {
    /// Ten seconds.
    Short,
    /// Five minutes.
    Medium,
    /// One hour.
    Long,
}

/// The length of a half-life class, in milliseconds.
pub open spec fn half_life_ms(c: HalfLife) -> nat {
    match c {
        HalfLife::Short => 10_000,
        HalfLife::Medium => 300_000,
        HalfLife::Long => 3_600_000,
    }
}

/// The length of a half-life class, in milliseconds.
pub fn half_life_length(c: HalfLife) -> (r: u64)
    ensures
        r == half_life_ms(c),
        0 < r <= LONGEST_HALF_LIFE,
        r % STEPS == 0,
{
    match c {
        HalfLife::Short => 10_000,
        HalfLife::Medium => 300_000,
        HalfLife::Long => 3_600_000,
    }
}

/// A timestamped stress event.
#[derive(Clone, Copy, Debug, PartialEq, Eq, Structural)]
pub struct StressIndicator {
    /// Milliseconds since an epoch fixed by the caller.
    pub timestamp: u64,
    /// In millionths: `UNIT` is a magnitude of 1.0.
    pub magnitude: u32,
    pub half_life: HalfLife,
}

/// `a` halved `k` times, rounding down each time.
pub open spec fn halve(a: nat, k: nat) -> nat
    decreases k,
{
    if k == 0 {
        a
    } else {
        halve(a, (k - 1) as nat) / 2
    }
}

/// Milliseconds from `ts` to `now`; an indicator stamped later than `now`
/// counts as fresh.
pub open spec fn elapsed(ts: u64, now: u64) -> nat {
    if now >= ts {
        (now - ts) as nat
    } else {
        0
    }
}

/// `2^(-j/40)` scaled by `2^32` and rounded, for `j` from 0 to 40.
pub open spec fn power_point(j: nat) -> nat {
    if j == 0 {
        4294967296
    } else if j == 1 {
        4221182329
    } else if j == 2 {
        4148664943
    } else if j == 3 {
        4077393362
    } else if j == 4 {
        4007346185
    } else if j == 5 {
        3938502376
    } else if j == 6 {
        3870841262
    } else if j == 7 {
        3804342526
    } else if j == 8 {
        3738986199
    } else if j == 9 {
        3674752654
    } else if j == 10 {
        3611622603
    } else if j == 11 {
        3549577088
    } else if j == 12 {
        3488597478
    } else if j == 13 {
        3428665462
    } else if j == 14 {
        3369763041
    } else if j == 15 {
        3311872529
    } else if j == 16 {
        3254976542
    } else if j == 17 {
        3199057993
    } else if j == 18 {
        3144100091
    } else if j == 19 {
        3090086334
    } else if j == 20 {
        3037000500
    } else if j == 21 {
        2984826649
    } else if j == 22 {
        2933549114
    } else if j == 23 {
        2883152496
    } else if j == 24 {
        2833621662
    } else if j == 25 {
        2784941738
    } else if j == 26 {
        2737098106
    } else if j == 27 {
        2690076398
    } else if j == 28 {
        2643862496
    } else if j == 29 {
        2598442521
    } else if j == 30 {
        2553802834
    } else if j == 31 {
        2509930029
    } else if j == 32 {
        2466810934
    } else if j == 33 {
        2424432598
    } else if j == 34 {
        2382782298
    } else if j == 35 {
        2341847524
    } else if j == 36 {
        2301615985
    } else if j == 37 {
        2262075600
    } else if j == 38 {
        2223214495
    } else if j == 39 {
        2185021001
    } else {
        2147483648
    }
}

/// `2^(-r/h)` scaled by `2^32`, for `r < h`: linear between the table points.
pub open spec fn fraction(r: nat, h: nat) -> nat
    recommends
        h > 0,
        h % 40 == 0,
{
    let step = h / 40;
    let j = r / step;
    let hi = power_point(j);
    let lo = power_point(j + 1);
    (hi - (((hi - lo) as nat) * (r % step)) / step) as nat
}

/// Magnitude `m`, in load units, after `e` milliseconds with half-life `h`:
/// `m * (FINE as nat) * 2^(-e/h)`, halved once per full half-life and scaled by the
/// table within the current one.
pub open spec fn smooth(m: nat, h: nat, e: nat) -> nat
    recommends
        h > 0,
        h % 40 == 0,
{
    let a = halve(m * (FINE as nat), e / h);
    (a * fraction(e % h, h)) / (FINE as nat)
}

/// What remains of magnitude `m` after `e` milliseconds with half-life `h`,
/// in load units: the smooth value less one unit per millisecond, down to 0.
pub open spec fn decayed(m: nat, h: nat, e: nat) -> nat
    recommends
        h > 0,
        h % 40 == 0,
{
    let v = smooth(m, h, e);
    if v > e {
        (v - e) as nat
    } else {
        0
    }
}

/// What indicator `s` adds to the load at time `now`.
pub open spec fn contribution(s: StressIndicator, now: u64) -> nat {
    decayed(s.magnitude as nat, half_life_ms(s.half_life), elapsed(s.timestamp, now))
}

/// The decayed load of a history at time `now`: the sum of its indicators'
/// contributions.
pub open spec fn load_of(hist: Seq<StressIndicator>, now: u64) -> nat
    decreases hist.len(),
{
    if hist.len() == 0 {
        0
    } else {
        load_of(hist.drop_last(), now) + contribution(hist.last(), now)
    }
}

/// Whether an indicator still adds to the load at time `now`.
pub open spec fn counts_at(now: u64) -> spec_fn(StressIndicator) -> bool {
    |s: StressIndicator| contribution(s, now) > 0
}

/// The index of a load, in millionths, rounded down: `load / (load + LOAD_UNIT)`.
pub open spec fn millionths_of(load: nat) -> nat {
    (load * UNIT as nat) / (load + LOAD_UNIT as nat)
}

proof fn lemma_halve_le(a: nat, k: nat)
    ensures
        halve(a, k) <= a,
    decreases k,
{
    if k > 0 {
        lemma_halve_le(a, (k - 1) as nat);
    }
}

proof fn lemma_halve_zero(a: nat, i: nat, k: nat)
    requires
        i <= k,
        halve(a, i) == 0,
    ensures
        halve(a, k) == 0,
    decreases k - i,
{
    if i < k {
        lemma_halve_zero(a, i, (k - 1) as nat);
    }
}

proof fn lemma_halve_later(a: nat, k1: nat, k2: nat)
    requires
        k1 < k2,
    ensures
        halve(a, k2) <= halve(a, k1) / 2,
    decreases k2 - k1,
{
    if k2 > k1 + 1 {
        lemma_halve_later(a, k1, (k2 - 1) as nat);
    }
}

proof fn lemma_points()
    ensures
        forall|j: nat| j < 40 ==> #[trigger] power_point(j + 1) < power_point(j),
        forall|j: nat| j <= 40 ==> 2_147_483_648 <= #[trigger] power_point(j) <= 4_294_967_296,
{
}

proof fn lemma_points_ordered(j1: nat, j2: nat)
    requires
        j1 <= j2 <= 40,
    ensures
        power_point(j2) <= power_point(j1),
    decreases j2 - j1,
{
    lemma_points();
    if j1 < j2 {
        lemma_points_ordered(j1, (j2 - 1) as nat);
        assert(power_point(((j2 - 1) as nat) + 1) < power_point((j2 - 1) as nat));
    }
}

proof fn lemma_fraction(r: nat, h: nat)
    requires
        h > 0,
        h % 40 == 0,
        r < h,
    ensures
        r / (h / 40) < 40,
        power_point(r / (h / 40) + 1) <= fraction(r, h) <= power_point(r / (h / 40)),
        2_147_483_648 <= fraction(r, h) <= 4_294_967_296,
{
    let step = h / 40;
    let j = r / step;
    let s = r % step;
    lemma_fundamental_div_mod(h as int, 40);
    lemma_fundamental_div_mod(r as int, step as int);
    assert(j < 40) by (nonlinear_arith)
        requires
            r == step * j + s,
            s >= 0,
            r < h,
            h == 40 * step,
            step > 0,
    ;
    lemma_points();
    let hi = power_point(j);
    let lo = power_point(j + 1);
    assert(lo < hi);
    assert(((hi - lo) as nat) * s <= ((hi - lo) as nat) * step) by (nonlinear_arith)
        requires
            s < step,
            lo < hi,
    ;
    lemma_div_is_ordered((((hi - lo) as nat) * s) as int, (((hi - lo) as nat) * step) as int, step as int);
    vstd::arithmetic::div_mod::lemma_div_by_multiple((hi - lo) as int, step as int);
}

proof fn lemma_fraction_mono(r1: nat, r2: nat, h: nat)
    requires
        h > 0,
        h % 40 == 0,
        r1 <= r2 < h,
    ensures
        fraction(r2, h) <= fraction(r1, h),
{
    let step = h / 40;
    lemma_fundamental_div_mod(h as int, 40);
    assert(step > 0);
    let j1 = r1 / step;
    let j2 = r2 / step;
    lemma_div_is_ordered(r1 as int, r2 as int, step as int);
    lemma_fraction(r1, h);
    lemma_fraction(r2, h);
    if j1 == j2 {
        lemma_fundamental_div_mod(r1 as int, step as int);
        lemma_fundamental_div_mod(r2 as int, step as int);
        let hi = power_point(j1);
        let lo = power_point(j1 + 1);
        let s1 = r1 % step;
        let s2 = r2 % step;
        let d = (hi - lo) as nat;
        assert(s1 <= s2);
        assert(d * s1 <= d * s2) by (nonlinear_arith)
            requires
                s1 <= s2,
        ;
        assert(fraction(r1, h) == (hi - (d * s1) / step) as nat);
        assert(fraction(r2, h) == (hi - (d * s2) / step) as nat);
        lemma_div_is_ordered((d * s1) as int, (d * s2) as int, step as int);
        assert(d * s2 <= d * step) by (nonlinear_arith)
            requires
                s2 < step,
        ;
        lemma_div_is_ordered((d * s2) as int, (d * step) as int, step as int);
        vstd::arithmetic::div_mod::lemma_div_by_multiple(d as int, step as int);
        assert((d * s2) / step <= d);
        lemma_div_is_ordered(
            (((hi - lo) as nat) * (r1 % step)) as int,
            (((hi - lo) as nat) * (r2 % step)) as int,
            step as int,
        );
    } else {
        assert(j1 < j2);
        lemma_points_ordered(j1 + 1, j2);
        assert(fraction(r2, h) <= power_point(j2));
        assert(power_point(j1 + 1) <= fraction(r1, h));
    }
}

proof fn lemma_smooth_le(m: nat, h: nat, e: nat)
    requires
        h > 0,
        h % 40 == 0,
    ensures
        smooth(m, h, e) <= halve(m * (FINE as nat), e / h) <= m * (FINE as nat),
{
    let a = halve(m * (FINE as nat), e / h);
    lemma_halve_le(m * (FINE as nat), e / h);
    lemma_fundamental_div_mod(e as int, h as int);
    lemma_fraction(e % h, h);
    let f = fraction(e % h, h);
    assert(a * f <= a * (FINE as nat)) by (nonlinear_arith)
        requires
            f <= FINE,
    ;
    lemma_div_is_ordered((a * f) as int, (a * (FINE as nat)) as int, FINE as int);
    assert((a * (FINE as nat)) / (FINE as nat) == a) by (nonlinear_arith);
}

proof fn lemma_smooth_mono(m: nat, h: nat, e1: nat, e2: nat)
    requires
        h > 0,
        h % 40 == 0,
        e1 <= e2,
    ensures
        smooth(m, h, e2) <= smooth(m, h, e1),
{
    let k1 = e1 / h;
    let k2 = e2 / h;
    let r1 = e1 % h;
    let r2 = e2 % h;
    let a1 = halve(m * (FINE as nat), k1);
    let a2 = halve(m * (FINE as nat), k2);
    lemma_div_is_ordered(e1 as int, e2 as int, h as int);
    lemma_fundamental_div_mod(e1 as int, h as int);
    lemma_fundamental_div_mod(e2 as int, h as int);
    lemma_fraction(r1, h);
    lemma_fraction(r2, h);
    let f1 = fraction(r1, h);
    let f2 = fraction(r2, h);
    if k1 == k2 {
        assert(r1 <= r2) by (nonlinear_arith)
            requires
                e1 == h * k1 + r1,
                e2 == h * k2 + r2,
                k1 == k2,
                e1 <= e2,
        ;
        lemma_fraction_mono(r1, r2, h);
        assert(a1 * f2 <= a1 * f1) by (nonlinear_arith)
            requires
                f2 <= f1,
        ;
        lemma_div_is_ordered((a1 * f2) as int, (a1 * f1) as int, FINE as int);
    } else {
        lemma_halve_later(m * (FINE as nat), k1, k2);
        lemma_smooth_le(m, h, e2);
        assert(a1 / 2 <= (a1 * f1) / (FINE as nat)) by (nonlinear_arith)
            requires
                f1 >= 2_147_483_648,
                FINE == 4_294_967_296,
        {
            assert(a1 * 2_147_483_648 <= a1 * f1);
            lemma_div_is_ordered((a1 * 2_147_483_648) as int, (a1 * f1) as int, FINE as int);
            assert((a1 * 2_147_483_648) / 4_294_967_296 == a1 / 2);
        }
    }
}

/// The remainder never grows, and while it is positive it falls at every
/// millisecond.
proof fn lemma_decayed_mono(m: nat, h: nat, e1: nat, e2: nat)
    requires
        h > 0,
        h % 40 == 0,
        e1 <= e2,
    ensures
        decayed(m, h, e2) <= decayed(m, h, e1),
        e1 < e2 && decayed(m, h, e1) > 0 ==> decayed(m, h, e2) < decayed(m, h, e1),
{
    lemma_smooth_mono(m, h, e1, e2);
}

/// `m` halved `k` times.
fn halved(m: u64, k: u64) -> (r: u64)
    ensures
        r == halve(m as nat, k as nat),
{
    let mut a: u64 = m;
    let mut i: u64 = 0;
    while i < k && a > 0
        invariant
            i <= k,
            a == halve(m as nat, i as nat),
        decreases k - i,
    {
        a = a / 2;
        i = i + 1;
    }
    if a == 0 {
        proof {
            lemma_halve_zero(m as nat, i as nat, k as nat);
        }
    }
    a
}

/// The table point `j`, for `j` from 0 to 40.
fn power_point_at(j: u64) -> (r: u64)
    requires
        j <= 40,
    ensures
        r == power_point(j as nat),
{
    match j {
        0 => 4294967296,
        1 => 4221182329,
        2 => 4148664943,
        3 => 4077393362,
        4 => 4007346185,
        5 => 3938502376,
        6 => 3870841262,
        7 => 3804342526,
        8 => 3738986199,
        9 => 3674752654,
        10 => 3611622603,
        11 => 3549577088,
        12 => 3488597478,
        13 => 3428665462,
        14 => 3369763041,
        15 => 3311872529,
        16 => 3254976542,
        17 => 3199057993,
        18 => 3144100091,
        19 => 3090086334,
        20 => 3037000500,
        21 => 2984826649,
        22 => 2933549114,
        23 => 2883152496,
        24 => 2833621662,
        25 => 2784941738,
        26 => 2737098106,
        27 => 2690076398,
        28 => 2643862496,
        29 => 2598442521,
        30 => 2553802834,
        31 => 2509930029,
        32 => 2466810934,
        33 => 2424432598,
        34 => 2382782298,
        35 => 2341847524,
        36 => 2301615985,
        37 => 2262075600,
        38 => 2223214495,
        39 => 2185021001,
        _ => 2147483648,
    }
}

/// What indicator `s` adds to the load at time `now`.
pub fn contribution_at(s: &StressIndicator, now: u64) -> (r: u64)
    ensures
        r == contribution(*s, now),
        r <= s.magnitude as nat * (FINE as nat),
{
    let e: u64 = if now >= s.timestamp {
        now - s.timestamp
    } else {
        0
    };
    let h = half_life_length(s.half_life);
    let rem = e % h;
    let step = h / STEPS;
    let j = rem / step;
    proof {
        lemma_fraction(rem as nat, h as nat);
        lemma_fundamental_div_mod(h as int, 40);
    }
    let hi = power_point_at(j);
    let lo = power_point_at(j + 1);
    proof {
        lemma_points();
        assert(lo < hi);
        let d: int = hi - lo;
        let q: int = (rem % step) as int;
        assert(d * q <= 4_294_967_296 * 3_600_000) by (nonlinear_arith)
            requires
                0 <= d <= 4_294_967_296,
                0 <= q < step,
                step <= 3_600_000,
        ;
        assert(d * q <= d * step) by (nonlinear_arith)
            requires
                0 <= d,
                q < step,
        ;
        lemma_div_is_ordered(d * q, d * step, step as int);
        vstd::arithmetic::div_mod::lemma_div_by_multiple(d, step as int);
    }
    let f = hi - ((hi - lo) * (rem % step)) / step;
    assert(s.magnitude as nat * (FINE as nat) <= 18_446_744_069_414_584_320nat) by (nonlinear_arith)
        requires
            s.magnitude <= 4_294_967_295u32,
    ;
    let a = halved((s.magnitude as u64) * FINE, e / h);
    proof {
        lemma_smooth_le(s.magnitude as nat, h as nat, e as nat);
        lemma_halve_le(s.magnitude as nat * (FINE as nat), (e / h) as nat);
        assert((a as nat) * (f as nat) <= 18_446_744_073_709_551_615nat * 4_294_967_296nat)
            by (nonlinear_arith)
            requires
                a <= 18_446_744_073_709_551_615nat,
                f <= 4_294_967_296nat,
        ;
    }
    let v = ((a as u128) * (f as u128) / (FINE as u128)) as u64;
    if v > e {
        v - e
    } else {
        0
    }
}

/// The stress index read at one moment.
pub struct VexationIndex {
    load: u128,
}

impl VexationIndex {
    /// The decayed load the index was computed from, in load units.
    pub closed spec fn stress_load(&self) -> nat {
        self.load as nat
    }

    /// The decayed load the index was computed from, in load units.
    pub fn load(&self) -> (r: u128)
        ensures
            r == self.stress_load(),
    {
        self.load
    }

    /// The index in millionths, rounded down: `load / (load + LOAD_UNIT)`,
    /// so always below 1_000_000.
    pub fn millionths(&self) -> (r: u32)
        ensures
            r == millionths_of(self.stress_load()),
            r < UNIT,
    {
        let cap: u128 = 1_267_650_600_228_229_401_496_703_205_376;
        if self.load > cap {
            proof {
                lemma_millionths_saturated(self.load as nat);
            }
            return 999_999;
        }
        let l = self.load;
        proof {
            lemma_millionths_bounded(l as nat);
        }
        ((l * (UNIT as u128)) / (l + LOAD_UNIT)) as u32
    }
}

/// The process-wide record of stress indicators. It only grows, but for
/// pruning, which drops only indicators that no longer count.
pub struct VexationTracker {
    history: Vec<StressIndicator>,
}

impl VexationTracker {
    /// The indicators kept, oldest first.
    pub closed spec fn history(&self) -> Seq<StressIndicator> {
        self.history@
    }

    /// A tracker with no history.
    pub fn new() -> (r: VexationTracker)
        ensures
            r.history() == Seq::<StressIndicator>::empty(),
    {
        VexationTracker { history: Vec::new() }
    }

    /// The number of indicators kept.
    pub fn len(&self) -> (r: usize)
        ensures
            r == self.history().len(),
    {
        self.history.len()
    }

    /// Appends an indicator to the history.
    pub fn record(&mut self, s: StressIndicator)
        ensures
            final(self).history() == old(self).history().push(s),
    {
        self.history.push(s);
    }

    /// The latest timestamp in the history, or 0 when it is empty.
    pub fn latest_timestamp(&self) -> (r: u64)
        ensures
            forall|i: int| 0 <= i < self.history().len() ==> #[trigger] self.history()[i].timestamp <= r,
            self.history().len() == 0 ==> r == 0,
            self.history().len() > 0 ==> exists|i: int|
                0 <= i < self.history().len() && #[trigger] self.history()[i].timestamp == r,
    {
        let mut r: u64 = 0;
        let mut i: usize = 0;
        while i < self.history.len()
            invariant
                i <= self.history@.len(),
                forall|k: int| 0 <= k < i ==> #[trigger] self.history@[k].timestamp <= r,
                i == 0 ==> r == 0,
                i > 0 ==> exists|k: int| 0 <= k < i && #[trigger] self.history@[k].timestamp == r,
            decreases self.history@.len() - i,
        {
            if i == 0 || self.history[i].timestamp > r {
                r = self.history[i].timestamp;
            }
            i = i + 1;
        }
        r
    }

    /// Drops the indicators that no longer count at time `now`, keeping the
    /// others in order. Reads at `now` or later give the same load as before.
    pub fn prune(&mut self, now: u64)
        ensures
            final(self).history() == old(self).history().filter(counts_at(now)),
            forall|t: u64|
                t >= now ==> #[trigger] load_of(final(self).history(), t) == load_of(
                    old(self).history(),
                    t,
                ),
            forall|i: int|
                0 <= i < final(self).history().len() ==> contribution(
                    #[trigger] final(self).history()[i],
                    now,
                ) > 0,
            final(self).history().len() <= old(self).history().len(),
    {
        let ghost hist = self.history@;
        let ghost keep = counts_at(now);
        let mut kept: Vec<StressIndicator> = Vec::new();
        let n = self.history.len();
        let mut i: usize = 0;
        proof {
            reveal(Seq::filter);
            assert(hist.subrange(0, 0).filter(keep) =~= Seq::<StressIndicator>::empty());
        }
        while i < n
            invariant
                hist == self.history@,
                keep == counts_at(now),
                n == hist.len(),
                i <= n,
                kept@ == hist.subrange(0, i as int).filter(keep),
                kept@.len() <= i,
                forall|t: u64|
                    t >= now ==> #[trigger] load_of(kept@, t) == load_of(hist.subrange(0, i as int), t),
                forall|k: int| 0 <= k < kept@.len() ==> contribution(#[trigger] kept@[k], now) > 0,
            decreases n - i,
        {
            let s = self.history[i];
            let c = contribution_at(&s, now);
            let ghost before = kept@;
            proof {
                reveal(Seq::filter);
                assert(hist.subrange(0, i + 1).drop_last() =~= hist.subrange(0, i as int));
                assert(hist.subrange(0, i + 1).last() == s);
                assert(keep(s) == (c > 0));
            }
            if c > 0 {
                kept.push(s);
                proof {
                    assert(kept@.drop_last() =~= before);
                    assert forall|t: u64| t >= now implies #[trigger] load_of(kept@, t) == load_of(
                        hist.subrange(0, i + 1),
                        t,
                    ) by {
                        assert(load_of(before, t) == load_of(hist.subrange(0, i as int), t));
                    }
                }
            } else {
                proof {
                    assert forall|t: u64| t >= now implies #[trigger] load_of(kept@, t) == load_of(
                        hist.subrange(0, i + 1),
                        t,
                    ) by {
                        lemma_decayed_mono(
                            s.magnitude as nat,
                            half_life_ms(s.half_life),
                            elapsed(s.timestamp, now),
                            elapsed(s.timestamp, t),
                        );
                        assert(load_of(before, t) == load_of(hist.subrange(0, i as int), t));
                    }
                }
            }
            i = i + 1;
        }
        proof {
            assert(hist.subrange(0, n as int) =~= hist);
        }
        self.history = kept;
    }

    /// The index at time `now`, computed from the whole history. A read may
    /// not come before a recorded indicator: `now` is at least every
    /// timestamp (see `latest_timestamp`).
    pub fn current_index(&self, now: u64) -> (r: VexationIndex)
        requires
            forall|i: int| 0 <= i < self.history().len() ==> #[trigger] self.history()[i].timestamp <= now,
        ensures
            r.stress_load() == load_of(self.history(), now),
    {
        let ghost hist = self.history@;
        let n = self.history.len();
        let mut sum: u128 = 0;
        let mut i: usize = 0;
        while i < n
            invariant
                hist == self.history@,
                n == hist.len(),
                i <= n,
                sum == load_of(hist.subrange(0, i as int), now),
                sum <= (i as nat) * 18_446_744_069_414_584_320,
            decreases n - i,
        {
            let c = contribution_at(&self.history[i], now);
            proof {
                assert(hist.subrange(0, i + 1).drop_last() =~= hist.subrange(0, i as int));
                assert(i + 1 <= 18_446_744_073_709_551_616nat);
                assert(c <= 18_446_744_069_414_584_320nat) by (nonlinear_arith)
                    requires
                        c <= self.history@[i as int].magnitude as nat * 4_294_967_296nat,
                        self.history@[i as int].magnitude <= 4_294_967_295u32,
                ;
                assert(sum + c <= (i + 1) * 18_446_744_069_414_584_320) by (nonlinear_arith)
                    requires
                        sum <= i * 18_446_744_069_414_584_320,
                        c <= 18_446_744_069_414_584_320nat,
                ;
                assert((i + 1) * 18_446_744_069_414_584_320 <= 18_446_744_073_709_551_616nat
                    * 18_446_744_069_414_584_320) by (nonlinear_arith)
                    requires
                        i + 1 <= 18_446_744_073_709_551_616nat,
                ;
            }
            sum = sum + c as u128;
            i = i + 1;
        }
        assert(hist.subrange(0, n as int) =~= hist);
        VexationIndex { load: sum }
    }
}

proof fn lemma_millionths_bounded(l: nat)
    ensures
        millionths_of(l) < UNIT,
{
    let u = LOAD_UNIT as nat;
    let w = UNIT as nat;
    assert(l * w < w * (l + u)) by (nonlinear_arith)
        requires
            u > 0,
            w > 0,
    ;
    assert((l * w) / (l + u) < w) by (nonlinear_arith)
        requires
            l * w < w * (l + u),
            l + u > 0,
    ;
}

proof fn lemma_millionths_saturated(l: nat)
    requires
        l > 1_267_650_600_228_229_401_496_703_205_376,
    ensures
        millionths_of(l) == 999_999,
{
    let u = LOAD_UNIT as nat;
    lemma_millionths_bounded(l);
    assert(l * 1_000_000 >= 999_999 * (l + u)) by (nonlinear_arith)
        requires
            l > 1_267_650_600_228_229_401_496_703_205_376,
            u == 4_294_967_296_000_000,
    ;
    assert((l * 1_000_000) / (l + u) >= 999_999) by (nonlinear_arith)
        requires
            l * 1_000_000 >= 999_999 * (l + u),
            l + u > 0,
    ;
}

proof fn lemma_load_mono(hist: Seq<StressIndicator>, t1: u64, t2: u64)
    requires
        t1 <= t2,
    ensures
        load_of(hist, t2) <= load_of(hist, t1),
    decreases hist.len(),
{
    if hist.len() > 0 {
        let s = hist.last();
        lemma_load_mono(hist.drop_last(), t1, t2);
        lemma_decayed_mono(
            s.magnitude as nat,
            half_life_ms(s.half_life),
            elapsed(s.timestamp, t1),
            elapsed(s.timestamp, t2),
        );
    }
}

proof fn lemma_load_strict(hist: Seq<StressIndicator>, t1: u64, t2: u64, i: int)
    requires
        t1 < t2,
        0 <= i < hist.len(),
        hist[i].timestamp <= t1,
        contribution(hist[i], t1) > 0,
    ensures
        load_of(hist, t2) < load_of(hist, t1),
    decreases hist.len(),
{
    let s = hist.last();
    let rest = hist.drop_last();
    lemma_decayed_mono(
        s.magnitude as nat,
        half_life_ms(s.half_life),
        elapsed(s.timestamp, t1),
        elapsed(s.timestamp, t2),
    );
    if i == hist.len() - 1 {
        lemma_load_mono(rest, t1, t2);
    } else {
        assert(rest[i] == hist[i]);
        lemma_load_strict(rest, t1, t2, i);
    }
}

proof fn lemma_counting_witness(hist: Seq<StressIndicator>, t: u64) -> (i: int)
    requires
        load_of(hist, t) > 0,
    ensures
        0 <= i < hist.len(),
        contribution(hist[i], t) > 0,
    decreases hist.len(),
{
    if contribution(hist.last(), t) > 0 {
        (hist.len() - 1) as int
    } else {
        let rest = hist.drop_last();
        let i = lemma_counting_witness(rest, t);
        assert(rest[i] == hist[i]);
        i
    }
}

/// Recording an indicator never lowers the load read at the same moment,
/// and an indicator of positive magnitude stamped at or after that moment
/// raises it.
pub proof fn law_record_never_lowers(hist: Seq<StressIndicator>, s: StressIndicator, now: u64)
    ensures
        load_of(hist.push(s), now) >= load_of(hist, now),
        s.magnitude > 0 && s.timestamp >= now ==> load_of(hist.push(s), now) > load_of(hist, now),
{
    assert(hist.push(s).drop_last() =~= hist);
    if s.magnitude > 0 && s.timestamp >= now {
        assert(elapsed(s.timestamp, now) == 0);
        let h = half_life_ms(s.half_life);
        let m = s.magnitude as nat * (FINE as nat);
        assert(0nat / h == 0);
        assert(0nat % h == 0);
        assert(0nat / (h / 40) == 0);
        assert(0nat % (h / 40) == 0);
        assert(fraction(0, h) == FINE);
        vstd::arithmetic::div_mod::lemma_div_by_multiple(m as int, FINE as int);
        assert(smooth(s.magnitude as nat, h, 0) == m);
        assert(m > 0) by (nonlinear_arith)
            requires
                s.magnitude > 0,
                m == s.magnitude as nat * (FINE as nat),
        ;
    }
}

/// With no new records, the load read later is never higher than the load
/// read earlier.
pub proof fn law_decay_never_rises(hist: Seq<StressIndicator>, t1: u64, t2: u64)
    requires
        t1 <= t2,
    ensures
        load_of(hist, t2) <= load_of(hist, t1),
{
    lemma_load_mono(hist, t1, t2);
}

/// With no new records, a positive load strictly falls between any two
/// reads `t1 < t2` that come no earlier than every recorded indicator.
pub proof fn law_decay_strict(hist: Seq<StressIndicator>, t1: u64, t2: u64)
    requires
        t1 < t2,
        forall|i: int| 0 <= i < hist.len() ==> #[trigger] hist[i].timestamp <= t1,
        load_of(hist, t1) > 0,
    ensures
        load_of(hist, t2) < load_of(hist, t1),
{
    let i = lemma_counting_witness(hist, t1);
    lemma_load_strict(hist, t1, t2, i);
}

/// At a whole number `k` of half-lives, plus `j` of the 40 table steps, a
/// magnitude `m` has become `m * FINE` halved `k` times and scaled by the
/// table point `2^(-j/40)`, less one load unit per elapsed millisecond.
pub proof fn law_table_points(m: nat, c: HalfLife, k: nat, j: nat)
    requires
        j < 40,
    ensures
        ({
            let h = half_life_ms(c);
            let e = k * h + j * (h / 40);
            let v = (halve(m * (FINE as nat), k) * power_point(j)) / (FINE as nat);
            decayed(m, h, e) == if v > e {
                (v - e) as nat
            } else {
                0
            }
        }),
{
    let h = half_life_ms(c);
    let step = h / 40;
    let r = j * step;
    let e = k * h + r;
    assert(h == 40 * step);
    assert(r < h) by (nonlinear_arith)
        requires
            j < 40,
            r == j * step,
            h == 40 * step,
            step > 0,
    ;
    vstd::arithmetic::div_mod::lemma_fundamental_div_mod_converse(e as int, h as int, k as int, r as int);
    vstd::arithmetic::div_mod::lemma_fundamental_div_mod_converse(r as int, step as int, j as int, 0);
}

/// The index `load / (load + LOAD_UNIT)` lies in `[0, 1)` for every load,
/// and its value in millionths is below 1_000_000.
pub proof fn law_index_bounded(load: nat)
    ensures
        0 <= load < load + LOAD_UNIT,
        millionths_of(load) < UNIT,
{
    lemma_millionths_bounded(load);
}

/// The index is strictly increasing in the load: a lower load gives a lower
/// ratio `load / (load + LOAD_UNIT)`.
pub proof fn law_index_follows_load(a: nat, b: nat)
    requires
        a < b,
    ensures
        a * (b + LOAD_UNIT) < b * (a + LOAD_UNIT),
{
    assert(a * (b + LOAD_UNIT) < b * (a + LOAD_UNIT)) by (nonlinear_arith)
        requires
            a < b,
    ;
}

/// How much stress a rejection adds, by the kind of the violated
/// constraint, and how fast it fades.
#[derive(Clone, Copy, Debug, PartialEq, Eq, Structural)]
pub struct SeverityPolicy {
    pub substring: u32,
    pub pattern: u32,
    pub predicate: u32,
    pub half_life: HalfLife,
}

/// The magnitude a policy gives a violation of a constraint of kind `k`.
pub open spec fn weight_of(p: SeverityPolicy, k: ConstraintKind) -> u32 {
    match k {
        ConstraintKind::ForbidSubstring => p.substring,
        ConstraintKind::ForbidPattern => p.pattern,
        ConstraintKind::RequirePattern => p.pattern,
        ConstraintKind::CustomPredicate => p.predicate,
    }
}

impl SeverityPolicy {
    /// Substring hits weigh 0.2, pattern violations 0.3 and predicate
    /// violations 0.5; all fade with the medium half-life.
    pub fn standard() -> (r: SeverityPolicy)
        ensures
            r.substring == 200_000,
            r.pattern == 300_000,
            r.predicate == 500_000,
            r.half_life == HalfLife::Medium,
    {
        SeverityPolicy {
            substring: 200_000,
            pattern: 300_000,
            predicate: 500_000,
            half_life: HalfLife::Medium,
        }
    }
}

/// The stress indicator a verdict on `set` contributes at time `now`: none
/// for an acceptance, else one weighted by the kind of the violated
/// constraint.
pub fn indicator_for(verdict: &Verdict, set: &ConstraintSet, policy: &SeverityPolicy, now: u64) -> (r:
    Option<StressIndicator>)
    ensures
        match verdict {
            Verdict::Accepted => r is None,
            Verdict::Rejected { index, explanation: _ } => if index < set.members().len() {
                r == Some(
                    (StressIndicator {
                        timestamp: now,
                        magnitude: weight_of(*policy, set.members()[index as int].spec_kind()),
                        half_life: policy.half_life,
                    }),
                )
            } else {
                r is None
            },
        },
{
    match verdict {
        Verdict::Accepted => None,
        Verdict::Rejected { index, explanation: _ } => {
            if *index >= set.len() {
                return None;
            }
            let magnitude = match set.get(*index).kind() {
                ConstraintKind::ForbidSubstring => policy.substring,
                ConstraintKind::ForbidPattern => policy.pattern,
                ConstraintKind::RequirePattern => policy.pattern,
                ConstraintKind::CustomPredicate => policy.predicate,
            };
            Some(StressIndicator { timestamp: now, magnitude, half_life: policy.half_life })
        },
    }
}

} // verus!
