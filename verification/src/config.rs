//! The fan curve model: configuration data, its validation rules, and the
//! temperature-to-speed evaluation algorithm.
//!
//! Temperatures and speeds are fixed-point numbers in thousandths of a
//! unit: a speed of `100` percent is stored as `100_000`.

use vstd::prelude::*;

use crate::device::{LogLevel, TempInput};
use crate::utils::linear_map;
use vstd::arithmetic::div_mod::{lemma_div_multiples_vanish, lemma_div_of0};

verus! {

/// Greatest legal fan speed, in thousandths of a percent.
pub const MAX_SPEED: i64 = 100_000;

/// One breakpoint of the fan curve, in thousandths of a degree and of a
/// percent.
#[derive(Clone, Copy, Debug, PartialEq, Eq, Structural)]
pub struct MatrixPoint {
    pub temp: i64,
    pub speed: i64,
}

/// A malformed curve entry, identified by its index and offending values.
#[derive(Clone, Copy, Debug, PartialEq, Eq, Structural)]
pub enum ConfigError {
    FanSpeedTooLow { value: i64, index: usize },
    FanSpeedTooHigh { value: i64, index: usize },
    UnsortedFanSpeed { current: i64, index: usize, last: i64 },
    UnsortedFanTemp { current: i64, index: usize, last: i64 },
}

/// The entry at `i` is within range and does not fall below its
/// predecessor in either coordinate.
pub open spec fn point_ok(s: Seq<MatrixPoint>, i: int) -> bool {
    &&& 0 <= s[i].speed
    &&& s[i].speed <= MAX_SPEED
    &&& i > 0 ==> s[i].speed >= s[i - 1].speed
    &&& i > 0 ==> s[i].temp >= s[i - 1].temp
}

/// Every entry of the curve passes the range and monotonicity checks.
pub open spec fn curve_valid(s: Seq<MatrixPoint>) -> bool {
    forall|i: int| 0 <= i < s.len() ==> point_ok(s, i)
}

/// The error reported for the entry at `i`, checked in the order the scan
/// applies the rules: speed range first, then speed order, then
/// temperature order.
pub open spec fn error_at(s: Seq<MatrixPoint>, i: int) -> ConfigError {
    if s[i].speed < 0 {
        ConfigError::FanSpeedTooLow { value: s[i].speed, index: i as usize }
    } else if s[i].speed > MAX_SPEED {
        ConfigError::FanSpeedTooHigh { value: s[i].speed, index: i as usize }
    } else if i > 0 && s[i].speed < s[i - 1].speed {
        ConfigError::UnsortedFanSpeed { current: s[i].speed, index: i as usize, last: s[i - 1].speed }
    } else {
        ConfigError::UnsortedFanTemp { current: s[i].temp, index: i as usize, last: s[i - 1].temp }
    }
}

/// Index of the rightmost curve point whose temperature is at most `t`,
/// or `-1` when there is none.
pub open spec fn rpos(s: Seq<MatrixPoint>, t: int) -> int
    decreases s.len(),
{
    if s.len() == 0 {
        -1
    } else if s[s.len() - 1].temp <= t {
        s.len() - 1
    } else {
        rpos(s.drop_last(), t)
    }
}

/// Fixed-point linear interpolation between two points at temperature
/// `t`, rounded toward negative infinity to the fixed-point grid.
pub open spec fn interp(p1: MatrixPoint, p2: MatrixPoint, t: int) -> int {
    p1.speed + (p2.speed - p1.speed) * (t - p1.temp) / (p2.temp - p1.temp)
}

/// The commanded speed for temperature `t`: the first point's speed below
/// the curve's start, the last point's speed at its end or beyond,
/// interpolation between the bracketing points otherwise, and `0` on an
/// empty curve.
pub open spec fn eval_curve(s: Seq<MatrixPoint>, t: int) -> int {
    let i = rpos(s, t);
    if i < 0 {
        if s.len() == 0 {
            0
        } else {
            s[0].speed as int
        }
    } else if i == s.len() - 1 {
        s[i].speed as int
    } else {
        interp(s[i], s[i + 1], t)
    }
}

/// `rpos` finds an index whose temperature is at most `t`, and every
/// index to its right is warmer than `t`.
pub proof fn lemma_rpos_props(s: Seq<MatrixPoint>, t: int)
    ensures
        -1 <= rpos(s, t) < s.len(),
        rpos(s, t) >= 0 ==> s[rpos(s, t)].temp <= t,
        forall|j: int| rpos(s, t) < j < s.len() ==> s[j].temp > t,
    decreases s.len(),
{
    if s.len() == 0 {
    } else if s[s.len() - 1].temp <= t {
    } else {
        lemma_rpos_props(s.drop_last(), t);
        assert forall|j: int| rpos(s, t) < j < s.len() implies s[j].temp > t by {
            if j < s.len() - 1 {
                assert(s[j] == s.drop_last()[j]);
            }
        }
    }
}

/// In a valid curve both coordinates are monotone across any two indices.
pub proof fn lemma_monotone(s: Seq<MatrixPoint>, i: int, j: int)
    requires
        curve_valid(s),
        0 <= i <= j < s.len(),
    ensures
        s[i].temp <= s[j].temp,
        s[i].speed <= s[j].speed,
    decreases j - i,
{
    if i < j {
        lemma_monotone(s, i, j - 1);
        assert(point_ok(s, j));
    }
}

/// The entry at `i` is the first one that breaks a validation rule.
pub open spec fn first_violation(s: Seq<MatrixPoint>, i: int) -> bool {
    &&& 0 <= i < s.len()
    &&& !point_ok(s, i)
    &&& forall|j: int| 0 <= j < i ==> point_ok(s, j)
}

/// The daemon's configuration: a fan curve plus auxiliary settings.
pub struct Config {
    cards: Option<Vec<String>>,
    log_level: LogLevel,
    speed_matrix: Vec<MatrixPoint>,
    temp_input: Option<TempInput>,
}

impl Config {
    /// The stored fan curve.
    pub closed spec fn matrix(&self) -> Seq<MatrixPoint> {
        self.speed_matrix@
    }

    /// The stored card allow-list, kept only for persistence
    /// round-tripping.
    pub closed spec fn spec_cards(&self) -> Option<Seq<Seq<char>>> {
        self.cards.deep_view()
    }

    /// The stored log verbosity.
    pub closed spec fn spec_log_level(&self) -> LogLevel {
        self.log_level
    }

    /// The stored temperature-input selector; `None` asks the caller to
    /// take the highest reading across all sensors.
    pub closed spec fn spec_temp_input(&self) -> Option<TempInput> {
        self.temp_input
    }

    /// Assembles a configuration from already-typed parts; validation is
    /// a separate step, as it is for a freshly deserialized file.
    pub fn new(
        cards: Option<Vec<String>>,
        log_level: LogLevel,
        speed_matrix: Vec<MatrixPoint>,
        temp_input: Option<TempInput>,
    ) -> (r: Config)
        ensures
            r.matrix() == speed_matrix@,
            r.spec_cards() == cards.deep_view(),
            r.spec_log_level() == log_level,
            r.spec_temp_input() == temp_input,
    {
        Config { cards, log_level, speed_matrix, temp_input }
    }

    /// Deprecated card allow-list; no longer consulted by the filtering
    /// pipeline.
    pub fn cards(&self) -> (r: Option<&Vec<String>>)
        ensures
            r is Some <==> self.spec_cards() is Some,
            r matches Some(v) ==> self.spec_cards() == Some(v.deep_view()),
    {
        self.cards.as_ref()
    }

    /// The stored curve, read for evaluation and persistence alike.
    pub fn speed_matrix(&self) -> (r: &Vec<MatrixPoint>)
        ensures
            r@ == self.matrix(),
    {
        &self.speed_matrix
    }

    pub fn log_level(&self) -> (r: LogLevel)
        ensures
            r == self.spec_log_level(),
    {
        self.log_level
    }

    pub fn temp_input(&self) -> (r: Option<&TempInput>)
        ensures
            r is Some <==> self.spec_temp_input() is Some,
            r matches Some(t) ==> self.spec_temp_input() == Some(*t),
    {
        self.temp_input.as_ref()
    }

    /// Speed commanded below the curve's start: the first point's speed,
    /// or `0` when the curve is empty.
    fn min_speed(&self) -> (r: i64)
        ensures
            self.matrix().len() == 0 ==> r == 0,
            self.matrix().len() > 0 ==> r == self.matrix()[0].speed,
    {
        if self.speed_matrix.len() == 0 {
            0
        } else {
            self.speed_matrix[0].speed
        }
    }

    /// Speed commanded at the curve's end or beyond: the last point's
    /// speed, or full speed when the curve is empty.
    fn max_speed(&self) -> (r: i64)
        ensures
            self.matrix().len() == 0 ==> r == MAX_SPEED,
            self.matrix().len() > 0 ==> r == self.matrix().last().speed,
    {
        if self.speed_matrix.len() == 0 {
            MAX_SPEED
        } else {
            self.speed_matrix[self.speed_matrix.len() - 1].speed
        }
    }

    /// Computes the commanded fan speed for the measured temperature by
    /// locating the rightmost breakpoint at or below it and interpolating
    /// toward the next one.
    pub fn speed_for_temp(&self, temp: i64) -> (r: i64)
        requires
            curve_valid(self.matrix()),
        ensures
            r == eval_curve(self.matrix(), temp as int),
    {
        let ghost m = self.matrix();
        let ghost rp = rpos(m, temp as int);
        proof {
            lemma_rpos_props(m, temp as int);
        }
        let n = self.speed_matrix.len();
        let mut i: usize = n;
        while i > 0 && self.speed_matrix[i - 1].temp > temp
            invariant
                0 <= i <= n == m.len(),
                m == self.matrix(),
                rp == rpos(m, temp as int),
                -1 <= rp < n,
                rp >= 0 ==> m[rp].temp <= temp,
                forall|j: int| rp < j < n ==> m[j].temp > temp,
                forall|j: int| i <= j < n ==> m[j].temp > temp,
                rp < i,
            decreases i,
        {
            i = i - 1;
        }
        if i == 0 {
            assert(rp == -1);
            return self.min_speed();
        }
        let idx = i - 1;
        assert(rp == idx) by {
            assert(m[idx as int].temp <= temp);
        }
        if idx == n - 1 {
            return self.max_speed();
        }
        let p1 = self.speed_matrix[idx];
        let p2 = self.speed_matrix[idx + 1];
        proof {
            assert(point_ok(m, idx + 1));
            assert(m[idx + 1].temp > temp);
        }
        linear_map(temp, p1.temp, p2.temp, p1.speed, p2.speed)
    }

    /// Scans the curve in stored order and reports the first entry that
    /// breaks a range or monotonicity rule; `Ok` exactly when the whole
    /// curve is valid.
    pub fn validate(&self) -> (r: Result<(), ConfigError>)
        ensures
            r is Ok <==> curve_valid(self.matrix()),
            r matches Err(e) ==> exists|i: int|
                #[trigger] first_violation(self.matrix(), i) && e == error_at(self.matrix(), i),
    {
        let n = self.speed_matrix.len();
        let mut i: usize = 0;
        while i < n
            invariant
                0 <= i <= n == self.matrix().len(),
                forall|j: int| 0 <= j < i ==> point_ok(self.matrix(), j),
            decreases n - i,
        {
            let p = self.speed_matrix[i];
            if p.speed < 0 {
                proof {
                    assert(first_violation(self.matrix(), i as int));
                }
                return Err(ConfigError::FanSpeedTooLow { value: p.speed, index: i });
            }
            if p.speed > MAX_SPEED {
                proof {
                    assert(first_violation(self.matrix(), i as int));
                }
                return Err(ConfigError::FanSpeedTooHigh { value: p.speed, index: i });
            }
            if i > 0 {
                let prev = self.speed_matrix[i - 1];
                if p.speed < prev.speed {
                    proof {
                        assert(first_violation(self.matrix(), i as int));
                    }
                    return Err(ConfigError::UnsortedFanSpeed {
                        current: p.speed,
                        index: i,
                        last: prev.speed,
                    });
                }
                if p.temp < prev.temp {
                    proof {
                        assert(first_violation(self.matrix(), i as int));
                    }
                    return Err(ConfigError::UnsortedFanTemp {
                        current: p.temp,
                        index: i,
                        last: prev.temp,
                    });
                }
            }
            i = i + 1;
        }
        Ok(())
    }
}

/// For every valid curve and every temperature at or below the first
/// breakpoint, evaluation returns exactly the first point's speed.  At
/// exactly the first breakpoint this needs every point sharing that
/// temperature to share its speed; a curve may legally open with an
/// equal-temperature plateau of rising speeds, and evaluation then
/// commands the plateau's top.
pub proof fn lemma_eval_at_or_below_first(s: Seq<MatrixPoint>, t: int)
    requires
        curve_valid(s),
        s.len() > 0,
        t <= s[0].temp,
        forall|i: int| 0 <= i < s.len() && (#[trigger] s[i]).temp <= t ==> s[i].speed
            == s[0].speed,
    ensures
        eval_curve(s, t) == s[0].speed,
{
    lemma_rpos_props(s, t);
    let rp = rpos(s, t);
    if rp >= 0 {
        lemma_monotone(s, 0, rp);
        assert(s[rp].temp == t);
        assert(s[rp].speed == s[0].speed);
        if rp < s.len() - 1 {
            assert((s[rp + 1].speed - s[rp].speed) * (t - s[rp].temp) == 0) by (nonlinear_arith)
                requires
                    t - s[rp].temp == 0,
            ;
            lemma_div_of0(s[rp + 1].temp - s[rp].temp);
        }
    }
}

/// For every curve and every temperature at or above the last
/// breakpoint, evaluation returns exactly the last point's speed.
pub proof fn lemma_eval_at_or_above_last(s: Seq<MatrixPoint>, t: int)
    requires
        s.len() > 0,
        t >= s[s.len() - 1].temp,
    ensures
        eval_curve(s, t) == s[s.len() - 1].speed,
{
}

/// For adjacent breakpoints of distinct temperatures and a temperature
/// inside the segment they bracket, evaluation is the affine
/// interpolation between them on the fixed-point grid, and agrees with
/// the left point's speed at the left endpoint.
pub proof fn lemma_eval_interpolates(s: Seq<MatrixPoint>, i: int, t: int)
    requires
        curve_valid(s),
        0 <= i < s.len() - 1,
        s[i].temp <= t < s[i + 1].temp,
    ensures
        eval_curve(s, t) == interp(s[i], s[i + 1], t),
        t == s[i].temp ==> eval_curve(s, t) == s[i].speed,
{
    lemma_rpos_props(s, t);
    let rp = rpos(s, t);
    if rp > i {
        lemma_monotone(s, i + 1, rp);
        assert(false);
    }
    assert(rp == i);
    if t == s[i].temp {
        assert((s[i + 1].speed - s[i].speed) * (t - s[i].temp) == 0) by (nonlinear_arith)
            requires
                t - s[i].temp == 0,
        ;
        lemma_div_of0(s[i + 1].temp - s[i].temp);
    }
}

/// At the right endpoint of a segment of distinct temperatures the
/// interpolation formula takes exactly the right point's speed, and so
/// does evaluation, provided every point sharing that temperature shares
/// that speed (an equal-temperature plateau there may legally raise it).
pub proof fn lemma_eval_at_segment_end(s: Seq<MatrixPoint>, i: int)
    requires
        curve_valid(s),
        0 <= i < s.len() - 1,
        s[i].temp < s[i + 1].temp,
        forall|j: int| i + 1 <= j < s.len() && (#[trigger] s[j]).temp <= s[i + 1].temp
            ==> s[j].speed == s[i + 1].speed,
    ensures
        interp(s[i], s[i + 1], s[i + 1].temp as int) == s[i + 1].speed,
        eval_curve(s, s[i + 1].temp as int) == s[i + 1].speed,
{
    let t = s[i + 1].temp as int;
    let dx = s[i + 1].temp - s[i].temp;
    let dy = s[i + 1].speed - s[i].speed;
    assert(dy * (t - s[i].temp) == dx * dy) by (nonlinear_arith)
        requires
            t - s[i].temp == dx,
    ;
    lemma_div_multiples_vanish(dy, dx);
    lemma_rpos_props(s, t);
    let rp = rpos(s, t);
    assert(rp >= i + 1);
    assert(s[rp].speed == s[i + 1].speed);
    if rp < s.len() - 1 {
        lemma_monotone(s, i + 1, rp);
        assert(s[rp].temp == t);
        assert((s[rp + 1].speed - s[rp].speed) * (t - s[rp].temp) == 0) by (nonlinear_arith)
            requires
                t - s[rp].temp == 0,
        ;
        lemma_div_of0(s[rp + 1].temp - s[rp].temp);
    }
}

/// The reference curve shipped on first run: monotone breakpoints from a
/// 4 degree / 4 percent floor up to full speed at 80 degrees.
pub open spec fn default_matrix() -> Seq<MatrixPoint> {
    seq![
        MatrixPoint { temp: 4_000, speed: 4_000 },
        MatrixPoint { temp: 30_000, speed: 33_000 },
        MatrixPoint { temp: 45_000, speed: 50_000 },
        MatrixPoint { temp: 60_000, speed: 66_000 },
        MatrixPoint { temp: 65_000, speed: 69_000 },
        MatrixPoint { temp: 70_000, speed: 75_000 },
        MatrixPoint { temp: 75_000, speed: 89_000 },
        MatrixPoint { temp: 80_000, speed: 100_000 },
    ]
}

impl Default for Config {
    /// The configuration written on first run: the reference curve,
    /// error-level logging, and the first temperature sensor.
    fn default() -> (r: Config)
        ensures
            r.matrix() == default_matrix(),
            r.spec_cards() is None,
            r.spec_log_level() == LogLevel::Error,
            r.spec_temp_input() == Some(TempInput(1)),
            curve_valid(r.matrix()),
    {
        let mut m: Vec<MatrixPoint> = Vec::new();
        m.push(MatrixPoint { temp: 4_000, speed: 4_000 });
        m.push(MatrixPoint { temp: 30_000, speed: 33_000 });
        m.push(MatrixPoint { temp: 45_000, speed: 50_000 });
        m.push(MatrixPoint { temp: 60_000, speed: 66_000 });
        m.push(MatrixPoint { temp: 65_000, speed: 69_000 });
        m.push(MatrixPoint { temp: 70_000, speed: 75_000 });
        m.push(MatrixPoint { temp: 75_000, speed: 89_000 });
        m.push(MatrixPoint { temp: 80_000, speed: 100_000 });
        proof {
            assert(m@ =~= default_matrix());
            assert forall|i: int| 0 <= i < default_matrix().len() implies point_ok(
                default_matrix(),
                i,
            ) by {
            }
        }
        Config {
            cards: None,
            log_level: LogLevel::Error,
            speed_matrix: m,
            temp_input: Some(TempInput(1)),
        }
    }
}

} // verus!
