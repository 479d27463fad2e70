//! The filter shapes, the parameters of a band and the coefficients derived
//! from them.
//!
//! Frequencies are in hertz, the gain is a linear amplitude ratio (1.0 is
//! unity, not a value in decibels), and every number is a raw fixed-point
//! value with 32 fractional bits.
use crate::fixed::{
    div_spec, divide, is_floor_sqrt, lemma_div_bound, lemma_floor_sqrt_exists,
    lemma_floor_sqrt_range,
    lemma_floor_sqrt_unique, lemma_mul_bound, lemma_mul_by_fraction, lemma_mul_nonnegative_fixed,
    lemma_div_at_least, lemma_mul_at_least, lemma_mul_within, lemma_one_is_neutral, mul_spec,
    multiply, sqrt, sqrt_spec, ONE,
};
use crate::trig::{
    cos, cos_spec, lemma_sin_cos_margin, lemma_sin_cos_range, sin, sin_spec, MARGIN, PI,
};
use vstd::prelude::*;

verus! {

/// The largest magnitude of a coefficient that the recurrence accepts.
pub const COEFF_LIMIT: i64 = 0x1000_0000_0000_0000;

/// The smallest quality factor that a band may have: 1/128.
pub const Q_MIN: i64 = 0x0200_0000;

/// The largest quality factor that a band may have: 1024.
pub const Q_MAX: i64 = 0x0400_0000_0000;

/// The smallest gain that a band may have: 1/1024, about -60 dB.
pub const GAIN_MIN: i64 = 0x0040_0000;

/// The largest gain that a band may have: 1024, about +60 dB.
pub const GAIN_MAX: i64 = 0x0400_0000_0000;

/// The quality factor of a new band: 3.
pub const DEFAULT_Q: i64 = 0x3_0000_0000;

/// The raw value of 2 pi, twice the constant `PI`.
pub const TAU: i64 = 26986075408;

/// The shape of the filter.
#[derive(Clone, Copy, Debug, PartialEq, Eq, Structural)]
pub enum FilterTypes {
    /// A bell around the centre frequency.
    PEAK,
    /// High pass.
    HPF,
    /// Low pass.
    LPF,
    /// Low shelf.
    LS,
    /// High shelf.
    HS,
}

impl FilterTypes {
    /// The place of the shape among the five: peak 0, high pass 1, low pass
    /// 2, low shelf 3, high shelf 4.
    pub open spec fn index_spec(self) -> int {
        match self {
            FilterTypes::PEAK => 0,
            FilterTypes::HPF => 1,
            FilterTypes::LPF => 2,
            FilterTypes::LS => 3,
            FilterTypes::HS => 4,
        }
    }

    /// The name of the shape.
    pub open spec fn name_spec(self) -> Seq<char> {
        match self {
            FilterTypes::PEAK => "Peak"@,
            FilterTypes::HPF => "High Pass"@,
            FilterTypes::LPF => "Low Pass"@,
            FilterTypes::LS => "Low Shelf"@,
            FilterTypes::HS => "High Shelf"@,
        }
    }

    /// The heading under which the shape is shown.
    pub open spec fn title_spec(self) -> Seq<char> {
        match self {
            FilterTypes::PEAK => "Peak Filter"@,
            FilterTypes::HPF => "High Pass Filter"@,
            FilterTypes::LPF => "Low Pass Filter"@,
            FilterTypes::LS => "Low Shelf"@,
            FilterTypes::HS => "High Shelf"@,
        }
    }

    /// The place of the shape among the five. A control with five evenly
    /// spaced positions selects the shape at `index / 4` of its travel.
    pub fn index(&self) -> (i: u8)
        ensures
            i == self.index_spec(),
            i <= 4,
    {
        match self {
            FilterTypes::PEAK => 0,
            FilterTypes::HPF => 1,
            FilterTypes::LPF => 2,
            FilterTypes::LS => 3,
            FilterTypes::HS => 4,
        }
    }

    /// The shape at the place `i`, if there is one.
    pub fn from_index(i: u8) -> (shape: Option<FilterTypes>)
        ensures
            i <= 4 <==> shape is Some,
            shape matches Some(t) ==> t.index_spec() == i,
    {
        if i == 0 {
            Some(FilterTypes::PEAK)
        } else if i == 1 {
            Some(FilterTypes::HPF)
        } else if i == 2 {
            Some(FilterTypes::LPF)
        } else if i == 3 {
            Some(FilterTypes::LS)
        } else if i == 4 {
            Some(FilterTypes::HS)
        } else {
            None
        }
    }

    /// The name of the shape.
    pub fn name(&self) -> (text: &'static str)
        ensures
            text@ == self.name_spec(),
    {
        match self {
            FilterTypes::PEAK => "Peak",
            FilterTypes::HPF => "High Pass",
            FilterTypes::LPF => "Low Pass",
            FilterTypes::LS => "Low Shelf",
            FilterTypes::HS => "High Shelf",
        }
    }

    /// The heading under which the shape is shown.
    pub fn title(&self) -> (text: &'static str)
        ensures
            text@ == self.title_spec(),
    {
        match self {
            FilterTypes::PEAK => "Peak Filter",
            FilterTypes::HPF => "High Pass Filter",
            FilterTypes::LPF => "Low Pass Filter",
            FilterTypes::LS => "Low Shelf",
            FilterTypes::HS => "High Shelf",
        }
    }

    /// Whether the gain enters the coefficients of the shape: it does for
    /// the peak and the shelves, not for the two pass shapes.
    pub fn uses_gain(&self) -> (used: bool)
        ensures
            used == (*self == FilterTypes::PEAK || *self == FilterTypes::LS || *self
                == FilterTypes::HS),
    {
        match self {
            FilterTypes::HPF | FilterTypes::LPF => false,
            FilterTypes::PEAK | FilterTypes::LS | FilterTypes::HS => true,
        }
    }
}

/// The six coefficients as mathematical integers.
pub struct CoeffValues {
    pub a0: int,
    pub a1: int,
    pub a2: int,
    pub b0: int,
    pub b1: int,
    pub b2: int,
}

/// The coefficients of a second-order section with the transfer function
/// `(b0 + b1 z^-1 + b2 z^-2) / (a0 + a1 z^-1 + a2 z^-2)`, as raw fixed-point
/// values. They are not normalised: the recurrence divides by `a0`.
#[derive(Clone, Copy, Debug, PartialEq, Eq, Structural)]
pub struct FilterCoeffs {
    pub a0: i64,
    pub a1: i64,
    pub a2: i64,
    pub b0: i64,
    pub b1: i64,
    pub b2: i64,
}

impl View for FilterCoeffs {
    type V = CoeffValues;

    open spec fn view(&self) -> CoeffValues {
        CoeffValues {
            a0: self.a0 as int,
            a1: self.a1 as int,
            a2: self.a2 as int,
            b0: self.b0 as int,
            b1: self.b1 as int,
            b2: self.b2 as int,
        }
    }
}

impl CoeffValues {
    /// `a0` is positive and no coefficient exceeds `COEFF_LIMIT` in
    /// magnitude.
    pub open spec fn wf(self) -> bool {
        &&& 0 < self.a0 <= COEFF_LIMIT
        &&& -COEFF_LIMIT <= self.a1 <= COEFF_LIMIT
        &&& -COEFF_LIMIT <= self.a2 <= COEFF_LIMIT
        &&& -COEFF_LIMIT <= self.b0 <= COEFF_LIMIT
        &&& -COEFF_LIMIT <= self.b1 <= COEFF_LIMIT
        &&& -COEFF_LIMIT <= self.b2 <= COEFF_LIMIT
    }
}

impl FilterCoeffs {
    /// The coefficients of the filter that changes nothing: `b == a == [1, 0, 0]`.
    pub open spec fn identity() -> FilterCoeffs {
        FilterCoeffs { a0: ONE, a1: 0, a2: 0, b0: ONE, b1: 0, b2: 0 }
    }

    /// The coefficients of the filter that changes nothing.
    pub fn unit() -> (k: FilterCoeffs)
        ensures
            k == FilterCoeffs::identity(),
            k.wf(),
    {
        FilterCoeffs { a0: ONE, a1: 0, a2: 0, b0: ONE, b1: 0, b2: 0 }
    }

    /// The recurrence can run on these coefficients: `a0` is positive and no
    /// coefficient is so large that the accumulator could overflow.
    pub open spec fn wf(self) -> bool {
        self@.wf()
    }

    /// Whether the recurrence can run on these coefficients.
    pub fn is_wf(&self) -> (ok: bool)
        ensures
            ok == self.wf(),
    {
        0 < self.a0 && self.a0 <= COEFF_LIMIT && -COEFF_LIMIT <= self.a1 && self.a1 <= COEFF_LIMIT
            && -COEFF_LIMIT <= self.a2 && self.a2 <= COEFF_LIMIT && -COEFF_LIMIT <= self.b0
            && self.b0 <= COEFF_LIMIT && -COEFF_LIMIT <= self.b1 && self.b1 <= COEFF_LIMIT
            && -COEFF_LIMIT <= self.b2 && self.b2 <= COEFF_LIMIT
    }
}

/// The parameters of the band: shape, centre frequency, gain and quality
/// factor.
#[derive(Clone, Copy, Debug, PartialEq, Eq, Structural)]
pub struct BandParams {
    /// The centre or corner frequency in hertz.
    pub frequency: i64,
    /// The gain as a linear amplitude ratio.
    pub gain: i64,
    /// The quality factor.
    pub q: i64,
    /// The shape.
    pub filter_type: FilterTypes,
}

impl BandParams {
    /// The parameters can be designed for at the sample rate `sample_rate`:
    /// the frequency is positive and below half the sample rate, the
    /// quality factor lies between `Q_MIN` and `Q_MAX`, and the gain lies
    /// between `GAIN_MIN` and `GAIN_MAX`.
    pub open spec fn valid(self, sample_rate: i64) -> bool {
        &&& 0 < self.frequency
        &&& 2 * self.frequency < sample_rate
        &&& Q_MIN <= self.q <= Q_MAX
        &&& GAIN_MIN <= self.gain <= GAIN_MAX
    }

    /// The frequency keeps a distance from 0 and from half the sample rate:
    /// it is at least `sample_rate / 16384`, and at least
    /// `sample_rate / 16384` below half the sample rate. At 44.1 kHz that is
    /// 2.7 Hz.
    pub open spec fn clear_of_edges(self, sample_rate: i64) -> bool {
        &&& 16384 * self.frequency >= sample_rate
        &&& 8192 * (sample_rate - 2 * self.frequency) >= sample_rate
    }

    /// The angular frequency `2 pi f / sample_rate` in radians per sample.
    pub open spec fn w_spec(self, sample_rate: i64) -> int {
        (TAU * self.frequency) / (sample_rate as int)
    }

    /// `A`, the square root of the gain.
    pub open spec fn a_spec(self) -> int {
        sqrt_spec(self.gain as int)
    }

    /// `alpha = sin(w) / (2 q)`.
    pub open spec fn alpha_spec(self, w: int) -> int {
        div_spec(sin_spec(w), 2 * self.q)
    }

    /// The coefficients of the peak shape.
    pub open spec fn peak_spec(self, sample_rate: i64) -> CoeffValues {
        let w = self.w_spec(sample_rate);
        let c = cos_spec(w);
        let alpha = self.alpha_spec(w);
        let a = self.a_spec();
        CoeffValues {
            a0: ONE + div_spec(alpha, a),
            a1: -2 * c,
            a2: ONE - div_spec(alpha, a),
            b0: ONE + mul_spec(alpha, a),
            b1: -2 * c,
            b2: ONE - mul_spec(alpha, a),
        }
    }

    /// The coefficients of the high-pass shape.
    pub open spec fn hpf_spec(self, sample_rate: i64) -> CoeffValues {
        let w = self.w_spec(sample_rate);
        let c = cos_spec(w);
        let alpha = self.alpha_spec(w);
        CoeffValues {
            a0: ONE + alpha,
            a1: -2 * c,
            a2: ONE - alpha,
            b0: (ONE + c) / 2,
            b1: -(ONE + c),
            b2: (ONE + c) / 2,
        }
    }

    /// The coefficients of the low-pass shape.
    pub open spec fn lpf_spec(self, sample_rate: i64) -> CoeffValues {
        let w = self.w_spec(sample_rate);
        let c = cos_spec(w);
        let alpha = self.alpha_spec(w);
        CoeffValues {
            a0: ONE + alpha,
            a1: -2 * c,
            a2: ONE - alpha,
            b0: (ONE - c) / 2,
            b1: ONE - c,
            b2: (ONE - c) / 2,
        }
    }

    /// `2 sqrt(A alpha)`, the slope term of the shelf shapes.
    pub open spec fn slope_spec(self, w: int) -> int {
        2 * sqrt_spec(mul_spec(self.a_spec(), self.alpha_spec(w)))
    }

    /// The coefficients of the low-shelf shape.
    pub open spec fn ls_spec(self, sample_rate: i64) -> CoeffValues {
        let w = self.w_spec(sample_rate);
        let c = cos_spec(w);
        let a = self.a_spec();
        let s = self.slope_spec(w);
        let minus = mul_spec(a - ONE, c);
        let plus = mul_spec(a + ONE, c);
        CoeffValues {
            a0: (a + ONE) + minus + s,
            a1: -2 * ((a - ONE) + plus),
            a2: (a + ONE) + minus - s,
            b0: mul_spec(a, (a + ONE) - minus + s),
            b1: mul_spec(2 * a, (a - ONE) - plus),
            b2: mul_spec(a, (a + ONE) - minus - s),
        }
    }

    /// The coefficients of the high-shelf shape.
    pub open spec fn hs_spec(self, sample_rate: i64) -> CoeffValues {
        let w = self.w_spec(sample_rate);
        let c = cos_spec(w);
        let a = self.a_spec();
        let s = self.slope_spec(w);
        let minus = mul_spec(a - ONE, c);
        let plus = mul_spec(a + ONE, c);
        CoeffValues {
            a0: (a + ONE) - minus + s,
            a1: 2 * ((a - ONE) - plus),
            a2: (a + ONE) - minus - s,
            b0: mul_spec(a, (a + ONE) + minus + s),
            b1: mul_spec(-2 * a, (a - ONE) + plus),
            b2: mul_spec(a, (a + ONE) + minus - s),
        }
    }

    /// The coefficients of the band's shape.
    pub open spec fn coeffs_spec(self, sample_rate: i64) -> CoeffValues {
        match self.filter_type {
            FilterTypes::PEAK => self.peak_spec(sample_rate),
            FilterTypes::HPF => self.hpf_spec(sample_rate),
            FilterTypes::LPF => self.lpf_spec(sample_rate),
            FilterTypes::HS => self.hs_spec(sample_rate),
            FilterTypes::LS => self.ls_spec(sample_rate),
        }
    }

    /// The ranges of the terms that all shapes share.
    pub proof fn lemma_terms_range(self, sample_rate: i64)
        requires
            self.valid(sample_rate),
        ensures
            0 <= self.w_spec(sample_rate) < PI,
            -ONE <= cos_spec(self.w_spec(sample_rate)) <= ONE,
            0 <= self.alpha_spec(self.w_spec(sample_rate)) <= 0x40_0000_0000,
            0x0800_0000 <= self.a_spec() <= 0x20_0000_0000,
            0 <= self.slope_spec(self.w_spec(sample_rate)) <= 0x80_0000_0000,
    {
        let f = self.frequency as int;
        let sr = sample_rate as int;
        let w = self.w_spec(sample_rate);
        assert(0 <= w < PI) by (nonlinear_arith)
            requires
                0 < f,
                2 * f < sr,
                w == (26986075408 * f) / sr,
        {
            assert(26986075408 * f < 13493037704 * sr);
            assert(0 <= 26986075408 * f);
        }
        lemma_sin_cos_range(w);
        let s = sin_spec(w);
        lemma_div_bound(s, 2 * self.q, ONE as int, 2 * Q_MIN);
        assert(div_spec(ONE as int, 2 * Q_MIN) == 0x40_0000_0000) by {
            assert(ONE as int * ONE as int == 0x1_0000_0000_0000_0000) by (nonlinear_arith)
                requires
                    ONE == 0x1_0000_0000,
            ;
        }
        let g = self.gain as int;
        assert(g * ONE == g * 0x1_0000_0000);
        assert(0x0800_0000 * 0x0800_0000 == 0x0040_0000 * 0x1_0000_0000) by (nonlinear_arith);
        assert(0x20_0000_0000 * 0x20_0000_0000 == 0x0400_0000_0000 * 0x1_0000_0000)
            by (nonlinear_arith);
        lemma_floor_sqrt_range(g * ONE, 0x0800_0000, 0x20_0000_0000);
        let a = self.a_spec();
        let alpha = self.alpha_spec(w);
        lemma_mul_nonnegative_fixed(a, alpha);
        lemma_mul_bound(a, alpha, 0x20_0000_0000, 0x40_0000_0000);
        let p = mul_spec(a, alpha);
        assert(mul_spec(0x20_0000_0000, 0x40_0000_0000) == 0x0800_0000_0000) by {
            assert(0x20_0000_0000 * 0x40_0000_0000 == 0x0800_0000_0000 * 0x1_0000_0000)
                by (nonlinear_arith);
        }
        assert(p * ONE == p * 0x1_0000_0000);
        assert(0x40_0000_0000 * 0x40_0000_0000 >= 0x0800_0000_0000 * 0x1_0000_0000)
            by (nonlinear_arith);
        assert(0 * 0 <= p * 0x1_0000_0000);
        lemma_floor_sqrt_range(p * ONE, 0, 0x40_0000_0000);
    }

    /// A band at the frequency `f` with unity gain, a quality factor of 3
    /// and the peak shape.
    pub fn new(f: i64) -> (band: BandParams)
        ensures
            band == (BandParams {
                frequency: f,
                gain: ONE,
                q: DEFAULT_Q,
                filter_type: FilterTypes::PEAK,
            }),
    {
        BandParams { frequency: f, gain: ONE, q: DEFAULT_Q, filter_type: FilterTypes::PEAK }
    }

    /// Whether the parameters can be designed for at `sample_rate`.
    pub fn is_valid(&self, sample_rate: i64) -> (ok: bool)
        ensures
            ok == self.valid(sample_rate),
    {
        0 < self.frequency && self.frequency < sample_rate && self.frequency < sample_rate
            - self.frequency && Q_MIN <= self.q && self.q <= Q_MAX && GAIN_MIN <= self.gain
            && self.gain <= GAIN_MAX
    }

    /// Whether the frequency keeps its distance from 0 and from half the
    /// sample rate.
    pub fn is_clear_of_edges(&self, sample_rate: i64) -> (ok: bool)
        ensures
            ok == self.clear_of_edges(sample_rate),
    {
        let f: i128 = self.frequency as i128;
        let sr: i128 = sample_rate as i128;
        16384 * f >= sr && 8192 * (sr - 2 * f) >= sr
    }

    /// The nearest parameters that can be designed for at `sample_rate`:
    /// the frequency brought into the open interval between 0 and half the
    /// sample rate, the quality factor brought between `Q_MIN` and `Q_MAX`
    /// and the gain between `GAIN_MIN` and `GAIN_MAX`. Valid parameters come
    /// back unchanged.
    pub fn clamped(&self, sample_rate: i64) -> (band: BandParams)
        requires
            sample_rate > 2,
        ensures
            band.valid(sample_rate),
            self.valid(sample_rate) ==> band == *self,
            band.filter_type == self.filter_type,
            band.frequency == (if self.frequency < 1 {
                1
            } else if 2 * self.frequency >= sample_rate {
                (sample_rate - 1) / 2
            } else {
                self.frequency as int
            }),
            band.q == (if self.q < Q_MIN {
                Q_MIN
            } else if self.q > Q_MAX {
                Q_MAX
            } else {
                self.q
            }),
            band.gain == (if self.gain < GAIN_MIN {
                GAIN_MIN
            } else if self.gain > GAIN_MAX {
                GAIN_MAX
            } else {
                self.gain
            }),
    {
        let top: i64 = (sample_rate - 1) / 2;
        let frequency: i64 = if self.frequency < 1 {
            1
        } else if self.frequency > top {
            top
        } else {
            self.frequency
        };
        let q: i64 = if self.q < Q_MIN {
            Q_MIN
        } else if self.q > Q_MAX {
            Q_MAX
        } else {
            self.q
        };
        let gain: i64 = if self.gain < GAIN_MIN {
            GAIN_MIN
        } else if self.gain > GAIN_MAX {
            GAIN_MAX
        } else {
            self.gain
        };
        BandParams { frequency, gain, q, filter_type: self.filter_type }
    }

    /// `A`, the square root of the gain.
    pub fn get_a(&self) -> (a: i64)
        requires
            0 <= self.gain,
        ensures
            a == self.a_spec(),
    {
        sqrt(self.gain)
    }

    /// The angular frequency `2 pi f / sample_rate` in radians per sample.
    pub fn get_w(&self, sample_rate: i64) -> (w: i64)
        requires
            0 < self.frequency,
            2 * self.frequency < sample_rate,
        ensures
            w == self.w_spec(sample_rate),
            0 <= w < PI,
    {
        let f: i128 = self.frequency as i128;
        let sr: i128 = sample_rate as i128;
        proof {
            let w = self.w_spec(sample_rate);
            assert(0 <= w < PI) by (nonlinear_arith)
                requires
                    0 < f,
                    2 * f < sr,
                    w == (26986075408 * f) / (sr as int),
            {
                assert(26986075408 * f < 13493037704 * sr);
                assert(0 <= 26986075408 * f);
            }
        }
        let n: i128 = 26986075408 * f;
        let w: i128 = n / sr;
        w as i64
    }

    /// `alpha = sin(w) / (2 q)`.
    pub fn get_alpha(&self, w: i64) -> (alpha: i64)
        requires
            0 <= w <= PI,
            Q_MIN <= self.q,
        ensures
            alpha == self.alpha_spec(w as int),
            0 <= alpha <= 0x40_0000_0000,
    {
        let s: i128 = sin(w) as i128;
        let d: i128 = 2 * (self.q as i128);
        proof {
            lemma_div_bound(s as int, d as int, ONE as int, 2 * Q_MIN);
            assert(div_spec(ONE as int, 2 * Q_MIN) == 0x40_0000_0000) by {
                assert(ONE as int * ONE as int == 0x1_0000_0000_0000_0000) by (nonlinear_arith)
                    requires
                        ONE == 0x1_0000_0000,
                ;
            }
        }
        let n: i128 = s * 0x1_0000_0000;
        let alpha: i128 = n / d;
        alpha as i64
    }

    /// The ranges of the two terms of the peak shape.
    pub proof fn lemma_peak_range(self, sample_rate: i64)
        requires
            self.valid(sample_rate),
        ensures
            0 <= div_spec(self.alpha_spec(self.w_spec(sample_rate)), self.a_spec())
                <= 0x0800_0000_0000,
            0 <= mul_spec(self.alpha_spec(self.w_spec(sample_rate)), self.a_spec())
                <= 0x0800_0000_0000,
            self.peak_spec(sample_rate).wf(),
    {
        self.lemma_terms_range(sample_rate);
        let alpha = self.alpha_spec(self.w_spec(sample_rate));
        let a = self.a_spec();
        lemma_div_bound(alpha, a, 0x40_0000_0000, 0x0800_0000);
        assert(div_spec(0x40_0000_0000, 0x0800_0000) == 0x0800_0000_0000) by {
            assert(0x40_0000_0000 * ONE == 0x0800_0000_0000 * 0x0800_0000) by (nonlinear_arith)
                requires
                    ONE == 0x1_0000_0000,
            ;
        }
        lemma_mul_nonnegative_fixed(alpha, a);
        assert(0x40_0000_0000 * 0x20_0000_0000 <= 0x0800_0000_0000 * ONE) by (nonlinear_arith)
            requires
                ONE == 0x1_0000_0000,
        ;
        lemma_mul_within(alpha, a, 0x40_0000_0000, 0x20_0000_0000, 0x0800_0000_0000);
    }

    /// The ranges of the terms of the two shelf shapes.
    pub proof fn lemma_shelf_range(self, sample_rate: i64)
        requires
            self.valid(sample_rate),
        ensures
            ({
                let w = self.w_spec(sample_rate);
                let c = cos_spec(w);
                let a = self.a_spec();
                let s = self.slope_spec(w);
                let minus = mul_spec(a - ONE, c);
                let plus = mul_spec(a + ONE, c);
                &&& 0 <= mul_spec(a, self.alpha_spec(w)) <= 0x0800_0000_0000
                &&& -(a + ONE) <= plus <= a + ONE
                &&& a >= ONE ==> -(a - ONE) <= minus <= a - ONE
                &&& a < ONE ==> -(ONE - a) <= minus <= ONE - a
                &&& -0x2000_0000_0000 <= mul_spec(a, (a + ONE) - minus + s) <= 0x2000_0000_0000
                &&& -0x2000_0000_0000 <= mul_spec(a, (a + ONE) - minus - s) <= 0x2000_0000_0000
                &&& -0x2000_0000_0000 <= mul_spec(a, (a + ONE) + minus + s) <= 0x2000_0000_0000
                &&& -0x2000_0000_0000 <= mul_spec(a, (a + ONE) + minus - s) <= 0x2000_0000_0000
                &&& -0x2000_0000_0000 <= mul_spec(2 * a, (a - ONE) - plus) <= 0x2000_0000_0000
                &&& -0x2000_0000_0000 <= mul_spec(-2 * a, (a - ONE) + plus) <= 0x2000_0000_0000
            }),
            self.ls_spec(sample_rate).wf(),
            self.hs_spec(sample_rate).wf(),
    {
        self.lemma_terms_range(sample_rate);
        let w = self.w_spec(sample_rate);
        let c = cos_spec(w);
        let a = self.a_spec();
        let alpha = self.alpha_spec(w);
        let s = self.slope_spec(w);
        lemma_mul_nonnegative_fixed(a, alpha);
        assert(0x20_0000_0000 * 0x40_0000_0000 <= 0x0800_0000_0000 * ONE) by (nonlinear_arith)
            requires
                ONE == 0x1_0000_0000,
        ;
        lemma_mul_within(a, alpha, 0x20_0000_0000, 0x40_0000_0000, 0x0800_0000_0000);
        lemma_mul_by_fraction(a + ONE, c, a + ONE);
        if a >= ONE {
            lemma_mul_by_fraction(a - ONE, c, a - ONE);
        } else {
            lemma_mul_by_fraction(a - ONE, c, ONE - a);
        }
        let minus = mul_spec(a - ONE, c);
        let plus = mul_spec(a + ONE, c);
        assert(0x20_0000_0000 * 0x0100_0000_0000 <= 0x2000_0000_0000 * ONE) by (nonlinear_arith)
            requires
                ONE == 0x1_0000_0000,
        ;
        assert(0x40_0000_0000 * 0x0080_0000_0000 <= 0x2000_0000_0000 * ONE) by (nonlinear_arith)
            requires
                ONE == 0x1_0000_0000,
        ;
        lemma_mul_within(a, (a + ONE) - minus + s, 0x20_0000_0000, 0x0100_0000_0000, 0x2000_0000_0000);
        lemma_mul_within(a, (a + ONE) - minus - s, 0x20_0000_0000, 0x0100_0000_0000, 0x2000_0000_0000);
        lemma_mul_within(a, (a + ONE) + minus + s, 0x20_0000_0000, 0x0100_0000_0000, 0x2000_0000_0000);
        lemma_mul_within(a, (a + ONE) + minus - s, 0x20_0000_0000, 0x0100_0000_0000, 0x2000_0000_0000);
        lemma_mul_within(2 * a, (a - ONE) - plus, 0x40_0000_0000, 0x0080_0000_0000, 0x2000_0000_0000);
        lemma_mul_within(-2 * a, (a - ONE) + plus, 0x40_0000_0000, 0x0080_0000_0000, 0x2000_0000_0000);
    }

    /// The low-pass and the high-pass shape give coefficients that the
    /// recurrence accepts.
    pub proof fn lemma_pass_range(self, sample_rate: i64)
        requires
            self.valid(sample_rate),
        ensures
            self.lpf_spec(sample_rate).wf(),
            self.hpf_spec(sample_rate).wf(),
    {
        self.lemma_terms_range(sample_rate);
    }

    /// For every shape, `a0` is positive wherever the quality factor and
    /// the gain are positive and the frequency lies between 0 and half the
    /// sample rate: the recurrence never divides by zero.
    pub proof fn law_a0_positive(self, sample_rate: i64)
        requires
            0 < self.q,
            0 < self.gain,
            0 < self.frequency,
            2 * self.frequency < sample_rate,
        ensures
            self.coeffs_spec(sample_rate).a0 > 0,
    {
        let f = self.frequency as int;
        let sr = sample_rate as int;
        let w = self.w_spec(sample_rate);
        assert(0 <= w < PI) by (nonlinear_arith)
            requires
                0 < f,
                2 * f < sr,
                w == (26986075408 * f) / sr,
        {
            assert(26986075408 * f < 13493037704 * sr);
            assert(0 <= 26986075408 * f);
        }
        lemma_sin_cos_range(w);
        let c = cos_spec(w);
        let alpha = self.alpha_spec(w);
        lemma_div_bound(sin_spec(w), 2 * self.q, ONE as int, 1);
        let g = self.gain as int;
        assert(g * ONE == g * 0x1_0000_0000);
        assert(0x1_0000 * 0x1_0000 == 0x1_0000_0000int) by (nonlinear_arith);
        assert(0x1_0000_0000_0000int * 0x1_0000_0000_0000int
            == 0x1_0000_0000_0000_0000_0000_0000int) by (nonlinear_arith);
        lemma_floor_sqrt_range(g * ONE, 0x1_0000, 0x1_0000_0000_0000);
        let a = self.a_spec();
        lemma_div_bound(alpha, a, alpha, a);
        lemma_mul_nonnegative_fixed(a, alpha);
        let p = mul_spec(a, alpha);
        assert(0 <= p * ONE) by (nonlinear_arith)
            requires
                0 <= p,
                ONE == 0x1_0000_0000,
        ;
        lemma_floor_sqrt_exists(p * ONE);
        if a >= ONE {
            lemma_mul_by_fraction(a - ONE, c, a - ONE);
        } else {
            lemma_mul_by_fraction(a - ONE, c, ONE - a);
        }
    }

    /// Valid parameters give coefficients that the recurrence accepts, for
    /// every shape.
    pub proof fn law_coefficients_are_accepted(self, sample_rate: i64)
        requires
            self.valid(sample_rate),
        ensures
            self.coeffs_spec(sample_rate).wf(),
    {
        self.lemma_peak_range(sample_rate);
        self.lemma_shelf_range(sample_rate);
        self.lemma_pass_range(sample_rate);
    }

    /// The two pass shapes do not read the gain: bands that differ in
    /// nothing else have the same coefficients.
    pub proof fn law_pass_shapes_ignore_gain(self, other: BandParams, sample_rate: i64)
        requires
            self.filter_type == FilterTypes::HPF || self.filter_type == FilterTypes::LPF,
            other.filter_type == self.filter_type,
            other.frequency == self.frequency,
            other.q == self.q,
        ensures
            self.coeffs_spec(sample_rate) == other.coeffs_spec(sample_rate),
    {
    }

    /// A peak with unity gain has the same numerator and denominator: `b`
    /// equals `a` coefficient by coefficient.
    pub proof fn law_unity_peak(self, sample_rate: i64)
        requires
            self.filter_type == FilterTypes::PEAK,
            self.gain == ONE,
        ensures
            self.coeffs_spec(sample_rate).b0 == self.coeffs_spec(sample_rate).a0,
            self.coeffs_spec(sample_rate).b1 == self.coeffs_spec(sample_rate).a1,
            self.coeffs_spec(sample_rate).b2 == self.coeffs_spec(sample_rate).a2,
    {
        assert(is_floor_sqrt(ONE as int * ONE as int, ONE as int)) by (nonlinear_arith)
            requires
                ONE == 0x1_0000_0000,
        ;
        lemma_floor_sqrt_unique(ONE as int * ONE as int, ONE as int);
        assert(self.a_spec() == ONE);
        lemma_one_is_neutral(self.alpha_spec(self.w_spec(sample_rate)));
    }

    /// The low-pass shape has unity gain at zero frequency and none at half
    /// the sample rate; the high-pass shape has none at zero frequency and
    /// unity gain at half the sample rate. Stated on the coefficients: at
    /// `z = 1` and at `z = -1` the numerator equals the denominator, or
    /// vanishes, up to one unit in the last place.
    pub proof fn law_pass_gains(self, sample_rate: i64)
        requires
            self.valid(sample_rate),
        ensures
            ({
                let k = self.lpf_spec(sample_rate);
                &&& 0 <= (k.a0 + k.a1 + k.a2) - (k.b0 + k.b1 + k.b2) <= 1
                &&& -1 <= k.b0 - k.b1 + k.b2 <= 0
            }),
            ({
                let k = self.hpf_spec(sample_rate);
                &&& -1 <= k.b0 + k.b1 + k.b2 <= 0
                &&& 0 <= (k.a0 - k.a1 + k.a2) - (k.b0 - k.b1 + k.b2) <= 1
            }),
    {
    }

    /// For every shape the designed denominator meets the stability
    /// triangle with its border: `|a2| <= a0` and `|a1| <= a0 + a2`. No pole
    /// of the filter lies outside the unit circle.
    pub proof fn law_poles_not_outside(self, sample_rate: i64)
        requires
            self.valid(sample_rate),
        ensures
            ({
                let k = self.coeffs_spec(sample_rate);
                &&& k.a0 > 0
                &&& -k.a0 <= k.a2 <= k.a0
                &&& -(k.a0 + k.a2) <= k.a1 <= k.a0 + k.a2
            }),
    {
        self.lemma_terms_range(sample_rate);
        self.lemma_peak_range(sample_rate);
        self.lemma_shelf_range(sample_rate);
        let w = self.w_spec(sample_rate);
        let c = cos_spec(w);
        let a = self.a_spec();
        lemma_mul_shift(a - ONE, c);
        lemma_mul_shift(a, c);
        assert(a - ONE + ONE == a);
        assert(a + ONE == (a - ONE) + ONE + ONE);
        lemma_mul_by_fraction(a, c, a);
    }

    /// Clear of the edges, the angular frequency keeps the margin from 0
    /// and from pi, and `alpha` is large enough to survive its divisions.
    pub proof fn lemma_terms_margin(self, sample_rate: i64)
        requires
            self.valid(sample_rate),
            self.clear_of_edges(sample_rate),
        ensures
            MARGIN <= self.w_spec(sample_rate) <= PI - MARGIN,
            -ONE + 32 <= cos_spec(self.w_spec(sample_rate)) <= ONE - 32,
            32 <= self.alpha_spec(self.w_spec(sample_rate)),
            2 <= self.slope_spec(self.w_spec(sample_rate)),
    {
        self.lemma_terms_range(sample_rate);
        let f = self.frequency as int;
        let sr = sample_rate as int;
        let w = self.w_spec(sample_rate);
        assert(0x10_0000 <= w <= 13493037704 - 0x10_0000) by (nonlinear_arith)
            requires
                0 < f,
                2 * f < sr,
                16384 * f >= sr,
                8192 * (sr - 2 * f) >= sr,
                w == (26986075408 * f) / sr,
        {
            assert(26986075408 * f >= 0x10_0000 * sr);
            assert(26986075408 * f <= (13493037704 - 0x10_0000) * sr);
        }
        lemma_sin_cos_margin(w);
        let s = sin_spec(w);
        lemma_div_at_least(s, 2 * self.q, 0x8_0000, 2 * Q_MAX);
        assert(div_spec(0x8_0000, 2 * Q_MAX) == 256) by {
            assert(0x8_0000 * ONE == 256 * (2 * Q_MAX)) by (nonlinear_arith)
                requires
                    ONE == 0x1_0000_0000,
                    Q_MAX == 0x0400_0000_0000,
            ;
        }
        let a = self.a_spec();
        let alpha = self.alpha_spec(w);
        lemma_mul_at_least(a, alpha, 0x0800_0000, 32);
        assert(mul_spec(0x0800_0000, 32) == 1) by {
            assert(0x0800_0000 * 32 == 1 * 0x1_0000_0000) by (nonlinear_arith);
        }
        let p = mul_spec(a, alpha);
        assert(0x20_0000_0000 * 0x40_0000_0000 <= 0x0800_0000_0000 * ONE) by (nonlinear_arith)
            requires
                ONE == 0x1_0000_0000,
        ;
        lemma_mul_within(a, alpha, 0x20_0000_0000, 0x40_0000_0000, 0x0800_0000_0000);
        assert(p * ONE == p * 0x1_0000_0000);
        assert(1 * 1 <= p * 0x1_0000_0000);
        assert(0x40_0000_0000 * 0x40_0000_0000 >= 0x0800_0000_0000 * 0x1_0000_0000)
            by (nonlinear_arith);
        lemma_floor_sqrt_range(p * ONE, 1, 0x40_0000_0000);
    }

    /// Clear of the edges, the designed denominator lies inside the
    /// stability triangle: `|a2| < a0` and `|a1| < a0 + a2`. Both poles of
    /// the filter lie inside the unit circle, for every shape.
    pub proof fn law_poles_inside(self, sample_rate: i64)
        requires
            self.valid(sample_rate),
            self.clear_of_edges(sample_rate),
        ensures
            ({
                let k = self.coeffs_spec(sample_rate);
                &&& k.a0 > 0
                &&& -k.a0 < k.a2 < k.a0
                &&& -(k.a0 + k.a2) < k.a1 < k.a0 + k.a2
            }),
    {
        self.lemma_terms_range(sample_rate);
        self.lemma_terms_margin(sample_rate);
        self.lemma_peak_range(sample_rate);
        self.lemma_shelf_range(sample_rate);
        let w = self.w_spec(sample_rate);
        let c = cos_spec(w);
        let a = self.a_spec();
        let alpha = self.alpha_spec(w);
        lemma_div_at_least(alpha, a, 32, 0x20_0000_0000);
        assert(div_spec(32, 0x20_0000_0000) == 1) by {
            assert(32 * ONE == 1 * 0x20_0000_0000) by (nonlinear_arith)
                requires
                    ONE == 0x1_0000_0000,
            ;
        }
        lemma_mul_shift(a - ONE, c);
        lemma_mul_shift(a, c);
        assert(a - ONE + ONE == a);
        assert(a + ONE == (a - ONE) + ONE + ONE);
        let m = mul_spec(a, c);
        assert(-a < m < a) by {
            assert(a * c >= (1 - a) * ONE) by (nonlinear_arith)
                requires
                    0x0800_0000 <= a,
                    -ONE + 32 <= c,
                    ONE == 0x1_0000_0000,
            ;
            assert(a * c <= (a - 1) * ONE + (ONE - 1)) by (nonlinear_arith)
                requires
                    0x0800_0000 <= a,
                    c <= ONE - 32,
                    ONE == 0x1_0000_0000,
            ;
            vstd::arithmetic::div_mod::lemma_div_is_ordered((1 - a) * ONE, a * c, ONE as int);
            vstd::arithmetic::div_mod::lemma_div_is_ordered(
                a * c,
                (a - 1) * ONE + (ONE - 1),
                ONE as int,
            );
            vstd::arithmetic::div_mod::lemma_fundamental_div_mod_converse(
                (1 - a) * ONE,
                ONE as int,
                1 - a,
                0,
            );
            vstd::arithmetic::div_mod::lemma_fundamental_div_mod_converse(
                (a - 1) * ONE + (ONE - 1),
                ONE as int,
                a - 1,
                ONE - 1,
            );
        }
    }

    /// The coefficients of the peak shape.
    pub fn peak_filter_params(&self, sample_rate: i64) -> (k: FilterCoeffs)
        requires
            self.valid(sample_rate),
        ensures
            k@ == self.peak_spec(sample_rate),
            k.wf(),
    {
        let w: i64 = self.get_w(sample_rate);
        let alpha: i64 = self.get_alpha(w);
        let a: i64 = self.get_a();
        let c: i64 = cos(w);
        proof {
            self.lemma_terms_range(sample_rate);
            self.lemma_peak_range(sample_rate);
        }
        let d: i64 = divide(alpha, a);
        let m: i64 = multiply(alpha, a);
        FilterCoeffs { a0: ONE + d, a1: -2 * c, a2: ONE - d, b0: ONE + m, b1: -2 * c, b2: ONE - m }
    }

    /// The coefficients of the high-pass shape.
    pub fn hpf_filter_params(&self, sample_rate: i64) -> (k: FilterCoeffs)
        requires
            self.valid(sample_rate),
        ensures
            k@ == self.hpf_spec(sample_rate),
            k.wf(),
    {
        let w: i64 = self.get_w(sample_rate);
        let alpha: i64 = self.get_alpha(w);
        let c: i64 = cos(w);
        proof {
            self.lemma_terms_range(sample_rate);
        }
        let h: i64 = (ONE + c) / 2;
        FilterCoeffs { a0: ONE + alpha, a1: -2 * c, a2: ONE - alpha, b0: h, b1: -(ONE + c), b2: h }
    }

    /// The coefficients of the low-pass shape.
    pub fn lpf_filter_params(&self, sample_rate: i64) -> (k: FilterCoeffs)
        requires
            self.valid(sample_rate),
        ensures
            k@ == self.lpf_spec(sample_rate),
            k.wf(),
    {
        let w: i64 = self.get_w(sample_rate);
        let alpha: i64 = self.get_alpha(w);
        let c: i64 = cos(w);
        proof {
            self.lemma_terms_range(sample_rate);
        }
        let h: i64 = (ONE - c) / 2;
        FilterCoeffs { a0: ONE + alpha, a1: -2 * c, a2: ONE - alpha, b0: h, b1: ONE - c, b2: h }
    }

    /// The coefficients of the low-shelf shape.
    pub fn ls_filter_params(&self, sample_rate: i64) -> (k: FilterCoeffs)
        requires
            self.valid(sample_rate),
        ensures
            k@ == self.ls_spec(sample_rate),
            k.wf(),
    {
        let w: i64 = self.get_w(sample_rate);
        let a: i64 = self.get_a();
        let alpha: i64 = self.get_alpha(w);
        let c: i64 = cos(w);
        proof {
            self.lemma_terms_range(sample_rate);
            self.lemma_shelf_range(sample_rate);
        }
        let s: i64 = 2 * sqrt(multiply(a, alpha));
        let minus: i64 = multiply(a - ONE, c);
        let plus: i64 = multiply(a + ONE, c);
        FilterCoeffs {
            a0: (a + ONE) + minus + s,
            a1: -2 * ((a - ONE) + plus),
            a2: (a + ONE) + minus - s,
            b0: multiply(a, (a + ONE) - minus + s),
            b1: multiply(2 * a, (a - ONE) - plus),
            b2: multiply(a, (a + ONE) - minus - s),
        }
    }

    /// The coefficients of the high-shelf shape.
    pub fn hs_filter_params(&self, sample_rate: i64) -> (k: FilterCoeffs)
        requires
            self.valid(sample_rate),
        ensures
            k@ == self.hs_spec(sample_rate),
            k.wf(),
    {
        let w: i64 = self.get_w(sample_rate);
        let a: i64 = self.get_a();
        let alpha: i64 = self.get_alpha(w);
        let c: i64 = cos(w);
        proof {
            self.lemma_terms_range(sample_rate);
            self.lemma_shelf_range(sample_rate);
        }
        let s: i64 = 2 * sqrt(multiply(a, alpha));
        let minus: i64 = multiply(a - ONE, c);
        let plus: i64 = multiply(a + ONE, c);
        FilterCoeffs {
            a0: (a + ONE) - minus + s,
            a1: 2 * ((a - ONE) - plus),
            a2: (a + ONE) - minus - s,
            b0: multiply(a, (a + ONE) + minus + s),
            b1: multiply(-2 * a, (a - ONE) + plus),
            b2: multiply(a, (a + ONE) + minus - s),
        }
    }

    /// The coefficients of the band's shape at the sample rate
    /// `sample_rate`.
    pub fn filter_params(&self, sample_rate: i64) -> (k: FilterCoeffs)
        requires
            self.valid(sample_rate),
        ensures
            k@ == self.coeffs_spec(sample_rate),
            k.wf(),
            k.a0 > 0,
    {
        match self.filter_type {
            FilterTypes::PEAK => self.peak_filter_params(sample_rate),
            FilterTypes::HPF => self.hpf_filter_params(sample_rate),
            FilterTypes::LPF => self.lpf_filter_params(sample_rate),
            FilterTypes::HS => self.hs_filter_params(sample_rate),
            FilterTypes::LS => self.ls_filter_params(sample_rate),
        }
    }
}

/// Adding 1.0 to one factor adds the other factor to the product.
proof fn lemma_mul_shift(x: int, c: int)
    ensures
        mul_spec(x + ONE, c) == mul_spec(x, c) + c,
{
    assert((x + ONE) * c == (ONE as int) * c + x * c) by (nonlinear_arith);
    vstd::arithmetic::div_mod::lemma_fundamental_div_mod(x * c, ONE as int);
    vstd::arithmetic::div_mod::lemma_mod_bound(x * c, ONE as int);
    vstd::arithmetic::div_mod::lemma_fundamental_div_mod_converse(
        (x + ONE) * c,
        ONE as int,
        (x * c) / (ONE as int) + c,
        (x * c) % (ONE as int),
    );
}

} // verus!
