//! The stream processor: per-channel history and the direct-form-I recurrence.
use crate::band::{BandParams, FilterCoeffs, FilterTypes, DEFAULT_Q};
use crate::fixed::{floor_div, ONE};
use vstd::prelude::*;

verus! {

/// `v` brought into the range of an `i64`.
pub open spec fn saturate(v: int) -> i64 {
    if v < i64::MIN {
        i64::MIN
    } else if v > i64::MAX {
        i64::MAX
    } else {
        v as i64
    }
}

/// The last two inputs and the last two outputs of one channel.
#[derive(Clone, Copy, Debug, PartialEq, Eq, Structural)]
pub struct ChannelHistory {
    /// The input one frame ago.
    pub x1: i64,
    /// The input two frames ago.
    pub x2: i64,
    /// The output one frame ago.
    pub y1: i64,
    /// The output two frames ago.
    pub y2: i64,
}

impl ChannelHistory {
    /// The history of a channel that has seen only silence.
    pub open spec fn zero() -> ChannelHistory {
        ChannelHistory { x1: 0, x2: 0, y1: 0, y2: 0 }
    }

    /// The numerator of the recurrence for the input `x0`.
    pub open spec fn numerator(self, k: FilterCoeffs, x0: i64) -> int {
        k.b0 * x0 + k.b1 * self.x1 + k.b2 * self.x2 - k.a1 * self.y1 - k.a2 * self.y2
    }

    /// The output for the input `x0`: the numerator over `a0`, rounded down
    /// and saturated.
    pub open spec fn output(self, k: FilterCoeffs, x0: i64) -> i64 {
        saturate(self.numerator(k, x0) / (k.a0 as int))
    }

    /// The history after the input `x0` has been filtered.
    pub open spec fn advance(self, k: FilterCoeffs, x0: i64) -> ChannelHistory {
        ChannelHistory { x1: x0, x2: self.x1, y1: self.output(k, x0), y2: self.y1 }
    }

    /// The history after the inputs `xs` have been filtered in order.
    pub open spec fn after(self, k: FilterCoeffs, xs: Seq<i64>) -> ChannelHistory
        decreases xs.len(),
    {
        if xs.len() == 0 {
            self
        } else {
            self.after(k, xs.drop_last()).advance(k, xs.last())
        }
    }

    /// The outputs for the inputs `xs`, filtered in order from this history.
    pub open spec fn response(self, k: FilterCoeffs, xs: Seq<i64>) -> Seq<i64> {
        Seq::new(xs.len(), |n: int| self.after(k, xs.take(n)).output(k, xs[n]))
    }

    /// A history of silence.
    pub fn new() -> (h: ChannelHistory)
        ensures
            h == ChannelHistory::zero(),
    {
        ChannelHistory { x1: 0, x2: 0, y1: 0, y2: 0 }
    }

    /// Filters one sample and records it.
    pub fn tick(&mut self, k: &FilterCoeffs, x0: i64) -> (y: i64)
        requires
            k.wf(),
        ensures
            y == old(self).output(*k, x0),
            *final(self) == old(self).advance(*k, x0),
    {
        proof {
            lemma_term_bound(k.b0 as int, x0 as int);
            lemma_term_bound(k.b1 as int, self.x1 as int);
            lemma_term_bound(k.b2 as int, self.x2 as int);
            lemma_term_bound(k.a1 as int, self.y1 as int);
            lemma_term_bound(k.a2 as int, self.y2 as int);
        }
        let t0: i128 = (k.b0 as i128) * (x0 as i128);
        let t1: i128 = (k.b1 as i128) * (self.x1 as i128);
        let t2: i128 = (k.b2 as i128) * (self.x2 as i128);
        let t3: i128 = (k.a1 as i128) * (self.y1 as i128);
        let t4: i128 = (k.a2 as i128) * (self.y2 as i128);
        let acc: i128 = t0 + t1 + t2 - t3 - t4;
        let q: i128 = floor_div(acc, k.a0 as i128);
        let y: i64 = if q < i64::MIN as i128 {
            i64::MIN
        } else if q > i64::MAX as i128 {
            i64::MAX
        } else {
            q as i64
        };
        self.x2 = self.x1;
        self.x1 = x0;
        self.y2 = self.y1;
        self.y1 = y;
        y
    }

    /// Filters `samples` in place, in order, and records them.
    pub fn run(&mut self, k: &FilterCoeffs, samples: &mut Vec<i64>)
        requires
            k.wf(),
        ensures
            final(samples)@ == old(self).response(*k, old(samples)@),
            *final(self) == old(self).after(*k, old(samples)@),
    {
        let n: usize = samples.len();
        let mut i: usize = 0;
        while i < n
            invariant
                i <= n,
                samples.len() == n,
                old(samples).len() == n,
                k.wf(),
                *self == old(self).after(*k, old(samples)@.take(i as int)),
                forall|j: int|
                    0 <= j < i ==> samples[j] == old(self).after(*k, old(samples)@.take(j)).output(
                        *k,
                        old(samples)[j],
                    ),
                forall|j: int| i <= j < n ==> samples[j] == old(samples)[j],
            decreases n - i,
        {
            let x0: i64 = samples[i];
            let y: i64 = self.tick(k, x0);
            samples[i] = y;
            proof {
                let xs = old(samples)@;
                assert(xs.take(i as int + 1).drop_last() =~= xs.take(i as int));
            }
            i += 1;
        }
        proof {
            let xs = old(samples)@;
            assert(xs.take(n as int) =~= xs);
            assert(samples@ =~= old(self).response(*k, xs));
        }
    }
}

/// The frequency of the band of new parameters: 400 Hz.
pub const DEFAULT_FREQUENCY: i64 = 0x190_0000_0000;

/// The parameters of the equaliser as its host keeps them: the size of the
/// editor window in pixels and the band.
#[derive(Clone, Copy, Debug, PartialEq, Eq, Structural)]
pub struct EqualiserParams {
    /// The width of the editor window.
    pub editor_width: u32,
    /// The height of the editor window.
    pub editor_height: u32,
    /// The band.
    pub band: BandParams,
}

impl Default for EqualiserParams {
    /// A window of 400 by 400 pixels and a new band at 400 Hz.
    fn default() -> (params: EqualiserParams)
        ensures
            params.editor_width == 400,
            params.editor_height == 400,
            params.band == (BandParams {
                frequency: DEFAULT_FREQUENCY,
                gain: ONE,
                q: DEFAULT_Q,
                filter_type: FilterTypes::PEAK,
            }),
    {
        EqualiserParams {
            editor_width: 400,
            editor_height: 400,
            band: BandParams::new(DEFAULT_FREQUENCY),
        }
    }
}

/// What an equaliser holds, as contracts see it.
pub struct EqualiserView {
    /// The coefficients that the last block was filtered with.
    pub coeffs: FilterCoeffs,
    /// The history of each channel.
    pub history: Seq<ChannelHistory>,
}

/// The stream processor: the current coefficients and one history per
/// channel, kept from block to block.
pub struct Equaliser {
    coeffs: FilterCoeffs,
    history: Vec<ChannelHistory>,
}

impl View for Equaliser {
    type V = EqualiserView;

    closed spec fn view(&self) -> EqualiserView {
        EqualiserView { coeffs: self.coeffs, history: self.history@ }
    }
}

impl Default for Equaliser {
    /// An equaliser without channels, holding the coefficients of the
    /// identity filter.
    fn default() -> (eq: Equaliser)
        ensures
            eq@.coeffs == FilterCoeffs::identity(),
            eq@.history == Seq::<ChannelHistory>::empty(),
    {
        Equaliser { coeffs: FilterCoeffs::unit(), history: Vec::new() }
    }
}

impl Equaliser {
    /// An equaliser for `channels` channels, each with a history of silence,
    /// holding the coefficients of the identity filter.
    pub fn new(channels: usize) -> (eq: Equaliser)
        ensures
            eq@.coeffs == FilterCoeffs::identity(),
            eq@.history == Seq::new(channels as nat, |c: int| ChannelHistory::zero()),
    {
        let mut eq = Equaliser { coeffs: FilterCoeffs::unit(), history: Vec::new() };
        eq.initialize(channels);
        eq
    }

    /// Establishes the number of channels and resets every history to
    /// silence. Always succeeds.
    pub fn initialize(&mut self, channels: usize) -> (ready: bool)
        ensures
            ready,
            final(self)@.coeffs == old(self)@.coeffs,
            final(self)@.history == Seq::new(channels as nat, |c: int| ChannelHistory::zero()),
    {
        self.history.clear();
        let mut c: usize = 0;
        while c < channels
            invariant
                c <= channels,
                self.coeffs == old(self).coeffs,
                self.history@ == Seq::new(c as nat, |c: int| ChannelHistory::zero()),
            decreases channels - c,
        {
            self.history.push(ChannelHistory::new());
            proof {
                assert(self.history@ =~= Seq::new((c + 1) as nat, |c: int| ChannelHistory::zero()));
            }
            c += 1;
        }
        true
    }

    /// The number of channels that were established.
    pub fn channels(&self) -> (n: usize)
        ensures
            n == self@.history.len(),
    {
        self.history.len()
    }

    /// The coefficients that the last block was filtered with.
    pub fn coeffs(&self) -> (k: FilterCoeffs)
        ensures
            k == self@.coeffs,
    {
        self.coeffs
    }

    /// The history of channel `c`.
    pub fn history(&self, c: usize) -> (h: ChannelHistory)
        requires
            c < self@.history.len(),
        ensures
            h == self@.history[c as int],
    {
        self.history[c]
    }

    /// Filters every channel of `buffer` in place with the band `band` at
    /// the sample rate `sample_rate`.
    ///
    /// The coefficients are designed once, at the start of the call, and
    /// hold for every frame of the block. `buffer[c]` holds the frames of
    /// channel `c` in time order; each channel is filtered from its own
    /// history, which is carried on to the next call.
    pub fn process(&mut self, buffer: &mut Vec<Vec<i64>>, band: &BandParams, sample_rate: i64)
        requires
            band.valid(sample_rate),
            old(buffer).len() == old(self)@.history.len(),
        ensures
            final(self)@.coeffs@ == band.coeffs_spec(sample_rate),
            final(self)@.coeffs.wf(),
            final(self)@.history.len() == old(self)@.history.len(),
            final(buffer).len() == old(buffer).len(),
            forall|c: int|
                0 <= c < old(buffer).len() ==> (#[trigger] final(buffer)[c])@ == old(
                    self,
                )@.history[c].response(final(self)@.coeffs, old(buffer)[c]@),
            forall|c: int|
                0 <= c < old(buffer).len() ==> #[trigger] final(self)@.history[c] == old(
                    self,
                )@.history[c].after(final(self)@.coeffs, old(buffer)[c]@),
    {
        let k: FilterCoeffs = band.filter_params(sample_rate);
        self.process_with(buffer, k);
    }

    /// Filters an interleaved buffer in place with the band `band` at the
    /// sample rate `sample_rate`.
    ///
    /// `samples` holds the stream frame by frame, each frame with one sample
    /// per channel. The frames are taken in time order and, within a frame,
    /// the channels in turn; each channel is filtered from its own history,
    /// which is carried on to the next call.
    pub fn process_interleaved(
        &mut self,
        samples: &mut Vec<i64>,
        band: &BandParams,
        sample_rate: i64,
    )
        requires
            band.valid(sample_rate),
            old(self)@.history.len() == 0 ==> old(samples).len() == 0,
            old(self)@.history.len() > 0 ==> old(samples).len() as int % (old(
                self,
            )@.history.len() as int) == 0,
        ensures
            final(self)@.coeffs@ == band.coeffs_spec(sample_rate),
            final(self)@.coeffs.wf(),
            final(self)@.history.len() == old(self)@.history.len(),
            final(samples).len() == old(samples).len(),
            forall|c: int|
                0 <= c < old(self)@.history.len() ==> #[trigger] channel_of(
                    final(samples)@,
                    old(self)@.history.len() as int,
                    c,
                ) == old(self)@.history[c].response(
                    final(self)@.coeffs,
                    channel_of(old(samples)@, old(self)@.history.len() as int, c),
                ),
            forall|c: int|
                0 <= c < old(self)@.history.len() ==> #[trigger] final(self)@.history[c] == old(
                    self,
                )@.history[c].after(
                    final(self)@.coeffs,
                    channel_of(old(samples)@, old(self)@.history.len() as int, c),
                ),
    {
        let k: FilterCoeffs = band.filter_params(sample_rate);
        self.coeffs = k;
        let channels: usize = self.history.len();
        if channels == 0 {
            return ;
        }
        let frames: usize = samples.len() / channels;
        let ghost width = channels as int;
        let ghost source = old(samples)@;
        let ghost start = old(self).history@;
        proof {
            vstd::arithmetic::div_mod::lemma_fundamental_div_mod(source.len() as int, width);
            assert(frames * channels == source.len()) by (nonlinear_arith)
                requires
                    source.len() == width * (source.len() as int / width) + (source.len() as int
                        % width),
                    source.len() as int % width == 0,
                    frames == source.len() as int / width,
                    channels == width,
            ;
            assert forall|c: int| 0 <= c < width implies (#[trigger] channel_of(
                source,
                width,
                c,
            )).take(0) =~= Seq::<i64>::empty() by {}
        }
        let mut n: usize = 0;
        while n < frames
            invariant
                n <= frames,
                channels > 0,
                width == channels,
                samples.len() == source.len(),
                frames * channels == source.len(),
                frames == source.len() as int / width,
                k.wf(),
                self.coeffs == k,
                self.history.len() == channels,
                start.len() == channels,
                forall|c: int|
                    0 <= c < width ==> #[trigger] self.history[c] == start[c].after(
                        k,
                        channel_of(source, width, c).take(n as int),
                    ),
                forall|m: int, c: int|
                    0 <= m < n && 0 <= c < width ==> #[trigger] frame_at(samples@, width, c, m)
                        == start[c].after(k, channel_of(source, width, c).take(m)).output(
                        k,
                        frame_at(source, width, c, m),
                    ),
                forall|m: int, c: int|
                    n <= m < frames && 0 <= c < width ==> #[trigger] frame_at(
                        samples@,
                        width,
                        c,
                        m,
                    ) == frame_at(source, width, c, m),
            decreases frames - n,
        {
            let mut c: usize = 0;
            while c < channels
                invariant
                    n < frames,
                    c <= channels,
                    channels > 0,
                    width == channels,
                    samples.len() == source.len(),
                    frames * channels == source.len(),
                    frames == source.len() as int / width,
                    k.wf(),
                    self.coeffs == k,
                    self.history.len() == channels,
                    start.len() == channels,
                    forall|d: int|
                        0 <= d < c ==> #[trigger] self.history[d] == start[d].after(
                            k,
                            channel_of(source, width, d).take(n as int + 1),
                        ),
                    forall|d: int|
                        c <= d < width ==> #[trigger] self.history[d] == start[d].after(
                            k,
                            channel_of(source, width, d).take(n as int),
                        ),
                    forall|m: int, d: int|
                        (0 <= m < n && 0 <= d < width) || (m == n && 0 <= d < c)
                            ==> #[trigger] frame_at(samples@, width, d, m) == start[d].after(
                            k,
                            channel_of(source, width, d).take(m),
                        ).output(k, frame_at(source, width, d, m)),
                    forall|m: int, d: int|
                        (n < m < frames && 0 <= d < width) || (m == n && c <= d < width)
                            ==> #[trigger] frame_at(samples@, width, d, m) == frame_at(
                            source,
                            width,
                            d,
                            m,
                        ),
                decreases channels - c,
            {
                proof {
                    lemma_place_in_range(width, frames as int, c as int, n as int);
                }
                let place: usize = n * channels + c;
                let ghost before = samples@;
                let x0: i64 = samples[place];
                assert(x0 == frame_at(before, width, c as int, n as int));
                let y: i64 = self.history[c].tick(&k, x0);
                samples[place] = y;
                proof {
                    let lane = channel_of(source, width, c as int);
                    assert(lane.take(n as int + 1).drop_last() =~= lane.take(n as int));
                    assert(lane.take(n as int + 1).last() == frame_at(source, width, c as int, n as int));
                    assert(frame_at(samples@, width, c as int, n as int) == y);
                    assert forall|m: int, d: int|
                        0 <= m < frames && 0 <= d < width && !(m == n && d == c) implies #[trigger] frame_at(
                        samples@,
                        width,
                        d,
                        m,
                    ) == frame_at(before, width, d, m) by {
                        lemma_place_in_range(width, frames as int, d, m);
                        if m * width + d == n * width + c {
                            lemma_place_is_unique(width, m, d, n as int, c as int);
                        }
                    }
                }
                c += 1;
            }
            n += 1;
        }
        proof {
            assert forall|c: int| 0 <= c < width implies #[trigger] channel_of(samples@, width, c)
                == start[c].response(k, channel_of(source, width, c)) by {
                let lane = channel_of(source, width, c);
                let got = channel_of(samples@, width, c);
                let want = start[c].response(k, lane);
                assert forall|m: int| 0 <= m < got.len() implies got[m] == want[m] by {
                    assert(got[m] == frame_at(samples@, width, c, m));
                }
                assert(got =~= want);
            }
            assert forall|c: int| 0 <= c < width implies #[trigger] self.history[c]
                == start[c].after(k, channel_of(source, width, c)) by {
                let lane = channel_of(source, width, c);
                assert(lane.take(frames as int) =~= lane);
            }
        }
    }

    /// Filters every channel of `buffer` in place with the coefficients `k`.
    ///
    /// `buffer[c]` holds the frames of channel `c` in time order. Each channel
    /// is filtered from its own history and by its own inputs alone, and its
    /// history is carried on to the next call.
    pub fn process_with(&mut self, buffer: &mut Vec<Vec<i64>>, k: FilterCoeffs)
        requires
            k.wf(),
            old(buffer).len() == old(self)@.history.len(),
        ensures
            final(self)@.coeffs == k,
            final(self)@.history.len() == old(self)@.history.len(),
            final(buffer).len() == old(buffer).len(),
            forall|c: int|
                0 <= c < old(buffer).len() ==> (#[trigger] final(buffer)[c])@ == old(
                    self,
                )@.history[c].response(k, old(buffer)[c]@),
            forall|c: int|
                0 <= c < old(buffer).len() ==> #[trigger] final(self)@.history[c] == old(
                    self,
                )@.history[c].after(k, old(buffer)[c]@),
    {
        self.coeffs = k;
        let n: usize = buffer.len();
        let mut c: usize = 0;
        while c < n
            invariant
                c <= n,
                k.wf(),
                self.coeffs == k,
                buffer.len() == n,
                old(buffer).len() == n,
                self.history.len() == n,
                old(self).history.len() == n,
                forall|j: int|
                    0 <= j < c ==> (#[trigger] buffer[j])@ == old(self).history[j].response(
                        k,
                        old(buffer)[j]@,
                    ),
                forall|j: int|
                    0 <= j < c ==> #[trigger] self.history[j] == old(self).history[j].after(
                        k,
                        old(buffer)[j]@,
                    ),
                forall|j: int| c <= j < n ==> #[trigger] buffer[j] == old(buffer)[j],
                forall|j: int| c <= j < n ==> #[trigger] self.history[j] == old(self).history[j],
            decreases n - c,
        {
            self.history[c].run(&k, &mut buffer[c]);
            c += 1;
        }
    }
}

/// Frame `n` of channel `c` in a buffer that holds `channels` channels
/// frame by frame.
pub open spec fn frame_at(samples: Seq<i64>, channels: int, c: int, n: int) -> i64 {
    samples[n * channels + c]
}

/// The frames of channel `c` in a buffer that holds `channels` channels
/// frame by frame.
pub open spec fn channel_of(samples: Seq<i64>, channels: int, c: int) -> Seq<i64> {
    Seq::new((samples.len() as int / channels) as nat, |n: int| frame_at(samples, channels, c, n))
}

/// A place in an interleaved buffer belongs to one frame and one channel
/// only.
proof fn lemma_place_is_unique(channels: int, m: int, c: int, n: int, d: int)
    requires
        0 <= c < channels,
        0 <= d < channels,
        m * channels + c == n * channels + d,
    ensures
        m == n,
        c == d,
{
    assert(m == n) by (nonlinear_arith)
        requires
            0 <= c < channels,
            0 <= d < channels,
            m * channels + c == n * channels + d,
    {
        if m < n {
            assert((m + 1) * channels <= n * channels);
        }
        if n < m {
            assert((n + 1) * channels <= m * channels);
        }
    }
}

/// A frame below the frame count lies inside the buffer.
proof fn lemma_place_in_range(channels: int, frames: int, c: int, n: int)
    requires
        0 <= c < channels,
        0 <= n < frames,
    ensures
        0 <= n * channels + c < frames * channels,
{
    assert(0 <= n * channels + c < frames * channels) by (nonlinear_arith)
        requires
            0 <= c < channels,
            0 <= n < frames,
    {
        assert((n + 1) * channels <= frames * channels);
    }
}

/// Filtering one block and then a second gives the outputs and the final
/// history of filtering both as a single block.
pub proof fn law_block_splitting(h: ChannelHistory, k: FilterCoeffs, xs: Seq<i64>, ys: Seq<i64>)
    ensures
        h.after(k, xs + ys) == h.after(k, xs).after(k, ys),
        h.response(k, xs + ys) == h.response(k, xs) + h.after(k, xs).response(k, ys),
{
    lemma_after_concat(h, k, xs, ys);
    let whole = h.response(k, xs + ys);
    let parts = h.response(k, xs) + h.after(k, xs).response(k, ys);
    assert forall|n: int| 0 <= n < whole.len() implies whole[n] == parts[n] by {
        if n < xs.len() {
            assert((xs + ys).take(n) =~= xs.take(n));
        } else {
            let m = n - xs.len();
            assert((xs + ys).take(n) =~= xs + ys.take(m));
            lemma_after_concat(h, k, xs, ys.take(m));
        }
    }
    assert(whole =~= parts);
}

/// The history after two blocks is the history after the second, started
/// from the history after the first.
proof fn lemma_after_concat(h: ChannelHistory, k: FilterCoeffs, xs: Seq<i64>, ys: Seq<i64>)
    ensures
        h.after(k, xs + ys) == h.after(k, xs).after(k, ys),
    decreases ys.len(),
{
    if ys.len() == 0 {
        assert(xs + ys =~= xs);
    } else {
        assert((xs + ys).drop_last() =~= xs + ys.drop_last());
        lemma_after_concat(h, k, xs, ys.drop_last());
    }
}

/// A channel that starts from silence and is fed silence puts out silence
/// and keeps a history of silence.
pub proof fn law_silence_stays_silent(k: FilterCoeffs, n: nat)
    requires
        k.a0 > 0,
    ensures
        ChannelHistory::zero().response(k, Seq::new(n, |i: int| 0i64)) == Seq::new(
            n,
            |i: int| 0i64,
        ),
        ChannelHistory::zero().after(k, Seq::new(n, |i: int| 0i64)) == ChannelHistory::zero(),
{
    let silence = Seq::new(n, |i: int| 0i64);
    let z = ChannelHistory::zero();
    assert forall|m: int| 0 <= m <= n implies z.after(k, silence.take(m)) == z by {
        lemma_silence_keeps_zero(k, silence.take(m));
    }
    assert(silence.take(n as int) =~= silence);
    lemma_zero_output(k);
    assert(z.response(k, silence) =~= silence);
}

/// From a history of silence, the input 0 gives the output 0.
proof fn lemma_zero_output(k: FilterCoeffs)
    requires
        k.a0 > 0,
    ensures
        ChannelHistory::zero().output(k, 0) == 0,
        ChannelHistory::zero().advance(k, 0) == ChannelHistory::zero(),
{
    let z = ChannelHistory::zero();
    assert(z.numerator(k, 0) == 0) by (nonlinear_arith)
        requires
            z.x1 == 0,
            z.x2 == 0,
            z.y1 == 0,
            z.y2 == 0,
            z.numerator(k, 0) == k.b0 * 0i64 + k.b1 * z.x1 + k.b2 * z.x2 - k.a1 * z.y1 - k.a2
                * z.y2,
    ;
    assert(0int / (k.a0 as int) == 0) by (nonlinear_arith)
        requires
            k.a0 > 0,
    ;
}

/// Silence leaves a history of silence as it is.
proof fn lemma_silence_keeps_zero(k: FilterCoeffs, xs: Seq<i64>)
    requires
        k.a0 > 0,
        forall|i: int| 0 <= i < xs.len() ==> xs[i] == 0,
    ensures
        ChannelHistory::zero().after(k, xs) == ChannelHistory::zero(),
    decreases xs.len(),
{
    if xs.len() > 0 {
        lemma_silence_keeps_zero(k, xs.drop_last());
        lemma_zero_output(k);
    }
}

/// The history holds the same samples on its input and its output side.
pub open spec fn transparent(h: ChannelHistory) -> bool {
    h.x1 == h.y1 && h.x2 == h.y2
}

/// Where the numerator and the denominator of the transfer function are the
/// same polynomial, the filter hands every input through unchanged.
pub proof fn law_pass_through(h: ChannelHistory, k: FilterCoeffs, xs: Seq<i64>)
    requires
        k.a0 > 0,
        k.b0 == k.a0,
        k.b1 == k.a1,
        k.b2 == k.a2,
        transparent(h),
    ensures
        h.response(k, xs) == xs,
        transparent(h.after(k, xs)),
{
    assert forall|n: int| 0 <= n < xs.len() implies h.after(k, xs.take(n)).output(k, xs[n])
        == xs[n] by {
        lemma_transparent_after(h, k, xs.take(n));
        lemma_transparent_step(h.after(k, xs.take(n)), k, xs[n]);
    }
    lemma_transparent_after(h, k, xs);
    assert(h.response(k, xs) =~= xs);
}

/// A peak with unity gain hands every input through unchanged, whatever
/// its frequency and quality factor.
pub proof fn law_unity_peak_is_transparent(
    band: BandParams,
    sample_rate: i64,
    k: FilterCoeffs,
    h: ChannelHistory,
    xs: Seq<i64>,
)
    requires
        band.valid(sample_rate),
        band.filter_type == FilterTypes::PEAK,
        band.gain == ONE,
        k@ == band.coeffs_spec(sample_rate),
        transparent(h),
    ensures
        h.response(k, xs) == xs,
{
    band.law_unity_peak(sample_rate);
    band.law_a0_positive(sample_rate);
    law_pass_through(h, k, xs);
}

/// One step of a filter with equal numerator and denominator on a
/// transparent history.
proof fn lemma_transparent_step(h: ChannelHistory, k: FilterCoeffs, x0: i64)
    requires
        k.a0 > 0,
        k.b0 == k.a0,
        k.b1 == k.a1,
        k.b2 == k.a2,
        transparent(h),
    ensures
        h.output(k, x0) == x0,
        transparent(h.advance(k, x0)),
{
    let a0 = k.a0 as int;
    assert(h.numerator(k, x0) == a0 * x0) by (nonlinear_arith)
        requires
            h.numerator(k, x0) == k.b0 * x0 + k.b1 * h.x1 + k.b2 * h.x2 - k.a1 * h.y1 - k.a2
                * h.y2,
            k.b0 == a0,
            k.b1 == k.a1,
            k.b2 == k.a2,
            h.x1 == h.y1,
            h.x2 == h.y2,
    ;
    vstd::arithmetic::div_mod::lemma_div_multiples_vanish(x0 as int, a0);
}

/// A filter with equal numerator and denominator keeps a transparent
/// history transparent.
proof fn lemma_transparent_after(h: ChannelHistory, k: FilterCoeffs, xs: Seq<i64>)
    requires
        k.a0 > 0,
        k.b0 == k.a0,
        k.b1 == k.a1,
        k.b2 == k.a2,
        transparent(h),
    ensures
        transparent(h.after(k, xs)),
    decreases xs.len(),
{
    if xs.len() > 0 {
        lemma_transparent_after(h, k, xs.drop_last());
        lemma_transparent_step(h.after(k, xs.drop_last()), k, xs.last());
    }
}

/// One term of the numerator stays well inside the accumulator.
proof fn lemma_term_bound(c: int, x: int)
    requires
        -0x1000_0000_0000_0000 <= c <= 0x1000_0000_0000_0000,
        -0x8000_0000_0000_0000 <= x <= 0x8000_0000_0000_0000,
    ensures
        -0x0800_0000_0000_0000_0000_0000_0000_0000 <= c * x
            <= 0x0800_0000_0000_0000_0000_0000_0000_0000,
{
    assert(-0x0800_0000_0000_0000_0000_0000_0000_0000 <= c * x
        <= 0x0800_0000_0000_0000_0000_0000_0000_0000) by (nonlinear_arith)
        requires
            -0x1000_0000_0000_0000 <= c <= 0x1000_0000_0000_0000,
            -0x8000_0000_0000_0000 <= x <= 0x8000_0000_0000_0000,
    ;
}

} // verus!
