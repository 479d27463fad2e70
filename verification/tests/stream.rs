use single_band_eq::fixed::ONE;
use single_band_eq::{
    BandParams, ChannelHistory, Equaliser, EqualiserParams, FilterCoeffs, FilterTypes,
};

fn fx(x: f64) -> i64 {
    (x * ONE as f64).round() as i64
}

fn to_real(raw: i64) -> f64 {
    raw as f64 / ONE as f64
}

fn band(shape: FilterTypes, frequency: f64, q: f64, gain: f64) -> BandParams {
    BandParams { frequency: fx(frequency), gain: fx(gain), q: fx(q), filter_type: shape }
}

fn impulse(frames: usize) -> Vec<i64> {
    let mut xs = vec![0i64; frames];
    xs[0] = ONE;
    xs
}

/// A repeatable test signal between -1 and 1.
fn signal(frames: usize, seed: u64) -> Vec<i64> {
    let mut state = seed;
    let mut xs = Vec::new();
    for _ in 0..frames {
        state = state.wrapping_mul(6364136223846793005).wrapping_add(1442695040888963407);
        let unit = (state >> 11) as f64 / (1u64 << 53) as f64;
        xs.push(fx(2.0 * unit - 1.0));
    }
    xs
}

/// The recurrence in double precision from a history of silence.
fn reference_run(a: [f64; 3], b: [f64; 3], xs: &[f64]) -> Vec<f64> {
    let (mut x1, mut x2, mut y1, mut y2) = (0.0, 0.0, 0.0, 0.0);
    let mut ys = Vec::new();
    for &x0 in xs {
        let y = (b[0] * x0 + b[1] * x1 + b[2] * x2 - a[1] * y1 - a[2] * y2) / a[0];
        x2 = x1;
        x1 = x0;
        y2 = y1;
        y1 = y;
        ys.push(y);
    }
    ys
}

#[test]
fn peak_impulse_response_starts_as_computed_by_hand() {
    let mut eq = Equaliser::new(1);
    let mut buffer = vec![impulse(8)];
    eq.process(&mut buffer, &band(FilterTypes::PEAK, 1000.0, 1.0, 2.0), fx(44100.0));
    assert!((to_real(buffer[0][0]) - 1.0478027514602026).abs() < 1e-5);
    assert!((to_real(buffer[0][1]) - 0.0901128792029971).abs() < 1e-5);
    assert!((to_real(buffer[0][2]) - 0.07883632667272057).abs() < 1e-5);
    assert!((to_real(buffer[0][3]) - 0.06711662291542252).abs() < 1e-5);
}

#[test]
fn peak_impulse_response_follows_the_formulas() {
    let rate: f64 = 44100.0;
    let w = 2.0 * std::f64::consts::PI * 1000.0 / rate;
    let alpha = w.sin() / 2.0;
    let a = 2.0f64.sqrt();
    let den = [1.0 + alpha / a, -2.0 * w.cos(), 1.0 - alpha / a];
    let num = [1.0 + alpha * a, -2.0 * w.cos(), 1.0 - alpha * a];
    let mut xs = vec![0.0; 64];
    xs[0] = 1.0;
    let expected = reference_run(den, num, &xs);
    let mut eq = Equaliser::new(1);
    let mut buffer = vec![impulse(64)];
    eq.process(&mut buffer, &band(FilterTypes::PEAK, 1000.0, 1.0, 2.0), fx(rate));
    for n in 0..64 {
        assert!((to_real(buffer[0][n]) - expected[n]).abs() < 1e-7);
    }
}

#[test]
fn tick_computes_one_step_of_the_recurrence() {
    let k = FilterCoeffs { a0: 2 * ONE, a1: ONE, a2: -ONE, b0: 4 * ONE, b1: 2 * ONE, b2: 6 * ONE };
    let mut h = ChannelHistory { x1: 3, x2: 5, y1: 7, y2: 11 };
    // (4 * 10 + 2 * 3 + 6 * 5 - 1 * 7 + 1 * 11) / 2 = 40
    let y = h.tick(&k, 10);
    assert_eq!(y, 40);
    assert_eq!(h, ChannelHistory { x1: 10, x2: 3, y1: 40, y2: 7 });
}

#[test]
fn tick_rounds_down_and_saturates() {
    let k = FilterCoeffs { a0: 2, a1: 0, a2: 0, b0: 1, b1: 0, b2: 0 };
    let mut h = ChannelHistory::new();
    assert_eq!(h.tick(&k, 7), 3);
    assert_eq!(h.tick(&k, -7), -4);
    let loud = FilterCoeffs { a0: 1, a1: 0, a2: 0, b0: 4, b1: 0, b2: 0 };
    let mut h = ChannelHistory::new();
    assert_eq!(h.tick(&loud, i64::MAX), i64::MAX);
    assert_eq!(h.y1, i64::MAX);
    assert_eq!(h.tick(&loud, i64::MIN), i64::MIN);
    assert_eq!(h, ChannelHistory { x1: i64::MIN, x2: i64::MAX, y1: i64::MIN, y2: i64::MAX });
}

#[test]
fn run_filters_in_order_and_keeps_the_history() {
    let k = band(FilterTypes::LPF, 2000.0, 0.7, 1.0).filter_params(fx(48000.0));
    let xs = signal(32, 7);
    let mut stepped = ChannelHistory::new();
    let mut expected = Vec::new();
    for &x in &xs {
        expected.push(stepped.tick(&k, x));
    }
    let mut h = ChannelHistory::new();
    let mut samples = xs.clone();
    h.run(&k, &mut samples);
    assert_eq!(samples, expected);
    assert_eq!(h, stepped);
    assert_eq!(h.x1, xs[31]);
    assert_eq!(h.x2, xs[30]);
    assert_eq!(h.y1, samples[31]);
    assert_eq!(h.y2, samples[30]);
    assert_ne!(samples, xs);
}

#[test]
fn splitting_a_block_changes_nothing() {
    for shape in [FilterTypes::PEAK, FilterTypes::HPF, FilterTypes::LPF, FilterTypes::LS, FilterTypes::HS] {
        let b = band(shape, 1500.0, 2.0, 3.0);
        let rate = fx(44100.0);
        let xs = signal(200, 42);
        let mut whole = Equaliser::new(1);
        let mut one = vec![xs.clone()];
        whole.process(&mut one, &b, rate);
        for split in [0usize, 1, 2, 77, 199, 200] {
            let mut parts = Equaliser::new(1);
            let mut first = vec![xs[..split].to_vec()];
            let mut second = vec![xs[split..].to_vec()];
            parts.process(&mut first, &b, rate);
            parts.process(&mut second, &b, rate);
            let mut joined = first[0].clone();
            joined.extend_from_slice(&second[0]);
            assert_eq!(joined, one[0]);
            assert_eq!(parts.history(0), whole.history(0));
        }
    }
}

#[test]
fn history_is_not_reset_between_calls() {
    let b = band(FilterTypes::LPF, 500.0, 0.7, 1.0);
    let rate = fx(44100.0);
    let mut eq = Equaliser::new(1);
    let mut first = vec![impulse(4)];
    eq.process(&mut first, &b, rate);
    let mut second = vec![vec![0i64; 4]];
    eq.process(&mut second, &b, rate);
    // The tail of the impulse response goes on in the second block.
    assert!(second[0].iter().any(|&y| y != 0));
    let mut fresh = Equaliser::new(1);
    let mut silent = vec![vec![0i64; 4]];
    fresh.process(&mut silent, &b, rate);
    assert_eq!(silent[0], vec![0i64; 4]);
}

#[test]
fn channels_do_not_touch_each_other() {
    let b = band(FilterTypes::PEAK, 1000.0, 1.0, 2.0);
    let rate = fx(44100.0);
    let mut eq = Equaliser::new(2);
    let mut buffer = vec![vec![0i64; 64], impulse(64)];
    eq.process(&mut buffer, &b, rate);
    assert_eq!(buffer[0], vec![0i64; 64]);
    assert_eq!(eq.history(0), ChannelHistory { x1: 0, x2: 0, y1: 0, y2: 0 });
    assert_ne!(eq.history(1), ChannelHistory { x1: 0, x2: 0, y1: 0, y2: 0 });
    let mut alone = Equaliser::new(1);
    let mut single = vec![impulse(64)];
    alone.process(&mut single, &b, rate);
    assert_eq!(buffer[1], single[0]);
    assert_eq!(eq.history(1), alone.history(0));
}

#[test]
fn channels_may_differ_in_length() {
    let b = band(FilterTypes::HS, 3000.0, 0.7, 0.5);
    let rate = fx(48000.0);
    let left = signal(10, 1);
    let right = signal(25, 2);
    let mut eq = Equaliser::new(3);
    let mut buffer = vec![left.clone(), Vec::new(), right.clone()];
    eq.process(&mut buffer, &b, rate);
    let k = eq.coeffs();
    let mut h = ChannelHistory::new();
    let mut expected = right.clone();
    h.run(&k, &mut expected);
    assert_eq!(buffer[0].len(), 10);
    assert_eq!(buffer[1].len(), 0);
    assert_eq!(buffer[2], expected);
    assert_eq!(eq.history(1), ChannelHistory::new());
    assert_eq!(eq.history(2), h);
}

#[test]
fn unity_peak_passes_the_signal_through() {
    let rate = fx(44100.0);
    let xs = signal(500, 99);
    for &frequency in &[20.0, 1000.0, 18000.0] {
        for &q in &[0.01, 1.0, 20.0] {
            let mut eq = Equaliser::new(2);
            let mut buffer = vec![xs.clone(), impulse(500)];
            eq.process(&mut buffer, &band(FilterTypes::PEAK, frequency, q, 1.0), rate);
            assert_eq!(buffer[0], xs);
            assert_eq!(buffer[1], impulse(500));
        }
    }
}

#[test]
fn identity_coefficients_pass_the_signal_through() {
    let xs = signal(100, 5);
    let mut eq = Equaliser::new(1);
    let mut buffer = vec![xs.clone()];
    eq.process_with(&mut buffer, FilterCoeffs::unit());
    assert_eq!(buffer[0], xs);
    assert_eq!(eq.coeffs(), FilterCoeffs::unit());
}

#[test]
fn impulse_response_decays_for_every_shape() {
    let rate = fx(44100.0);
    for shape in [FilterTypes::PEAK, FilterTypes::HPF, FilterTypes::LPF, FilterTypes::LS, FilterTypes::HS] {
        for &frequency in &[20.0, 1000.0, 20000.0] {
            for &q in &[0.01, 0.7, 20.0] {
                for &gain in &[0.0316227766, 1.0, 31.6227766] {
                    let mut eq = Equaliser::new(1);
                    let mut buffer = vec![impulse(12000)];
                    eq.process(&mut buffer, &band(shape, frequency, q, gain), rate);
                    let peak = buffer[0].iter().map(|y| y.abs()).max().unwrap();
                    assert!(peak < 64 * ONE);
                    let head = buffer[0][1..2001].iter().map(|y| y.abs()).max().unwrap();
                    let tail = buffer[0][10000..].iter().map(|y| y.abs()).max().unwrap();
                    assert!(
                        tail < head || to_real(tail) < 1e-6,
                        "head {}, tail {} for {:?}",
                        to_real(head),
                        to_real(tail),
                        shape
                    );
                    assert!(tail < peak);
                }
            }
        }
    }
}

#[test]
fn coefficients_change_only_between_blocks() {
    let rate = fx(44100.0);
    let xs = signal(50, 3);
    let first = band(FilterTypes::LPF, 800.0, 0.7, 1.0);
    let second = band(FilterTypes::HPF, 800.0, 0.7, 1.0);
    let mut eq = Equaliser::new(1);
    let mut a = vec![xs[..20].to_vec()];
    eq.process(&mut a, &first, rate);
    assert_eq!(eq.coeffs(), first.filter_params(rate));
    let mut b = vec![xs[20..].to_vec()];
    eq.process(&mut b, &second, rate);
    assert_eq!(eq.coeffs(), second.filter_params(rate));
    let mut h = ChannelHistory::new();
    let mut expected_a = xs[..20].to_vec();
    h.run(&first.filter_params(rate), &mut expected_a);
    let mut expected_b = xs[20..].to_vec();
    h.run(&second.filter_params(rate), &mut expected_b);
    assert_eq!(a[0], expected_a);
    assert_eq!(b[0], expected_b);
}

#[test]
fn the_sample_rate_matters() {
    let b = band(FilterTypes::LPF, 1000.0, 0.7, 1.0);
    let mut slow = Equaliser::new(1);
    let mut fast = Equaliser::new(1);
    let mut at_44k = vec![impulse(16)];
    let mut at_96k = vec![impulse(16)];
    slow.process(&mut at_44k, &b, fx(44100.0));
    fast.process(&mut at_96k, &b, fx(96000.0));
    assert_ne!(at_44k, at_96k);
    assert_ne!(slow.coeffs(), fast.coeffs());
}

#[test]
fn initialize_sets_the_channels_and_clears_the_history() {
    let mut eq = Equaliser::new(0);
    assert_eq!(eq.channels(), 0);
    assert!(eq.initialize(2));
    assert_eq!(eq.channels(), 2);
    let b = band(FilterTypes::LS, 200.0, 0.7, 2.0);
    let mut buffer = vec![signal(30, 11), signal(30, 12)];
    eq.process(&mut buffer, &b, fx(48000.0));
    assert_ne!(eq.history(0), ChannelHistory::new());
    let kept = eq.coeffs();
    assert!(eq.initialize(3));
    assert_eq!(eq.channels(), 3);
    for c in 0..3 {
        assert_eq!(eq.history(c), ChannelHistory::new());
    }
    assert_eq!(eq.coeffs(), kept);
}

#[test]
fn new_equaliser_is_silent_and_transparent() {
    let eq = Equaliser::new(2);
    assert_eq!(eq.channels(), 2);
    assert_eq!(eq.coeffs(), FilterCoeffs::unit());
    assert_eq!(eq.history(0), ChannelHistory { x1: 0, x2: 0, y1: 0, y2: 0 });
    assert_eq!(eq.history(1), ChannelHistory::new());
}

#[test]
fn an_empty_buffer_changes_only_the_coefficients() {
    let b = band(FilterTypes::PEAK, 1000.0, 1.0, 2.0);
    let mut eq = Equaliser::new(0);
    let mut buffer: Vec<Vec<i64>> = Vec::new();
    eq.process(&mut buffer, &b, fx(44100.0));
    assert!(buffer.is_empty());
    assert_eq!(eq.coeffs(), b.filter_params(fx(44100.0)));
}

#[test]
fn default_equaliser_has_no_channels() {
    let eq = Equaliser::default();
    assert_eq!(eq.channels(), 0);
    assert_eq!(eq.coeffs(), FilterCoeffs::unit());
}

#[test]
fn default_parameters_are_a_unity_peak_at_four_hundred_hertz() {
    let params = EqualiserParams::default();
    assert_eq!(params.editor_width, 400);
    assert_eq!(params.editor_height, 400);
    assert_eq!(params.band, BandParams::new(400 * ONE));
    assert_eq!(params.band.frequency, single_band_eq::equaliser::DEFAULT_FREQUENCY);
    assert!(params.band.is_valid(fx(44100.0)));
}

#[test]
fn silence_stays_silent_for_every_shape() {
    let rate = fx(44100.0);
    for shape in [FilterTypes::PEAK, FilterTypes::HPF, FilterTypes::LPF, FilterTypes::LS, FilterTypes::HS] {
        let mut eq = Equaliser::new(1);
        let mut buffer = vec![vec![0i64; 100]];
        eq.process(&mut buffer, &band(shape, 1000.0, 0.7, 4.0), rate);
        assert_eq!(buffer[0], vec![0i64; 100]);
        assert_eq!(eq.history(0), ChannelHistory::new());
    }
}

#[test]
fn interleaved_and_planar_processing_agree() {
    let rate = fx(44100.0);
    for shape in [FilterTypes::PEAK, FilterTypes::HPF, FilterTypes::LPF, FilterTypes::LS, FilterTypes::HS] {
        let b = band(shape, 2500.0, 1.5, 0.4);
        let lanes = vec![signal(40, 21), signal(40, 22), signal(40, 23)];
        let mut frames = Vec::new();
        for n in 0..40 {
            for lane in &lanes {
                frames.push(lane[n]);
            }
        }
        let mut planar = Equaliser::new(3);
        let mut buffer = lanes.clone();
        planar.process(&mut buffer, &b, rate);
        let mut interleaved = Equaliser::new(3);
        interleaved.process_interleaved(&mut frames, &b, rate);
        assert_eq!(frames.len(), 120);
        for n in 0..40 {
            for c in 0..3 {
                assert_eq!(frames[n * 3 + c], buffer[c][n]);
            }
        }
        for c in 0..3 {
            assert_eq!(interleaved.history(c), planar.history(c));
        }
        assert_eq!(interleaved.coeffs(), planar.coeffs());
        assert_ne!(buffer, lanes);
    }
}

#[test]
fn interleaved_blocks_can_be_split_between_frames() {
    let rate = fx(48000.0);
    let b = band(FilterTypes::LS, 300.0, 0.7, 2.0);
    let frames = signal(2 * 50, 77);
    let mut whole = Equaliser::new(2);
    let mut one = frames.clone();
    whole.process_interleaved(&mut one, &b, rate);
    let mut parts = Equaliser::new(2);
    let mut first = frames[..2 * 13].to_vec();
    let mut second = frames[2 * 13..].to_vec();
    parts.process_interleaved(&mut first, &b, rate);
    parts.process_interleaved(&mut second, &b, rate);
    first.extend_from_slice(&second);
    assert_eq!(first, one);
    assert_eq!(parts.history(0), whole.history(0));
    assert_eq!(parts.history(1), whole.history(1));
}

#[test]
fn interleaved_silent_channel_stays_silent() {
    let rate = fx(44100.0);
    let b = band(FilterTypes::PEAK, 1000.0, 1.0, 2.0);
    let mut frames = vec![0i64; 2 * 32];
    frames[1] = ONE;
    let mut eq = Equaliser::new(2);
    eq.process_interleaved(&mut frames, &b, rate);
    for n in 0..32 {
        assert_eq!(frames[2 * n], 0);
    }
    assert!((to_real(frames[1]) - 1.0478027514602026).abs() < 1e-5);
    assert!((to_real(frames[3]) - 0.0901128792029971).abs() < 1e-5);
    assert_eq!(eq.history(0), ChannelHistory::new());
}

#[test]
fn interleaved_processing_without_channels_takes_an_empty_buffer() {
    let mut eq = Equaliser::new(0);
    let mut frames: Vec<i64> = Vec::new();
    let b = band(FilterTypes::HPF, 100.0, 0.7, 1.0);
    eq.process_interleaved(&mut frames, &b, fx(44100.0));
    assert!(frames.is_empty());
    assert_eq!(eq.coeffs(), b.filter_params(fx(44100.0)));
}

#[test]
fn a_block_of_floats_survives_the_round_trip() {
    // What a host does: floats to fixed point, through the filter, and back.
    let rate: f32 = 48000.0;
    let b = band(FilterTypes::HS, 4000.0, 0.7071, 2.0).clamped(fx(rate as f64));
    let input: Vec<f32> = (0..256).map(|n| ((n as f32) * 0.05).sin() * 0.8).collect();
    let mut block = vec![input.iter().map(|x| fx(*x as f64)).collect::<Vec<i64>>()];
    let mut eq = Equaliser::new(1);
    eq.process(&mut block, &b, fx(rate as f64));
    let output: Vec<f32> = block[0].iter().map(|y| to_real(*y) as f32).collect();

    let w = 2.0 * std::f64::consts::PI * 4000.0 / 48000.0;
    let alpha = w.sin() / (2.0 * 0.7071);
    let a = 2.0f64.sqrt();
    let s = 2.0 * (a * alpha).sqrt();
    let c = w.cos();
    let den = [(a + 1.0) - (a - 1.0) * c + s, 2.0 * ((a - 1.0) - (a + 1.0) * c), (a + 1.0) - (a - 1.0) * c - s];
    let num = [
        a * ((a + 1.0) + (a - 1.0) * c + s),
        -2.0 * a * ((a - 1.0) + (a + 1.0) * c),
        a * ((a + 1.0) + (a - 1.0) * c - s),
    ];
    let xs: Vec<f64> = input.iter().map(|x| *x as f64).collect();
    let expected = reference_run(den, num, &xs);
    for n in 0..256 {
        assert!((output[n] as f64 - expected[n]).abs() < 1e-5);
    }
}
