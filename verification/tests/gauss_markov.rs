use hifitime::TimeUnits;
use nyx_space::io::ConfigError;
use nyx_space::od::noise::{loads, Document, GaussMarkov};
use nyx_space::time::{Duration, Epoch};
use rand::Rng;
use rand_distr::Normal;
use rand_pcg::Pcg64Mcg;

fn duration_of(d: hifitime::Duration) -> Duration {
    let (centuries, nanoseconds) = d.to_parts();
    Duration::from_parts(centuries, nanoseconds).unwrap()
}

fn epoch_of(e: hifitime::Epoch) -> Epoch {
    let (centuries, nanoseconds) = e.to_tai_duration().to_parts();
    Epoch::from_tai_parts(centuries, nanoseconds).unwrap()
}

fn seconds_of(d: Duration) -> f64 {
    let (centuries, nanoseconds) = d.to_parts();
    hifitime::Duration::from_parts(centuries, nanoseconds).to_seconds()
}

/// The arithmetic of one realisation: the previous bias, or a fresh draw
/// where there is none, decays over the elapsed time and a draw of the
/// steady-state noise is added.
fn realise(gm: &GaussMarkov, elapsed: Duration, previous: Option<f64>, rng: &mut Pcg64Mcg) -> (f64, f64) {
    let dt_s = seconds_of(elapsed);
    let sigma = f64::from_bits(gm.process_noise);
    let tau_s = seconds_of(gm.tau);
    let start = match previous {
        Some(bias) => bias,
        None => rng.sample(Normal::new(0.0, sigma).unwrap()),
    };
    let decay = (-dt_s / tau_s).exp();
    let anti_decay = 1.0 - decay;
    let steady_noise = 0.5 * sigma * tau_s * anti_decay;
    let ss_sample = rng.sample(Normal::new(0.0, steady_noise).unwrap());
    (start, start * decay + ss_sample)
}

/// A realisation that decays from the previous bias.
fn draw(gm: GaussMarkov, elapsed: Duration, mut rng: Pcg64Mcg) -> (u64, Pcg64Mcg) {
    let previous = gm.init_sample.map(f64::from_bits);
    let (_, bias) = realise(&gm, elapsed, previous, &mut rng);
    (bias.to_bits(), rng)
}

/// A realisation that decays from the very first draw, which travels with
/// the random source.
fn draw_from_first(
    gm: GaussMarkov,
    elapsed: Duration,
    source: (Pcg64Mcg, Option<f64>),
) -> (u64, (Pcg64Mcg, Option<f64>)) {
    let (mut rng, first) = source;
    let (start, bias) = realise(&gm, elapsed, first, &mut rng);
    (bias.to_bits(), (rng, Some(start)))
}

fn mean(values: &[f64]) -> f64 {
    values.iter().sum::<f64>() / (values.len() as f64)
}

fn min_of(values: &[f64]) -> f64 {
    values.iter().cloned().fold(f64::INFINITY, f64::min)
}

fn max_of(values: &[f64]) -> f64 {
    values.iter().cloned().fold(f64::NEG_INFINITY, f64::max)
}

#[test]
fn fogm_test() {
    let mut gm = GaussMarkov::new(duration_of(24.hours()), 0.1_f64.to_bits()).unwrap();

    let mut biases = Vec::with_capacity(1000);
    let epoch = hifitime::Epoch::from_gregorian_tai(2020, 1, 1, 0, 0, 0, 0);

    let mut rng = (Pcg64Mcg::new(0), None);
    for seconds in 0..1000_i64 {
        let (bias, used) = gm.sample(epoch_of(epoch + seconds.seconds()), rng, draw_from_first);
        rng = used;
        assert_eq!(gm.init_sample, Some(bias));
        biases.push(f64::from_bits(bias));
    }

    assert_eq!(mean(&biases), 0.09373233290645445);
    assert_eq!(max_of(&biases), 0.24067114622652647);
    assert_eq!(min_of(&biases), -0.045552031890295525);
}

#[test]
fn zero_noise_test() {
    let mut gm = GaussMarkov::zero();

    let mut biases = Vec::with_capacity(1000);
    let epoch = hifitime::Epoch::from_gregorian_tai(2020, 1, 1, 0, 0, 0, 0);

    let mut rng = Pcg64Mcg::new(0);
    for seconds in 0..1000_i64 {
        let (bias, used) = gm.sample(epoch_of(epoch + seconds.seconds()), rng, draw);
        rng = used;
        biases.push(f64::from_bits(bias));
    }

    assert_eq!(mean(&biases), 0.0);
    assert_eq!(min_of(&biases), 0.0);
    assert_eq!(max_of(&biases), 0.0);
}

#[test]
fn sample_replaces_the_previous_bias_and_moves_the_epoch() {
    let mut gm = GaussMarkov::new(duration_of(1.hours()), 0.5_f64.to_bits()).unwrap();
    let t0 = epoch_of(hifitime::Epoch::from_gregorian_tai(2020, 1, 1, 0, 0, 0, 0));
    let t1 = epoch_of(hifitime::Epoch::from_gregorian_tai(2020, 1, 1, 0, 0, 7, 0));
    let seen = |gm: GaussMarkov, elapsed: Duration, calls: u32| {
        let previous = gm.init_sample.unwrap_or(41);
        (
            2 * previous + elapsed.to_parts().1 + u64::from(calls),
            calls + 1,
        )
    };
    let (first, calls) = gm.sample(t0, 0, seen);
    assert_eq!(first, 82);
    assert_eq!(calls, 1);
    assert_eq!(gm.init_sample, Some(82));
    assert_eq!(gm.prev_epoch, Some(t0));
    let (second, calls) = gm.sample(t1, calls, seen);
    assert_eq!(second, 164 + 7_000_000_000 + 1);
    assert_eq!(calls, 2);
    assert_eq!(gm.init_sample, Some(second));
    assert_eq!(gm.prev_epoch, Some(t1));
    assert_eq!(gm.tau, duration_of(1.hours()));
    assert_eq!(gm.process_noise, 0.5_f64.to_bits());
}

#[test]
fn each_sample_decays_from_the_one_before() {
    let mut gm = GaussMarkov::new(duration_of(24.hours()), 0.1_f64.to_bits()).unwrap();
    let epoch = hifitime::Epoch::from_gregorian_tai(2020, 1, 1, 0, 0, 0, 0);
    let mut rng = Pcg64Mcg::new(0);
    let mut mirror = Pcg64Mcg::new(0);
    let mut previous: Option<f64> = None;
    for seconds in 0..100_i64 {
        let elapsed = if seconds == 0 { 0 } else { 1 };
        let (_, expected) = realise(&gm, duration_of(elapsed.seconds()), previous, &mut mirror);
        let (bias, used) = gm.sample(epoch_of(epoch + seconds.seconds()), rng, draw);
        rng = used;
        assert_eq!(f64::from_bits(bias), expected);
        assert_eq!(gm.init_sample, Some(bias));
        previous = Some(expected);
    }
}

#[test]
fn a_process_without_noise_and_bias_gives_zero_whatever_is_drawn() {
    let garbage = |_: GaussMarkov, _: Duration, calls: u32| (f64::NAN.to_bits(), calls + 1);
    let epoch = hifitime::Epoch::from_gregorian_tai(2020, 1, 1, 0, 0, 0, 0);
    let mut calls = 0;
    for mut gm in [
        GaussMarkov::zero(),
        GaussMarkov::new(duration_of(1.minutes()), 0.0_f64.to_bits()).unwrap(),
        GaussMarkov::new(duration_of(1.minutes()), (-0.0_f64).to_bits()).unwrap(),
    ] {
        assert!(gm.silent());
        for seconds in [0_i64, 1, 5, 86_400, 1_000_000] {
            let (bias, used) = gm.sample(epoch_of(epoch + seconds.seconds()), calls, garbage);
            assert_eq!(used, calls + 1);
            calls = used;
            assert_eq!(bias, 0);
            assert_eq!(f64::from_bits(bias), 0.0);
            assert_eq!(gm.init_sample, Some(0));
            assert!(gm.silent());
        }
    }
    let mut biased = GaussMarkov::zero();
    biased.record_bias(1.0_f64.to_bits());
    assert!(!biased.silent());
    let (bias, _) = biased.sample(epoch_of(epoch), 0, garbage);
    assert!(f64::from_bits(bias).is_nan());
    let mut settled = GaussMarkov::zero();
    settled.record_bias((-0.0_f64).to_bits());
    assert!(settled.silent());
    assert_eq!(settled.sample(epoch_of(epoch), 0, garbage).0, 0);
    let mut noisy = GaussMarkov::default_range_km();
    assert!(!noisy.silent());
    let (bias, _) = noisy.sample(epoch_of(epoch), 0, garbage);
    assert!(f64::from_bits(bias).is_nan());
}

#[test]
fn the_description_frames_tau_and_sigma() {
    let gm = GaussMarkov::default_range_km();
    assert_eq!(
        gm.description("0.0006"),
        "First order Gauss-Markov process with τ = 1 min, σ = 0.0006"
    );
    let sigma = format!("{}", f64::from_bits(gm.process_noise));
    assert_eq!(
        gm.description(&sigma),
        format!(
            "First order Gauss-Markov process with τ = {}, σ = {}",
            1.minutes(),
            60.0e-5
        )
    );
    assert_eq!(
        GaussMarkov::zero().description(""),
        format!(
            "First order Gauss-Markov process with τ = {}, σ = ",
            hifitime::Duration::MAX
        )
    );
}

#[test]
fn new_rejects_a_tau_that_is_not_positive() {
    let zero = GaussMarkov::new(Duration::zero(), 0.1_f64.to_bits());
    assert_eq!(
        zero,
        Err(ConfigError::InvalidConfig {
            msg: "tau must be positive but got 0 ns".to_string()
        })
    );
    let negative = GaussMarkov::new(duration_of(-(5.minutes())), 0.1_f64.to_bits());
    assert_eq!(
        negative,
        Err(ConfigError::InvalidConfig {
            msg: format!("tau must be positive but got {}", -(5.minutes()))
        })
    );
    match negative {
        Err(ConfigError::InvalidConfig { msg }) => {
            assert_eq!(msg, "tau must be positive but got -5 min")
        }
        _ => panic!("expected an invalid configuration"),
    }
}

#[test]
fn new_takes_any_positive_tau() {
    let tau = duration_of(1.nanoseconds());
    let gm = GaussMarkov::new(tau, 7).unwrap();
    assert_eq!(gm.tau, tau);
    assert_eq!(gm.process_noise, 7);
    assert_eq!(gm.prev_epoch, None);
    assert_eq!(gm.init_sample, None);
    let longest = GaussMarkov::new(duration_of(hifitime::Duration::MAX), 0.1_f64.to_bits());
    assert!(longest.is_ok());
}

#[test]
fn zero_is_the_process_without_noise() {
    let gm = GaussMarkov::zero();
    assert_eq!(gm.tau, duration_of(hifitime::Duration::MAX));
    assert_eq!(f64::from_bits(gm.process_noise), 0.0);
    assert_eq!(gm.prev_epoch, None);
    assert_eq!(gm.init_sample, None);
}

#[test]
fn white_noise_has_no_time_correlation() {
    let gm = GaussMarkov::white_noise(0.25_f64.to_bits());
    assert_eq!(gm.tau, duration_of(hifitime::Duration::MAX));
    assert_eq!(f64::from_bits(gm.process_noise), 0.25);
    assert_eq!(gm.prev_epoch, None);
    assert_eq!(gm.init_sample, None);
    assert_eq!(GaussMarkov::white_noise(0), GaussMarkov::zero());
}

#[test]
fn defaults_of_the_deep_space_network() {
    let range = GaussMarkov::default_range_km();
    assert_eq!(range.tau, duration_of(1.minutes()));
    assert_eq!(f64::from_bits(range.process_noise), 60.0e-5);
    assert_eq!(range.prev_epoch, None);
    assert_eq!(range.init_sample, None);
    let doppler = GaussMarkov::default_doppler_km_s();
    assert_eq!(doppler.tau, duration_of(1.minutes()));
    assert_eq!(f64::from_bits(doppler.process_noise), 0.03e-6);
    assert_eq!(doppler.prev_epoch, None);
    assert_eq!(doppler.init_sample, None);
}

#[test]
fn rescaling_keeps_tau_and_forgets_the_history() {
    let mut gm = GaussMarkov::new(duration_of(2.hours()), 0.1_f64.to_bits()).unwrap();
    let t0 = epoch_of(hifitime::Epoch::from_gregorian_tai(2021, 6, 1, 12, 0, 0, 0));
    gm.begin_sample(t0);
    gm.record_bias(0.25_f64.to_bits());
    assert_eq!(gm.prev_epoch, Some(t0));
    let sigma = f64::from_bits(gm.process_noise) * 3.0;
    let scaled = gm.rescaled(sigma.to_bits());
    assert_eq!(scaled.tau, duration_of(2.hours()));
    assert_eq!(f64::from_bits(scaled.process_noise), 0.1 * 3.0);
    assert_eq!(scaled.prev_epoch, None);
    assert_eq!(scaled.init_sample, None);

    let before = gm;
    gm.reset();
    assert_eq!(gm.tau, before.tau);
    assert_eq!(gm.process_noise, before.process_noise);
    assert_eq!(gm.prev_epoch, None);
    assert_eq!(gm.init_sample, None);
}

#[test]
fn begin_sample_measures_the_time_since_the_previous_epoch() {
    let mut gm = GaussMarkov::default_range_km();
    let t0 = epoch_of(hifitime::Epoch::from_gregorian_tai(1999, 12, 31, 23, 59, 59, 0));
    let t1 = epoch_of(hifitime::Epoch::from_gregorian_tai(2000, 1, 1, 0, 0, 1, 500));
    let first = gm.begin_sample(t0);
    assert_eq!(first.elapsed, Duration::zero());
    assert_eq!(first.previous, None);
    gm.record_bias(3);
    let second = gm.begin_sample(t1);
    assert_eq!(second.elapsed, duration_of(2.seconds() + 500.nanoseconds()));
    assert_eq!(second.previous, Some(3));
    let back = gm.begin_sample(t0);
    assert_eq!(back.elapsed, duration_of(-(2.seconds() + 500.nanoseconds())));
    gm.record_bias(9);
    assert_eq!(gm.init_sample, Some(9));
    assert_eq!(gm.prev_epoch, Some(t0));
}

#[test]
fn restore_from_optional_parts() {
    let tau = duration_of(3.hours());
    let t0 = epoch_of(hifitime::Epoch::from_gregorian_tai(2022, 2, 2, 2, 2, 2, 2));
    let missing = || {
        Err(ConfigError::InvalidConfig {
            msg: "tau, sigma, and steady_state must be specified".to_string(),
        })
    };
    assert_eq!(
        GaussMarkov::restore(None, None, None, Some(1), Some(t0)),
        Ok(GaussMarkov::zero())
    );
    assert_eq!(
        GaussMarkov::restore(Some(tau), Some(5), Some(6), Some(1), Some(t0)),
        Ok(GaussMarkov {
            tau,
            process_noise: 5,
            prev_epoch: Some(t0),
            init_sample: Some(1)
        })
    );
    assert_eq!(
        GaussMarkov::restore(Some(tau), Some(5), Some(6), None, None),
        GaussMarkov::new(tau, 5)
    );
    assert_eq!(
        GaussMarkov::restore(Some(duration_of(1.minutes())), None, None, None, None),
        missing()
    );
    assert_eq!(GaussMarkov::restore(Some(tau), Some(5), None, None, None), missing());
    assert_eq!(GaussMarkov::restore(Some(tau), None, Some(6), None, None), missing());
    assert_eq!(GaussMarkov::restore(None, Some(5), Some(6), None, None), missing());
    assert_eq!(GaussMarkov::restore(None, Some(5), None, None, None), missing());
    assert_eq!(GaussMarkov::restore(None, None, Some(6), None, None), missing());
    assert_eq!(
        GaussMarkov::restore(Some(Duration::zero()), None, Some(6), None, None),
        missing()
    );
    assert_eq!(
        GaussMarkov::restore(Some(Duration::zero()), Some(5), Some(6), None, None),
        Err(ConfigError::InvalidConfig {
            msg: "tau must be positive but got 0 ns".to_string()
        })
    );
}

fn unfit(tau: hifitime::Duration) -> GaussMarkov {
    GaussMarkov {
        tau: duration_of(tau),
        process_noise: 0.1_f64.to_bits(),
        prev_epoch: None,
        init_sample: None,
    }
}

#[test]
fn loads_hands_out_no_model_whose_tau_is_not_positive() {
    let a = GaussMarkov::default_range_km();
    let zero = unfit(hifitime::Duration::ZERO);
    let negative = unfit(-(5.minutes()));
    let for_zero = || {
        Err(ConfigError::InvalidConfig {
            msg: "tau must be positive but got 0 ns".to_string(),
        })
    };
    let for_negative = || {
        Err(ConfigError::InvalidConfig {
            msg: "tau must be positive but got -5 min".to_string(),
        })
    };

    assert_eq!(loads(Document::List(vec![Ok(zero)])), for_zero());
    assert_eq!(
        loads(Document::List(vec![Ok(a), Ok(negative), Ok(zero)])),
        for_negative()
    );
    assert_eq!(
        loads(Document::List(vec![
            Ok(zero),
            Err("unread".to_string()),
            Ok(a)
        ])),
        Err(ConfigError::ParseError {
            msg: "unread".to_string()
        })
    );
    assert_eq!(
        loads(Document::Dict {
            values: vec![Ok(a), Ok(zero)],
            whole: Ok(a)
        }),
        for_zero()
    );
    assert_eq!(
        loads(Document::Dict {
            values: vec![Ok(zero), Err("tau".to_string())],
            whole: Ok(negative)
        }),
        for_negative()
    );
    assert_eq!(
        loads(Document::Dict {
            values: vec![Ok(zero), Err("tau".to_string())],
            whole: Ok(a)
        }),
        Ok(vec![a])
    );
    assert_eq!(
        loads(Document::Other(Ok(vec![a, a, zero, negative]))),
        for_zero()
    );
    assert_eq!(loads(Document::Other(Ok(vec![negative]))), for_negative());
    assert_eq!(
        loads(Document::Other(Ok(vec![unfit(1.nanoseconds())]))),
        Ok(vec![unfit(1.nanoseconds())])
    );
}

#[test]
fn loads_a_list_a_dictionary_or_a_single_model() {
    let a = GaussMarkov::default_range_km();
    let b = GaussMarkov::default_doppler_km_s();
    let c = GaussMarkov::zero();

    assert_eq!(
        loads(Document::List(vec![Ok(a), Ok(b)])),
        Ok(vec![a, b])
    );
    assert_eq!(loads(Document::List(vec![])), Ok(vec![]));
    assert_eq!(
        loads(Document::List(vec![
            Ok(a),
            Err("first".to_string()),
            Err("second".to_string())
        ])),
        Err(ConfigError::ParseError {
            msg: "first".to_string()
        })
    );

    assert_eq!(
        loads(Document::Dict {
            values: vec![Ok(b), Ok(a)],
            whole: Err("no model".to_string())
        }),
        Ok(vec![b, a])
    );
    assert_eq!(
        loads(Document::Dict {
            values: vec![Ok(b), Err("tau".to_string())],
            whole: Ok(c)
        }),
        Ok(vec![c])
    );
    assert_eq!(
        loads(Document::Dict {
            values: vec![Err("tau".to_string()), Ok(a)],
            whole: Err("no model".to_string())
        }),
        Err(ConfigError::InvalidConfig {
            msg: "no model".to_string()
        })
    );

    assert_eq!(loads(Document::Other(Ok(vec![c, a]))), Ok(vec![c, a]));
    assert_eq!(
        loads(Document::Other(Err("not a list".to_string()))),
        Err(ConfigError::InvalidConfig {
            msg: "not a list".to_string()
        })
    );
}

fn hifi_duration(d: Duration) -> hifitime::Duration {
    let (centuries, nanoseconds) = d.to_parts();
    hifitime::Duration::from_parts(centuries, nanoseconds)
}

fn round_trip(gm: GaussMarkov) -> GaussMarkov {
    let mut doc = serde_yaml::Mapping::new();
    doc.insert(
        serde_yaml::Value::from("tau"),
        serde_yaml::to_value(hifi_duration(gm.tau)).unwrap(),
    );
    doc.insert(
        serde_yaml::Value::from("process_noise"),
        serde_yaml::Value::from(f64::from_bits(gm.process_noise)),
    );
    let text = serde_yaml::to_string(&doc).unwrap();
    let back: serde_yaml::Value = serde_yaml::from_str(&text).unwrap();
    let tau: hifitime::Duration = serde_yaml::from_value(back["tau"].clone()).unwrap();
    let process_noise: f64 = serde_yaml::from_value(back["process_noise"].clone()).unwrap();
    GaussMarkov::new(duration_of(tau), process_noise.to_bits()).unwrap()
}

#[test]
fn a_configuration_survives_writing_and_reading() {
    let gm = GaussMarkov::new(duration_of(hifitime::Duration::MAX), 0.1_f64.to_bits()).unwrap();
    assert_eq!(round_trip(gm), gm);
    for gm in [
        GaussMarkov::default_range_km(),
        GaussMarkov::default_doppler_km_s(),
        GaussMarkov::zero(),
        GaussMarkov::new(duration_of(12.hours() + 159.milliseconds()), 5.0e-3_f64.to_bits())
            .unwrap(),
        GaussMarkov::new(duration_of(11.hours() + 59.minutes()), 50.0e-6_f64.to_bits()).unwrap(),
    ] {
        assert_eq!(round_trip(gm), gm);
    }

    let mut sampled = GaussMarkov::default_range_km();
    sampled.begin_sample(epoch_of(hifitime::Epoch::from_gregorian_tai(
        2020, 1, 1, 0, 0, 0, 0,
    )));
    sampled.record_bias(1.5_f64.to_bits());
    assert_eq!(round_trip(sampled), GaussMarkov::default_range_km());
}
