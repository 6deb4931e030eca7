use hifitime::TimeUnits;
use nyx_space::md::trajectory::Node;
use nyx_space::od::estimate::{Estimate, Residual};
use nyx_space::od::filter::{Correction, Lapse, Prediction, KF};
use nyx_space::od::process::{
    Arithmetic, Gauge, IterationConf, Measurement, ODError, ODProcess, Refit,
};
use nyx_space::od::smoother::{Smoothed, SmoothingArc};
use nyx_space::od::trigger::EkfTrigger;
use nyx_space::propagators::{PropOpts, PropagationError, Propagator, Trial};
use nyx_space::time::{Duration, Epoch};

fn duration_of(d: hifitime::Duration) -> Duration {
    let (centuries, nanoseconds) = d.to_parts();
    Duration::from_parts(centuries, nanoseconds).unwrap()
}

fn at(seconds: i64) -> Epoch {
    let e = hifitime::Epoch::from_gregorian_tai(2020, 1, 1, 0, 0, 0, 0) + seconds.seconds();
    let (centuries, nanoseconds) = e.to_tai_duration().to_parts();
    Epoch::from_tai_parts(centuries, nanoseconds).unwrap()
}

fn secs(seconds: i64) -> Duration {
    duration_of(seconds.seconds())
}

fn f(bits: u64) -> f64 {
    f64::from_bits(bits)
}

fn b(value: f64) -> u64 {
    value.to_bits()
}

const STATION: usize = 7;

/// A constant scalar state: the reference and the state transition matrix
/// stay as they are over a step.
fn trial(from: Node<2>, step: Duration) -> Trial<2> {
    Trial {
        state: from.state,
        rate: from.rate,
        error: 0,
        within_tolerance: true,
        suggested: step,
    }
}

fn stm_of(node: Node<2>) -> [[u64; 1]; 1] {
    [[node.state[1]]]
}

fn predict(kf: KF<1, 1>, stm: [[u64; 1]; 1], lapse: Lapse) -> Prediction<1> {
    let phi = f(stm[0][0]);
    let state = if kf.ekf {
        0.0
    } else {
        phi * f(kf.prev_estimate.state[0])
    };
    let mut covar = phi * f(kf.prev_estimate.covar[0][0]) * phi;
    if lapse.process_noise {
        covar += f(kf.process_noise[0][0]) * lapse.elapsed.to_parts().1 as f64 * 1e-9;
    }
    Prediction {
        state: [b(state)],
        covar: [[b(covar)]],
    }
}

fn gauge(
    kf: KF<1, 1>,
    stm: [[u64; 1]; 1],
    _lapse: Lapse,
    node: Node<2>,
    m: Measurement<1>,
    bound: u64,
) -> Option<Gauge<1, 1>> {
    if m.station != STATION {
        return None;
    }
    let phi = f(stm[0][0]);
    let r = f(kf.measurement_noise[0][0]);
    let covar_bar = phi * f(kf.prev_estimate.covar[0][0]) * phi;
    let s = covar_bar + r;
    if s == 0.0 {
        return Some(Gauge {
            h_tilde: [[b(1.0)]],
            correction: None,
            within_sigma: false,
        });
    }
    let gain = covar_bar / s;
    let offset = f(m.obs[0]) - f(node.state[0]);
    let state_bar = if kf.ekf {
        0.0
    } else {
        phi * f(kf.prev_estimate.state[0])
    };
    let prefit = offset - state_bar;
    let state = state_bar + gain * prefit;
    let postfit = offset - state;
    let covar = (1.0 - gain) * covar_bar * (1.0 - gain) + gain * r * gain;
    let ratio = prefit.abs() / s.sqrt();
    Some(Gauge {
        h_tilde: [[b(1.0)]],
        correction: Some(Correction {
            state: [b(state)],
            covar: [[b(covar)]],
            prefit: [b(prefit)],
            postfit: [b(postfit)],
            ratio: b(ratio),
        }),
        within_sigma: ratio <= f(bound),
    })
}

fn rebase(node: Node<2>, deviation: Option<[u64; 1]>) -> Node<2> {
    let reference = match deviation {
        Some(dev) => f(node.state[0]) + f(dev[0]),
        None => f(node.state[0]),
    };
    Node {
        epoch: at(-1_000),
        state: [b(reference), b(1.0)],
        rate: node.rate,
    }
}

type Kernel = Arithmetic<
    fn(Node<2>, Duration) -> Trial<2>,
    fn(Node<2>) -> [[u64; 1]; 1],
    fn(KF<1, 1>, [[u64; 1]; 1], Lapse) -> Prediction<1>,
    fn(KF<1, 1>, [[u64; 1]; 1], Lapse, Node<2>, Measurement<1>, u64) -> Option<Gauge<1, 1>>,
    fn(Node<2>, Option<[u64; 1]>) -> Node<2>,
>;

fn kernel() -> Kernel {
    Arithmetic {
        trial,
        stm_of,
        predict,
        gauge,
        rebase,
    }
}

fn reference(value: f64) -> Node<2> {
    Node {
        epoch: at(0),
        state: [b(value), b(1.0)],
        rate: [0, 0],
    }
}

fn initial(covar: f64) -> Estimate<1> {
    Estimate {
        dt: at(0),
        state: [b(0.0)],
        covar: [[b(covar)]],
        stm: [[b(1.0)]],
        predicted: true,
    }
}

fn process(covar: f64, noise: f64, trigger: Option<EkfTrigger>) -> ODProcess<1, 1, 2> {
    let opts = PropOpts::with_fixed_step(secs(4)).unwrap();
    let prop = Propagator::with(opts, reference(10.0));
    let kf = KF::<1, 1>::initialize(initial(covar), [[0; 3]; 3], [[b(noise)]], None);
    ODProcess::new(prop, kf, trigger)
}

fn measurement(seconds: i64, value: f64) -> Measurement<1> {
    Measurement {
        dt: at(seconds),
        obs: [b(value)],
        station: STATION,
        visible: true,
    }
}

fn epochs(estimates: &[Estimate<1>]) -> Vec<Epoch> {
    estimates.iter().map(|e| e.dt).collect()
}

fn predicted(estimates: &[Estimate<1>]) -> Vec<bool> {
    estimates.iter().map(|e| e.predicted).collect()
}

#[test]
fn the_process_noise_is_added_within_its_window() {
    let opts = PropOpts::with_fixed_step(secs(4)).unwrap();
    let prop = Propagator::with(opts, reference(10.0));
    let mut q = [[0; 3]; 3];
    q[0][0] = b(0.5);
    let kf = KF::<1, 1>::initialize(initial(4.0), q, [[b(1.0)]], Some(secs(3)));
    let mut od = ODProcess::new(prop, kf, None);
    assert_eq!(
        od.process_measurement(measurement(7, 12.0), &kernel()),
        Ok(())
    );
    assert_eq!(epochs(&od.estimates), vec![at(0), at(4), at(7)]);
    assert_eq!(f(od.estimates[1].covar[0][0]), 4.0);

    let prop = Propagator::with(opts, reference(10.0));
    let kf = KF::<1, 1>::initialize(initial(4.0), q, [[b(1.0)]], Some(secs(4)));
    let mut od = ODProcess::new(prop, kf, None);
    assert_eq!(
        od.process_measurement(measurement(11, 12.0), &kernel()),
        Ok(())
    );
    assert_eq!(epochs(&od.estimates), vec![at(0), at(4), at(8), at(11)]);
    assert_eq!(f(od.estimates[1].covar[0][0]), 4.0 + 0.5 * 4.0);
    assert_eq!(f(od.estimates[2].covar[0][0]), 6.0 + 0.5 * 4.0);
    assert_eq!(od.kf.lapse_to(at(12)).elapsed, secs(1));
    assert!(od.kf.lapse_to(at(15)).process_noise);
    assert!(!od.kf.lapse_to(at(16)).process_noise);
}

#[test]
fn a_new_process_has_no_records() {
    let od = process(4.0, 1.0, None);
    assert_eq!(od.estimates, vec![initial(4.0)]);
    assert!(od.residuals.is_empty());
    assert_eq!(od.init_node, reference(10.0));
    assert_eq!(od.init_kf, od.kf);
    assert_eq!(od.init_trigger, None);
    assert_eq!(od.prop.node, reference(10.0));
}

#[test]
fn a_pass_records_predictions_between_and_updates_at_the_measurements() {
    let mut od = process(4.0, 1.0, None);
    let ms = vec![measurement(10, 12.0), measurement(20, 12.0)];
    assert_eq!(od.process_measurements(&ms, &kernel()), Ok(()));

    assert_eq!(
        epochs(&od.estimates),
        vec![at(0), at(4), at(8), at(10), at(14), at(18), at(20)]
    );
    assert_eq!(
        predicted(&od.estimates),
        vec![true, true, true, false, true, true, false]
    );
    assert_eq!(od.estimates[0], initial(4.0));
    assert_eq!(od.residuals.len(), 2);
    assert_eq!(od.residuals[0].dt, at(10));
    assert_eq!(od.residuals[1].dt, at(20));
    assert!(!od.residuals[0].rejected);
    assert!(!od.residuals[1].rejected);
    assert_eq!(od.prop.node.epoch, at(20));
    assert_eq!(f(od.prop.node.state[0]), 10.0);
    assert!(!od.kf.ekf);

    assert_eq!(f(od.estimates[1].state[0]), 0.0);
    assert_eq!(f(od.estimates[1].covar[0][0]), 4.0);
    let gain = 4.0 / 5.0;
    let first = gain * 2.0;
    let covar = (1.0 - gain) * 4.0 * (1.0 - gain) + gain * 1.0 * gain;
    assert_eq!(f(od.estimates[3].state[0]), first);
    assert_eq!(f(od.estimates[3].covar[0][0]), covar);
    assert_eq!(f(od.residuals[0].prefit[0]), 2.0);
    assert_eq!(f(od.residuals[0].postfit[0]), 2.0 - first);
    assert_eq!(f(od.residuals[0].ratio), 2.0 / 5.0_f64.sqrt());
    assert_eq!(f(od.estimates[4].state[0]), first);
    assert_eq!(f(od.estimates[4].covar[0][0]), covar);
    let gain = covar / (covar + 1.0);
    let second = first + gain * (2.0 - first);
    assert_eq!(f(od.estimates[6].state[0]), second);
    assert!((second - 2.0 * 8.0 / 9.0).abs() < 1e-12);
    assert!((f(od.estimates[6].covar[0][0]) - 4.0 / 9.0).abs() < 1e-12);
    assert_eq!(od.kf.prev_estimate, od.estimates[6]);
    assert!(!od.kf.stm_updated);
    assert!(!od.kf.h_tilde_updated);
}

#[test]
fn the_estimates_are_in_the_order_of_time() {
    let mut od = process(4.0, 1.0, None);
    let ms = vec![
        measurement(0, 12.0),
        measurement(3, 12.0),
        measurement(3, 12.5),
        measurement(30, 11.0),
    ];
    assert_eq!(od.process_measurements(&ms, &kernel()), Ok(()));
    assert_eq!(
        epochs(&od.estimates),
        vec![
            at(0),
            at(0),
            at(3),
            at(3),
            at(7),
            at(11),
            at(15),
            at(19),
            at(23),
            at(27),
            at(30)
        ]
    );
    assert_eq!(
        predicted(&od.estimates),
        vec![true, false, false, false, true, true, true, true, true, true, false]
    );
    for pair in od.estimates.windows(2) {
        assert!(!pair[1].dt.is_before(&pair[0].dt));
    }
    assert_eq!(
        od.residuals.iter().map(|r| r.dt).collect::<Vec<_>>(),
        vec![at(0), at(3), at(3), at(30)]
    );
}

#[test]
fn a_measurement_that_cannot_be_used_is_recorded_as_rejected() {
    let mut od = process(4.0, 1.0, None);
    let mut unseen = measurement(10, 12.0);
    unseen.visible = false;
    let mut unknown = measurement(12, 12.0);
    unknown.station = 99;
    let ms = vec![unseen, unknown, measurement(14, 12.0)];
    assert_eq!(od.process_measurements(&ms, &kernel()), Ok(()));
    assert_eq!(epochs(&od.estimates), vec![at(0), at(4), at(8), at(14)]);
    assert_eq!(predicted(&od.estimates), vec![true, true, true, false]);
    let rejected = |dt: Epoch| Residual::<1> {
        dt,
        prefit: [0],
        postfit: [0],
        ratio: 0,
        rejected: true,
    };
    assert_eq!(od.residuals.len(), 3);
    assert_eq!(od.residuals[0], rejected(at(10)));
    assert_eq!(od.residuals[1], rejected(at(12)));
    assert!(!od.residuals[2].rejected);
    assert_eq!(od.residuals[2].dt, at(14));
}

#[test]
fn a_singular_gain_leaves_the_filter_untouched() {
    let mut od = process(0.0, 0.0, None);
    let before = od.kf;
    assert_eq!(
        od.process_measurement(measurement(0, 12.0), &kernel()),
        Ok(())
    );
    assert_eq!(od.estimates, vec![initial(0.0)]);
    assert_eq!(od.residuals.len(), 1);
    assert!(od.residuals[0].rejected);
    assert_eq!(od.residuals[0].dt, at(0));
    assert_eq!(od.kf, before);

    assert_eq!(
        od.process_measurement(measurement(6, 12.0), &kernel()),
        Ok(())
    );
    assert_eq!(epochs(&od.estimates), vec![at(0), at(4)]);
    assert_eq!(od.residuals.len(), 2);
    assert!(od.residuals[1].rejected);
    assert_eq!(od.kf.prev_estimate, od.estimates[1]);
    assert_eq!(od.prop.node.epoch, at(6));
}

#[test]
fn a_measurement_out_of_order_ends_the_pass() {
    let mut od = process(4.0, 1.0, None);
    let ms = vec![
        measurement(10, 12.0),
        measurement(9, 12.0),
        measurement(20, 12.0),
    ];
    assert_eq!(
        od.process_measurements(&ms, &kernel()),
        Err(PropagationError::Backward)
    );
    assert_eq!(epochs(&od.estimates), vec![at(0), at(4), at(8), at(10)]);
    assert_eq!(od.residuals.len(), 1);
    assert_eq!(od.prop.node.epoch, at(10));

    let mut late = process(4.0, 1.0, None);
    assert_eq!(
        late.process_measurement(measurement(-1, 12.0), &kernel()),
        Err(PropagationError::Backward)
    );
    assert_eq!(late.estimates, vec![initial(4.0)]);
    assert!(late.residuals.is_empty());
    assert_eq!(late.prop.node, reference(10.0));
}

#[test]
fn the_trigger_extends_the_filter_and_a_gap_makes_it_classical() {
    let trigger = EkfTrigger::new(2, secs(15), b(3.0));
    let mut od = process(4.0, 1.0, Some(trigger));
    assert_eq!(
        od.process_measurement(measurement(10, 12.0), &kernel()),
        Ok(())
    );
    assert!(!od.kf.ekf);
    assert_eq!(f(od.prop.node.state[0]), 10.0);
    assert_eq!(od.trigger.unwrap().passed, 1);

    assert_eq!(
        od.process_measurement(measurement(20, 12.0), &kernel()),
        Ok(())
    );
    assert!(od.kf.ekf);
    assert!(od.trigger.unwrap().armed);
    let deviation = f(od.estimates.last().unwrap().state[0]);
    assert_eq!(f(od.prop.node.state[0]), 10.0 + deviation);
    assert_eq!(od.prop.node.epoch, at(20));

    assert_eq!(
        od.process_measurement(measurement(30, 12.0), &kernel()),
        Ok(())
    );
    assert!(od.kf.ekf);
    let updated = od.estimates.last().unwrap();
    assert!(!updated.predicted);
    let reference_before = 10.0 + deviation;
    assert_eq!(
        f(od.prop.node.state[0]),
        reference_before + f(updated.state[0])
    );
    let between = &od.estimates[od.estimates.len() - 2];
    assert!(between.predicted);
    assert_eq!(f(between.state[0]), 0.0);

    assert_eq!(
        od.process_measurement(measurement(50, 12.0), &kernel()),
        Ok(())
    );
    assert!(!od.kf.ekf);
    assert!(!od.trigger.unwrap().armed);
    assert_eq!(od.trigger.unwrap().passed, 1);
    assert_eq!(od.trigger.unwrap().prev_msr, Some(at(50)));
}

#[test]
fn a_measurement_outside_the_bound_does_not_count() {
    let trigger = EkfTrigger::new(1, secs(15), b(0.5));
    let mut od = process(4.0, 1.0, Some(trigger));
    assert_eq!(
        od.process_measurement(measurement(10, 12.0), &kernel()),
        Ok(())
    );
    assert!(!od.kf.ekf);
    assert!(!od.residuals[0].rejected);
    assert_eq!(od.trigger.unwrap().passed, 0);
    assert_eq!(
        od.process_measurement(measurement(20, 11.9), &kernel()),
        Ok(())
    );
    assert!(od.kf.ekf);
    assert_eq!(od.trigger.unwrap().passed, 1);
}

fn smoother(_estimate: Estimate<1>, _next: Estimate<1>, next_smoothed: Estimate<1>) -> Smoothed<1> {
    Smoothed {
        state: next_smoothed.state,
        covar: next_smoothed.covar,
    }
}

fn restart(start: Node<2>, first: Estimate<1>, smoothed: Estimate<1>) -> (Node<2>, Estimate<1>) {
    let node = Node {
        epoch: at(500),
        state: [b(f(start.state[0]) + f(smoothed.state[0])), b(1.0)],
        rate: start.rate,
    };
    let mut estimate = first;
    estimate.dt = at(900);
    estimate.predicted = false;
    (node, estimate)
}

fn converged(before: Estimate<1>, after: Estimate<1>, tol: u64) -> (bool, u64) {
    let delta = (f(after.state[0]) - f(before.state[0])).abs();
    (delta < f(tol), b(delta))
}

type Refitting = Refit<
    fn(Estimate<1>, Estimate<1>, Estimate<1>) -> Smoothed<1>,
    fn(Node<2>, Estimate<1>, Estimate<1>) -> (Node<2>, Estimate<1>),
    fn(Estimate<1>, Estimate<1>, u64) -> (bool, u64),
>;

fn refit() -> Refitting {
    Refit {
        smoother,
        restart,
        converged,
    }
}

#[test]
fn iteration_ends_once_the_first_estimate_has_settled() {
    let mut od = process(4.0, 1.0, None);
    let ms = vec![measurement(10, 12.0), measurement(20, 12.0)];
    assert_eq!(od.process_measurements(&ms, &kernel()), Ok(()));
    let conf = IterationConf {
        mode: SmoothingArc::All,
        max_iter: 5,
        tol: b(0.5),
    };
    assert_eq!(od.iterate(&ms, conf, &kernel(), &refit()), Ok(2));
    assert_eq!(
        epochs(&od.estimates),
        vec![at(0), at(4), at(8), at(10), at(14), at(18), at(20)]
    );
    assert_eq!(od.residuals.len(), 2);
    assert_eq!(od.init_node.epoch, at(0));
    assert!((f(od.init_node.state[0]) - (10.0 + 16.0 / 9.0 + 16.0 / 81.0)).abs() < 1e-12);
    assert_eq!(od.prop.node.epoch, at(20));
    let reference = f(od.prop.node.state[0]);
    assert!((reference - (10.0 + 16.0 / 9.0 + 16.0 / 81.0)).abs() < 1e-12);
    assert!((f(od.estimates[6].state[0]) - 16.0 / 729.0).abs() < 1e-12);
    assert_eq!(od.estimates[0], initial(4.0));
    assert_eq!(f(od.estimates[1].covar[0][0]), 4.0);
    assert!(od.estimates[1].predicted);
}

#[test]
fn iteration_diverges_at_the_cap() {
    let mut od = process(4.0, 1.0, None);
    let ms = vec![measurement(10, 12.0), measurement(20, 12.0)];
    assert_eq!(od.process_measurements(&ms, &kernel()), Ok(()));
    let conf = IterationConf {
        mode: SmoothingArc::All,
        max_iter: 1,
        tol: b(0.5),
    };
    match od.iterate(&ms, conf, &kernel(), &refit()) {
        Err(ODError::IterationDiverged { iter, delta }) => {
            assert_eq!(iter, 1);
            assert!((f(delta) - (16.0 / 9.0 - 16.0 / 81.0)).abs() < 1e-12);
        }
        other => panic!("expected the iteration to diverge, got {other:?}"),
    }
    assert_eq!(od.residuals.len(), 2);

    let mut none = process(4.0, 1.0, None);
    assert_eq!(none.process_measurements(&ms, &kernel()), Ok(()));
    let before = none.estimates.clone();
    let conf = IterationConf {
        mode: SmoothingArc::All,
        max_iter: 0,
        tol: b(0.5),
    };
    assert_eq!(
        none.iterate(&ms, conf, &kernel(), &refit()),
        Err(ODError::IterationDiverged { iter: 0, delta: 0 })
    );
    assert_eq!(none.estimates, before);
}

#[test]
fn iteration_without_measurements_settles_at_once() {
    let mut od = process(4.0, 1.0, None);
    let conf = IterationConf {
        mode: SmoothingArc::All,
        max_iter: 3,
        tol: b(0.5),
    };
    assert_eq!(od.iterate(&vec![], conf, &kernel(), &refit()), Ok(1));
    assert_eq!(od.estimates, vec![initial(4.0)]);
    assert!(od.residuals.is_empty());
    assert_eq!(od.prop.node, reference(10.0));

    let mut cleared = process(4.0, 1.0, None);
    cleared.estimates.clear();
    assert_eq!(cleared.iterate(&vec![], conf, &kernel(), &refit()), Ok(0));
    assert!(cleared.estimates.is_empty());
}

#[test]
fn iteration_of_a_new_process_makes_the_first_pass() {
    let mut od = process(4.0, 1.0, None);
    let ms = vec![measurement(10, 12.0), measurement(20, 12.0)];
    let conf = IterationConf {
        mode: SmoothingArc::All,
        max_iter: 5,
        tol: b(0.5),
    };
    assert_eq!(od.iterate(&ms, conf, &kernel(), &refit()), Ok(3));
    assert_eq!(od.residuals.len(), 2);
    assert!((f(od.init_node.state[0]) - (10.0 + 16.0 / 9.0 + 16.0 / 81.0)).abs() < 1e-12);
}

#[test]
fn iteration_fails_on_measurements_out_of_order() {
    let mut od = process(4.0, 1.0, None);
    let ms = vec![measurement(10, 12.0), measurement(20, 12.0)];
    assert_eq!(od.process_measurements(&ms, &kernel()), Ok(()));
    let conf = IterationConf {
        mode: SmoothingArc::All,
        max_iter: 3,
        tol: b(0.5),
    };
    let shuffled = vec![measurement(20, 12.0), measurement(10, 12.0)];
    assert_eq!(
        od.iterate(&shuffled, conf, &kernel(), &refit()),
        Err(ODError::Propagation(PropagationError::Backward))
    );
}

#[test]
fn reset_starts_again_at_the_initial_epoch() {
    let trigger = EkfTrigger::new(1, secs(15), b(3.0));
    let mut od = process(4.0, 1.0, Some(trigger));
    let ms = vec![measurement(10, 12.0), measurement(20, 12.0)];
    assert_eq!(od.process_measurements(&ms, &kernel()), Ok(()));
    assert!(od.kf.ekf);
    let (node, estimate) = restart(od.init_node, od.init_kf.prev_estimate, od.estimates[1]);
    od.reset(node, estimate);
    assert_eq!(od.init_node, od.prop.node);
    assert_eq!(od.prop.node.epoch, at(0));
    assert_eq!(od.prop.node.state, node.state);
    assert_eq!(od.prop.step, secs(4));
    assert_eq!(od.kf.prev_estimate, initial(4.0));
    assert!(!od.kf.ekf);
    assert!(!od.kf.stm_updated);
    assert_eq!(od.kf.measurement_noise, [[b(1.0)]]);
    assert_eq!(od.trigger, Some(trigger));
    assert_eq!(od.estimates, vec![initial(4.0)]);
    assert!(od.residuals.is_empty());
}
