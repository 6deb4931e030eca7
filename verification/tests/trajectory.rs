use hifitime::TimeUnits;
use nyx_space::md::trajectory::{Evaluation, Node, Trajectory, TrajectoryError};
use nyx_space::time::{Duration, Epoch};

fn duration_of(d: hifitime::Duration) -> Duration {
    let (centuries, nanoseconds) = d.to_parts();
    Duration::from_parts(centuries, nanoseconds).unwrap()
}

fn at(seconds: i64) -> Epoch {
    let e = hifitime::Epoch::from_gregorian_tai(2020, 1, 1, 0, 0, 0, 0) + seconds.seconds();
    let (centuries, nanoseconds) = e.to_tai_duration().to_parts();
    Epoch::from_tai_parts(centuries, nanoseconds).unwrap()
}

fn node(seconds: i64) -> Node<2> {
    let x = seconds as f64;
    Node {
        epoch: at(seconds),
        state: [(x * x).to_bits(), (2.0 * x).to_bits()],
        rate: [(2.0 * x).to_bits(), 2.0_f64.to_bits()],
    }
}

fn sample() -> Trajectory<2> {
    let mut traj = Trajectory::<2>::new();
    for s in [0, 10, 15, 40, 100] {
        assert!(traj.append(node(s)));
    }
    traj
}

#[test]
fn append_keeps_the_nodes_in_strictly_increasing_time() {
    let mut traj = Trajectory::<2>::new();
    assert_eq!(traj.len(), 0);
    assert_eq!(traj.first(), None);
    assert_eq!(traj.last(), None);
    assert!(traj.append(node(5)));
    assert!(!traj.append(node(5)));
    assert!(!traj.append(node(4)));
    assert!(traj.append(node(6)));
    assert_eq!(traj.len(), 2);
    assert_eq!(traj.first(), Some(node(5)));
    assert_eq!(traj.last(), Some(node(6)));
}

#[test]
fn queries_outside_the_span_are_out_of_bounds() {
    let traj = sample();
    assert_eq!(
        traj.evaluate(at(-1)),
        Err(TrajectoryError::OutOfBounds { t: at(-1) })
    );
    assert_eq!(
        traj.evaluate(at(101)),
        Err(TrajectoryError::OutOfBounds { t: at(101) })
    );
    assert_eq!(
        traj.locate(at(101)),
        Err(TrajectoryError::OutOfBounds { t: at(101) })
    );
    let empty = Trajectory::<2>::new();
    assert_eq!(
        empty.evaluate(at(0)),
        Err(TrajectoryError::OutOfBounds { t: at(0) })
    );
}

#[test]
fn queries_at_a_node_return_the_stored_node() {
    let traj = sample();
    for (i, s) in [0, 10, 15, 40, 100].into_iter().enumerate() {
        assert_eq!(traj.locate(at(s)), Ok(i));
        assert_eq!(traj.evaluate(at(s)), Ok(Evaluation::Stored(node(s))));
    }
}

#[test]
fn queries_between_nodes_return_the_neighbours() {
    let traj = sample();
    assert_eq!(traj.locate(at(1)), Ok(0));
    assert_eq!(traj.locate(at(9)), Ok(0));
    assert_eq!(traj.locate(at(12)), Ok(1));
    assert_eq!(traj.locate(at(39)), Ok(2));
    assert_eq!(traj.locate(at(41)), Ok(3));
    assert_eq!(traj.locate(at(99)), Ok(3));
    assert_eq!(
        traj.evaluate(at(12)),
        Ok(Evaluation::Between(node(10), node(15)))
    );
    assert_eq!(
        traj.evaluate(at(99)),
        Ok(Evaluation::Between(node(40), node(100)))
    );
}

#[test]
fn a_single_node_answers_only_at_its_epoch() {
    let mut traj = Trajectory::<2>::new();
    assert!(traj.append(node(7)));
    assert_eq!(traj.evaluate(at(7)), Ok(Evaluation::Stored(node(7))));
    assert_eq!(
        traj.evaluate(at(8)),
        Err(TrajectoryError::OutOfBounds { t: at(8) })
    );
    assert_eq!(traj.every(duration_of(1.seconds())), vec![at(7)]);
}

#[test]
fn every_steps_from_the_start_to_the_end() {
    let traj = sample();
    assert_eq!(
        traj.every(duration_of(30.seconds())),
        vec![at(0), at(30), at(60), at(90)]
    );
    assert_eq!(
        traj.every(duration_of(50.seconds())),
        vec![at(0), at(50), at(100)]
    );
    assert_eq!(traj.every(duration_of(101.seconds())), vec![at(0)]);
    assert_eq!(traj.every(Duration::zero()), vec![]);
    assert_eq!(traj.every(duration_of(-(1.seconds()))), vec![]);
    assert_eq!(Trajectory::<2>::new().every(duration_of(1.seconds())), vec![]);
    assert_eq!(
        traj.every(duration_of(30.seconds())),
        traj.every(duration_of(30.seconds()))
    );
    assert_eq!(traj.every(duration_of(1.seconds())).len(), 101);
}

#[test]
fn a_window_holds_its_ends_and_the_nodes_between() {
    let traj = sample();
    assert_eq!(
        traj.window(at(5), at(50)),
        Ok(vec![at(5), at(10), at(15), at(40), at(50)])
    );
    assert_eq!(traj.window(at(10), at(15)), Ok(vec![at(10), at(15)]));
    assert_eq!(traj.window(at(11), at(12)), Ok(vec![at(11), at(12)]));
    assert_eq!(
        traj.window(at(0), at(100)),
        Ok(vec![at(0), at(10), at(15), at(40), at(100)])
    );
    assert_eq!(traj.window(at(20), at(20)), Ok(vec![]));
    assert_eq!(traj.window(at(50), at(20)), Ok(vec![]));
    assert_eq!(
        traj.window(at(-1), at(20)),
        Err(TrajectoryError::OutOfBounds { t: at(-1) })
    );
    assert_eq!(
        traj.window(at(20), at(101)),
        Err(TrajectoryError::OutOfBounds { t: at(101) })
    );
    assert_eq!(
        traj.window(at(200), at(300)),
        Err(TrajectoryError::OutOfBounds { t: at(200) })
    );
    assert_eq!(
        traj.epochs(),
        vec![at(0), at(10), at(15), at(40), at(100)]
    );
}

fn seconds_since_start(e: Epoch) -> f64 {
    let (centuries, nanoseconds) = e.since(&at(0)).to_parts();
    hifitime::Duration::from_parts(centuries, nanoseconds).to_seconds()
}

#[test]
fn find_all_brackets_every_change_of_sides() {
    let traj = sample();
    let tolerance = duration_of(1.microseconds());
    let side = |e: Epoch| {
        let t = seconds_since_start(e);
        (t - 12.5) * (t - 60.0) >= 0.0
    };
    let found = traj.find_all(&tolerance, &side);
    assert_eq!(found.len(), 2);
    assert_eq!(found[0].segment, 1);
    assert_eq!(found[1].segment, 3);
    for (crossing, root) in found.iter().zip([12.5, 60.0]) {
        let b = crossing.bracket;
        assert!(b.left.is_before(&b.right));
        assert!(b.right.since(&b.left).is_less_than(&tolerance));
        assert!(seconds_since_start(b.left) <= root);
        assert!(seconds_since_start(b.right) >= root);
        assert!((seconds_since_start(b.left) - root).abs() < 1e-6);
    }
    assert!(found[0].bracket.left_side);
    assert!(!found[1].bracket.left_side);

    assert!(traj.find_all(&tolerance, &|_| true).is_empty());
    assert!(Trajectory::<2>::new().find_all(&tolerance, &side).is_empty());
}

#[test]
fn find_bracketed_searches_the_window_only() {
    let traj = sample();
    let tolerance = duration_of(1.microseconds());
    let side = |e: Epoch| {
        let t = seconds_since_start(e);
        (t - 12.5) * (t - 60.0) >= 0.0
    };
    let found = traj
        .find_bracketed(at(20), at(90), &tolerance, &side)
        .unwrap();
    assert_eq!(found.len(), 1);
    assert_eq!(found[0].segment, 1);
    assert!((seconds_since_start(found[0].bracket.left) - 60.0).abs() < 1e-6);
    let found = traj
        .find_bracketed(at(11), at(14), &tolerance, &side)
        .unwrap();
    assert_eq!(found.len(), 1);
    assert_eq!(found[0].segment, 0);
    assert!((seconds_since_start(found[0].bracket.left) - 12.5).abs() < 1e-6);
    assert_eq!(
        traj.find_bracketed(at(20), at(50), &tolerance, &side),
        Ok(vec![])
    );
    assert_eq!(
        traj.find_bracketed(at(50), at(20), &tolerance, &side),
        Ok(vec![])
    );
    assert_eq!(
        traj.find_bracketed(at(20), at(150), &tolerance, &side),
        Err(TrajectoryError::OutOfBounds { t: at(150) })
    );
    assert_eq!(
        traj.find_bracketed(at(-20), at(150), &tolerance, &side),
        Err(TrajectoryError::OutOfBounds { t: at(-20) })
    );
}
