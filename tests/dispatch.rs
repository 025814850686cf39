use imu_replay::dispatch::{Action, Dispatcher, Event, Phase};
use imu_replay::sample::{update_for, Correction, RawSample, Triple, Update};

fn unit_scale() -> Triple<f64> {
    Triple { x: 1.0, y: 1.0, z: 1.0 }
}

fn gyro(x: f64, y: f64, z: f64, ox: f64, oy: f64, oz: f64) -> RawSample<f64> {
    RawSample::Gyro { x, y, z, ox, oy, oz }
}

/// Evaluates the operands of an update as the estimator receives them:
/// double precision, narrowed at the end.
fn corrected(u: &Update<f64>) -> (f32, f32, f32) {
    match u {
        Update::Gyro(t) => {
            let c = |c: &Correction<f64>| ((c.raw - c.offset) * c.scale) as f32;
            (c(&t.x), c(&t.y), c(&t.z))
        }
        Update::Accel(t) => (t.x as f32, t.y as f32, t.z as f32),
    }
}

#[test]
fn two_record_dataset_reaches_finished() {
    let mut d = Dispatcher::new(unit_scale());
    assert_eq!(d.step(Event::Open), Action::Nothing);
    assert_eq!(d.phase(), Phase::Streaming);
    let a1 = d.step(Event::Record(RawSample::Accel { x: 0.0, y: 0.0, z: 1.0 }));
    assert_eq!(a1, Action::Deliver(Update::Accel(Triple { x: 0.0, y: 0.0, z: 1.0 })));
    let a2 = d.step(Event::Record(gyro(0.0, 0.0, 0.0, 0.0, 0.0, 0.0)));
    match a2 {
        Action::Deliver(u @ Update::Gyro(_)) => assert_eq!(corrected(&u), (0.0, 0.0, 0.0)),
        other => panic!("expected a gyroscope update, got {:?}", other),
    }
    assert_eq!(d.step(Event::EndOfData), Action::Report);
    assert_eq!(d.phase(), Phase::Finished);
    assert_eq!(d.position(), 2);
}

#[test]
fn gyro_axes_keep_their_own_offset_and_scale() {
    let scale = Triple { x: 2.0, y: 3.0, z: 5.0 };
    let u = update_for(&gyro(10.0, 20.0, 30.0, 1.0, 2.0, 3.0), &scale);
    assert_eq!(
        u,
        Update::Gyro(Triple {
            x: Correction { raw: 10.0, offset: 1.0, scale: 2.0 },
            y: Correction { raw: 20.0, offset: 2.0, scale: 3.0 },
            z: Correction { raw: 30.0, offset: 3.0, scale: 5.0 },
        })
    );
    assert_eq!(corrected(&u), (18.0, 54.0, 135.0));
}

#[test]
fn accel_passes_through_unscaled() {
    let scale = Triple { x: 2.0, y: 3.0, z: 5.0 };
    let u = update_for(&RawSample::Accel { x: 0.5, y: -9.81, z: 1.25 }, &scale);
    assert_eq!(u, Update::Accel(Triple { x: 0.5, y: -9.81, z: 1.25 }));
}

#[test]
fn gyro_operands_evaluate_in_double_precision() {
    let scale = Triple { x: 10000000.0, y: 1.0, z: 1.0 };
    let u = update_for(&gyro(1.0000001, 0.0, 0.0, 1.0, 0.0, 0.0), &scale);
    let double_then_narrow = ((1.0000001f64 - 1.0) * 10000000.0) as f32;
    let single_throughout = (1.0000001f32 - 1.0f32) * 10000000.0f32;
    assert_ne!(double_then_narrow, single_throughout);
    assert_eq!(corrected(&u).0, double_then_narrow);
}

#[test]
fn updates_follow_file_order() {
    let scale = Triple { x: 1.0, y: 2.0, z: 4.0 };
    let records = vec![
        gyro(1.0, 1.0, 1.0, 0.5, 0.5, 0.5),
        RawSample::Accel { x: 1.0, y: 2.0, z: 3.0 },
        RawSample::Accel { x: 4.0, y: 5.0, z: 6.0 },
        gyro(2.0, 3.0, 4.0, 1.0, 1.0, 1.0),
    ];
    let mut d = Dispatcher::new(scale);
    d.step(Event::Open);
    let mut delivered = Vec::new();
    for r in &records {
        match d.step(Event::Record(*r)) {
            Action::Deliver(u) => delivered.push(u),
            other => panic!("expected an update, got {:?}", other),
        }
    }
    let expected: Vec<Update<f64>> = records.iter().map(|r| update_for(r, &scale)).collect();
    assert_eq!(delivered, expected);
    assert_eq!(corrected(&delivered[0]), (0.5, 1.0, 2.0));
    assert_eq!(corrected(&delivered[1]), (1.0, 2.0, 3.0));
    assert_eq!(corrected(&delivered[3]), (1.0, 4.0, 12.0));
    assert_eq!(d.position(), 4);
}

#[test]
fn malformed_record_stops_the_run() {
    let mut d = Dispatcher::new(unit_scale());
    d.step(Event::Open);
    let a = d.step(Event::Record(RawSample::Accel { x: 0.0, y: 0.0, z: 1.0 }));
    assert!(matches!(a, Action::Deliver(_)));
    assert_eq!(d.step(Event::Malformed), Action::Abort { position: 1 });
    assert_eq!(d.phase(), Phase::Aborted);
    assert_eq!(d.step(Event::Record(gyro(1.0, 1.0, 1.0, 0.0, 0.0, 0.0))), Action::Nothing);
    assert_eq!(d.step(Event::EndOfData), Action::Nothing);
    assert_eq!(d.step(Event::Query), Action::Nothing);
    assert_eq!(d.phase(), Phase::Aborted);
    assert_eq!(d.position(), 1);
}

#[test]
fn malformed_first_record_delivers_nothing() {
    let mut d = Dispatcher::new(unit_scale());
    d.step(Event::Open);
    assert_eq!(d.step(Event::Malformed), Action::Abort { position: 0 });
    assert_eq!(d.step(Event::Record(RawSample::Accel { x: 1.0, y: 1.0, z: 1.0 })), Action::Nothing);
}

#[test]
fn query_after_finish_is_repeatable() {
    let mut d = Dispatcher::new(unit_scale());
    d.step(Event::Open);
    d.step(Event::Record(RawSample::Accel { x: 0.0, y: 0.0, z: 1.0 }));
    assert_eq!(d.step(Event::EndOfData), Action::Report);
    assert_eq!(d.step(Event::Query), Action::Report);
    assert_eq!(d.step(Event::Query), Action::Report);
    assert_eq!(d.phase(), Phase::Finished);
    assert_eq!(d.position(), 1);
}

#[test]
fn records_before_open_are_ignored() {
    let mut d = Dispatcher::new(unit_scale());
    assert_eq!(d.step(Event::Record(RawSample::Accel { x: 1.0, y: 1.0, z: 1.0 })), Action::Nothing);
    assert_eq!(d.step(Event::Query), Action::Nothing);
    assert_eq!(d.phase(), Phase::NotStarted);
    assert_eq!(d.position(), 0);
}

#[test]
fn empty_dataset_finishes_with_a_report() {
    let mut d = Dispatcher::new(unit_scale());
    d.step(Event::Open);
    assert_eq!(d.step(Event::EndOfData), Action::Report);
    assert_eq!(d.phase(), Phase::Finished);
    assert_eq!(d.position(), 0);
    assert_eq!(d.gyro_scale(), unit_scale());
}
