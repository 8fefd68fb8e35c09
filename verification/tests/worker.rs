//! Scenarios for the worker's decision core and for event narrowing: jobs
//! run exactly once each, in submission order, up to the shutdown sentinel;
//! teardown never joins from the worker's own thread; a wrongly shaped event
//! is dropped without disturbing the next one.

use carla_data_serde::sensor_comms::{
    handler_may_run, should_join, worker_loop, worker_step, Directive, Listen, Message,
    WorkerState,
};
use carla_data_serde::sensors::image::{ColorRemote, Image, ImageEvent, ImageFactory, PixelGrid};
use carla_data_serde::sensors::lidar_measurement::LidarMeasurementFactory;
use carla_data_serde::sensors::radar_measurement::RadarMeasurementFactory;
use carla_data_serde::sensors::lidar_measurement::LidarMeasurement;
use carla_data_serde::sensors::radar_measurement::{RadarMeasurement, RadarMeasurementEvent};
use carla_data_serde::sensors::SensorEvent;

fn small_image_event(fov_angle: f32) -> ImageEvent {
    let rows = vec![vec![ColorRemote { b: 1, g: 2, r: 3, a: 4 }]];
    ImageEvent { fov_angle: fov_angle.to_bits(), array: PixelGrid::from_rows(rows).unwrap() }
}

#[test]
fn jobs_before_shutdown_run_in_order() {
    let inbox: Vec<Message<u32>> = vec![
        Message::Job(1),
        Message::Job(2),
        Message::Job(3),
        Message::Shutdown,
    ];
    let (executed, state) = worker_loop(inbox);
    assert_eq!(executed, vec![1, 2, 3]);
    assert_eq!(state, WorkerState::Terminated);
}

#[test]
fn jobs_after_shutdown_are_not_run() {
    let inbox: Vec<Message<u32>> = vec![
        Message::Job(1),
        Message::Shutdown,
        Message::Job(2),
        Message::Job(3),
    ];
    let (executed, state) = worker_loop(inbox);
    assert_eq!(executed, vec![1]);
    assert_eq!(state, WorkerState::Terminated);
}

#[test]
fn closed_queue_terminates_without_sentinel() {
    let inbox: Vec<Message<u32>> = vec![Message::Job(7)];
    let (executed, state) = worker_loop(inbox);
    assert_eq!(executed, vec![7]);
    assert_eq!(state, WorkerState::Terminated);
    let (executed, state) = worker_loop(Vec::<Message<u32>>::new());
    assert!(executed.is_empty());
    assert_eq!(state, WorkerState::Terminated);
}

#[test]
fn step_runs_jobs_and_stops_on_sentinel() {
    match worker_step(Message::Job(42u32)) {
        Directive::RunThenContinue(j) => assert_eq!(j, 42),
        Directive::Stop => panic!("a job must be run"),
    }
    assert!(matches!(worker_step(Message::<u32>::Shutdown), Directive::Stop));
}

#[test]
fn teardown_skips_join_on_worker_thread() {
    // Destroying the worker from inside one of its own jobs: the thread
    // identities coincide and the join is skipped, so no self-deadlock.
    assert_eq!(should_join(11, 11), false);
    // Destroying it from any other thread joins as usual.
    assert_eq!(should_join(10, 11), true);
}

#[test]
fn poisoned_guard_skips_handler() {
    assert_eq!(handler_may_run(true), false);
    assert_eq!(handler_may_run(false), true);
}

#[test]
fn mismatch_is_dropped_and_next_event_still_narrows() {
    let view = Image;
    let wrong = SensorEvent::Radar(RadarMeasurementEvent { detections: Vec::new() });
    assert!(view.narrow(wrong).is_none());
    let right = SensorEvent::Image(small_image_event(45.0));
    let narrowed = view.narrow(right).unwrap();
    assert_eq!(f32::from_bits(narrowed.fov_angle), 45.0f32);
    assert_eq!(narrowed.array.height, 1);
}

#[test]
fn each_view_accepts_only_its_shape() {
    let image_event = SensorEvent::Image(small_image_event(1.0));
    assert!(LidarMeasurement.narrow(image_event).is_none());
    let radar_event = SensorEvent::Radar(RadarMeasurementEvent { detections: Vec::new() });
    assert!(RadarMeasurement.narrow(radar_event).is_some());
    let radar_event = SensorEvent::Radar(RadarMeasurementEvent { detections: Vec::new() });
    assert!(Image.narrow(radar_event).is_none());
}

#[test]
fn factories_produce_working_views() {
    let view = ImageFactory.make();
    assert!(view.narrow(SensorEvent::Image(small_image_event(2.0))).is_some());
    let view = LidarMeasurementFactory.make();
    assert!(view.narrow(SensorEvent::Image(small_image_event(2.0))).is_none());
    let view = RadarMeasurementFactory.make();
    assert!(view.narrow(SensorEvent::Radar(RadarMeasurementEvent { detections: Vec::new() }))
        .is_some());
}
