//! Scenarios for the lidar and radar wire records: owned round trips over
//! lists of every size, and byte-identical borrowed and owned encodings.

use carla_data_serde::sensors::lidar_measurement::{
    location_with, slice_lidar_detection_remote, vec_lidar_detection_remote, LidarDetectionRemote,
    LidarMeasurementEvent, LidarMeasurementSerBorrowed, LidarMeasurementSerDe, LocationRemote,
};
use carla_data_serde::sensors::radar_measurement::{
    RadarDetectionRemote, RadarMeasurementEvent, RadarMeasurementSerBorrowed,
    RadarMeasurementSerDe,
};
use carla_data_serde::wire::DecodeErrorKind;

fn lidar_detection(x: f32, y: f32, z: f32, intensity: f32) -> LidarDetectionRemote {
    LidarDetectionRemote {
        point: LocationRemote { x: x.to_bits(), y: y.to_bits(), z: z.to_bits() },
        intensity: intensity.to_bits(),
    }
}

fn radar_detection(velocity: f32, azimuth: f32, altitude: f32, depth: f32) -> RadarDetectionRemote {
    RadarDetectionRemote {
        velocity: velocity.to_bits(),
        azimuth: azimuth.to_bits(),
        altitude: altitude.to_bits(),
        depth: depth.to_bits(),
    }
}

#[test]
fn lidar_round_trip_three_detections() {
    let detections = vec![
        lidar_detection(1.0, 2.0, 3.0, 0.5),
        lidar_detection(-4.0, 5.5, -6.25, 0.25),
        lidar_detection(0.0, -0.0, 7.75, 1.0),
    ];
    let event = LidarMeasurementEvent {
        horizontal_angle: (0.75f32).to_bits(),
        channel_count: 32,
        detections,
    };
    let record = LidarMeasurementSerDe::from(event);
    assert_eq!(record.len, 3);
    assert_eq!(record.is_empty, false);
    let bytes = record.encode();
    let back = LidarMeasurementSerDe::decode(&bytes).unwrap();
    assert_eq!(f32::from_bits(back.horizontal_angle), 0.75f32);
    assert_eq!(back.channel_count, 32);
    assert_eq!(back.len, 3);
    assert_eq!(back.is_empty, false);
    assert_eq!(back.detections, record.detections);
}

#[test]
fn lidar_round_trip_no_detections() {
    let event = LidarMeasurementEvent {
        horizontal_angle: 0,
        channel_count: 16,
        detections: Vec::new(),
    };
    let record = LidarMeasurementSerDe::from(event);
    assert_eq!(record.len, 0);
    assert_eq!(record.is_empty, true);
    let bytes = record.encode();
    let back = LidarMeasurementSerDe::decode(&bytes).unwrap();
    assert_eq!(back.channel_count, 16);
    assert_eq!(back.len, 0);
    assert_eq!(back.is_empty, true);
    assert!(back.detections.is_empty());
}

#[test]
fn lidar_borrowed_and_owned_encodings_are_byte_identical() {
    let event = LidarMeasurementEvent {
        horizontal_angle: (1.5f32).to_bits(),
        channel_count: 8,
        detections: vec![lidar_detection(1.0, 2.0, 3.0, 0.5), lidar_detection(9.0, 8.0, 7.0, 0.75)],
    };
    let borrowed_bytes = LidarMeasurementSerBorrowed::from(&event).encode();
    let owned_bytes = LidarMeasurementSerDe::from(event).encode();
    assert_eq!(borrowed_bytes, owned_bytes);
}

#[test]
fn radar_round_trip_two_detections() {
    let detections = vec![radar_detection(1.0, 0.1, 0.2, 30.0), radar_detection(
        -2.0, -0.1, 0.3, 45.5,
    )];
    let event = RadarMeasurementEvent { detections };
    let borrowed = RadarMeasurementSerBorrowed::from(&event);
    let record = RadarMeasurementSerDe {
        detection_amount: borrowed.detection_amount,
        detections: event.detections.clone(),
        len: borrowed.len,
        is_empty: borrowed.is_empty,
    };
    assert_eq!(record.detection_amount, 2);
    let bytes = record.encode();
    let back = RadarMeasurementSerDe::decode(&bytes).unwrap();
    assert_eq!(back.detection_amount, 2);
    assert_eq!(back.len, 2);
    assert_eq!(back.is_empty, false);
    assert_eq!(back.detections, record.detections);
    assert_eq!(f32::from_bits(back.detections[0].depth), 30.0f32);
}

#[test]
fn radar_round_trip_no_detections() {
    let record = RadarMeasurementSerDe {
        detection_amount: 0,
        detections: Vec::new(),
        len: 0,
        is_empty: true,
    };
    let bytes = record.encode();
    let back = RadarMeasurementSerDe::decode(&bytes).unwrap();
    assert_eq!(back.detection_amount, 0);
    assert_eq!(back.len, 0);
    assert_eq!(back.is_empty, true);
    assert!(back.detections.is_empty());
}

#[test]
fn radar_borrowed_and_owned_encodings_are_byte_identical() {
    let event = RadarMeasurementEvent {
        detections: vec![radar_detection(1.0, 0.1, 0.2, 30.0)],
    };
    let borrowed_bytes = RadarMeasurementSerBorrowed::from(&event).encode();
    let owned = RadarMeasurementSerDe {
        detection_amount: 1,
        detections: event.detections.clone(),
        len: 1,
        is_empty: false,
    };
    assert_eq!(borrowed_bytes, owned.encode());
}

#[test]
fn location_round_trips_alone() {
    let loc = LocationRemote {
        x: (1.25f32).to_bits(),
        y: (-2.5f32).to_bits(),
        z: (1.0e30f32).to_bits(),
    };
    let mut bytes: Vec<u8> = Vec::new();
    location_with::serialize(&loc, &mut bytes);
    let (back, end) = location_with::deserialize(&bytes, 0).unwrap();
    assert_eq!(end, bytes.len());
    assert_eq!(back, loc);
    assert_eq!(f32::from_bits(back.y), -2.5f32);
}

#[test]
fn slice_and_vec_serializers_agree() {
    let dets = vec![lidar_detection(1.0, 2.0, 3.0, 0.5), lidar_detection(4.0, 5.0, 6.0, 0.25)];
    let mut from_slice: Vec<u8> = Vec::new();
    slice_lidar_detection_remote::serialize(&dets, &mut from_slice);
    let mut from_vec: Vec<u8> = Vec::new();
    vec_lidar_detection_remote::serialize(&dets, &mut from_vec);
    assert_eq!(from_slice, from_vec);
    let (back, end) = vec_lidar_detection_remote::deserialize(&from_vec, 0).unwrap();
    assert_eq!(end, from_vec.len());
    assert_eq!(back, dets);
}

#[test]
fn lidar_decode_rejects_garbage() {
    let garbage = vec![0xffu8, 0xee, 0xdd];
    let err = LidarMeasurementSerDe::decode(&garbage).unwrap_err();
    assert_eq!(err.kind, DecodeErrorKind::Truncated);
}

#[test]
fn radar_decode_rejects_truncation() {
    let record = RadarMeasurementSerDe {
        detection_amount: 1,
        detections: vec![radar_detection(1.0, 2.0, 3.0, 4.0)],
        len: 1,
        is_empty: false,
    };
    let mut bytes = record.encode();
    bytes.truncate(bytes.len() / 2);
    assert!(RadarMeasurementSerDe::decode(&bytes).is_err());
}
