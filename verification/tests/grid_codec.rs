//! Scenarios for the pixel grid and the image record: rectangular round
//! trips, the two degenerate empty shapes, and the ragged-row rejection.

use carla_data_serde::sensors::image::grid_color_remote::{deserialize, serialize};
use carla_data_serde::sensors::image::{ColorRemote, ImageEvent, ImageEventSerDe, PixelGrid};
use carla_data_serde::wire::{enc_u64, DecodeErrorKind};

fn color(b: u8, g: u8, r: u8, a: u8) -> ColorRemote {
    ColorRemote { b, g, r, a }
}

#[test]
fn color_exact_bytes() {
    let mut out: Vec<u8> = Vec::new();
    carla_data_serde::sensors::image::enc_color(&color(1, 2, 3, 4), &mut out);
    assert_eq!(
        out,
        vec![
            1, b'b', 1, 1, //
            1, b'g', 1, 2, //
            1, b'r', 1, 3, //
            1, b'a', 1, 4,
        ]
    );
}

#[test]
fn rectangular_grid_round_trip() {
    let rows = vec![
        vec![color(1, 2, 3, 4), color(5, 6, 7, 8), color(9, 10, 11, 12)],
        vec![color(13, 14, 15, 16), color(17, 18, 19, 20), color(21, 22, 23, 24)],
    ];
    let grid = PixelGrid::from_rows(rows).unwrap();
    assert_eq!(grid.height, 2);
    assert_eq!(grid.width, 3);
    let mut bytes: Vec<u8> = Vec::new();
    serialize(&grid, &mut bytes);
    let (back, end) = deserialize(&bytes, 0).unwrap();
    assert_eq!(end, bytes.len());
    assert_eq!(back.height, 2);
    assert_eq!(back.width, 3);
    assert_eq!(back.cells, grid.cells);
}

#[test]
fn zero_rows_decode_to_empty_grid() {
    let grid = PixelGrid::from_rows(Vec::new()).unwrap();
    assert_eq!((grid.height, grid.width), (0, 0));
    assert!(grid.cells.is_empty());
    let mut bytes: Vec<u8> = Vec::new();
    serialize(&grid, &mut bytes);
    let (back, end) = deserialize(&bytes, 0).unwrap();
    assert_eq!(end, bytes.len());
    assert_eq!((back.height, back.width), (0, 0));
    assert!(back.cells.is_empty());
}

#[test]
fn single_row_of_zero_columns_round_trips() {
    let grid = PixelGrid::from_rows(vec![Vec::new()]).unwrap();
    assert_eq!((grid.height, grid.width), (1, 0));
    let mut bytes: Vec<u8> = Vec::new();
    serialize(&grid, &mut bytes);
    let (back, end) = deserialize(&bytes, 0).unwrap();
    assert_eq!(end, bytes.len());
    assert_eq!((back.height, back.width), (1, 0));
    assert!(back.cells.is_empty());
}

#[test]
fn ragged_rows_are_rejected_by_from_rows() {
    let rows = vec![vec![color(1, 1, 1, 1)], vec![color(2, 2, 2, 2), color(3, 3, 3, 3)]];
    assert!(PixelGrid::from_rows(rows).is_none());
}

#[test]
fn ragged_bytes_are_rejected_by_decode() {
    // Two rows of unequal length, written with the wire primitives the
    // encoder itself uses: a shape violation, not a panic.
    let mut bytes: Vec<u8> = Vec::new();
    enc_u64(2, &mut bytes);
    enc_u64(1, &mut bytes);
    carla_data_serde::sensors::image::enc_color(&color(1, 1, 1, 1), &mut bytes);
    enc_u64(2, &mut bytes);
    carla_data_serde::sensors::image::enc_color(&color(2, 2, 2, 2), &mut bytes);
    carla_data_serde::sensors::image::enc_color(&color(3, 3, 3, 3), &mut bytes);
    let err = deserialize(&bytes, 0).unwrap_err();
    assert_eq!(err.kind, DecodeErrorKind::Ragged);
    assert_eq!(err.at, 0);
}

#[test]
fn image_record_round_trip() {
    let rows = vec![
        vec![color(10, 20, 30, 40), color(50, 60, 70, 80)],
        vec![color(11, 21, 31, 41), color(51, 61, 71, 81)],
    ];
    let grid = PixelGrid::from_rows(rows).unwrap();
    let event = ImageEvent { fov_angle: (90.0f32).to_bits(), array: grid };
    let record = ImageEventSerDe::from(event);
    assert_eq!(record.height, 2);
    assert_eq!(record.width, 2);
    assert_eq!(record.len, 4);
    assert_eq!(record.is_empty, false);
    let bytes = record.encode();
    let back = ImageEventSerDe::decode(&bytes).unwrap();
    assert_eq!(back.height, record.height);
    assert_eq!(back.width, record.width);
    assert_eq!(back.len, record.len);
    assert_eq!(back.is_empty, record.is_empty);
    assert_eq!(f32::from_bits(back.fov_angle), 90.0f32);
    assert_eq!(back.array.height, 2);
    assert_eq!(back.array.width, 2);
    assert_eq!(back.array.cells, record.array.cells);
}

#[test]
fn trailing_bytes_are_rejected() {
    let grid = PixelGrid::from_rows(Vec::new()).unwrap();
    let event = ImageEvent { fov_angle: 0, array: grid };
    let record = ImageEventSerDe::from(event);
    let mut bytes = record.encode();
    bytes.push(0);
    let err = ImageEventSerDe::decode(&bytes).unwrap_err();
    assert_eq!(err.kind, DecodeErrorKind::TrailingBytes);
    assert_eq!(err.at, bytes.len() - 1);
}

#[test]
fn empty_image_record_round_trip() {
    let grid = PixelGrid::from_rows(Vec::new()).unwrap();
    let event = ImageEvent { fov_angle: 0, array: grid };
    let record = ImageEventSerDe::from(event);
    assert_eq!(record.len, 0);
    assert_eq!(record.is_empty, true);
    let bytes = record.encode();
    let back = ImageEventSerDe::decode(&bytes).unwrap();
    assert_eq!((back.height, back.width, back.len, back.is_empty), (0, 0, 0, true));
    assert!(back.array.cells.is_empty());
}
