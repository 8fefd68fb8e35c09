//! Decoupled sensor-event delivery and a self-describing wire codec for
//! structured sensor payloads.
//!
//! The crate has three parts:
//! - [`wire`]: a byte-oriented, self-describing encoding (field-name-keyed
//!   records, length-prefixed sequences) with verified encoders, decoders and
//!   round-trip lemmas;
//! - [`sensors`]: typed views that narrow an untyped sensor event to one
//!   expected shape, and the wire representations of the three event kinds
//!   (camera image, lidar measurement, radar measurement), each in a borrowed
//!   (encode-only) and an owned (round-trip) form where the source has both;
//! - [`sensor_comms`]: the decision core of the callback-decoupling worker:
//!   which jobs a worker runs, in what order, and when a teardown may join
//!   the worker thread.

pub mod sensor_comms;
pub mod sensors;
pub mod wire;
