//! Typed views over an untyped sensor event stream, and the wire
//! representations of the three event shapes a source produces.
//!
//! A source delivers every notification as one untyped [`SensorEvent`]. A
//! typed view narrows such an event against the one shape it expects: a
//! matching event yields its payload for the handler; any other shape yields
//! nothing and is dropped. Narrowing is stateless, so a mismatch never
//! disturbs what a later event narrows to.

pub mod image;
pub mod lidar_measurement;
pub mod radar_measurement;

use vstd::prelude::*;
use crate::sensor_comms::Listen;
use crate::sensors::image::{Image, ImageEvent};
use crate::sensors::lidar_measurement::{LidarMeasurement, LidarMeasurementEvent};
use crate::sensors::radar_measurement::{RadarMeasurement, RadarMeasurementEvent};

verus! {

/// One untyped notification from the sensor source: a payload under its
/// run-time shape.
pub enum SensorEvent {
    Image(ImageEvent),
    Lidar(LidarMeasurementEvent),
    Radar(RadarMeasurementEvent),
}

/// An event of the wrong shape never reaches an image handler, and it leaves
/// the view untouched: a later event of the right shape still narrows to its
/// payload.
pub proof fn lemma_image_mismatch_is_dropped(wrong: SensorEvent, evt: ImageEvent)
    requires
        !(wrong is Image),
    ensures
        Image::narrows(wrong) is None,
        Image::narrows(SensorEvent::Image(evt)) == Some(evt),
{
}

/// An event of the wrong shape never reaches a lidar handler, and it leaves
/// the view untouched: a later event of the right shape still narrows to its
/// payload.
pub proof fn lemma_lidar_mismatch_is_dropped(wrong: SensorEvent, evt: LidarMeasurementEvent)
    requires
        !(wrong is Lidar),
    ensures
        LidarMeasurement::narrows(wrong) is None,
        LidarMeasurement::narrows(SensorEvent::Lidar(evt)) == Some(evt),
{
}

/// An event of the wrong shape never reaches a radar handler, and it leaves
/// the view untouched: a later event of the right shape still narrows to its
/// payload.
pub proof fn lemma_radar_mismatch_is_dropped(wrong: SensorEvent, evt: RadarMeasurementEvent)
    requires
        !(wrong is Radar),
    ensures
        RadarMeasurement::narrows(wrong) is None,
        RadarMeasurement::narrows(SensorEvent::Radar(evt)) == Some(evt),
{
}

} // verus!
