use vstd::prelude::*;
use crate::sensor::model::SensorType;

verus! {

/// The lower end of the vertical axis of a chart, in displayed units.
pub open spec fn spec_min_y(sensor_type: SensorType) -> u32 {
    match sensor_type {
        SensorType::Temperature => 17,
        SensorType::Humidity => 30,
        SensorType::Barometric => 1000,
    }
}

/// The upper end of the vertical axis of a chart, in displayed units.
pub open spec fn spec_max_y(sensor_type: SensorType) -> u32 {
    match sensor_type {
        SensorType::Temperature => 23,
        SensorType::Humidity => 70,
        SensorType::Barometric => 1050,
    }
}

/// The lower end of the chart's vertical axis for `sensor_type`.
pub fn get_min_y(sensor_type: SensorType) -> (y: u32)
    ensures
        y == spec_min_y(sensor_type),
{
    match sensor_type {
        SensorType::Temperature => 17,
        SensorType::Humidity => 30,
        SensorType::Barometric => 1000,
    }
}

/// The upper end of the chart's vertical axis for `sensor_type`.
pub fn get_max_y(sensor_type: SensorType) -> (y: u32)
    ensures
        y == spec_max_y(sensor_type),
{
    match sensor_type {
        SensorType::Temperature => 23,
        SensorType::Humidity => 70,
        SensorType::Barometric => 1050,
    }
}

/// Every chart has an axis of positive height.
pub proof fn lemma_axis_nonempty(sensor_type: SensorType)
    ensures
        spec_min_y(sensor_type) < spec_max_y(sensor_type),
{
}

} // verus!
