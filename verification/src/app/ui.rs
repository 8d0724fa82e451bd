use vstd::prelude::*;
use crate::sensor::model::SensorType;

verus! {

/// The picture shown beside the value of a quantity.
pub open spec fn spec_icon_path(sensor_type: SensorType) -> Seq<char> {
    match sensor_type {
        SensorType::Temperature => "/assets/temperature.png"@,
        SensorType::Humidity => "/assets/humidity.png"@,
        SensorType::Barometric => "/assets/pressure.png"@,
    }
}

/// The path of the icon of `sensor_type`.
pub fn icon_path(sensor_type: SensorType) -> (path: &'static str)
    ensures
        path@ == spec_icon_path(sensor_type),
{
    match sensor_type {
        SensorType::Temperature => "/assets/temperature.png",
        SensorType::Humidity => "/assets/humidity.png",
        SensorType::Barometric => "/assets/pressure.png",
    }
}

} // verus!
