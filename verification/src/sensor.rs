pub mod model;

use vstd::prelude::*;
use crate::sensor::model::SensorType;

verus! {

/// The request that reads one quantity from the sensor board.
pub open spec fn spec_sensor_url(sensor_type: SensorType) -> Seq<char> {
    "http://192.168.10.40/sensor?sensor_type="@ + sensor_type.spec_name() + "&index=0"@
}

/// The address of the request that reads `sensor_type` from the sensor board.
pub fn sensor_url(sensor_type: SensorType) -> (url: String)
    ensures
        url@ == spec_sensor_url(sensor_type),
{
    let mut url = String::from_str("http://192.168.10.40/sensor?sensor_type=");
    url.append(sensor_type.name());
    url.append("&index=0");
    url
}

/// Different quantities are asked for at different addresses.
pub proof fn lemma_sensor_url_injective(a: SensorType, b: SensorType)
    ensures
        spec_sensor_url(a) == spec_sensor_url(b) ==> a == b,
{
    reveal_strlit("http://192.168.10.40/sensor?sensor_type=");
    reveal_strlit("&index=0");
    reveal_strlit("temperature");
    reveal_strlit("humidity");
    reveal_strlit("barometric");
    let prefix = "http://192.168.10.40/sensor?sensor_type="@;
    let k = prefix.len() as int;
    if spec_sensor_url(a) == spec_sensor_url(b) && a != b {
        assert(spec_sensor_url(a)[k] == a.spec_name()[0]);
        assert(spec_sensor_url(b)[k] == b.spec_name()[0]);
    }
}

} // verus!
