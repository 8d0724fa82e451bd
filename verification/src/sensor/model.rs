use vstd::prelude::*;

verus! {

/// The three quantities the sensor board measures.
#[derive(Debug, Clone, Copy, PartialEq, Eq, Structural)]
pub enum SensorType {
    Temperature,
    Humidity,
    Barometric,
}

impl SensorType {
    /// The name under which the sensor board knows this quantity.
    pub open spec fn spec_name(self) -> Seq<char> {
        match self {
            SensorType::Temperature => "temperature"@,
            SensorType::Humidity => "humidity"@,
            SensorType::Barometric => "barometric"@,
        }
    }

    /// The unit printed after a displayed value.
    pub open spec fn spec_unit(self) -> Seq<char> {
        match self {
            SensorType::Temperature => "°C"@,
            SensorType::Humidity => "%"@,
            SensorType::Barometric => "hPa"@,
        }
    }

    /// What a raw reading is divided by before it is shown: the board
    /// reports pressure in pascal, the display shows hectopascal.
    pub open spec fn spec_display_divisor(self) -> u32 {
        match self {
            SensorType::Temperature => 1,
            SensorType::Humidity => 1,
            SensorType::Barometric => 100,
        }
    }

    /// The name of the quantity, as written in requests to the sensor board.
    pub fn name(&self) -> (name: &'static str)
        ensures
            name@ == self.spec_name(),
    {
        match self {
            SensorType::Temperature => "temperature",
            SensorType::Humidity => "humidity",
            SensorType::Barometric => "barometric",
        }
    }

    /// The unit suffix of a formatted value.
    pub fn unit(&self) -> (unit: &'static str)
        ensures
            unit@ == self.spec_unit(),
    {
        match self {
            SensorType::Temperature => "°C",
            SensorType::Humidity => "%",
            SensorType::Barometric => "hPa",
        }
    }

    /// The divisor that turns a raw reading into the displayed magnitude.
    pub fn display_divisor(&self) -> (divisor: u32)
        ensures
            divisor == self.spec_display_divisor(),
            divisor >= 1,
    {
        match self {
            SensorType::Temperature => 1,
            SensorType::Humidity => 1,
            SensorType::Barometric => 100,
        }
    }
}

/// The state the server keeps: the latest reading and every reading so far,
/// oldest first. `D` is the reading type.
pub struct SensorState<D> {
    pub data: D,
    pub historical_data: Vec<D>,
}

impl<D> SensorState<D> {
    /// The latest reading is the last one of the history, which is never empty.
    pub open spec fn well_formed(&self) -> bool {
        &&& self.historical_data@.len() > 0
        &&& self.data == self.historical_data@.last()
    }
}

impl<D: Copy> SensorState<D> {
    /// A state that holds one reading, as latest and as its whole history.
    pub fn new(state: D) -> (s: Self)
        ensures
            s.data == state,
            s.historical_data@ == seq![state],
            s.well_formed(),
    {
        let mut historical_data: Vec<D> = Vec::new();
        historical_data.push(state);
        SensorState { data: state, historical_data }
    }

    /// Takes in a fresh reading: it becomes the latest and is appended to
    /// the history.
    pub fn record(&mut self, reading: D)
        ensures
            final(self).data == reading,
            final(self).historical_data@ == old(self).historical_data@.push(reading),
            final(self).well_formed(),
    {
        self.data = reading;
        self.historical_data.push(reading);
    }
}

} // verus!
