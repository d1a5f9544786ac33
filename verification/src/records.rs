use vstd::prelude::*;

verus! {

/// Decimal quantities from the fixed-width records are kept in the scaled
/// integer units the format itself uses: wind speed, temperature and
/// pressure in tenths of their unit, coordinates in thousandths of a
/// degree. Nothing is rounded on the way in.

/// One wind observation.
#[derive(Clone, Copy, PartialEq, Eq, Debug)]
pub enum WindMeasurement {
    Calm,
    Variable,
    /// Speed in tenths of a meter per second, direction in degrees.
    Normal { speed_tenths: u16, direction: u16 },
}

/// One retained measurement: a timestamp and at least one present quantity.
#[derive(Clone, Copy, PartialEq, Eq, Debug)]
pub struct WeatherMeasurement {
    /// Minutes since 1970-01-01 00:00 UTC.
    pub minute: i64,
    pub wind: Option<WindMeasurement>,
    /// Tenths of a degree Celsius.
    pub air_temperature_tenths: Option<i16>,
    /// Tenths of a hectopascal.
    pub air_pressure_tenths: Option<u16>,
}

/// A station location, latched from the line that produced the station's
/// first retained measurement.
#[derive(Clone, Copy, PartialEq, Eq, Debug)]
pub struct StationLocation {
    /// Thousandths of a degree, in [-90000, 90000].
    pub latitude_milli: i32,
    /// Thousandths of a degree, in [-180000, 180000].
    pub longitude_milli: i32,
}

/// One weather station with its accumulated measurement series.
#[derive(Debug)]
pub struct WeatherStation {
    /// Six-character USAF code from the file name.
    pub usaf: Vec<u8>,
    /// Five-character WBAN code from the file name.
    pub wban: Vec<u8>,
    pub location: Option<StationLocation>,
    /// Meters, latched from the first line whose elevation was in range.
    pub elevation: Option<i32>,
    /// In file order; chronologically sorted input keeps this sorted.
    pub measurements: Vec<WeatherMeasurement>,
}

pub open spec fn wind_wf(w: WindMeasurement) -> bool {
    match w {
        WindMeasurement::Normal { speed_tenths, direction } => speed_tenths <= 900 && direction
            <= 360,
        _ => true,
    }
}

/// A retained measurement carries at least one present quantity, and each
/// present quantity is inside its documented bounds.
pub open spec fn measurement_wf(m: WeatherMeasurement) -> bool {
    &&& (m.wind is Some || m.air_temperature_tenths is Some || m.air_pressure_tenths is Some)
    &&& match m.wind {
        Some(w) => wind_wf(w),
        None => true,
    }
    &&& match m.air_temperature_tenths {
        Some(t) => -1000 <= t <= 1000,
        None => true,
    }
    &&& match m.air_pressure_tenths {
        Some(p) => p <= 20000,
        None => true,
    }
}

pub open spec fn location_wf(l: StationLocation) -> bool {
    &&& -90000 <= l.latitude_milli <= 90000
    &&& -180000 <= l.longitude_milli <= 180000
}

/// The measurement sequence is non-decreasing in its timestamps.
pub open spec fn sorted_by_minute(ms: Seq<WeatherMeasurement>) -> bool {
    forall|i: int, j: int| 0 <= i <= j < ms.len() ==> ms[i].minute <= ms[j].minute
}

/// What ingestion guarantees of every station it returns. Sortedness is
/// not part of this: it holds exactly when the input file was sorted.
pub open spec fn station_wf(s: WeatherStation) -> bool {
    &&& match s.location {
        Some(l) => location_wf(l),
        None => true,
    }
    &&& (s.location is Some <==> s.measurements@.len() > 0)
    &&& forall|i: int| 0 <= i < s.measurements@.len() ==> measurement_wf(s.measurements@[i])
}

impl WeatherStation {
    /// True exactly when the measurement series is non-decreasing in time.
    /// The renderer's binary search relies on this; input files are assumed
    /// sorted, and a caller that cannot assume it checks here.
    pub fn is_sorted(&self) -> (r: bool)
        ensures
            r == sorted_by_minute(self.measurements@),
    {
        let mut i: usize = 1;
        while i < self.measurements.len()
            invariant
                1 <= i,
                forall|a: int, b: int|
                    0 <= a <= b < i && b < self.measurements@.len() ==> self.measurements@[a].minute
                        <= self.measurements@[b].minute,
            decreases self.measurements.len() - i,
        {
            if self.measurements[i - 1].minute > self.measurements[i].minute {
                return false;
            }
            i += 1;
        }
        true
    }
}

} // verus!
