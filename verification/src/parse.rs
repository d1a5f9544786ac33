use vstd::prelude::*;

use crate::errors::IngestError;
use crate::records::WindMeasurement;
use crate::timebase::{
    minute_index, spec_minute_index, spec_valid_date, spec_valid_time, valid_date, valid_time,
};

verus! {

/// Decoder for one fixed-width ISD record line. Every quantity is decoded
/// from a fixed byte range of the line; the layout and the hard and soft
/// bounds are those of `spec_parse_line` below, which is the authoritative
/// statement of the format.

/// Everything one line contributes: the decoded fields before the
/// aggregator decides about latching and retention. A `None` in an
/// optional field means that field was soft-missing on this line.
#[derive(Clone, Copy, PartialEq, Eq, Debug)]
pub struct LineData {
    /// Minutes since 1970-01-01 00:00 UTC.
    pub minute: i64,
    /// Thousandths of a degree, in [-90000, 90000].
    pub latitude_milli: i32,
    /// Thousandths of a degree, in [-180000, 180000].
    pub longitude_milli: i32,
    /// Meters, present only when inside [-400, 9000].
    pub elevation: Option<i32>,
    pub wind: Option<WindMeasurement>,
    /// Tenths of a degree Celsius, present only when inside [-1000, 1000].
    pub air_temperature_tenths: Option<i16>,
    /// Tenths of a hectopascal, present only when inside [0, 20000].
    pub air_pressure_tenths: Option<u16>,
}

pub open spec fn is_ascii_digit(b: u8) -> bool {
    48 <= b <= 57
}

pub open spec fn digit_val(b: u8) -> int {
    b - 48
}

pub open spec fn all_ascii_digits(s: Seq<u8>) -> bool {
    forall|i: int| 0 <= i < s.len() ==> is_ascii_digit(s[i])
}

/// Value of a string of decimal digits, most significant first.
pub open spec fn digits_val(s: Seq<u8>) -> int
    decreases s.len(),
{
    if s.len() == 0 {
        0
    } else {
        digits_val(s.drop_last()) * 10 + digit_val(s.last())
    }
}

pub open spec fn pow10(n: nat) -> int
    decreases n,
{
    if n == 0 {
        1
    } else {
        10 * pow10((n - 1) as nat)
    }
}

/// What `str::parse` to a signed integer accepts: an optional sign
/// followed by at least one digit, nothing else.
pub open spec fn spec_parse_int(s: Seq<u8>) -> Option<int> {
    if s.len() == 0 {
        None
    } else if s[0] == 43 || s[0] == 45 {
        // leading '+' or '-'
        if s.len() >= 2 && all_ascii_digits(s.skip(1)) {
            if s[0] == 45 {
                Some(-digits_val(s.skip(1)))
            } else {
                Some(digits_val(s.skip(1)))
            }
        } else {
            None
        }
    } else if all_ascii_digits(s) {
        Some(digits_val(s))
    } else {
        None
    }
}

proof fn lemma_digits_val_bound(s: Seq<u8>)
    requires
        all_ascii_digits(s),
    ensures
        0 <= digits_val(s) < pow10(s.len() as nat),
    decreases s.len(),
{
    if s.len() > 0 {
        assert(all_ascii_digits(s.drop_last())) by {
            assert(forall|i: int|
                0 <= i < s.len() - 1 ==> s.drop_last()[i] == s[i] && is_ascii_digit(s[i]));
        }
        lemma_digits_val_bound(s.drop_last());
    }
}

proof fn lemma_pow10_le_8()
    ensures
        pow10(8) == 100000000,
        forall|n: nat| n <= 8 ==> pow10(n) <= 100000000,
{
    reveal_with_fuel(pow10, 10);
    assert forall|n: nat| n <= 8 implies pow10(n) <= 100000000 by {
        reveal_with_fuel(pow10, 10);
        assert(pow10(0) == 1 && pow10(1) == 10 && pow10(2) == 100 && pow10(3) == 1000 && pow10(4)
            == 10000 && pow10(5) == 100000 && pow10(6) == 1000000 && pow10(7) == 10000000 && pow10(
            8,
        ) == 100000000);
    }
}

/// Decode the unsigned digit run `line[from..end)` left to right.
fn parse_digits(line: &Vec<u8>, from: usize, end: usize) -> (r: Option<i32>)
    requires
        from < end <= line@.len(),
        end - from <= 8,
    ensures
        match r {
            Some(v) => all_ascii_digits(line@.subrange(from as int, end as int)) && v == digits_val(
                line@.subrange(from as int, end as int),
            ),
            None => !all_ascii_digits(line@.subrange(from as int, end as int)),
        },
{
    let ghost whole = line@.subrange(from as int, end as int);
    let mut acc: i32 = 0;
    let mut i: usize = from;
    while i < end
        invariant
            from <= i <= end <= line@.len(),
            end - from <= 8,
            whole == line@.subrange(from as int, end as int),
            all_ascii_digits(line@.subrange(from as int, i as int)),
            acc == digits_val(line@.subrange(from as int, i as int)),
        decreases end - i,
    {
        let b = line[i];
        if b < 48 || b > 57 {
            assert(whole[i - from] == line@[i as int]);
            return None;
        }
        proof {
            let pre = line@.subrange(from as int, i as int);
            lemma_digits_val_bound(pre);
            lemma_pow10_le_8();
            assert(pre.len() <= 7);
            assert(pow10(pre.len()) <= pow10(7)) by {
                reveal_with_fuel(pow10, 10);
            }
            assert(acc < 10000000);
        }
        acc = acc * 10 + (b - 48) as i32;
        proof {
            let pre = line@.subrange(from as int, i as int);
            let post = line@.subrange(from as int, i + 1 as int);
            assert(post.drop_last() =~= pre);
            assert(post.last() == b);
            assert(forall|k: int| 0 <= k < post.len() ==> post[k] == line@[from + k]);
        }
        i += 1;
    }
    assert(line@.subrange(from as int, i as int) =~= whole);
    Some(acc)
}

/// Decode `line[from..end)` the way `str::parse::<i32>` would: optional
/// sign, then only digits.
pub fn parse_int_field(line: &Vec<u8>, from: usize, end: usize) -> (r: Option<i32>)
    requires
        from < end <= line@.len(),
        end - from <= 8,
    ensures
        match r {
            Some(v) => spec_parse_int(line@.subrange(from as int, end as int)) == Some(v as int),
            None => spec_parse_int(line@.subrange(from as int, end as int)) is None,
        },
{
    let ghost whole = line@.subrange(from as int, end as int);
    let first = line[from];
    assert(whole[0] == first);
    if first == 43 || first == 45 {
        if from + 1 == end {
            return None;
        }
        let mag = parse_digits(line, from + 1, end);
        assert(whole.skip(1) =~= line@.subrange(from + 1 as int, end as int));
        match mag {
            Some(v) => {
                proof {
                    lemma_digits_val_bound(whole.skip(1));
                }
                if first == 45 {
                    Some(-v)
                } else {
                    Some(v)
                }
            },
            None => None,
        }
    } else {
        let r = parse_digits(line, from, end);
        match r {
            Some(v) => Some(v),
            None => None,
        }
    }
}

/// The wind decoding precedence: a direction in [0, 360] with a raw speed
/// in [0, 900] tenths makes a normal observation; otherwise type 'C', or
/// type '9' with zero speed, is calm; otherwise type 'V' is variable;
/// anything else is soft-missing.
pub open spec fn spec_wind(direction: int, speed: int, wind_type: u8) -> Option<WindMeasurement> {
    if 0 <= direction <= 360 && 0 <= speed <= 900 {
        Some(WindMeasurement::Normal { speed_tenths: speed as u16, direction: direction as u16 })
    } else if wind_type == 67 || (wind_type == 57 && speed == 0) {
        // 'C', or '9' with calm speed
        Some(WindMeasurement::Calm)
    } else if wind_type == 86 {
        // 'V'
        Some(WindMeasurement::Variable)
    } else {
        None
    }
}

/// The whole record layout, as one function from the line and the
/// expected station codes to what the line contributes.
///
/// Byte ranges: usaf [4,10), wban [10,15), date [15,23) as yyyymmdd,
/// time [23,27) as hhmm, latitude [28,34) and longitude [34,41) in
/// thousandths of a degree, elevation [46,51) in meters, wind direction
/// [60,63), wind type [64], wind speed [65,69) in tenths, temperature
/// [87,92) and pressure [99,104) in tenths.
pub open spec fn spec_parse_line(line: Seq<u8>, usaf: Seq<u8>, wban: Seq<u8>) -> Result<
    LineData,
    IngestError,
> {
    if line.len() < 104 {
        Err(IngestError::DataCorruption)
    } else if line.subrange(4, 10) != usaf || line.subrange(10, 15) != wban {
        Err(IngestError::StructuralMismatch)
    } else {
        let year = spec_parse_int(line.subrange(15, 19));
        let month = spec_parse_int(line.subrange(19, 21));
        let day = spec_parse_int(line.subrange(21, 23));
        if year is None || month is None || day is None {
            Err(IngestError::DataCorruption)
        } else if !spec_valid_date(year->Some_0, month->Some_0, day->Some_0) {
            Err(IngestError::RangeViolation)
        } else {
            let hour = spec_parse_int(line.subrange(23, 25));
            let minute = spec_parse_int(line.subrange(25, 27));
            if hour is None || minute is None {
                Err(IngestError::DataCorruption)
            } else if !spec_valid_time(hour->Some_0, minute->Some_0) {
                Err(IngestError::RangeViolation)
            } else {
                let lat = spec_parse_int(line.subrange(28, 34));
                if lat is None {
                    Err(IngestError::DataCorruption)
                } else if !(-90000 <= lat->Some_0 <= 90000) {
                    Err(IngestError::RangeViolation)
                } else {
                    let lon = spec_parse_int(line.subrange(34, 41));
                    if lon is None {
                        Err(IngestError::DataCorruption)
                    } else if !(-180000 <= lon->Some_0 <= 180000) {
                        Err(IngestError::RangeViolation)
                    } else {
                        let elev = spec_parse_int(line.subrange(46, 51));
                        let wdir = spec_parse_int(line.subrange(60, 63));
                        let wspeed = spec_parse_int(line.subrange(65, 69));
                        let temp = spec_parse_int(line.subrange(87, 92));
                        let pressure = spec_parse_int(line.subrange(99, 104));
                        if elev is None || wdir is None || wspeed is None || temp is None
                            || pressure is None {
                            Err(IngestError::DataCorruption)
                        } else {
                            Ok(
                                LineData {
                                    minute: spec_minute_index(
                                        year->Some_0,
                                        month->Some_0,
                                        day->Some_0,
                                        hour->Some_0,
                                        minute->Some_0,
                                    ) as i64,
                                    latitude_milli: lat->Some_0 as i32,
                                    longitude_milli: lon->Some_0 as i32,
                                    elevation: if -400 <= elev->Some_0 <= 9000 {
                                        Some(elev->Some_0 as i32)
                                    } else {
                                        None
                                    },
                                    wind: spec_wind(wdir->Some_0, wspeed->Some_0, line[64]),
                                    air_temperature_tenths: if -1000 <= temp->Some_0 <= 1000 {
                                        Some(temp->Some_0 as i16)
                                    } else {
                                        None
                                    },
                                    air_pressure_tenths: if 0 <= pressure->Some_0 <= 20000 {
                                        Some(pressure->Some_0 as u16)
                                    } else {
                                        None
                                    },
                                },
                            )
                        }
                    }
                }
            }
        }
    }
}

/// Bounds that every successfully decoded line obeys.
pub open spec fn line_data_wf(ld: LineData) -> bool {
    &&& -1100000000 <= ld.minute <= 4400000000
    &&& -90000 <= ld.latitude_milli <= 90000
    &&& -180000 <= ld.longitude_milli <= 180000
    &&& match ld.elevation {
        Some(e) => -400 <= e <= 9000,
        None => true,
    }
    &&& match ld.wind {
        Some(w) => crate::records::wind_wf(w),
        None => true,
    }
    &&& match ld.air_temperature_tenths {
        Some(t) => -1000 <= t <= 1000,
        None => true,
    }
    &&& match ld.air_pressure_tenths {
        Some(p) => p <= 20000,
        None => true,
    }
}

/// Decoding is a pure function of the line and the expected codes: any two
/// decodes of the same line agree in every field.
pub proof fn lemma_parse_line_deterministic(
    line: Seq<u8>,
    usaf: Seq<u8>,
    wban: Seq<u8>,
    r1: Result<LineData, IngestError>,
    r2: Result<LineData, IngestError>,
)
    requires
        r1 == spec_parse_line(line, usaf, wban),
        r2 == spec_parse_line(line, usaf, wban),
    ensures
        r1 == r2,
{
}

/// Compare `line[off..off+pat.len())` with `pat`.
fn region_matches(line: &Vec<u8>, off: usize, pat: &Vec<u8>) -> (r: bool)
    requires
        off + pat@.len() <= line@.len(),
    ensures
        r == (line@.subrange(off as int, off + pat@.len()) == pat@),
{
    let ghost region = line@.subrange(off as int, off + pat@.len());
    let n: usize = line.len();
    let mut i: usize = 0;
    while i < pat.len()
        invariant
            0 <= i <= pat@.len(),
            off + pat@.len() <= n == line@.len(),
            region == line@.subrange(off as int, off + pat@.len()),
            forall|k: int| 0 <= k < i ==> region[k] == pat@[k],
        decreases pat@.len() - i,
    {
        if line[off + i] != pat[i] {
            assert(region[i as int] == line@[off + i]);
            return false;
        }
        assert(region[i as int] == line@[off + i]);
        i += 1;
    }
    proof {
        assert(region =~= pat@);
    }
    true
}

/// Decode one record line against the expected station codes. The result
/// is exactly what `spec_parse_line` states, field for field.
pub fn parse_line(line: &Vec<u8>, usaf: &Vec<u8>, wban: &Vec<u8>) -> (r: Result<
    LineData,
    IngestError,
>)
    ensures
        r == spec_parse_line(line@, usaf@, wban@),
        r is Ok ==> line_data_wf(r->Ok_0),
{
    if line.len() < 104 {
        return Err(IngestError::DataCorruption);
    }
    if usaf.len() != 6 || !region_matches(line, 4, usaf) {
        proof {
            if usaf@.len() != 6 {
                assert(line@.subrange(4, 10).len() == 6);
            }
        }
        return Err(IngestError::StructuralMismatch);
    }
    if wban.len() != 5 || !region_matches(line, 10, wban) {
        proof {
            if wban@.len() != 5 {
                assert(line@.subrange(10, 15).len() == 5);
            }
        }
        return Err(IngestError::StructuralMismatch);
    }
    let year = parse_int_field(line, 15, 19);
    let month = parse_int_field(line, 19, 21);
    let day = parse_int_field(line, 21, 23);
    let (y, mo, d) = match (year, month, day) {
        (Some(y), Some(mo), Some(d)) => (y, mo, d),
        _ => {
            return Err(IngestError::DataCorruption);
        },
    };
    if !valid_date(y, mo, d) {
        return Err(IngestError::RangeViolation);
    }
    let hour = parse_int_field(line, 23, 25);
    let minute = parse_int_field(line, 25, 27);
    let (h, mi) = match (hour, minute) {
        (Some(h), Some(mi)) => (h, mi),
        _ => {
            return Err(IngestError::DataCorruption);
        },
    };
    if !valid_time(h, mi) {
        return Err(IngestError::RangeViolation);
    }
    let lat = match parse_int_field(line, 28, 34) {
        Some(v) => v,
        None => {
            return Err(IngestError::DataCorruption);
        },
    };
    if !(-90000 <= lat && lat <= 90000) {
        return Err(IngestError::RangeViolation);
    }
    let lon = match parse_int_field(line, 34, 41) {
        Some(v) => v,
        None => {
            return Err(IngestError::DataCorruption);
        },
    };
    if !(-180000 <= lon && lon <= 180000) {
        return Err(IngestError::RangeViolation);
    }
    let elev = parse_int_field(line, 46, 51);
    let wdir = parse_int_field(line, 60, 63);
    let wspeed = parse_int_field(line, 65, 69);
    let temp = parse_int_field(line, 87, 92);
    let pressure = parse_int_field(line, 99, 104);
    let (e, wd, ws, t, p) = match (elev, wdir, wspeed, temp, pressure) {
        (Some(e), Some(wd), Some(ws), Some(t), Some(p)) => (e, wd, ws, t, p),
        _ => {
            return Err(IngestError::DataCorruption);
        },
    };
    let wind_type = line[64];
    let wind = if 0 <= wd && wd <= 360 && 0 <= ws && ws <= 900 {
        Some(WindMeasurement::Normal { speed_tenths: ws as u16, direction: wd as u16 })
    } else if wind_type == 67 || (wind_type == 57 && ws == 0) {
        Some(WindMeasurement::Calm)
    } else if wind_type == 86 {
        Some(WindMeasurement::Variable)
    } else {
        None
    };
    Ok(
        LineData {
            minute: minute_index(y, mo, d, h, mi),
            latitude_milli: lat,
            longitude_milli: lon,
            elevation: if -400 <= e && e <= 9000 {
                Some(e)
            } else {
                None
            },
            wind,
            air_temperature_tenths: if -1000 <= t && t <= 1000 {
                Some(t as i16)
            } else {
                None
            },
            air_pressure_tenths: if 0 <= p && p <= 20000 {
                Some(p as u16)
            } else {
                None
            },
        },
    )
}

} // verus!
