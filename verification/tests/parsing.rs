use weather_tiles::errors::IngestError;
use weather_tiles::files::{ingest_file, split_lines, station_codes_from_filename};
use weather_tiles::ingest::parse_station;
use weather_tiles::pipeline::{report_due, throughput_milli, IngestCollector};
use weather_tiles::records::WindMeasurement;
use weather_tiles::timebase::{days_from_civil, minute_index, valid_date};

use std::io::Write;

/// Build one 104-byte record line with the given field texts.
fn make_line(
    usaf: &str,
    wban: &str,
    date: &str,
    time: &str,
    lat: &str,
    lon: &str,
    elev: &str,
    wdir: &str,
    wtype: &str,
    wspeed: &str,
    temp: &str,
    pressure: &str,
) -> Vec<u8> {
    let mut line = vec![b' '; 104];
    let put = |line: &mut Vec<u8>, at: usize, s: &str| {
        for (i, b) in s.bytes().enumerate() {
            line[at + i] = b;
        }
    };
    put(&mut line, 4, usaf);
    put(&mut line, 10, wban);
    put(&mut line, 15, date);
    put(&mut line, 23, time);
    put(&mut line, 28, lat);
    put(&mut line, 34, lon);
    put(&mut line, 46, elev);
    put(&mut line, 60, wdir);
    put(&mut line, 64, wtype);
    put(&mut line, 65, wspeed);
    put(&mut line, 87, temp);
    put(&mut line, 99, pressure);
    line
}

fn good_line(date: &str, time: &str) -> Vec<u8> {
    make_line(
        "123456", "54321", date, time, "+12345", "+023456", "+0100", "270", "N", "0050", "+0250",
        "10132",
    )
}

fn codes() -> (Vec<u8>, Vec<u8>) {
    (b"123456".to_vec(), b"54321".to_vec())
}

#[test]
fn parse_valid_line_fields() {
    let (usaf, wban) = codes();
    let lines = vec![good_line("20160101", "1230")];
    let out = parse_station(&usaf, &wban, &lines, usize::MAX).unwrap();
    let st = out.station;
    assert_eq!(st.measurements.len(), 1);
    let m = &st.measurements[0];
    // 2016-01-01 is day 16801 since 1970-01-01.
    assert_eq!(m.minute, 16801 * 1440 + 12 * 60 + 30);
    assert_eq!(
        m.wind,
        Some(WindMeasurement::Normal {
            speed_tenths: 50,
            direction: 270
        })
    );
    assert_eq!(m.air_temperature_tenths, Some(250));
    assert_eq!(m.air_pressure_tenths, Some(10132));
    let loc = st.location.unwrap();
    assert_eq!(loc.latitude_milli, 12345);
    assert_eq!(loc.longitude_milli, 23456);
    assert_eq!(st.elevation, Some(100));
}

#[test]
fn parse_is_deterministic() {
    let (usaf, wban) = codes();
    let lines = vec![good_line("20160101", "1230"), good_line("20160102", "0000")];
    let a = parse_station(&usaf, &wban, &lines, usize::MAX).unwrap();
    let b = parse_station(&usaf, &wban, &lines, usize::MAX).unwrap();
    assert_eq!(a.station.measurements, b.station.measurements);
    assert_eq!(a.station.location, b.station.location);
    assert_eq!(a.station.elevation, b.station.elevation);
    assert_eq!(a.tally, b.tally);
}

#[test]
fn station_code_mismatch_fails_file() {
    let (usaf, wban) = codes();
    let mut bad = good_line("20160101", "1230");
    bad[4] = b'9';
    let lines = vec![good_line("20160101", "0000"), bad];
    let r = parse_station(&usaf, &wban, &lines, usize::MAX);
    assert_eq!(r.unwrap_err(), IngestError::StructuralMismatch);
}

#[test]
fn latitude_out_of_range_fails_file() {
    let (usaf, wban) = codes();
    let line = make_line(
        "123456", "54321", "20160101", "1230", "+95000", "+023456", "+0100", "270", "N", "0050",
        "+0250", "10132",
    );
    let lines = vec![line];
    assert_eq!(
        parse_station(&usaf, &wban, &lines, usize::MAX).unwrap_err(),
        IngestError::RangeViolation
    );
}

#[test]
fn invalid_calendar_date_fails_file() {
    let (usaf, wban) = codes();
    let lines = vec![good_line("20150229", "1230")];
    assert_eq!(
        parse_station(&usaf, &wban, &lines, usize::MAX).unwrap_err(),
        IngestError::RangeViolation
    );
}

#[test]
fn unparsable_numeric_fails_file() {
    let (usaf, wban) = codes();
    let line = make_line(
        "123456", "54321", "20160101", "1230", "+12a45", "+023456", "+0100", "270", "N", "0050",
        "+0250", "10132",
    );
    let lines = vec![line];
    assert_eq!(
        parse_station(&usaf, &wban, &lines, usize::MAX).unwrap_err(),
        IngestError::DataCorruption
    );
}

#[test]
fn short_line_fails_file() {
    let (usaf, wban) = codes();
    let lines = vec![b"too short".to_vec()];
    assert_eq!(
        parse_station(&usaf, &wban, &lines, usize::MAX).unwrap_err(),
        IngestError::DataCorruption
    );
}

#[test]
fn soft_missing_elevation_still_produces_measurement() {
    let (usaf, wban) = codes();
    // Elevation 9999 m is outside [-400, 9000]; the wind data is valid.
    let line = make_line(
        "123456", "54321", "20160101", "1230", "+12345", "+023456", "+9999", "270", "N", "0050",
        "+9999", "99999",
    );
    let lines = vec![line];
    let out = parse_station(&usaf, &wban, &lines, usize::MAX).unwrap();
    assert_eq!(out.station.measurements.len(), 1);
    assert_eq!(out.station.elevation, None);
    assert!(out.station.measurements[0].wind.is_some());
    assert_eq!(out.station.measurements[0].air_temperature_tenths, None);
    assert_eq!(out.tally.elevation, 1);
    assert_eq!(out.tally.air_temperature, 1);
    assert_eq!(out.tally.air_pressure, 1);
    assert_eq!(out.tally.wind, 0);
}

#[test]
fn all_optional_fields_missing_drops_line() {
    let (usaf, wban) = codes();
    // Direction and speed out of range, type neither calm nor variable,
    // temperature and pressure out of range: nothing to retain.
    let line = make_line(
        "123456", "54321", "20160101", "1230", "+12345", "+023456", "+0100", "999", "N", "9999",
        "+9999", "99999",
    );
    let lines = vec![line];
    let out = parse_station(&usaf, &wban, &lines, usize::MAX).unwrap();
    assert_eq!(out.station.measurements.len(), 0);
    assert!(out.station.location.is_none());
    // The elevation still latches and the misses are still tallied.
    assert_eq!(out.station.elevation, Some(100));
    assert_eq!(out.tally.wind, 1);
}

#[test]
fn wind_decoding_precedence() {
    let (usaf, wban) = codes();
    let calm = make_line(
        "123456", "54321", "20160101", "0000", "+12345", "+023456", "+0100", "999", "C", "9999",
        "+9999", "99999",
    );
    let nine_zero = make_line(
        "123456", "54321", "20160101", "0001", "+12345", "+023456", "+0100", "999", "9", "0000",
        "+9999", "99999",
    );
    let variable = make_line(
        "123456", "54321", "20160101", "0002", "+12345", "+023456", "+0100", "999", "V", "9999",
        "+9999", "99999",
    );
    let lines = vec![calm, nine_zero, variable];
    let out = parse_station(&usaf, &wban, &lines, usize::MAX).unwrap();
    assert_eq!(out.station.measurements.len(), 3);
    assert_eq!(out.station.measurements[0].wind, Some(WindMeasurement::Calm));
    assert_eq!(out.station.measurements[1].wind, Some(WindMeasurement::Calm));
    assert_eq!(
        out.station.measurements[2].wind,
        Some(WindMeasurement::Variable)
    );
}

#[test]
fn location_latched_from_first_retained_line() {
    let (usaf, wban) = codes();
    // First line retains nothing; the second is the first real measurement.
    let empty = make_line(
        "123456", "54321", "20160101", "0000", "+11111", "+011111", "+0100", "999", "N", "9999",
        "+9999", "99999",
    );
    let real = make_line(
        "123456", "54321", "20160101", "0100", "+22222", "+022222", "+0200", "270", "N", "0050",
        "+0250", "10132",
    );
    let later = make_line(
        "123456", "54321", "20160101", "0200", "+33333", "+033333", "+0300", "270", "N", "0050",
        "+0250", "10132",
    );
    let lines = vec![empty, real, later];
    let out = parse_station(&usaf, &wban, &lines, usize::MAX).unwrap();
    let loc = out.station.location.unwrap();
    assert_eq!(loc.latitude_milli, 22222);
    assert_eq!(loc.longitude_milli, 22222);
    // Elevation latched from the first line with an in-range value.
    assert_eq!(out.station.elevation, Some(100));
}

#[test]
fn measurement_cap_truncates_series() {
    let (usaf, wban) = codes();
    let lines = vec![
        good_line("20160101", "0000"),
        good_line("20160101", "0100"),
        good_line("20160101", "0200"),
        good_line("20160101", "0300"),
        good_line("20160101", "0400"),
    ];
    let out = parse_station(&usaf, &wban, &lines, 2).unwrap();
    // The series ends as soon as the cap is exceeded.
    assert_eq!(out.station.measurements.len(), 3);
}

#[test]
fn chronological_input_yields_sorted_series() {
    let (usaf, wban) = codes();
    let lines = vec![
        good_line("20160101", "0000"),
        good_line("20160101", "0230"),
        good_line("20160212", "1200"),
    ];
    let out = parse_station(&usaf, &wban, &lines, usize::MAX).unwrap();
    assert!(out.station.is_sorted());
    let unsorted = vec![good_line("20160212", "1200"), good_line("20160101", "0000")];
    let out2 = parse_station(&usaf, &wban, &unsorted, usize::MAX).unwrap();
    assert!(!out2.station.is_sorted());
}

#[test]
fn split_lines_strips_terminators() {
    let data = b"ab\r\ncd\nlast".to_vec();
    let lines = split_lines(&data);
    assert_eq!(lines, vec![b"ab".to_vec(), b"cd".to_vec(), b"last".to_vec()]);
    let trailing = b"one\n".to_vec();
    assert_eq!(split_lines(&trailing), vec![b"one".to_vec()]);
    assert_eq!(split_lines(&Vec::new()), Vec::<Vec<u8>>::new());
}

#[test]
fn filename_codes_follow_convention() {
    let name = b"/data/isd/123456-54321-2016.gz".to_vec();
    let (usaf, wban) = station_codes_from_filename(&name).unwrap();
    assert_eq!(usaf, b"123456".to_vec());
    assert_eq!(wban, b"54321".to_vec());
    let plain = b"123456-54321-2016".to_vec();
    let (u2, w2) = station_codes_from_filename(&plain).unwrap();
    assert_eq!(u2, b"123456".to_vec());
    assert_eq!(w2, b"54321".to_vec());
    assert!(station_codes_from_filename(&b"nodashes.txt".to_vec()).is_none());
}

#[test]
fn ingest_file_plain_bytes() {
    let mut data = Vec::new();
    data.extend_from_slice(&good_line("20160101", "0000"));
    data.push(b'\n');
    data.extend_from_slice(&good_line("20160101", "0100"));
    data.push(b'\n');
    let name = b"123456-54321-2016".to_vec();
    let out = ingest_file(&name, &data, usize::MAX).unwrap();
    assert_eq!(out.station.measurements.len(), 2);
    assert_eq!(out.station.usaf, b"123456".to_vec());
    assert_eq!(out.station.wban, b"54321".to_vec());
}

#[test]
fn ingest_file_gzip_round_trip() {
    let mut data = Vec::new();
    data.extend_from_slice(&good_line("20160101", "0000"));
    data.push(b'\n');
    let mut enc = flate2::write::GzEncoder::new(Vec::new(), flate2::Compression::default());
    enc.write_all(&data).unwrap();
    let compressed = enc.finish().unwrap();
    // The compressed bytes are not the plain bytes: decompression must
    // really happen for the line to parse.
    assert_ne!(compressed, data);
    let name = b"123456-54321-2016.gz".to_vec();
    let out = ingest_file(&name, &compressed, usize::MAX).unwrap();
    assert_eq!(out.station.measurements.len(), 1);
}

#[test]
fn ingest_file_corrupt_gzip_is_io_failure() {
    let name = b"123456-54321-2016.gz".to_vec();
    let garbage = vec![0u8, 1, 2, 3, 4, 5, 6, 7];
    assert_eq!(
        ingest_file(&name, &garbage, usize::MAX).unwrap_err(),
        IngestError::IoFailure
    );
}

#[test]
fn ingest_file_bad_filename_is_corruption() {
    let data = good_line("20160101", "0000");
    assert_eq!(
        ingest_file(&b"nodashes".to_vec(), &data, usize::MAX).unwrap_err(),
        IngestError::DataCorruption
    );
}

#[test]
fn batch_of_three_files_isolates_one_failure() {
    let (usaf, wban) = codes();
    let good = vec![
        good_line("20160101", "0000"),
        good_line("20160101", "0100"),
    ];
    // The station-code mismatch sits on line 5 of the bad file.
    let mut bad_line = good_line("20160101", "0400");
    bad_line[4] = b'9';
    let bad = vec![
        good_line("20160101", "0000"),
        good_line("20160101", "0100"),
        good_line("20160101", "0200"),
        good_line("20160101", "0300"),
        bad_line,
    ];
    let mut collector = IngestCollector::new(3);
    collector.observe(parse_station(&usaf, &wban, &good, usize::MAX));
    assert!(!collector.is_complete());
    collector.observe(parse_station(&usaf, &wban, &bad, usize::MAX));
    collector.observe(parse_station(&usaf, &wban, &good, usize::MAX));
    assert!(collector.is_complete());
    assert_eq!(collector.stations.len(), 2);
    assert_eq!(collector.failures, 1);
}

#[test]
fn throughput_and_reporting() {
    assert_eq!(throughput_milli(10, 2000), Some(5000));
    assert_eq!(throughput_milli(1, 1), Some(1000000));
    assert_eq!(throughput_milli(5, 0), None);
    assert!(report_due(0, 1001));
    assert!(!report_due(0, 1000));
    assert!(!report_due(2000, 1000));
}

#[test]
fn calendar_validity_and_day_numbers() {
    assert!(valid_date(2016, 2, 29));
    assert!(!valid_date(2015, 2, 29));
    assert!(!valid_date(2016, 13, 1));
    assert!(!valid_date(2016, 4, 31));
    assert_eq!(days_from_civil(1970, 1, 1), 0);
    assert_eq!(days_from_civil(1970, 1, 2), 1);
    assert_eq!(days_from_civil(1969, 12, 31), -1);
    assert_eq!(days_from_civil(2016, 1, 1), 16801);
    assert_eq!(minute_index(1970, 1, 1, 0, 30), 30);
    assert_eq!(minute_index(1970, 1, 2, 1, 0), 1440 + 60);
}
