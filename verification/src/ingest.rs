use vstd::prelude::*;

use crate::errors::IngestError;
use crate::parse::{parse_line, spec_parse_line, LineData};
use crate::records::{
    measurement_wf, sorted_by_minute, station_wf, StationLocation, WeatherMeasurement,
    WeatherStation,
};

verus! {

/// Ingestion of one file: derive the station codes from the file name,
/// decompress when the name ends in `.gz`, split the content into lines,
/// and fold every line into one station. `spec_ingest` is the
/// authoritative statement of that fold.

/// Diagnostic counts of soft-missing fields, one per optional quantity.
/// They never influence what is parsed or retained.
#[derive(Clone, Copy, PartialEq, Eq, Debug)]
pub struct MissingTally {
    pub elevation: u64,
    pub wind: u64,
    pub air_temperature: u64,
    pub air_pressure: u64,
}

/// A successfully ingested file: the finished station and its tallies.
#[derive(Debug)]
pub struct IngestOutcome {
    pub station: WeatherStation,
    pub tally: MissingTally,
}

pub ghost struct StationModel {
    pub usaf: Seq<u8>,
    pub wban: Seq<u8>,
    pub location: Option<StationLocation>,
    pub elevation: Option<i32>,
    pub measurements: Seq<WeatherMeasurement>,
}

pub ghost struct TallyModel {
    pub elevation: int,
    pub wind: int,
    pub air_temperature: int,
    pub air_pressure: int,
}

pub ghost struct IngestModel {
    pub station: StationModel,
    pub tally: TallyModel,
}

pub open spec fn station_model(s: WeatherStation) -> StationModel {
    StationModel {
        usaf: s.usaf@,
        wban: s.wban@,
        location: s.location,
        elevation: s.elevation,
        measurements: s.measurements@,
    }
}

pub open spec fn tally_model(t: MissingTally) -> TallyModel {
    TallyModel {
        elevation: t.elevation as int,
        wind: t.wind as int,
        air_temperature: t.air_temperature as int,
        air_pressure: t.air_pressure as int,
    }
}

pub open spec fn outcome_model(o: IngestOutcome) -> IngestModel {
    IngestModel { station: station_model(o.station), tally: tally_model(o.tally) }
}

pub open spec fn init_model(usaf: Seq<u8>, wban: Seq<u8>) -> IngestModel {
    IngestModel {
        station: StationModel {
            usaf: usaf,
            wban: wban,
            location: None,
            elevation: None,
            measurements: Seq::empty(),
        },
        tally: TallyModel { elevation: 0, wind: 0, air_temperature: 0, air_pressure: 0 },
    }
}

/// What one line does to the ingest state: latch the elevation on its
/// first in-range appearance, count soft-missing fields, and either drop
/// the line (all three quantities absent) or retain a measurement,
/// latching the station location when it is the first one. The returned
/// flag reports that the measurement cap was exceeded and the fold stops.
pub open spec fn spec_ingest_step(m: IngestModel, line: Seq<u8>, max: int) -> Result<
    (IngestModel, bool),
    IngestError,
> {
    match spec_parse_line(line, m.station.usaf, m.station.wban) {
        Err(e) => Err(e),
        Ok(ld) => {
            let elevation = if m.station.elevation is None && ld.elevation is Some {
                ld.elevation
            } else {
                m.station.elevation
            };
            let tally = TallyModel {
                elevation: m.tally.elevation + if ld.elevation is None {
                    1int
                } else {
                    0int
                },
                wind: m.tally.wind + if ld.wind is None {
                    1int
                } else {
                    0int
                },
                air_temperature: m.tally.air_temperature + if ld.air_temperature_tenths is None {
                    1int
                } else {
                    0int
                },
                air_pressure: m.tally.air_pressure + if ld.air_pressure_tenths is None {
                    1int
                } else {
                    0int
                },
            };
            if ld.wind is None && ld.air_temperature_tenths is None
                && ld.air_pressure_tenths is None {
                Ok(
                    (
                        IngestModel {
                            station: StationModel {
                                usaf: m.station.usaf,
                                wban: m.station.wban,
                                location: m.station.location,
                                elevation: elevation,
                                measurements: m.station.measurements,
                            },
                            tally: tally,
                        },
                        false,
                    ),
                )
            } else {
                let location = if m.station.measurements.len() == 0 {
                    Some(
                        StationLocation {
                            latitude_milli: ld.latitude_milli,
                            longitude_milli: ld.longitude_milli,
                        },
                    )
                } else {
                    m.station.location
                };
                let measurements = m.station.measurements.push(
                    WeatherMeasurement {
                        minute: ld.minute,
                        wind: ld.wind,
                        air_temperature_tenths: ld.air_temperature_tenths,
                        air_pressure_tenths: ld.air_pressure_tenths,
                    },
                );
                Ok(
                    (
                        IngestModel {
                            station: StationModel {
                                usaf: m.station.usaf,
                                wban: m.station.wban,
                                location: location,
                                elevation: elevation,
                                measurements: measurements,
                            },
                            tally: tally,
                        },
                        measurements.len() > max,
                    ),
                )
            }
        },
    }
}

/// The fold of `spec_ingest_step` over the lines of one file: the first
/// hard failure aborts the file, exceeding the cap ends it successfully.
pub open spec fn spec_ingest_lines(m: IngestModel, lines: Seq<Seq<u8>>, max: int) -> Result<
    IngestModel,
    IngestError,
>
    decreases lines.len(),
{
    if lines.len() == 0 {
        Ok(m)
    } else {
        match spec_ingest_step(m, lines[0], max) {
            Err(e) => Err(e),
            Ok((m2, stop)) => if stop {
                Ok(m2)
            } else {
                spec_ingest_lines(m2, lines.skip(1), max)
            },
        }
    }
}

pub open spec fn spec_ingest(
    usaf: Seq<u8>,
    wban: Seq<u8>,
    lines: Seq<Seq<u8>>,
    max: int,
) -> Result<IngestModel, IngestError> {
    spec_ingest_lines(init_model(usaf, wban), lines, max)
}

pub open spec fn views_of(ls: Seq<Vec<u8>>) -> Seq<Seq<u8>> {
    ls.map_values(|l: Vec<u8>| l@)
}

/// An element-wise copy of a byte vector.
pub fn copy_bytes(src: &Vec<u8>) -> (r: Vec<u8>)
    ensures
        r@ == src@,
{
    let mut out: Vec<u8> = Vec::new();
    let n: usize = src.len();
    let mut i: usize = 0;
    while i < n
        invariant
            0 <= i <= n == src@.len(),
            out@ == src@.subrange(0, i as int),
        decreases n - i,
    {
        out.push(src[i]);
        assert(out@ =~= src@.subrange(0, i + 1));
        i += 1;
    }
    assert(out@ =~= src@);
    out
}

/// Fold the lines of one file into a station, as `spec_ingest` states.
/// Every returned station is well-formed; its codes are the ones given.
#[verifier::rlimit(100)]
pub fn parse_station(
    usaf: &Vec<u8>,
    wban: &Vec<u8>,
    lines: &Vec<Vec<u8>>,
    max_measurements: usize,
) -> (r: Result<IngestOutcome, IngestError>)
    ensures
        match r {
            Ok(out) => spec_ingest(usaf@, wban@, views_of(lines@), max_measurements as int)
                == Ok::<IngestModel, IngestError>(outcome_model(out)) && station_wf(out.station)
                && out.station.usaf@ == usaf@ && out.station.wban@ == wban@,
            Err(e) => spec_ingest(usaf@, wban@, views_of(lines@), max_measurements as int)
                == Err::<IngestModel, IngestError>(e),
        },
{
    let ghost u0 = usaf@;
    let ghost w0 = wban@;
    let ghost all = views_of(lines@);
    let ghost goal = spec_ingest(u0, w0, all, max_measurements as int);
    let mut station = WeatherStation {
        usaf: copy_bytes(usaf),
        wban: copy_bytes(wban),
        location: None,
        elevation: None,
        measurements: Vec::new(),
    };
    let mut tally = MissingTally { elevation: 0, wind: 0, air_temperature: 0, air_pressure: 0 };
    let n: usize = lines.len();
    let mut i: usize = 0;
    proof {
        assert(all.skip(0) =~= all);
        assert(IngestModel { station: station_model(station), tally: tally_model(tally) }
            == init_model(u0, w0));
    }
    while i < n
        invariant
            0 <= i <= n == lines@.len(),
            all == views_of(lines@),
            u0 == usaf@,
            w0 == wban@,
            goal == spec_ingest(u0, w0, all, max_measurements as int),
            station.usaf@ == u0,
            station.wban@ == w0,
            spec_ingest_lines(
                IngestModel { station: station_model(station), tally: tally_model(tally) },
                all.skip(i as int),
                max_measurements as int,
            ) == goal,
            station_wf(station),
            tally.elevation <= i && tally.wind <= i && tally.air_temperature <= i
                && tally.air_pressure <= i,
        decreases n - i,
    {
        let ghost pre = IngestModel { station: station_model(station), tally: tally_model(tally) };
        let ghost rest = all.skip(i as int);
        proof {
            assert(rest[0] == all[i as int]);
            assert(all[i as int] == lines@[i as int]@);
            assert(rest.skip(1) =~= all.skip(i + 1));
            assert(rest.len() == all.len() - i);
        }
        let line = &lines[i];
        match parse_line(line, &station.usaf, &station.wban) {
            Err(e) => {
                proof {
                    assert(spec_ingest_step(pre, rest[0], max_measurements as int) == Err::<
                        (IngestModel, bool),
                        IngestError,
                    >(e));
                    assert(spec_ingest_lines(pre, rest, max_measurements as int) == Err::<
                        IngestModel,
                        IngestError,
                    >(e));
                    assert(goal == Err::<IngestModel, IngestError>(e));
                    assert(spec_ingest(u0, w0, all, max_measurements as int)
                        == Err::<IngestModel, IngestError>(e));
                }
                return Err(e);
            },
            Ok(ld) => {
                if station.elevation.is_none() && ld.elevation.is_some() {
                    station.elevation = ld.elevation;
                }
                if ld.elevation.is_none() {
                    tally.elevation = tally.elevation + 1;
                }
                if ld.wind.is_none() {
                    tally.wind = tally.wind + 1;
                }
                if ld.air_temperature_tenths.is_none() {
                    tally.air_temperature = tally.air_temperature + 1;
                }
                if ld.air_pressure_tenths.is_none() {
                    tally.air_pressure = tally.air_pressure + 1;
                }
                let retained = !(ld.wind.is_none() && ld.air_temperature_tenths.is_none()
                    && ld.air_pressure_tenths.is_none());
                let mut stop = false;
                if retained {
                    if station.measurements.len() == 0 {
                        station.location = Some(
                            StationLocation {
                                latitude_milli: ld.latitude_milli,
                                longitude_milli: ld.longitude_milli,
                            },
                        );
                    }
                    station.measurements.push(
                        WeatherMeasurement {
                            minute: ld.minute,
                            wind: ld.wind,
                            air_temperature_tenths: ld.air_temperature_tenths,
                            air_pressure_tenths: ld.air_pressure_tenths,
                        },
                    );
                    stop = station.measurements.len() > max_measurements;
                }
                proof {
                    let post = IngestModel {
                        station: station_model(station),
                        tally: tally_model(tally),
                    };
                    assert(crate::parse::line_data_wf(ld));
                    if retained {
                        let newm = station.measurements@.last();
                        assert(measurement_wf(newm));
                        assert forall|k: int|
                            0 <= k < station.measurements@.len() implies measurement_wf(
                            station.measurements@[k],
                        ) by {
                            if k < station.measurements@.len() - 1 {
                                assert(station.measurements@[k]
                                    == pre.station.measurements[k]);
                            }
                        }
                    }
                    assert(station_wf(station));
                    assert(spec_ingest_step(pre, rest[0], max_measurements as int) == Ok::<
                        (IngestModel, bool),
                        IngestError,
                    >((post, stop)));
                    if stop {
                        assert(spec_ingest_lines(pre, rest, max_measurements as int) == Ok::<
                            IngestModel,
                            IngestError,
                        >(post));
                    } else {
                        assert(spec_ingest_lines(pre, rest, max_measurements as int)
                            == spec_ingest_lines(
                            post,
                            all.skip(i + 1),
                            max_measurements as int,
                        ));
                    }
                }
                if stop {
                    return Ok(IngestOutcome { station, tally });
                }
                i += 1;
            },
        }
    }
    proof {
        assert(all.skip(n as int) =~= Seq::<Seq<u8>>::empty());
    }
    Ok(IngestOutcome { station, tally })
}

/// The decoded timestamps of a file's lines never decrease: every pair of
/// successfully decodable lines, in file order, is in chronological order.
pub open spec fn lines_chronological(lines: Seq<Seq<u8>>, usaf: Seq<u8>, wban: Seq<u8>) -> bool {
    forall|i: int, j: int|
        #![trigger spec_parse_line(lines[i], usaf, wban), spec_parse_line(lines[j], usaf, wban)]
        0 <= i <= j < lines.len() && spec_parse_line(lines[i], usaf, wban) is Ok && spec_parse_line(
            lines[j],
            usaf,
            wban,
        ) is Ok ==> spec_parse_line(lines[i], usaf, wban)->Ok_0.minute <= spec_parse_line(
            lines[j],
            usaf,
            wban,
        )->Ok_0.minute
}

/// Every accumulated measurement is no later than any timestamp a
/// remaining line can contribute.
pub open spec fn measurements_before_lines(
    ms: Seq<WeatherMeasurement>,
    lines: Seq<Seq<u8>>,
    usaf: Seq<u8>,
    wban: Seq<u8>,
) -> bool {
    forall|k: int, j: int|
        #![trigger spec_parse_line(lines[k], usaf, wban), ms[j]]
        0 <= k < lines.len() && 0 <= j < ms.len() && spec_parse_line(lines[k], usaf, wban) is Ok
            ==> ms[j].minute <= spec_parse_line(lines[k], usaf, wban)->Ok_0.minute
}

proof fn lemma_ingest_lines_sorted(m: IngestModel, lines: Seq<Seq<u8>>, max: int)
    requires
        sorted_by_minute(m.station.measurements),
        lines_chronological(lines, m.station.usaf, m.station.wban),
        measurements_before_lines(
            m.station.measurements,
            lines,
            m.station.usaf,
            m.station.wban,
        ),
    ensures
        spec_ingest_lines(m, lines, max) is Ok ==> sorted_by_minute(
            spec_ingest_lines(m, lines, max)->Ok_0.station.measurements,
        ),
    decreases lines.len(),
{
    let usaf = m.station.usaf;
    let wban = m.station.wban;
    if lines.len() == 0 {
        return ;
    }
    let step = spec_ingest_step(m, lines[0], max);
    if step is Err {
        return ;
    }
    let (m2, stop) = step->Ok_0;
    let parsed = spec_parse_line(lines[0], usaf, wban);
    let ld = parsed->Ok_0;
    let ms = m.station.measurements;
    assert(m2.station.usaf == usaf && m2.station.wban == wban);
    assert(sorted_by_minute(m2.station.measurements)) by {
        if m2.station.measurements != ms {
            let ms2 = m2.station.measurements;
            assert(ms2 == ms.push(
                WeatherMeasurement {
                    minute: ld.minute,
                    wind: ld.wind,
                    air_temperature_tenths: ld.air_temperature_tenths,
                    air_pressure_tenths: ld.air_pressure_tenths,
                },
            ));
            assert forall|a: int, b: int| 0 <= a <= b < ms2.len() implies ms2[a].minute
                <= ms2[b].minute by {
                if b < ms.len() {
                } else {
                    if a < ms.len() {
                        assert(ms[a].minute <= ld.minute);
                    }
                }
            }
        }
    }
    if stop {
        return ;
    }
    let rest = lines.skip(1);
    assert(forall|k: int| 0 <= k < rest.len() ==> rest[k] == lines[k + 1]);
    assert(lines_chronological(rest, usaf, wban)) by {
        assert forall|i: int, j: int|
            #![trigger spec_parse_line(rest[i], usaf, wban), spec_parse_line(rest[j], usaf, wban)]
            0 <= i <= j < rest.len() && spec_parse_line(rest[i], usaf, wban) is Ok
                && spec_parse_line(rest[j], usaf, wban) is Ok implies spec_parse_line(
            rest[i],
            usaf,
            wban,
        )->Ok_0.minute <= spec_parse_line(rest[j], usaf, wban)->Ok_0.minute by {
            assert(rest[i] == lines[i + 1] && rest[j] == lines[j + 1]);
            assert(spec_parse_line(lines[i + 1], usaf, wban) is Ok && spec_parse_line(
                lines[j + 1],
                usaf,
                wban,
            ) is Ok);
        }
    }
    assert(measurements_before_lines(m2.station.measurements, rest, usaf, wban)) by {
        let ms2 = m2.station.measurements;
        assert forall|k: int, j: int|
            #![trigger spec_parse_line(rest[k], usaf, wban), ms2[j]]
            0 <= k < rest.len() && 0 <= j < ms2.len() && spec_parse_line(rest[k], usaf, wban)
                is Ok implies ms2[j].minute <= spec_parse_line(rest[k], usaf, wban)->Ok_0.minute by {
            assert(rest[k] == lines[k + 1]);
            assert(spec_parse_line(lines[k + 1], usaf, wban) is Ok);
            if j < ms.len() {
                assert(ms2[j] == ms[j]);
            } else {
                assert(ms2[j].minute == ld.minute);
                assert(parsed is Ok);
                assert(ld.minute <= spec_parse_line(lines[k + 1], usaf, wban)->Ok_0.minute);
            }
        }
    }
    lemma_ingest_lines_sorted(m2, rest, max);
}

/// A chronologically sorted input file yields a station whose measurement
/// sequence is non-decreasing in its timestamps: retention only ever
/// filters lines, it never reorders them.
pub proof fn lemma_ingest_sorted(usaf: Seq<u8>, wban: Seq<u8>, lines: Seq<Seq<u8>>, max: int)
    requires
        lines_chronological(lines, usaf, wban),
    ensures
        spec_ingest(usaf, wban, lines, max) is Ok ==> sorted_by_minute(
            spec_ingest(usaf, wban, lines, max)->Ok_0.station.measurements,
        ),
{
    lemma_ingest_lines_sorted(init_model(usaf, wban), lines, max);
}

} // verus!
