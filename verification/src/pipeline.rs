use vstd::prelude::*;

use crate::errors::IngestError;
use crate::ingest::{IngestOutcome, MissingTally};
use crate::records::WeatherStation;

verus! {

/// The collection side of the ingestion pipeline. Workers each produce one
/// `Result` per file, in whatever order they finish; the collector decides
/// what every observation does to the batch state, and when the batch is
/// complete. Running the workers and moving the results is the caller's
/// concern.

pub open spec fn sat_add(a: int, b: int) -> int {
    if a + b > 0xffff_ffff_ffff_ffff {
        0xffff_ffff_ffff_ffff
    } else {
        a + b
    }
}

/// Saturating addition for diagnostic counters.
pub fn sat_add_u64(a: u64, b: u64) -> (r: u64)
    ensures
        r == sat_add(a as int, b as int),
{
    if a > u64::MAX - b {
        u64::MAX
    } else {
        a + b
    }
}

pub open spec fn merged_tally(a: MissingTally, b: MissingTally) -> MissingTally {
    MissingTally {
        elevation: sat_add(a.elevation as int, b.elevation as int) as u64,
        wind: sat_add(a.wind as int, b.wind as int) as u64,
        air_temperature: sat_add(a.air_temperature as int, b.air_temperature as int) as u64,
        air_pressure: sat_add(a.air_pressure as int, b.air_pressure as int) as u64,
    }
}

/// Accumulates the per-file results of one ingestion batch: successful
/// stations in arrival order, a failure count, and the merged soft-missing
/// tallies. The batch is complete only when every expected result has been
/// observed.
pub struct IngestCollector {
    pub expected: usize,
    pub stations: Vec<WeatherStation>,
    pub failures: u64,
    pub tally: MissingTally,
}

impl IngestCollector {
    /// Observations so far, successes and failures together.
    pub open spec fn observed(self) -> int {
        self.stations@.len() + self.failures
    }

    pub open spec fn wf(self) -> bool {
        self.observed() <= self.expected
    }

    pub fn new(expected: usize) -> (r: IngestCollector)
        ensures
            r.wf(),
            r.expected == expected,
            r.stations@.len() == 0,
            r.failures == 0,
            r.tally == (MissingTally { elevation: 0, wind: 0, air_temperature: 0, air_pressure: 0 }),
    {
        IngestCollector {
            expected,
            stations: Vec::new(),
            failures: 0,
            tally: MissingTally { elevation: 0, wind: 0, air_temperature: 0, air_pressure: 0 },
        }
    }

    /// True once all expected results have arrived; only then may the
    /// station store be served.
    pub fn is_complete(&self) -> (r: bool)
        requires
            self.wf(),
        ensures
            r == (self.observed() == self.expected),
    {
        self.stations.len() as u64 + self.failures == self.expected as u64
    }

    /// Fold one worker result into the batch: a success appends its
    /// station and merges its tallies, a failure is only counted. Either
    /// way exactly one more result has been observed.
    pub fn observe(&mut self, result: Result<IngestOutcome, IngestError>)
        requires
            old(self).wf(),
            old(self).observed() < old(self).expected,
        ensures
            final(self).wf(),
            final(self).expected == old(self).expected,
            final(self).observed() == old(self).observed() + 1,
            match result {
                Ok(out) => final(self).stations@ == old(self).stations@.push(out.station)
                    && final(self).failures == old(self).failures && final(self).tally
                    == merged_tally(old(self).tally, out.tally),
                Err(_) => final(self).stations@ == old(self).stations@ && final(self).failures
                    == old(self).failures + 1 && final(self).tally == old(self).tally,
            },
    {
        match result {
            Ok(out) => {
                self.stations.push(out.station);
                self.tally = MissingTally {
                    elevation: sat_add_u64(self.tally.elevation, out.tally.elevation),
                    wind: sat_add_u64(self.tally.wind, out.tally.wind),
                    air_temperature: sat_add_u64(
                        self.tally.air_temperature,
                        out.tally.air_temperature,
                    ),
                    air_pressure: sat_add_u64(self.tally.air_pressure, out.tally.air_pressure),
                };
            },
            Err(_) => {
                self.failures = self.failures + 1;
            },
        }
    }
}

/// Whether a new throughput report is due: more than a second has passed
/// since the last one.
pub fn report_due(last_update_ms: u64, now_ms: u64) -> (r: bool)
    ensures
        r == (now_ms > last_update_ms && now_ms - last_update_ms > 1000),
{
    now_ms > last_update_ms && now_ms - last_update_ms > 1000
}

/// Cumulative throughput in thousandths of a file per second, or nothing
/// when no time has elapsed or the count is too large to scale.
pub fn throughput_milli(files: u64, elapsed_ms: u64) -> (r: Option<u64>)
    ensures
        match r {
            Some(v) => elapsed_ms > 0 && files <= 0xffff_ffff && v == files * 1000000 / elapsed_ms
                as int,
            None => elapsed_ms == 0 || files > 0xffff_ffff,
        },
{
    if elapsed_ms == 0 || files > 0xffff_ffff {
        None
    } else {
        Some(files * 1000000 / elapsed_ms)
    }
}

} // verus!
