use vstd::prelude::*;

verus! {

/// A per-file ingestion failure. Any of these aborts the file that produced
/// it; the batch as a whole carries on.
#[derive(Clone, Copy, PartialEq, Eq, Debug)]
pub enum IngestError {
    /// A line's station codes do not match the codes derived from the
    /// file name.
    StructuralMismatch,
    /// A structurally required field (date, time, latitude, longitude) is
    /// outside its hard bounds.
    RangeViolation,
    /// A required token could not be decoded at all: the line is too short,
    /// a numeric field holds non-digits, or the file name does not follow
    /// the `<USAF>-<WBAN>-<year>` convention.
    DataCorruption,
    /// The file could not be read or decompressed.
    IoFailure,
}

/// A failure while producing a raster or an encoded tile.
#[derive(Clone, Copy, PartialEq, Eq, Debug)]
pub enum RenderError {
    /// A station inside the requested bounding box projected to a pixel
    /// outside the image: the box and the station data disagree.
    GeometryInvariantViolation,
    /// The raster could not be encoded as PNG.
    EncodeFailure,
}

impl IngestError {
    /// A short human-readable label for logs.
    pub fn describe(&self) -> (r: &'static str)
        ensures
            r@.len() > 0,
    {
        let s = match self {
            IngestError::StructuralMismatch => "station code mismatch",
            IngestError::RangeViolation => "required field out of range",
            IngestError::DataCorruption => "malformed record",
            IngestError::IoFailure => "read or decompression failure",
        };
        proof {
            reveal_strlit("station code mismatch");
            reveal_strlit("required field out of range");
            reveal_strlit("malformed record");
            reveal_strlit("read or decompression failure");
        }
        s
    }
}

} // verus!
