use vstd::prelude::*;

use crate::errors::IngestError;
use crate::ingest::{
    outcome_model, parse_station, spec_ingest, IngestModel, IngestOutcome, views_of,
};
use crate::records::station_wf;

verus! {

/// One file, from its name and raw bytes to a station: derive the expected
/// station codes from the file name, decompress by extension, split into
/// lines, and fold the lines.

/// Index of the first occurrence of `b` in `s`, or `s.len()`.
pub open spec fn find_byte(s: Seq<u8>, b: u8) -> nat
    decreases s.len(),
{
    if s.len() == 0 {
        0
    } else if s[0] == b {
        0
    } else {
        1 + find_byte(s.skip(1), b)
    }
}

/// Index of the last occurrence of `b` in `s`, or -1.
pub open spec fn rfind_byte(s: Seq<u8>, b: u8) -> int
    decreases s.len(),
{
    if s.len() == 0 {
        -1
    } else if s.last() == b {
        s.len() - 1
    } else {
        rfind_byte(s.drop_last(), b)
    }
}

pub proof fn lemma_find_byte_props(s: Seq<u8>, b: u8)
    ensures
        find_byte(s, b) <= s.len(),
        forall|i: int| 0 <= i < find_byte(s, b) ==> s[i] != b,
        find_byte(s, b) < s.len() ==> s[find_byte(s, b) as int] == b,
    decreases s.len(),
{
    if s.len() > 0 && s[0] != b {
        let t = s.skip(1);
        lemma_find_byte_props(t, b);
        assert(forall|i: int| 0 <= i < t.len() ==> t[i] == s[i + 1]);
        assert forall|i: int| 0 <= i < find_byte(s, b) implies s[i] != b by {
            if i > 0 {
                assert(t[i - 1] != b);
            }
        }
    }
}

pub proof fn lemma_find_byte_unique(s: Seq<u8>, b: u8, k: int)
    requires
        0 <= k <= s.len(),
        forall|i: int| 0 <= i < k ==> s[i] != b,
        k < s.len() ==> s[k] == b,
    ensures
        k == find_byte(s, b),
    decreases s.len(),
{
    if s.len() == 0 {
    } else if s[0] == b {
        assert(k == 0);
    } else {
        assert(k >= 1);
        let t = s.skip(1);
        assert(forall|i: int| 0 <= i < t.len() ==> t[i] == s[i + 1]);
        lemma_find_byte_unique(t, b, k - 1);
    }
}

pub proof fn lemma_rfind_byte_props(s: Seq<u8>, b: u8)
    ensures
        -1 <= rfind_byte(s, b) < s.len(),
        rfind_byte(s, b) >= 0 ==> s[rfind_byte(s, b)] == b,
        forall|i: int| rfind_byte(s, b) < i < s.len() ==> s[i] != b,
    decreases s.len(),
{
    if s.len() > 0 && s.last() != b {
        lemma_rfind_byte_props(s.drop_last(), b);
        assert(forall|i: int| 0 <= i < s.len() - 1 ==> s.drop_last()[i] == s[i]);
    }
}

pub proof fn lemma_rfind_byte_unique(s: Seq<u8>, b: u8, k: int)
    requires
        -1 <= k < s.len(),
        k >= 0 ==> s[k] == b,
        forall|i: int| k < i < s.len() ==> s[i] != b,
    ensures
        k == rfind_byte(s, b),
    decreases s.len(),
{
    if s.len() == 0 {
    } else if s.last() == b {
        assert(k == s.len() - 1);
    } else {
        assert(k < s.len() - 1);
        let t = s.drop_last();
        assert(forall|i: int| 0 <= i < t.len() ==> t[i] == s[i]);
        lemma_rfind_byte_unique(t, b, k);
    }
}

/// First index of `b` at or after `from`, or the length.
pub fn find_byte_from(v: &Vec<u8>, from: usize, b: u8) -> (r: usize)
    requires
        from <= v@.len(),
    ensures
        from <= r <= v@.len(),
        r - from == find_byte(v@.skip(from as int), b),
        forall|i: int| from <= i < r ==> v@[i] != b,
        r < v@.len() ==> v@[r as int] == b,
{
    let n: usize = v.len();
    let mut i: usize = from;
    while i < n
        invariant
            from <= i <= n == v@.len(),
            forall|k: int| from <= k < i ==> v@[k] != b,
        decreases n - i,
    {
        if v[i] == b {
            proof {
                let t = v@.skip(from as int);
                assert(forall|k: int| 0 <= k < t.len() ==> t[k] == v@[from + k]);
                lemma_find_byte_unique(t, b, i - from);
            }
            return i;
        }
        i += 1;
    }
    proof {
        let t = v@.skip(from as int);
        assert(forall|k: int| 0 <= k < t.len() ==> t[k] == v@[from + k]);
        lemma_find_byte_unique(t, b, n - from);
    }
    n
}

/// Index of the last occurrence of `b`, if any.
pub fn rfind_byte_vec(v: &Vec<u8>, b: u8) -> (r: Option<usize>)
    ensures
        match r {
            Some(k) => k < v@.len() && k == rfind_byte(v@, b),
            None => rfind_byte(v@, b) == -1,
        },
{
    let n: usize = v.len();
    let mut i: usize = n;
    while i > 0
        invariant
            0 <= i <= n == v@.len(),
            forall|k: int| i <= k < n ==> v@[k] != b,
        decreases i,
    {
        i -= 1;
        if v[i] == b {
            proof {
                lemma_rfind_byte_unique(v@, b, i as int);
            }
            return Some(i);
        }
    }
    proof {
        lemma_rfind_byte_unique(v@, b, -1);
    }
    None
}

/// A copy of `v[from..end)` as a fresh vector.
pub fn subrange_vec(v: &Vec<u8>, from: usize, end: usize) -> (r: Vec<u8>)
    requires
        from <= end <= v@.len(),
    ensures
        r@ == v@.subrange(from as int, end as int),
{
    let mut out: Vec<u8> = Vec::new();
    let mut i: usize = from;
    while i < end
        invariant
            from <= i <= end <= v@.len(),
            out@ == v@.subrange(from as int, i as int),
        decreases end - i,
    {
        out.push(v[i]);
        assert(out@ =~= v@.subrange(from as int, i + 1));
        i += 1;
    }
    out
}

/// A line with a trailing carriage return loses it, the way buffered
/// line reading strips one.
pub open spec fn strip_cr(l: Seq<u8>) -> Seq<u8> {
    if l.len() > 0 && l.last() == 13 {
        l.drop_last()
    } else {
        l
    }
}

/// The lines of a byte stream: split at each newline, strip one trailing
/// carriage return per line, and keep a final unterminated line, but not
/// an empty one after the last newline.
pub open spec fn spec_split_lines(data: Seq<u8>) -> Seq<Seq<u8>>
    decreases data.len(),
    via spec_split_lines_decreases
{
    if data.len() == 0 {
        Seq::empty()
    } else {
        let k = find_byte(data, 10) as int;
        let l = strip_cr(data.subrange(0, k));
        if k == data.len() {
            seq![l]
        } else {
            seq![l] + spec_split_lines(data.skip(k + 1))
        }
    }
}

#[via_fn]
proof fn spec_split_lines_decreases(data: Seq<u8>) {
    lemma_find_byte_props(data, 10);
}

/// Split a byte stream into its lines.
pub fn split_lines(data: &Vec<u8>) -> (r: Vec<Vec<u8>>)
    ensures
        views_of(r@) == spec_split_lines(data@),
{
    let mut out: Vec<Vec<u8>> = Vec::new();
    let n: usize = data.len();
    let mut pos: usize = 0;
    proof {
        assert(data@.skip(0) =~= data@);
        assert(views_of(out@) =~= Seq::<Seq<u8>>::empty());
    }
    while pos < n
        invariant
            0 <= pos <= n == data@.len(),
            spec_split_lines(data@) =~= views_of(out@) + spec_split_lines(data@.skip(pos as int)),
        decreases n - pos,
    {
        let ghost rest = data@.skip(pos as int);
        let k = find_byte_from(data, pos, 10);
        proof {
            assert(forall|j: int| 0 <= j < rest.len() ==> rest[j] == data@[pos + j]);
            lemma_find_byte_props(rest, 10);
            lemma_find_byte_unique(rest, 10, k - pos);
        }
        let line = if k > pos && data[k - 1] == 13 {
            subrange_vec(data, pos, k - 1)
        } else {
            subrange_vec(data, pos, k)
        };
        proof {
            let sub = rest.subrange(0, k - pos);
            assert(forall|j: int| 0 <= j < sub.len() ==> sub[j] == data@[pos + j]);
            if k > pos && data@[k - 1] == 13 {
                assert(sub.last() == 13);
                assert(line@ =~= sub.drop_last());
            } else {
                assert(line@ =~= sub);
            }
            assert(line@ == strip_cr(sub));
        }
        let ghost prev = out@;
        out.push(line);
        proof {
            assert(views_of(out@) =~= views_of(prev).push(line@));
            if k == n {
                assert(spec_split_lines(rest) =~= seq![line@]);
                assert(views_of(prev) + spec_split_lines(rest) =~= views_of(out@)
                    + spec_split_lines(data@.skip(n as int)));
            } else {
                assert(rest.skip(k - pos + 1) =~= data@.skip(k + 1));
                assert(spec_split_lines(rest) =~= seq![line@] + spec_split_lines(
                    data@.skip(k + 1),
                ));
                assert(views_of(prev) + spec_split_lines(rest) =~= views_of(out@)
                    + spec_split_lines(data@.skip(k + 1)));
            }
        }
        if k == n {
            pos = n;
        } else {
            pos = k + 1;
        }
    }
    proof {
        assert(data@.skip(n as int) =~= Seq::<u8>::empty());
        assert(spec_split_lines(Seq::<u8>::empty()) =~= Seq::<Seq<u8>>::empty());
        assert(views_of(out@) + Seq::<Seq<u8>>::empty() =~= views_of(out@));
    }
    out
}

/// The `<USAF>-<WBAN>-...` codes encoded in a file name: everything after
/// the last path separator, with the last dot extension removed, split at
/// its dashes; the first two pieces are the codes. A stem without a dash
/// names no station.
pub open spec fn spec_station_codes(name: Seq<u8>) -> Option<(Seq<u8>, Seq<u8>)> {
    let base = name.skip(rfind_byte(name, 47) + 1);
    let dot = rfind_byte(base, 46);
    let stem = if dot >= 1 {
        base.subrange(0, dot)
    } else {
        base
    };
    let i = find_byte(stem, 45) as int;
    if i == stem.len() {
        None
    } else {
        let rest = stem.skip(i + 1);
        Some((stem.subrange(0, i), rest.subrange(0, find_byte(rest, 45) as int)))
    }
}

/// Derive the expected station codes from a file name.
pub fn station_codes_from_filename(name: &Vec<u8>) -> (r: Option<(Vec<u8>, Vec<u8>)>)
    ensures
        match r {
            Some(codes) => spec_station_codes(name@) == Some((codes.0@, codes.1@)),
            None => spec_station_codes(name@) is None,
        },
{
    let nlen: usize = name.len();
    let base = match rfind_byte_vec(name, 47) {
        Some(k) => subrange_vec(name, k + 1, nlen),
        None => subrange_vec(name, 0, nlen),
    };
    proof {
        lemma_rfind_byte_props(name@, 47);
        assert(base@ =~= name@.skip(rfind_byte(name@, 47) + 1));
    }
    let stem = match rfind_byte_vec(&base, 46) {
        Some(d) if d >= 1 => subrange_vec(&base, 0, d),
        _ => subrange_vec(&base, 0, base.len()),
    };
    proof {
        lemma_rfind_byte_props(base@, 46);
        if rfind_byte(base@, 46) >= 1 {
            assert(stem@ =~= base@.subrange(0, rfind_byte(base@, 46)));
        } else {
            assert(stem@ =~= base@);
        }
    }
    let i = find_byte_from(&stem, 0, 45);
    proof {
        assert(stem@.skip(0) =~= stem@);
    }
    if i == stem.len() {
        return None;
    }
    let rest = subrange_vec(&stem, i + 1, stem.len());
    proof {
        assert(rest@ =~= stem@.skip(i + 1));
    }
    let j = find_byte_from(&rest, 0, 45);
    proof {
        assert(rest@.skip(0) =~= rest@);
    }
    let usaf = subrange_vec(&stem, 0, i);
    let wban = subrange_vec(&rest, 0, j);
    Some((usaf, wban))
}

/// True when the name carries the gzip extension.
pub open spec fn spec_is_gz(name: Seq<u8>) -> bool {
    name.len() >= 3 && name[name.len() - 3] == 46 && name[name.len() - 2] == 103 && name[name.len()
        - 1] == 122
}

pub fn is_gz_name(name: &Vec<u8>) -> (r: bool)
    ensures
        r == spec_is_gz(name@),
{
    let n = name.len();
    n >= 3 && name[n - 3] == 46 && name[n - 2] == 103 && name[n - 1] == 122
}

/// The decompressed form of a gzip stream, as flate2 computes it.
pub uninterp spec fn gunzip_of(data: Seq<u8>) -> Seq<u8>;

/// Relies on flate2's `read::GzDecoder`: decompression is a pure function
/// of the compressed bytes, and a corrupt stream reports an error instead
/// of returning data.
#[verifier::external_body]
fn gunzip(data: &Vec<u8>) -> (r: Option<Vec<u8>>)
    ensures
        match r {
            Some(out) => out@ == gunzip_of(data@),
            None => true,
        },
{
    let mut dec = flate2::read::GzDecoder::new(&data[..]);
    let mut out = Vec::new();
    match std::io::Read::read_to_end(&mut dec, &mut out) {
        Ok(_) => Some(out),
        Err(_) => None,
    }
}

/// What ingesting one file yields, given its (already decompressed)
/// content.
pub open spec fn spec_file_outcome(filename: Seq<u8>, content: Seq<u8>, max: int) -> Result<
    IngestModel,
    IngestError,
> {
    match spec_station_codes(filename) {
        None => Err(IngestError::DataCorruption),
        Some(codes) => spec_ingest(codes.0, codes.1, spec_split_lines(content), max),
    }
}

/// Ingest one file from its name and raw bytes. A `.gz` name is
/// decompressed first; a decompression failure is an I/O failure. The
/// result is what `spec_file_outcome` states of the content.
pub fn ingest_file(filename: &Vec<u8>, raw: &Vec<u8>, max_measurements: usize) -> (r: Result<
    IngestOutcome,
    IngestError,
>)
    ensures
        ({
            let content = if spec_is_gz(filename@) {
                gunzip_of(raw@)
            } else {
                raw@
            };
            match r {
                Ok(out) => spec_file_outcome(filename@, content, max_measurements as int)
                    == Ok::<IngestModel, IngestError>(outcome_model(out)) && station_wf(
                    out.station,
                ),
                Err(e) => (spec_is_gz(filename@) && e == IngestError::IoFailure)
                    || spec_file_outcome(filename@, content, max_measurements as int) == Err::<
                    IngestModel,
                    IngestError,
                >(e),
            }
        }),
{
    let codes = match station_codes_from_filename(filename) {
        Some(codes) => codes,
        None => {
            return Err(IngestError::DataCorruption);
        },
    };
    let lines = if is_gz_name(filename) {
        let content = match gunzip(raw) {
            Some(c) => c,
            None => {
                return Err(IngestError::IoFailure);
            },
        };
        split_lines(&content)
    } else {
        split_lines(raw)
    };
    parse_station(&codes.0, &codes.1, &lines, max_measurements)
}

} // verus!
