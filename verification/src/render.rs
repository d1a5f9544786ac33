use vstd::prelude::*;

use crate::errors::RenderError;
use crate::records::{sorted_by_minute, StationLocation, WeatherMeasurement, WeatherStation};
use vstd::arithmetic::div_mod::{
    lemma_div_is_ordered, lemma_div_multiples_vanish, lemma_div_multiples_vanish_fancy,
    lemma_div_of0, lemma_div_pos_is_pos, lemma_fundamental_div_mod, lemma_mod_bound,
};
use vstd::arithmetic::mul::{lemma_mul_inequality, lemma_mul_nonnegative};

verus! {

/// The tile renderer: a pure function from stations, a bounding box, a
/// raster shape and a time window to an RGB raster. Coordinates come in
/// thousandths of a degree; the Mercator value of each latitude comes in
/// as a fixed-point integer computed by the caller, since the renderer
/// only compares and scales it linearly.

/// An 8-bit RGB raster in row-major order, three bytes per pixel.
#[derive(Debug)]
pub struct RgbRaster {
    pub width: u32,
    pub height: u32,
    pub data: Vec<u8>,
}

/// Raster dimensions stay small enough that every byte index fits
/// comfortably in 32 bits.
pub open spec fn raster_wf(r: RgbRaster) -> bool {
    &&& 1 <= r.width <= 16384
    &&& 1 <= r.height <= 16384
    &&& r.data@.len() == 3 * r.width * r.height
}

proof fn lemma_pixel_index(w: int, h: int, x: int, y: int)
    requires
        0 <= x < w,
        0 <= y < h,
    ensures
        0 <= 3 * (y * w + x),
        3 * (y * w + x) + 2 < 3 * w * h,
{
    assert(0 <= 3 * (y * w + x) && 3 * (y * w + x) + 2 < 3 * w * h) by (nonlinear_arith)
        requires
            0 <= x < w,
            0 <= y < h,
    ;
}

proof fn lemma_pixel_index_distinct(w: int, x1: int, y1: int, x2: int, y2: int)
    requires
        0 <= x1 < w,
        0 <= x2 < w,
        0 <= y1,
        0 <= y2,
        !(x1 == x2 && y1 == y2),
    ensures
        y1 * w + x1 != y2 * w + x2,
{
    if y1 == y2 {
    } else {
        assert(y1 * w + x1 != y2 * w + x2) by (nonlinear_arith)
            requires
                0 <= x1 < w,
                0 <= x2 < w,
                0 <= y1,
                0 <= y2,
                y1 != y2,
        ;
    }
}

impl RgbRaster {
    /// The pixel at (x, y) as an RGB triple.
    pub open spec fn spec_pixel(self, x: int, y: int) -> (u8, u8, u8) {
        (
            self.data@[3 * (y * self.width + x)],
            self.data@[3 * (y * self.width + x) + 1],
            self.data@[3 * (y * self.width + x) + 2],
        )
    }

    /// An all-black raster of the given dimensions.
    pub fn new_black(width: u32, height: u32) -> (r: RgbRaster)
        requires
            1 <= width <= 16384,
            1 <= height <= 16384,
        ensures
            raster_wf(r),
            r.width == width,
            r.height == height,
            forall|x: int, y: int|
                0 <= x < width && 0 <= y < height ==> r.spec_pixel(x, y) == (0u8, 0u8, 0u8),
    {
        proof {
            assert(3 * (width as int) * (height as int) <= 805306368) by (nonlinear_arith)
                requires
                    1 <= width as int <= 16384,
                    1 <= height as int <= 16384,
            ;
        }
        let total: usize = 3 * (width as usize) * (height as usize);
        let mut data: Vec<u8> = Vec::new();
        let mut i: usize = 0;
        while i < total
            invariant
                0 <= i <= total,
                data@.len() == i,
                forall|k: int| 0 <= k < i ==> data@[k] == 0u8,
            decreases total - i,
        {
            data.push(0u8);
            i += 1;
        }
        let r = RgbRaster { width, height, data };
        proof {
            assert forall|x: int, y: int|
                0 <= x < width && 0 <= y < height implies r.spec_pixel(x, y) == (
                0u8,
                0u8,
                0u8,
            ) by {
                lemma_pixel_index(width as int, height as int, x, y);
            }
        }
        r
    }

    /// Write one pixel; everything else is untouched.
    pub fn put_pixel(&mut self, x: u32, y: u32, c: (u8, u8, u8))
        requires
            raster_wf(*old(self)),
            x < old(self).width,
            y < old(self).height,
        ensures
            raster_wf(*final(self)),
            final(self).width == old(self).width,
            final(self).height == old(self).height,
            final(self).spec_pixel(x as int, y as int) == c,
            forall|px: int, py: int|
                0 <= px < old(self).width && 0 <= py < old(self).height && !(px == x && py == y)
                    ==> final(self).spec_pixel(px, py) == old(self).spec_pixel(px, py),
    {
        let dlen: usize = self.data.len();
        proof {
            lemma_pixel_index(self.width as int, self.height as int, x as int, y as int);
            assert(3 * (y as int * self.width as int + x as int) + 2 < dlen as int);
        }
        let base: usize = 3 * ((y as usize) * (self.width as usize) + (x as usize));
        self.data.set(base, c.0);
        self.data.set(base + 1, c.1);
        self.data.set(base + 2, c.2);
        proof {
            let w = self.width as int;
            let h = self.height as int;
            assert forall|px: int, py: int|
                0 <= px < w && 0 <= py < h && !(px == x && py == y) implies self.spec_pixel(px, py)
                    == old(self).spec_pixel(px, py) by {
                lemma_pixel_index(w, h, px, py);
                lemma_pixel_index_distinct(w, px, py, x as int, y as int);
            }
        }
    }
}

/// Temperatures are clamped to the displayable band [-30, 40] degrees,
/// held here in tenths.
pub open spec fn spec_clamp_temp(t: int) -> int {
    if t < -300 {
        -300
    } else if t > 400 {
        400
    } else {
        t
    }
}

/// The dot color of a temperature in tenths of a degree: red scales up
/// and blue scales down across the clamped band, green is constant.
pub open spec fn spec_temperature_color(t: int) -> (u8, u8, u8) {
    let c = spec_clamp_temp(t);
    ((255 * (c + 300) / 700) as u8, 127u8, (255 * (400 - c) / 700) as u8)
}

pub fn temperature_color(t_tenths: i16) -> (r: (u8, u8, u8))
    ensures
        r == spec_temperature_color(t_tenths as int),
{
    let t = t_tenths as i32;
    let c: i32 = if t < -300 {
        -300
    } else if t > 400 {
        400
    } else {
        t
    };
    let rn: i32 = 255 * (c + 300);
    let bn: i32 = 255 * (400 - c);
    proof {
        lemma_div_is_ordered(rn as int, 178500, 700);
        lemma_div_is_ordered(0, rn as int, 700);
        lemma_div_is_ordered(bn as int, 178500, 700);
        lemma_div_is_ordered(0, bn as int, 700);
    }
    let red = rn / 700;
    let blue = bn / 700;
    (red as u8, 127u8, blue as u8)
}

/// The first index whose timestamp is at or after `t`, or the length.
pub open spec fn spec_lower_bound(ms: Seq<WeatherMeasurement>, t: i64) -> int
    decreases ms.len(),
{
    if ms.len() == 0 {
        0
    } else if ms[0].minute >= t {
        0
    } else {
        1 + spec_lower_bound(ms.skip(1), t)
    }
}

pub proof fn lemma_lower_bound_unique(ms: Seq<WeatherMeasurement>, t: i64, k: int)
    requires
        0 <= k <= ms.len(),
        forall|i: int| 0 <= i < k ==> ms[i].minute < t,
        k < ms.len() ==> ms[k].minute >= t,
    ensures
        k == spec_lower_bound(ms, t),
    decreases ms.len(),
{
    if ms.len() == 0 {
    } else if ms[0].minute >= t {
        assert(k == 0);
    } else {
        assert(k >= 1);
        let rest = ms.skip(1);
        assert(forall|i: int| 0 <= i < rest.len() ==> rest[i] == ms[i + 1]);
        lemma_lower_bound_unique(rest, t, k - 1);
    }
}

/// Binary search for the lower bound of `t` in a chronologically sorted
/// series.
pub fn lower_bound(ms: &Vec<WeatherMeasurement>, t: i64) -> (r: usize)
    requires
        sorted_by_minute(ms@),
    ensures
        0 <= r <= ms@.len(),
        r == spec_lower_bound(ms@, t),
        forall|i: int| 0 <= i < r ==> ms@[i].minute < t,
        forall|i: int| r <= i < ms@.len() ==> ms@[i].minute >= t,
{
    let mut lo: usize = 0;
    let mut hi: usize = ms.len();
    while lo < hi
        invariant
            0 <= lo <= hi <= ms@.len(),
            sorted_by_minute(ms@),
            forall|i: int| 0 <= i < lo ==> ms@[i].minute < t,
            forall|i: int| hi <= i < ms@.len() ==> ms@[i].minute >= t,
        decreases hi - lo,
    {
        let mid = lo + (hi - lo) / 2;
        if ms[mid].minute < t {
            assert(forall|i: int| 0 <= i <= mid ==> ms@[i].minute < t);
            lo = mid + 1;
        } else {
            hi = mid;
        }
    }
    proof {
        lemma_lower_bound_unique(ms@, t, lo as int);
    }
    lo
}

/// The half-open index window of timestamps in `[start, end)`: the lower
/// bound of `start`, and the lower bound of `end` but never before it.
pub open spec fn spec_window(ms: Seq<WeatherMeasurement>, start: i64, end: i64) -> (int, int) {
    let s = spec_lower_bound(ms, start);
    let e = spec_lower_bound(ms, end);
    (s, if e < s {
        s
    } else {
        e
    })
}

/// Select the candidate index window for a time range.
pub fn select_window(ms: &Vec<WeatherMeasurement>, start_minute: i64, end_minute: i64) -> (r: (
    usize,
    usize,
))
    requires
        sorted_by_minute(ms@),
    ensures
        (r.0 as int, r.1 as int) == spec_window(ms@, start_minute, end_minute),
        0 <= r.0 <= r.1 <= ms@.len(),
        forall|i: int| r.0 <= i < r.1 ==> ms@[i].minute >= start_minute && ms@[i].minute
            < end_minute,
        forall|i: int| 0 <= i < r.0 ==> ms@[i].minute < start_minute,
        forall|i: int| r.1 <= i < ms@.len() ==> ms@[i].minute >= end_minute,
{
    let s = lower_bound(ms, start_minute);
    let e = lower_bound(ms, end_minute);
    let e2 = if e < s {
        s
    } else {
        e
    };
    proof {
        assert forall|i: int| e2 <= i < ms@.len() implies ms@[i].minute >= end_minute by {
            assert(ms@[i].minute >= ms@[e as int].minute || i >= ms@.len());
        }
        assert forall|i: int| s <= i < e2 implies ms@[i].minute >= start_minute && ms@[i].minute
            < end_minute by {
            assert(i < e);
        }
    }
    (s, e2)
}

/// The first present temperature in the index window [from, end), if any.
pub open spec fn spec_first_temp(ms: Seq<WeatherMeasurement>, from: int, end: int) -> Option<i16>
    decreases end - from,
{
    if from < 0 || from >= end || from >= ms.len() {
        None
    } else if ms[from].air_temperature_tenths is Some {
        ms[from].air_temperature_tenths
    } else {
        spec_first_temp(ms, from + 1, end)
    }
}

pub fn first_temperature(ms: &Vec<WeatherMeasurement>, from: usize, end: usize) -> (r: Option<i16>)
    requires
        from <= end <= ms@.len(),
    ensures
        r == spec_first_temp(ms@, from as int, end as int),
{
    let mut i: usize = from;
    while i < end
        invariant
            from <= i <= end <= ms@.len(),
            spec_first_temp(ms@, from as int, end as int) == spec_first_temp(
                ms@,
                i as int,
                end as int,
            ),
        decreases end - i,
    {
        if ms[i].air_temperature_tenths.is_some() {
            return ms[i].air_temperature_tenths;
        }
        i += 1;
    }
    None
}

/// The dot color of one station over a time window: the first in-window
/// measurement with a present temperature decides it; a station with no
/// such measurement is drawn black.
pub open spec fn spec_station_color(ms: Seq<WeatherMeasurement>, start: i64, end: i64) -> (
    u8,
    u8,
    u8,
) {
    let w = spec_window(ms, start, end);
    match spec_first_temp(ms, w.0, w.1) {
        Some(t) => spec_temperature_color(t as int),
        None => (0u8, 0u8, 0u8),
    }
}

pub fn station_color(ms: &Vec<WeatherMeasurement>, start_minute: i64, end_minute: i64) -> (r: (
    u8,
    u8,
    u8,
))
    requires
        sorted_by_minute(ms@),
    ensures
        r == spec_station_color(ms@, start_minute, end_minute),
{
    let w = select_window(ms, start_minute, end_minute);
    match first_temperature(ms, w.0, w.1) {
        Some(t) => temperature_color(t),
        None => (0u8, 0u8, 0u8),
    }
}

/// Fixed-point Mercator values stay below this bound, which keeps every
/// projection product inside 64 bits.
pub const MERC_ABS_MAX: i64 = 35184372088832;

/// A geographic bounding box. Longitudes and latitudes come in
/// thousandths of a degree; `merc_min` and `merc_max` are the Mercator
/// values of the two latitude edges in the caller's fixed-point scale,
/// the same scale the per-station Mercator values use.
#[derive(Clone, Copy, PartialEq, Eq, Debug)]
pub struct BoundingBox {
    pub lon_min_milli: i32,
    pub lon_max_milli: i32,
    pub lat_min_milli: i32,
    pub lat_max_milli: i32,
    pub merc_min: i64,
    pub merc_max: i64,
}

pub open spec fn box_wf(b: BoundingBox) -> bool {
    &&& b.lon_min_milli < b.lon_max_milli
    &&& b.lat_min_milli < b.lat_max_milli
    &&& b.merc_min < b.merc_max
    &&& -MERC_ABS_MAX <= b.merc_min
    &&& b.merc_max <= MERC_ABS_MAX
}

/// A half-open query window in minute indices.
#[derive(Clone, Copy, PartialEq, Eq, Debug)]
pub struct TimeWindow {
    pub start_minute: i64,
    pub end_minute: i64,
}

pub open spec fn in_box(loc: StationLocation, b: BoundingBox) -> bool {
    &&& b.lon_min_milli <= loc.longitude_milli <= b.lon_max_milli
    &&& b.lat_min_milli <= loc.latitude_milli <= b.lat_max_milli
}

/// The pixel column of a longitude: its offset into the box scaled to
/// [0, width-1], rounded down.
pub open spec fn spec_pixel_x(lon: int, b: BoundingBox, width: int) -> int {
    (lon - b.lon_min_milli) * (width - 1) / (b.lon_max_milli - b.lon_min_milli)
}

/// The pixel row of a Mercator value: its offset below the top edge
/// scaled to [0, height-1], rounded down.
pub open spec fn spec_pixel_y(m: int, b: BoundingBox, height: int) -> int {
    (b.merc_max - m) * (height - 1) / (b.merc_max - b.merc_min)
}

proof fn lemma_div_negative(x: int, d: int)
    requires
        x < 0,
        d > 0,
    ensures
        x / d < 0,
{
    lemma_fundamental_div_mod(x, d);
    lemma_mod_bound(x, d);
    if x / d >= 0 {
        lemma_mul_nonnegative(d, x / d);
        assert(false);
    }
}

/// floor(offset * (n - 1) / span), for an offset inside the span.
fn scale_to_axis(offset: i64, span: i64, n: u32) -> (r: u32)
    requires
        0 <= offset <= span,
        0 < span <= 0x400000000000,
        1 <= n <= 16384,
    ensures
        r as int == offset as int * (n - 1) / span as int,
        r < n,
{
    proof {
        assert(offset as int * (n - 1) as int <= 0x400000000000 * 16383) by (nonlinear_arith)
            requires
                0 <= offset as int <= 0x400000000000,
                1 <= n as int <= 16384,
        ;
        lemma_mul_nonnegative(offset as int, (n - 1) as int);
    }
    let num: u64 = (offset as u64) * ((n - 1) as u64);
    let v: u64 = num / (span as u64);
    proof {
        lemma_mul_nonnegative(offset as int, (n - 1) as int);
        lemma_mul_inequality(offset as int, span as int, (n - 1) as int);
        lemma_div_is_ordered(
            offset as int * (n - 1) as int,
            span as int * (n - 1) as int,
            span as int,
        );
        lemma_div_multiples_vanish((n - 1) as int, span as int);
        lemma_div_pos_is_pos(offset as int * (n - 1) as int, span as int);
    }
    v as u32
}

/// Project one station onto the raster. The column always lands inside
/// the image for an in-box station; the row is computed from the
/// caller-supplied Mercator value and can land outside it, which is the
/// geometry invariant violation.
pub fn project_station(
    loc: StationLocation,
    m: i64,
    b: &BoundingBox,
    width: u32,
    height: u32,
) -> (r: Result<(u32, u32), RenderError>)
    requires
        box_wf(*b),
        in_box(loc, *b),
        1 <= width <= 16384,
        1 <= height <= 16384,
        -MERC_ABS_MAX <= m <= MERC_ABS_MAX,
    ensures
        match r {
            Ok(p) => p.0 as int == spec_pixel_x(loc.longitude_milli as int, *b, width as int)
                && p.0 < width && p.1 as int == spec_pixel_y(m as int, *b, height as int) && p.1
                < height,
            Err(e) => e == RenderError::GeometryInvariantViolation && !(0 <= spec_pixel_y(
                m as int,
                *b,
                height as int,
            ) < height),
        },
{
    let xoff: i64 = loc.longitude_milli as i64 - b.lon_min_milli as i64;
    let xspan: i64 = b.lon_max_milli as i64 - b.lon_min_milli as i64;
    let x = scale_to_axis(xoff, xspan, width);
    let ynum: i64 = b.merc_max - m;
    let yspan: i64 = b.merc_max - b.merc_min;
    if ynum < 0 {
        proof {
            if height > 1 {
                lemma_mul_inequality(ynum as int, -1, (height - 1) as int);
                lemma_div_is_ordered(
                    ynum as int * (height - 1) as int,
                    -1 * (height - 1) as int,
                    yspan as int,
                );
                lemma_div_negative(-1 * (height - 1) as int, yspan as int);
            } else {
                assert(spec_pixel_y(m as int, *b, height as int) == (b.merc_max - m) * 0 / (
                b.merc_max - b.merc_min));
            }
        }
        if height == 1 {
            return Ok((x, 0));
        }
        return Err(RenderError::GeometryInvariantViolation);
    }
    proof {
        assert(ynum as int * (height - 1) as int <= 0x800000000000 * 16383) by (nonlinear_arith)
            requires
                0 <= ynum as int <= 0x800000000000,
                1 <= height as int <= 16384,
        ;
        lemma_mul_nonnegative(ynum as int, (height - 1) as int);
    }
    let num: u64 = (ynum as u64) * ((height - 1) as u64);
    let v: u64 = num / (yspan as u64);
    proof {
        lemma_mul_nonnegative(ynum as int, (height - 1) as int);
        lemma_div_pos_is_pos(ynum as int * (height - 1) as int, yspan as int);
    }
    if v >= height as u64 {
        return Err(RenderError::GeometryInvariantViolation);
    }
    Ok((x, v as u32))
}

/// Whether the dot square of the given radius centered at (x, y) covers
/// the pixel (px, py).
pub open spec fn dot_covers(x: int, y: int, radius: int, px: int, py: int) -> bool {
    let bx = x - radius / 2;
    let by = y - radius / 2;
    bx <= px < bx + radius && by <= py < by + radius
}

/// Whether this station's dot covers the pixel (px, py).
pub open spec fn station_covers(
    s: WeatherStation,
    m: i64,
    b: BoundingBox,
    width: int,
    height: int,
    radius: int,
    px: int,
    py: int,
) -> bool {
    match s.location {
        None => false,
        Some(loc) => in_box(loc, b) && dot_covers(
            spec_pixel_x(loc.longitude_milli as int, b, width),
            spec_pixel_y(m as i64 as int, b, height),
            radius,
            px,
            py,
        ),
    }
}

/// The color of one pixel after drawing every station in order: the last
/// station whose dot covers it decides, and a pixel no dot covers stays
/// black.
pub open spec fn spec_rendered_pixel(
    stations: Seq<WeatherStation>,
    mercs: Seq<i64>,
    b: BoundingBox,
    t: TimeWindow,
    width: int,
    height: int,
    radius: int,
    px: int,
    py: int,
) -> (u8, u8, u8)
    decreases stations.len(),
{
    if stations.len() == 0 {
        (0u8, 0u8, 0u8)
    } else {
        let s = stations.last();
        let m = mercs[stations.len() - 1];
        if station_covers(s, m, b, width, height, radius, px, py) {
            spec_station_color(s.measurements@, t.start_minute, t.end_minute)
        } else {
            spec_rendered_pixel(
                stations.drop_last(),
                mercs.drop_last(),
                b,
                t,
                width,
                height,
                radius,
                px,
                py,
            )
        }
    }
}

/// One station's geometry is sound when, if it sits inside the box, its
/// projected pixel sits inside the image.
pub open spec fn station_geometry_ok(
    s: WeatherStation,
    m: i64,
    b: BoundingBox,
    width: int,
    height: int,
) -> bool {
    match s.location {
        None => true,
        Some(loc) => in_box(loc, b) ==> {
            &&& 0 <= spec_pixel_x(loc.longitude_milli as int, b, width) < width
            &&& 0 <= spec_pixel_y(m as i64 as int, b, height) < height
        },
    }
}

pub open spec fn geometry_ok(
    stations: Seq<WeatherStation>,
    mercs: Seq<i64>,
    b: BoundingBox,
    width: int,
    height: int,
) -> bool {
    forall|i: int|
        0 <= i < stations.len() ==> #[trigger] station_geometry_ok(
            stations[i],
            mercs[i],
            b,
            width,
            height,
        )
}

/// Render the station dot map: each in-box station is projected, its
/// color over the window computed, and a dot square drawn, later
/// stations over earlier ones. A station that projects outside the image
/// is a geometry invariant violation and fails the whole render.
#[verifier::rlimit(100)]
pub fn draw_stations(
    stations: &Vec<WeatherStation>,
    mercs: &Vec<i64>,
    b: &BoundingBox,
    window: TimeWindow,
    width: u32,
    height: u32,
    dot_radius: u32,
) -> (r: Result<RgbRaster, RenderError>)
    requires
        box_wf(*b),
        1 <= width <= 16384,
        1 <= height <= 16384,
        dot_radius <= 16384,
        mercs@.len() == stations@.len(),
        forall|i: int| 0 <= i < mercs@.len() ==> -MERC_ABS_MAX <= #[trigger] mercs@[i]
            <= MERC_ABS_MAX,
        forall|i: int| 0 <= i < stations@.len() ==> sorted_by_minute(
            #[trigger] stations@[i].measurements@,
        ),
    ensures
        match r {
            Ok(img) => raster_wf(img) && img.width == width && img.height == height && geometry_ok(
                stations@,
                mercs@,
                *b,
                width as int,
                height as int,
            ) && forall|px: int, py: int|
                0 <= px < width && 0 <= py < height ==> #[trigger] img.spec_pixel(px, py)
                    == spec_rendered_pixel(
                    stations@,
                    mercs@,
                    *b,
                    window,
                    width as int,
                    height as int,
                    dot_radius as int,
                    px,
                    py,
                ),
            Err(e) => e == RenderError::GeometryInvariantViolation && !geometry_ok(
                stations@,
                mercs@,
                *b,
                width as int,
                height as int,
            ),
        },
{
    let mut img = RgbRaster::new_black(width, height);
    let n: usize = stations.len();
    let mut i: usize = 0;
    proof {
        assert(stations@.take(0) =~= Seq::<WeatherStation>::empty());
        assert(mercs@.take(0) =~= Seq::<i64>::empty());
    }
    while i < n
        invariant
            0 <= i <= n == stations@.len(),
            mercs@.len() == stations@.len(),
            box_wf(*b),
            1 <= width <= 16384,
            1 <= height <= 16384,
            dot_radius <= 16384,
            forall|k: int| 0 <= k < mercs@.len() ==> -MERC_ABS_MAX <= #[trigger] mercs@[k]
                <= MERC_ABS_MAX,
            forall|k: int| 0 <= k < stations@.len() ==> sorted_by_minute(
                #[trigger] stations@[k].measurements@,
            ),
            raster_wf(img),
            img.width == width,
            img.height == height,
            geometry_ok(stations@.take(i as int), mercs@.take(i as int), *b, width as int,
                height as int),
            forall|px: int, py: int|
                0 <= px < width && 0 <= py < height ==> #[trigger] img.spec_pixel(px, py)
                    == spec_rendered_pixel(
                    stations@.take(i as int),
                    mercs@.take(i as int),
                    *b,
                    window,
                    width as int,
                    height as int,
                    dot_radius as int,
                    px,
                    py,
                ),
        decreases n - i,
    {
        let ghost pre_stations = stations@.take(i as int);
        let ghost pre_mercs = mercs@.take(i as int);
        let ghost cur_stations = stations@.take(i + 1);
        let ghost cur_mercs = mercs@.take(i + 1);
        proof {
            assert(cur_stations.drop_last() =~= pre_stations);
            assert(cur_mercs.drop_last() =~= pre_mercs);
            assert(cur_stations.last() == stations@[i as int]);
            assert(cur_mercs[cur_stations.len() - 1] == mercs@[i as int]);
        }
        let station = &stations[i];
        let loc_opt = station.location;
        let covered = match loc_opt {
            None => false,
            Some(loc) => b.lon_min_milli <= loc.longitude_milli && loc.longitude_milli
                <= b.lon_max_milli && b.lat_min_milli <= loc.latitude_milli && loc.latitude_milli
                <= b.lat_max_milli,
        };
        if !covered {
            proof {
                assert(station_geometry_ok(stations@[i as int], mercs@[i as int], *b,
                    width as int, height as int));
                assert forall|px: int, py: int|
                    0 <= px < width && 0 <= py < height implies #[trigger] img.spec_pixel(px, py)
                        == spec_rendered_pixel(cur_stations, cur_mercs, *b, window, width as int,
                        height as int, dot_radius as int, px, py) by {
                    assert(!station_covers(stations@[i as int], mercs@[i as int], *b,
                        width as int, height as int, dot_radius as int, px, py));
                }
                assert forall|k: int| 0 <= k < cur_stations.len() implies
                    #[trigger] station_geometry_ok(cur_stations[k], cur_mercs[k], *b,
                        width as int, height as int) by {
                    if k < i {
                        assert(cur_stations[k] == pre_stations[k]);
                        assert(cur_mercs[k] == pre_mercs[k]);
                    }
                }
            }
            i += 1;
            continue;
        }
        let loc = loc_opt.unwrap();
        let m = mercs[i];
        let (x, y) = match project_station(loc, m, b, width, height) {
            Ok(p) => p,
            Err(e) => {
                proof {
                    assert(!station_geometry_ok(stations@[i as int], mercs@[i as int], *b,
                        width as int, height as int));
                    assert(!geometry_ok(stations@, mercs@, *b, width as int, height as int));
                }
                return Err(e);
            },
        };
        let color = station_color(&station.measurements, window.start_minute, window.end_minute);
        let ghost prev = img;
        let half: u32 = dot_radius / 2;
        let ghost bx = x - half;
        let ghost by = y - half;
        let mut dx: u32 = 0;
        while dx < dot_radius
            invariant
                0 <= dx <= dot_radius <= 16384,
                x < width <= 16384,
                y < height <= 16384,
                half == dot_radius / 2,
                bx == x - half,
                by == y - half,
                raster_wf(img),
                img.width == width,
                img.height == height,
                raster_wf(prev),
                prev.width == width,
                prev.height == height,
                forall|px: int, py: int|
                    0 <= px < width && 0 <= py < height ==> #[trigger] img.spec_pixel(px, py) == (
                    if bx <= px < bx + dx && by <= py < by + dot_radius {
                        color
                    } else {
                        prev.spec_pixel(px, py)
                    }),
            decreases dot_radius - dx,
        {
            let mut dy: u32 = 0;
            while dy < dot_radius
                invariant
                    0 <= dy <= dot_radius <= 16384,
                    0 <= dx < dot_radius,
                    x < width <= 16384,
                    y < height <= 16384,
                    half == dot_radius / 2,
                    bx == x - half,
                    by == y - half,
                    raster_wf(img),
                    img.width == width,
                    img.height == height,
                    raster_wf(prev),
                    prev.width == width,
                    prev.height == height,
                    forall|px: int, py: int|
                        0 <= px < width && 0 <= py < height ==> #[trigger] img.spec_pixel(px, py)
                            == (if (bx <= px < bx + dx && by <= py < by + dot_radius) || (px == bx
                            + dx && by <= py < by + dy) {
                            color
                        } else {
                            prev.spec_pixel(px, py)
                        }),
                decreases dot_radius - dy,
            {
                let px_i: i64 = x as i64 + dx as i64 - half as i64;
                let py_i: i64 = y as i64 + dy as i64 - half as i64;
                if px_i >= 0 && px_i < width as i64 && py_i >= 0 && py_i < height as i64 {
                    img.put_pixel(px_i as u32, py_i as u32, color);
                }
                dy += 1;
            }
            dx += 1;
        }
        proof {
            assert forall|px: int, py: int|
                0 <= px < width && 0 <= py < height implies #[trigger] img.spec_pixel(px, py)
                    == spec_rendered_pixel(cur_stations, cur_mercs, *b, window, width as int,
                    height as int, dot_radius as int, px, py) by {
                assert(station_covers(stations@[i as int], mercs@[i as int], *b, width as int,
                    height as int, dot_radius as int, px, py) == (bx <= px < bx + dot_radius
                    && by <= py < by + dot_radius));
            }
            assert forall|k: int| 0 <= k < cur_stations.len() implies
                #[trigger] station_geometry_ok(cur_stations[k], cur_mercs[k], *b, width as int,
                    height as int) by {
                if k < i {
                    assert(cur_stations[k] == pre_stations[k]);
                    assert(cur_mercs[k] == pre_mercs[k]);
                }
            }
        }
        i += 1;
    }
    proof {
        assert(stations@.take(n as int) =~= stations@);
        assert(mercs@.take(n as int) =~= mercs@);
    }
    Ok(img)
}

/// The raster bytes of a full render, pixel by pixel in row-major order,
/// three bytes per pixel.
pub open spec fn spec_render_data(
    stations: Seq<WeatherStation>,
    mercs: Seq<i64>,
    b: BoundingBox,
    t: TimeWindow,
    width: int,
    height: int,
    radius: int,
) -> Seq<u8> {
    Seq::new(
        (3 * width * height) as nat,
        |k: int|
            {
                let q = k / 3;
                let px = q % width;
                let py = q / width;
                let c = spec_rendered_pixel(stations, mercs, b, t, width, height, radius, px, py);
                if k % 3 == 0 {
                    c.0
                } else if k % 3 == 1 {
                    c.1
                } else {
                    c.2
                }
            },
    )
}

/// A raster whose every pixel matches the rendered-pixel function holds
/// exactly the rendered byte sequence.
#[verifier::rlimit(100)]
pub proof fn lemma_raster_matches(
    img: RgbRaster,
    stations: Seq<WeatherStation>,
    mercs: Seq<i64>,
    b: BoundingBox,
    t: TimeWindow,
    radius: int,
)
    requires
        raster_wf(img),
        forall|px: int, py: int|
            0 <= px < img.width && 0 <= py < img.height ==> #[trigger] img.spec_pixel(px, py)
                == spec_rendered_pixel(
                stations,
                mercs,
                b,
                t,
                img.width as int,
                img.height as int,
                radius,
                px,
                py,
            ),
    ensures
        img.data@ == spec_render_data(
            stations,
            mercs,
            b,
            t,
            img.width as int,
            img.height as int,
            radius,
        ),
{
    let w = img.width as int;
    let h = img.height as int;
    let sd = spec_render_data(stations, mercs, b, t, w, h, radius);
    assert forall|k: int| 0 <= k < img.data@.len() implies img.data@[k] == sd[k] by {
        let q = k / 3;
        let c = k % 3;
        lemma_fundamental_div_mod(k, 3);
        lemma_mod_bound(k, 3);
        assert(3 * (w * h - 1) + 2 == 3 * w * h - 1) by (nonlinear_arith);
        lemma_div_multiples_vanish_fancy(w * h - 1, 2, 3);
        lemma_div_is_ordered(k, 3 * w * h - 1, 3);
        lemma_div_pos_is_pos(k, 3);
        assert(0 <= q <= w * h - 1);
        let px = q % w;
        let py = q / w;
        lemma_fundamental_div_mod(q, w);
        lemma_mod_bound(q, w);
        lemma_div_pos_is_pos(q, w);
        assert(w * (h - 1) + (w - 1) == w * h - 1) by (nonlinear_arith);
        lemma_div_multiples_vanish_fancy(h - 1, w - 1, w);
        lemma_div_is_ordered(q, w * h - 1, w);
        assert(0 <= py <= h - 1);
        assert(py * w == w * py) by (nonlinear_arith);
        assert(3 * (py * w + px) + c == k);
        assert(img.spec_pixel(px, py) == spec_rendered_pixel(
            stations,
            mercs,
            b,
            t,
            w,
            h,
            radius,
            px,
            py,
        ));
    }
    assert(img.data@ =~= sd);
}

/// Boundary pixels: a station on the box's west edge lands in column 0
/// and one on the east edge in the last column; the top Mercator edge
/// lands in row 0 and the bottom edge in the last row.
pub proof fn lemma_boundary_pixels(b: BoundingBox, width: int, height: int)
    requires
        box_wf(b),
        1 <= width,
        1 <= height,
    ensures
        spec_pixel_x(b.lon_min_milli as int, b, width) == 0,
        spec_pixel_x(b.lon_max_milli as int, b, width) == width - 1,
        spec_pixel_y(b.merc_max as int, b, height) == 0,
        spec_pixel_y(b.merc_min as int, b, height) == height - 1,
{
    let xspan = b.lon_max_milli - b.lon_min_milli;
    let yspan = b.merc_max - b.merc_min;
    assert(xspan * (width - 1) == (width - 1) * xspan) by (nonlinear_arith);
    assert(yspan * (height - 1) == (height - 1) * yspan) by (nonlinear_arith);
    lemma_div_multiples_vanish(width - 1, xspan as int);
    lemma_div_multiples_vanish(height - 1, yspan as int);
    lemma_div_pos_is_pos(0, xspan as int);
    lemma_div_pos_is_pos(0, yspan as int);
    assert(0 * (width - 1) == 0) by (nonlinear_arith);
    assert(0 * (height - 1) == 0) by (nonlinear_arith);
    assert(spec_pixel_x(b.lon_min_milli as int, b, width) == 0 * (width - 1) / (xspan as int));
    lemma_div_of0(xspan as int);
    lemma_div_of0(yspan as int);
}

} // verus!
