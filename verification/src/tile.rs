use vstd::prelude::*;

use crate::errors::RenderError;
use crate::records::{sorted_by_minute, WeatherStation};
use crate::render::{
    box_wf, draw_stations, geometry_ok, lemma_raster_matches, spec_render_data, BoundingBox,
    TimeWindow, MERC_ABS_MAX,
};
use crate::timebase::{minute_index, spec_minute_index};
use vstd::arithmetic::div_mod::{
    lemma_div_is_ordered, lemma_div_multiples_vanish, lemma_div_plus_one, lemma_div_pos_is_pos,
};
use vstd::arithmetic::mul::{lemma_mul_inequality, lemma_mul_nonnegative};

verus! {

/// The tile service: a slippy-map tile address names a bounding box; the
/// longitude edges are exact in thousandths of a degree and computed
/// here, while the latitude edges and their Mercator values involve
/// transcendental functions and come in from the caller. The tile is
/// rendered at a fixed 256 by 256 over the full served time range and
/// encoded as PNG.

pub open spec fn pow2(n: nat) -> int
    decreases n,
{
    if n == 0 {
        1
    } else {
        2 * pow2((n - 1) as nat)
    }
}

pub proof fn lemma_pow2_pos(n: nat)
    ensures
        pow2(n) >= 1,
    decreases n,
{
    if n > 0 {
        lemma_pow2_pos((n - 1) as nat);
    }
}

pub proof fn lemma_pow2_monotone(a: nat, b: nat)
    requires
        a <= b,
    ensures
        pow2(a) <= pow2(b),
    decreases b,
{
    if a < b {
        lemma_pow2_monotone(a, (b - 1) as nat);
        lemma_pow2_pos((b - 1) as nat);
    }
}

proof fn lemma_pow2_30()
    ensures
        pow2(30) == 0x40000000,
        pow2(18) == 262144,
{
    reveal_with_fuel(pow2, 31);
}

/// 2 to the zoom level.
pub fn pow2_u64(zoom: u32) -> (r: u64)
    requires
        zoom <= 30,
    ensures
        r == pow2(zoom as nat),
        1 <= r <= 0x40000000,
{
    let mut r: u64 = 1;
    let mut i: u32 = 0;
    while i < zoom
        invariant
            0 <= i <= zoom <= 30,
            r == pow2(i as nat),
            1 <= r <= 0x40000000,
        decreases zoom - i,
    {
        proof {
            lemma_pow2_monotone(i as nat + 1, 30);
            lemma_pow2_30();
            lemma_pow2_pos(i as nat);
        }
        r = r * 2;
        i += 1;
    }
    r
}

/// The western longitude edge of tile column `x` at a zoom level, in
/// thousandths of a degree: the tile grid divides [-180, 180] evenly.
pub open spec fn spec_tile_lon_milli(zoom: nat, x: int) -> int {
    x * 360000 / pow2(zoom) - 180000
}

pub fn tile_lon_milli(zoom: u32, x: u32) -> (r: i32)
    requires
        zoom <= 18,
        x as int <= pow2(zoom as nat),
    ensures
        r == spec_tile_lon_milli(zoom as nat, x as int),
        -180000 <= r <= 180000,
{
    let n = pow2_u64(zoom);
    proof {
        lemma_pow2_monotone(zoom as nat, 18);
        lemma_pow2_30();
        lemma_mul_nonnegative(x as int, 360000);
        lemma_mul_inequality(x as int, n as int, 360000);
        lemma_div_is_ordered(x as int * 360000, n as int * 360000, n as int);
        lemma_div_multiples_vanish(360000, n as int);
        lemma_div_pos_is_pos(x as int * 360000, n as int);
        assert(x as int * 360000 == (x as u64 * 360000) as int);
    }
    let num: u64 = (x as u64) * 360000;
    let q: u64 = num / n;
    (q as i32) - 180000
}

/// Adjacent tile columns have strictly increasing longitude edges, down
/// to the thousandth of a degree, at every zoom level the service takes.
pub proof fn lemma_tile_lon_strict(zoom: nat, x: int)
    requires
        zoom <= 18,
        0 <= x,
    ensures
        spec_tile_lon_milli(zoom, x) < spec_tile_lon_milli(zoom, x + 1),
{
    let n = pow2(zoom);
    lemma_pow2_pos(zoom);
    lemma_pow2_monotone(zoom, 18);
    lemma_pow2_30();
    lemma_mul_nonnegative(x, 360000);
    assert((x + 1) * 360000 == x * 360000 + 360000) by (nonlinear_arith);
    lemma_div_plus_one(x * 360000, n);
    lemma_div_is_ordered(n + x * 360000, x * 360000 + 360000, n);
}

/// Dot radius by zoom: single pixels far out, growing squares close in.
pub open spec fn spec_tile_dot_radius(zoom: int) -> int {
    if zoom < 5 {
        1
    } else {
        zoom - 3
    }
}

pub fn tile_dot_radius(zoom: u32) -> (r: u32)
    requires
        zoom <= 30,
    ensures
        r == spec_tile_dot_radius(zoom as int),
        1 <= r <= 27,
{
    if zoom < 5 {
        1
    } else {
        zoom - 3
    }
}

/// The full time range interactive tiles serve.
pub open spec fn spec_tile_window() -> TimeWindow {
    TimeWindow {
        start_minute: spec_minute_index(1900, 1, 1, 0, 0) as i64,
        end_minute: spec_minute_index(2100, 1, 1, 0, 0) as i64,
    }
}

pub fn tile_window() -> (r: TimeWindow)
    ensures
        r == spec_tile_window(),
{
    TimeWindow {
        start_minute: minute_index(1900, 1, 1, 0, 0),
        end_minute: minute_index(2100, 1, 1, 0, 0),
    }
}

/// The bounding box of tile (zoom, x, y): exact longitude edges from the
/// column, latitude edges and their Mercator values from the caller.
pub open spec fn spec_tile_box(
    zoom: nat,
    x: int,
    lat_bot_milli: i32,
    lat_top_milli: i32,
    merc_bot: i64,
    merc_top: i64,
) -> BoundingBox {
    BoundingBox {
        lon_min_milli: spec_tile_lon_milli(zoom, x) as i32,
        lon_max_milli: spec_tile_lon_milli(zoom, x + 1) as i32,
        lat_min_milli: lat_bot_milli,
        lat_max_milli: lat_top_milli,
        merc_min: merc_bot,
        merc_max: merc_top,
    }
}

/// The PNG encoding of an 8-bit RGB raster, as the image crate computes
/// it.
pub uninterp spec fn png_of(data: Seq<u8>, width: u32, height: u32) -> Seq<u8>;

/// Relies on image's `PngEncoder::write_image`: the encoding is a pure
/// function of the raster bytes and dimensions. It takes exactly three
/// bytes per pixel and reports failures as errors.
#[verifier::external_body]
fn encode_png(data: &Vec<u8>, width: u32, height: u32) -> (r: Option<Vec<u8>>)
    requires
        data@.len() == 3 * width * height,
    ensures
        match r {
            Some(p) => p@ == png_of(data@, width, height),
            None => true,
        },
{
    let mut buf: Vec<u8> = Vec::new();
    let enc = image::codecs::png::PngEncoder::new(&mut buf);
    let res = image::ImageEncoder::write_image(
        enc,
        data.as_slice(),
        width,
        height,
        image::ExtendedColorType::Rgb8,
    );
    match res {
        Ok(()) => Some(buf),
        Err(_) => None,
    }
}

/// Render one slippy-map tile as a 256 by 256 PNG over the full time
/// range. `lat_bot_milli`/`lat_top_milli` and `merc_bot`/`merc_top` are
/// the tile row's latitude edges and their Mercator values, computed by
/// the caller with the same Mercator scale as the per-station values.
#[verifier::rlimit(50)]
pub fn render_tile_png(
    stations: &Vec<WeatherStation>,
    mercs: &Vec<i64>,
    zoom: u32,
    x: u32,
    lat_bot_milli: i32,
    lat_top_milli: i32,
    merc_bot: i64,
    merc_top: i64,
) -> (r: Result<Vec<u8>, RenderError>)
    requires
        zoom <= 18,
        x as int + 1 <= pow2(zoom as nat),
        lat_bot_milli < lat_top_milli,
        merc_bot < merc_top,
        -MERC_ABS_MAX <= merc_bot,
        merc_top <= MERC_ABS_MAX,
        mercs@.len() == stations@.len(),
        forall|i: int| 0 <= i < mercs@.len() ==> -MERC_ABS_MAX <= #[trigger] mercs@[i]
            <= MERC_ABS_MAX,
        forall|i: int| 0 <= i < stations@.len() ==> sorted_by_minute(
            #[trigger] stations@[i].measurements@,
        ),
    ensures
        ({
            let bb = spec_tile_box(
                zoom as nat,
                x as int,
                lat_bot_milli,
                lat_top_milli,
                merc_bot,
                merc_top,
            );
            match r {
                Ok(png) => geometry_ok(stations@, mercs@, bb, 256, 256) && png@ == png_of(
                    spec_render_data(
                        stations@,
                        mercs@,
                        bb,
                        spec_tile_window(),
                        256,
                        256,
                        spec_tile_dot_radius(zoom as int),
                    ),
                    256,
                    256,
                ),
                Err(RenderError::GeometryInvariantViolation) => !geometry_ok(
                    stations@,
                    mercs@,
                    bb,
                    256,
                    256,
                ),
                Err(RenderError::EncodeFailure) => geometry_ok(stations@, mercs@, bb, 256, 256),
            }
        }),
{
    proof {
        lemma_pow2_monotone(zoom as nat, 18);
        lemma_pow2_30();
    }
    let lon_min = tile_lon_milli(zoom, x);
    let lon_max = tile_lon_milli(zoom, x + 1);
    proof {
        lemma_tile_lon_strict(zoom as nat, x as int);
    }
    let bb = BoundingBox {
        lon_min_milli: lon_min,
        lon_max_milli: lon_max,
        lat_min_milli: lat_bot_milli,
        lat_max_milli: lat_top_milli,
        merc_min: merc_bot,
        merc_max: merc_top,
    };
    assert(box_wf(bb));
    let window = tile_window();
    let radius = tile_dot_radius(zoom);
    let img = match draw_stations(stations, mercs, &bb, window, 256, 256, radius) {
        Ok(img) => img,
        Err(e) => {
            return Err(e);
        },
    };
    proof {
        lemma_raster_matches(img, stations@, mercs@, bb, window, radius as int);
    }
    match encode_png(&img.data, 256, 256) {
        Some(png) => Ok(png),
        None => Err(RenderError::EncodeFailure),
    }
}

/// The half-open one-week time window at a week index, for the batch
/// renderer's run of weekly snapshots starting 2016-01-01 00:00 UTC.
pub fn weekly_window(index: u32) -> (r: TimeWindow)
    ensures
        r.start_minute == spec_minute_index(2016, 1, 1, 0, 0) + index * 10080,
        r.end_minute == r.start_minute + 10080,
{
    let base = minute_index(2016, 1, 1, 0, 0);
    let start = base + (index as i64) * 10080;
    TimeWindow { start_minute: start, end_minute: start + 10080 }
}

} // verus!
