use weather_tiles::errors::RenderError;
use weather_tiles::records::{StationLocation, WeatherMeasurement, WeatherStation, WindMeasurement};
use weather_tiles::render::{
    draw_stations, select_window, station_color, temperature_color, BoundingBox, TimeWindow,
};
use weather_tiles::tile::{render_tile_png, tile_dot_radius, tile_lon_milli, weekly_window};

const PI_FP: i64 = 3_141_592_653;

fn measurement(minute: i64, temp: Option<i16>) -> WeatherMeasurement {
    WeatherMeasurement {
        minute,
        wind: Some(WindMeasurement::Calm),
        air_temperature_tenths: temp,
        air_pressure_tenths: None,
    }
}

fn station(lat_milli: i32, lon_milli: i32, ms: Vec<WeatherMeasurement>) -> WeatherStation {
    WeatherStation {
        usaf: b"123456".to_vec(),
        wban: b"54321".to_vec(),
        location: Some(StationLocation {
            latitude_milli: lat_milli,
            longitude_milli: lon_milli,
        }),
        elevation: None,
        measurements: ms,
    }
}

fn globe_box() -> BoundingBox {
    BoundingBox {
        lon_min_milli: -180000,
        lon_max_milli: 180000,
        lat_min_milli: -85051,
        lat_max_milli: 85051,
        merc_min: -PI_FP,
        merc_max: PI_FP,
    }
}

fn pixel(img: &weather_tiles::render::RgbRaster, x: u32, y: u32) -> (u8, u8, u8) {
    let base = 3 * ((y * img.width + x) as usize);
    (img.data[base], img.data[base + 1], img.data[base + 2])
}

#[test]
fn window_selection_on_sample_series() {
    let ms = vec![
        measurement(1, Some(10)),
        measurement(3, Some(20)),
        measurement(5, Some(30)),
        measurement(7, Some(40)),
    ];
    let (s, e) = select_window(&ms, 3, 6);
    assert_eq!((s, e), (1, 3));
    let selected: Vec<i64> = ms[s..e].iter().map(|m| m.minute).collect();
    assert_eq!(selected, vec![3, 5]);
}

#[test]
fn window_selection_edges() {
    let ms = vec![measurement(1, None), measurement(3, None)];
    // A window before everything selects nothing.
    assert_eq!(select_window(&ms, -10, 0), (0, 0));
    // A window after everything selects nothing.
    assert_eq!(select_window(&ms, 10, 20), (2, 2));
    // An inverted window selects nothing.
    assert_eq!(select_window(&ms, 5, 2), (2, 2));
    // A window covering everything selects everything.
    assert_eq!(select_window(&ms, 0, 100), (0, 2));
    // An empty series yields the empty window.
    assert_eq!(select_window(&Vec::new(), 0, 100), (0, 0));
}

#[test]
fn color_mapping_bounds_and_midpoint() {
    // -30.0 C
    assert_eq!(temperature_color(-300), (0, 127, 255));
    // 40.0 C
    assert_eq!(temperature_color(400), (255, 127, 0));
    // 5.0 C sits at the midpoint.
    assert_eq!(temperature_color(50), (127, 127, 127));
    // Values beyond the band clamp to the boundary colors.
    assert_eq!(temperature_color(-999), (0, 127, 255));
    assert_eq!(temperature_color(999), (255, 127, 0));
    assert_eq!(temperature_color(-300), temperature_color(-301));
    assert_eq!(temperature_color(400), temperature_color(401));
}

#[test]
fn station_color_takes_first_in_window_temperature() {
    let ms = vec![
        measurement(1, Some(-300)),
        measurement(3, None),
        measurement(5, Some(400)),
        measurement(7, Some(0)),
    ];
    // Window [2, 8): first candidate (minute 3) has no temperature, the
    // one at minute 5 decides.
    assert_eq!(station_color(&ms, 2, 8), (255, 127, 0));
    // Window [0, 2): the measurement at minute 1 decides.
    assert_eq!(station_color(&ms, 0, 2), (0, 127, 255));
    // An empty window is the no-data color.
    assert_eq!(station_color(&ms, 100, 200), (0, 0, 0));
    // In-window measurements without temperature are no data.
    assert_eq!(station_color(&ms, 2, 4), (0, 0, 0));
}

#[test]
fn boundary_stations_map_to_corner_pixels() {
    let b = globe_box();
    let window = TimeWindow {
        start_minute: 0,
        end_minute: 10,
    };
    let top_left = station(85051, -180000, vec![measurement(5, Some(400))]);
    let bottom_right = station(-85051, 180000, vec![measurement(5, Some(400))]);
    let stations = vec![top_left, bottom_right];
    // Mercator values of the box's own latitude edges.
    let mercs = vec![PI_FP, -PI_FP];
    let img = draw_stations(&stations, &mercs, &b, window, 16, 8, 1).unwrap();
    assert_eq!(pixel(&img, 0, 0), (255, 127, 0));
    assert_eq!(pixel(&img, 15, 7), (255, 127, 0));
    // A pixel away from both dots stays black.
    assert_eq!(pixel(&img, 8, 4), (0, 0, 0));
}

#[test]
fn out_of_box_station_is_skipped() {
    let b = BoundingBox {
        lon_min_milli: 0,
        lon_max_milli: 10000,
        lat_min_milli: 0,
        lat_max_milli: 10000,
        merc_min: 0,
        merc_max: 1000,
    };
    let window = TimeWindow {
        start_minute: 0,
        end_minute: 10,
    };
    let outside = station(-50000, -50000, vec![measurement(5, Some(400))]);
    let img = draw_stations(&vec![outside], &vec![500], &b, window, 4, 4, 4).unwrap();
    assert!(img.data.iter().all(|&v| v == 0));
}

#[test]
fn inconsistent_mercator_is_geometry_violation() {
    let b = BoundingBox {
        lon_min_milli: 0,
        lon_max_milli: 10000,
        lat_min_milli: 0,
        lat_max_milli: 10000,
        merc_min: 0,
        merc_max: 1000,
    };
    let window = TimeWindow {
        start_minute: 0,
        end_minute: 10,
    };
    // The station sits inside the box, but its Mercator value lies far
    // below the box's bottom edge: the projected row falls outside.
    let st = station(5000, 5000, vec![measurement(5, Some(0))]);
    let r = draw_stations(&vec![st], &vec![-10_000_000_000], &b, window, 4, 4, 1);
    assert_eq!(r.unwrap_err(), RenderError::GeometryInvariantViolation);
}

#[test]
fn dot_radius_square_and_edge_clipping() {
    let b = globe_box();
    let window = TimeWindow {
        start_minute: 0,
        end_minute: 10,
    };
    // A station in the middle of the box with a 3-pixel dot.
    let mid = station(0, 0, vec![measurement(5, Some(400))]);
    let img = draw_stations(&vec![mid], &vec![0], &b, window, 16, 16, 3).unwrap();
    // Center: x = 0.5 * 15 = 7, y = 0.5 * 15 = 7.
    for dy in 0..3u32 {
        for dx in 0..3u32 {
            assert_eq!(pixel(&img, 6 + dx, 6 + dy), (255, 127, 0));
        }
    }
    assert_eq!(pixel(&img, 5, 7), (0, 0, 0));
    // A corner station with a large dot: off-image pixels are skipped.
    let corner = station(85051, -180000, vec![measurement(5, Some(400))]);
    let img2 = draw_stations(&vec![corner], &vec![PI_FP], &b, window, 8, 8, 5).unwrap();
    assert_eq!(pixel(&img2, 0, 0), (255, 127, 0));
    assert_eq!(pixel(&img2, 2, 2), (255, 127, 0));
    assert_eq!(pixel(&img2, 3, 3), (0, 0, 0));
}

#[test]
fn tile_longitude_edges_and_radius() {
    // Zoom 0: one tile covers the whole globe.
    assert_eq!(tile_lon_milli(0, 0), -180000);
    assert_eq!(tile_lon_milli(0, 1), 180000);
    // Zoom 1: the western tile ends at the prime meridian.
    assert_eq!(tile_lon_milli(1, 1), 0);
    assert_eq!(tile_dot_radius(0), 1);
    assert_eq!(tile_dot_radius(4), 1);
    assert_eq!(tile_dot_radius(5), 2);
    assert_eq!(tile_dot_radius(10), 7);
}

#[test]
fn whole_globe_tile_keeps_antimeridian_station() {
    // A station exactly on the antimeridian, with a known warm color.
    let st = station(0, 180000, vec![measurement(24193440, Some(400))]);
    let stations = vec![st];
    let mercs = vec![0i64];
    let png = render_tile_png(&stations, &mercs, 0, 0, -85051, 85051, -PI_FP, PI_FP).unwrap();
    let img = image::load_from_memory(&png).unwrap().to_rgb8();
    assert_eq!(img.width(), 256);
    assert_eq!(img.height(), 256);
    // Column 255 is the eastern edge; the equator row is 127.
    assert_eq!(img.get_pixel(255, 127).0, [255, 127, 0]);
    // The antipodal corner stays black.
    assert_eq!(img.get_pixel(0, 0).0, [0, 0, 0]);
}

#[test]
fn weekly_windows_tile_the_year() {
    let w0 = weekly_window(0);
    let w1 = weekly_window(1);
    // 2016-01-01 00:00 UTC in minutes since 1970.
    assert_eq!(w0.start_minute, 16801 * 1440);
    assert_eq!(w0.end_minute, w0.start_minute + 7 * 24 * 60);
    assert_eq!(w1.start_minute, w0.end_minute);
    assert_eq!(w1.end_minute, w0.end_minute + 10080);
}
