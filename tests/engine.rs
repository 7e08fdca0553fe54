use complex_sequences::color::{Hsv, Ratio, Rgb};
use complex_sequences::divergence::{
    limit, limit_on_screen_julia, limit_on_screen_mandelbrot, LimitMethod, State,
};
use complex_sequences::gate::{ChangeGate, Parameters};
use complex_sequences::method::{Method, Settings, UnknownSelector};
use complex_sequences::palette::label_roots;
use complex_sequences::raster::{
    convert_root_table_to_data, convert_state_table_to_data, root_color,
};
use complex_sequences::render::{render_divergence, render_root};
use complex_sequences::root::{limit_on_screen_root, newton_method, Root, RootMethod};
use complex_sequences::viewport::{pixel_from_offset, pixel_offset};

#[derive(Clone, Copy, PartialEq, Debug)]
struct Cx {
    re: f64,
    im: f64,
}

fn cx(re: f64, im: f64) -> Cx {
    Cx { re, im }
}

fn add(a: Cx, b: Cx) -> Cx {
    cx(a.re + b.re, a.im + b.im)
}

fn sub(a: Cx, b: Cx) -> Cx {
    cx(a.re - b.re, a.im - b.im)
}

fn mul(a: Cx, b: Cx) -> Cx {
    cx(a.re * b.re - a.im * b.im, a.re * b.im + a.im * b.re)
}

fn div(a: Cx, b: Cx) -> Cx {
    let d = b.re * b.re + b.im * b.im;
    cx((a.re * b.re + a.im * b.im) / d, (a.im * b.re - a.re * b.im) / d)
}

fn abs(a: Cx) -> f64 {
    (a.re * a.re + a.im * a.im).sqrt()
}

fn locator(zoom: f64, px: f64, py: f64) -> impl Fn(i64, i64) -> Cx {
    move |dx: i64, dy: i64| cx((dx as f64 / 2.0) / zoom - px, (dy as f64 / 2.0) / zoom - py)
}

fn ratio(num: u128, den: u64) -> Ratio {
    Ratio { num, den }
}

fn full_hsv(degrees: u128) -> Rgb {
    Hsv::new(ratio(degrees, 1), ratio(1, 1), ratio(1, 1)).to_rgb()
}

fn mandelbrot(z: Cx, c: Cx) -> Cx {
    add(mul(z, z), c)
}

#[test]
fn test_hsv_to_rgb() {
    for n in 0..360 {
        let hsv = Hsv::new(ratio(n as u128, 1), ratio(1, 1), ratio(1, 1));
        let rgb = hsv.to_rgb();
        println!(
            "- hsv=({}; {}; {}), rgb=({}; {}; {})",
            n, 1, 1, rgb.red, rgb.green, rgb.blue,
        );
        assert_eq!(rgb.red.max(rgb.green).max(rgb.blue), 255);
    }
}

#[test]
fn hsv_primary_hues() {
    assert_eq!(full_hsv(0), Rgb::new(255, 0, 0));
    assert_eq!(full_hsv(120), Rgb::new(0, 255, 0));
    assert_eq!(full_hsv(240), Rgb::new(0, 0, 255));
    assert_eq!(full_hsv(60), Rgb::new(255, 255, 0));
    assert_eq!(full_hsv(180), Rgb::new(0, 255, 255));
    assert_eq!(full_hsv(300), Rgb::new(255, 0, 255));
}

#[test]
fn hsv_intermediate_values() {
    // hue 30: x = 1/2, so green is 127 after truncation.
    assert_eq!(full_hsv(30), Rgb::new(255, 127, 0));
    // brightness 1/2, saturation 1/2, hue 0: c = 1/4, m = 1/4.
    let rgb = Hsv::new(ratio(0, 1), ratio(1, 2), ratio(1, 2)).to_rgb();
    assert_eq!(rgb, Rgb::new(127, 63, 63));
}

#[test]
fn hsv_unsaturated_is_gray() {
    for hue in [0u128, 45, 90, 200, 359] {
        let rgb = Hsv::new(ratio(hue, 1), ratio(0, 1), ratio(3, 4)).to_rgb();
        assert_eq!(rgb.red, rgb.green);
        assert_eq!(rgb.green, rgb.blue);
        assert_eq!(rgb.red, 191);
    }
}

#[test]
fn hsv_rejects_out_of_range() {
    assert!(Hsv::try_new(ratio(360, 1), ratio(1, 1), ratio(1, 1)).is_none());
    assert!(Hsv::try_new(ratio(10, 1), ratio(3, 2), ratio(1, 1)).is_none());
    assert!(Hsv::try_new(ratio(10, 1), ratio(1, 1), ratio(5, 4)).is_none());
    assert!(Hsv::try_new(ratio(10, 0), ratio(1, 1), ratio(1, 1)).is_none());
    assert_eq!(
        Hsv::try_new(ratio(359, 1), ratio(1, 1), ratio(0, 1)),
        Some(Hsv { hue: ratio(359, 1), saturation: ratio(1, 1), brightness: ratio(0, 1) })
    );
}

#[test]
fn outside_start_diverges_at_once() {
    let inside = |z: Cx| abs(z) <= 2.0;
    for z0 in [cx(3.0, 0.0), cx(0.0, -2.5), cx(2.0, 2.0)] {
        assert_eq!(limit(cx(0.0, 0.0), z0, &mandelbrot, &inside, 50), State::Divergent { iterations: 0 });
        assert_eq!(limit(cx(0.0, 0.0), z0, &mandelbrot, &inside, 0), State::Divergent { iterations: 0 });
    }
}

#[test]
fn limit_stays_within_budget() {
    let inside = |z: Cx| abs(z) <= 2.0;
    assert_eq!(limit(cx(0.0, 0.0), cx(0.0, 0.0), &mandelbrot, &inside, 50), State::Stable);
    assert_eq!(limit(cx(-1.0, 0.0), cx(0.0, 0.0), &mandelbrot, &inside, 7), State::Stable);
    assert_eq!(limit(cx(1.0, 0.0), cx(0.0, 0.0), &mandelbrot, &inside, 50), State::Divergent { iterations: 3 });
    assert_eq!(limit(cx(1.0, 0.0), cx(0.0, 0.0), &mandelbrot, &inside, 2), State::Stable);
    assert_eq!(limit(cx(0.0, 0.0), cx(1.0, 0.0), &mandelbrot, &inside, 0), State::Stable);
    for budget in 0..10usize {
        for re in [-2.0, -1.5, -0.5, 0.25, 0.3, 0.5] {
            match limit(cx(re, 0.1), cx(0.0, 0.0), &mandelbrot, &inside, budget) {
                State::Divergent { iterations } => assert!(iterations <= budget),
                State::Stable => {}
                State::GridLine => panic!("the iteration never marks the overlay"),
            }
        }
    }
}

#[test]
fn viewport_offsets_round_trip() {
    assert_eq!(pixel_offset(0, 4), -4);
    assert_eq!(pixel_offset(3, 4), 2);
    assert_eq!(pixel_offset(2, 5), -1);
    for width in [1usize, 4, 5, 600] {
        for x in 0..width {
            assert_eq!(pixel_from_offset(pixel_offset(x, width), width), Some(x));
        }
    }
    assert_eq!(pixel_from_offset(-1, 4), None);
    assert_eq!(pixel_from_offset(-6, 4), None);
}

#[test]
fn viewport_mapping_inverts() {
    let (w, zoom, px, py) = (600usize, 3.0, 0.25, -0.5);
    let locate = locator(zoom, px, py);
    for (x, y) in [(0usize, 0usize), (17, 599), (300, 300), (599, 12)] {
        let p = locate(pixel_offset(x, w), pixel_offset(y, w));
        let back_x = (p.re + px) * zoom + w as f64 / 2.0;
        let back_y = (p.im + py) * zoom + w as f64 / 2.0;
        assert!((back_x - x as f64).abs() < 1e-9);
        assert!((back_y - y as f64).abs() < 1e-9);
    }
    // The width serves both axes.
    let p = locate(pixel_offset(0, 4), pixel_offset(0, 4));
    assert_eq!(p, cx(-2.0 / 3.0 - 0.25, -2.0 / 3.0 + 0.5));
}

fn square_minus_one(z: Cx) -> Cx {
    sub(mul(z, z), cx(1.0, 0.0))
}

fn twice(z: Cx) -> Cx {
    mul(cx(2.0, 0.0), z)
}

fn newton_step(z: Cx, v: Cx, d: Cx) -> Cx {
    sub(z, div(v, d))
}

fn is_zero(z: Cx) -> bool {
    z == cx(0.0, 0.0)
}

#[test]
fn newton_square_root_of_one() {
    for budget in [6usize, 7, 20] {
        match newton_method(cx(2.0, 0.0), &square_minus_one, &twice, &newton_step, &is_zero, budget) {
            Root::Yes { root, iterations } => {
                assert!((root.re - 1.0).abs() < 1e-12 && root.im.abs() < 1e-12);
                assert_eq!(iterations, budget);
            }
            Root::No => panic!("Newton's method should reach 1"),
        }
    }
    assert_eq!(
        newton_method(cx(2.0, 0.0), &square_minus_one, &twice, &newton_step, &is_zero, 3),
        Root::No
    );
    // A zero derivative propagates as a non-finite value: no root.
    assert_eq!(
        newton_method(cx(0.0, 0.0), &square_minus_one, &twice, &newton_step, &is_zero, 4),
        Root::No
    );
}

#[test]
fn root_sampling_covers_the_raster() {
    let locate = locator(1.0, 0.0, 0.0);
    let table = limit_on_screen_root(&square_minus_one, &twice, &newton_step, &is_zero, 30, [3, 2], &locate);
    assert_eq!(table.len(), 2);
    assert!(table.iter().all(|row| row.len() == 3));
    // Pixel (2, 0) starts from 1 - 3i/2... and pixel (1, 1) from 0 - i/2.
    match table[1][2] {
        Root::Yes { root, .. } => assert!((root.re - 1.0).abs() < 1e-12),
        Root::No => panic!("expected a root"),
    }
}

fn same(a: Cx, b: Cx) -> bool {
    a == b
}

#[test]
fn two_roots_get_opposite_hues() {
    let one = cx(1.0, 0.0);
    let minus_one = cx(-1.0, 0.0);
    let table = vec![
        vec![Root::No, Root::Yes { root: minus_one, iterations: 4 }],
        vec![Root::Yes { root: one, iterations: 2 }, Root::Yes { root: minus_one, iterations: 5 }],
    ];
    let labels = label_roots(&table, &same);
    assert_eq!(labels.roots, vec![minus_one, one]);
    assert_eq!(labels.labels, vec![vec![None, Some(0)], vec![Some(1), Some(0)]]);
    let data = convert_root_table_to_data(&table, [1, 2, 3], 10, &same);
    assert_eq!(data.raw_pixels, vec![1, 2, 3, 255, 0, 0, 0, 255, 255, 255, 0, 0]);
    assert_eq!(data.iterations_total, 10 + 4 + 2 + 5);
    assert_eq!(root_color(0, 2), Rgb::new(255, 0, 0));
    assert_eq!(root_color(1, 2), Rgb::new(0, 255, 255));
}

#[test]
fn three_roots_in_order_of_first_appearance() {
    let a = cx(0.0, 1.0);
    let b = cx(0.0, -1.0);
    let c = cx(1.0, 0.0);
    let table = vec![
        vec![Root::Yes { root: b, iterations: 1 }, Root::Yes { root: b, iterations: 1 }],
        vec![Root::Yes { root: c, iterations: 1 }, Root::Yes { root: a, iterations: 1 }],
    ];
    let labels = label_roots(&table, &same);
    assert_eq!(labels.roots, vec![b, c, a]);
    let data = convert_root_table_to_data(&table, [0, 0, 0], 10, &same);
    assert_eq!(&data.raw_pixels[6..9], &[0, 255, 0]);
    assert_eq!(&data.raw_pixels[9..12], &[0, 0, 255]);
}

#[test]
fn only_no_root_cells_use_the_no_root_colour() {
    let table: Vec<Vec<Root<Cx>>> = vec![vec![Root::No, Root::No], vec![Root::No, Root::No]];
    let labels = label_roots(&table, &same);
    assert!(labels.roots.is_empty());
    let data = convert_root_table_to_data(&table, [9, 8, 7], 12, &same);
    assert_eq!(data.raw_pixels, [9u8, 8, 7].repeat(4));
    assert_eq!(data.iterations_total, 48);
    let empty: Vec<Vec<Root<Cx>>> = Vec::new();
    let data = convert_root_table_to_data(&empty, [9, 8, 7], 12, &same);
    assert!(data.raw_pixels.is_empty());
    assert_eq!(data.iterations_total, 0);
}

#[test]
fn divergence_colours_scale_with_steps() {
    let table = vec![
        vec![State::Stable, State::Divergent { iterations: 5 }],
        vec![State::GridLine, State::Divergent { iterations: 0 }],
        vec![State::Divergent { iterations: 10 }, State::Divergent { iterations: 3 }],
    ];
    let data = convert_state_table_to_data(&table, [0, 5, 15], [255, 250, 240], [100, 100, 100], 10);
    assert_eq!(
        data.raw_pixels,
        vec![0, 5, 15, 127, 125, 120, 100, 100, 100, 0, 0, 0, 255, 250, 240, 76, 75, 72]
    );
    assert_eq!(data.iterations_total, 10 + 5 + 1 + 0 + 10 + 3);
    let zero_budget = vec![vec![State::Divergent { iterations: 0 }, State::Stable]];
    let data = convert_state_table_to_data(&zero_budget, [1, 2, 3], [200, 200, 200], [9, 9, 9], 0);
    assert_eq!(data.raw_pixels, vec![0, 0, 0, 1, 2, 3]);
    assert_eq!(data.iterations_total, 0);
}

#[test]
fn grid_overlay_marks_axes() {
    let inside = |z: Cx| abs(z) <= 2.0;
    let locate = locator(1.0, 0.0, 0.0);
    let table = limit_on_screen_mandelbrot(cx(0.0, 0.0), &mandelbrot, &inside, 50, [5, 3], &locate, true);
    assert_eq!(table.len(), 3);
    for (y, row) in table.iter().enumerate() {
        assert_eq!(row.len(), 5);
        for (x, cell) in row.iter().enumerate() {
            assert_eq!(*cell == State::GridLine, x == 2 || y == 1);
        }
    }
    let plain = limit_on_screen_mandelbrot(cx(0.0, 0.0), &mandelbrot, &inside, 50, [5, 3], &locate, false);
    assert!(plain.iter().all(|row| row.iter().all(|c| *c != State::GridLine)));
}

#[test]
fn julia_uses_pixel_as_start() {
    let inside = |z: Cx| abs(z) <= 2.0;
    let locate = locator(1.0, 0.0, 0.0);
    let table = limit_on_screen_julia(cx(0.0, 0.0), &mandelbrot, &inside, 20, [4, 4], &locate, false);
    // With c = 0 the start stays bounded exactly when |z0| <= 1.
    assert_eq!(table[2][2], State::Stable);
    assert_eq!(table[2][3], State::Stable);
    assert_eq!(table[0][0], State::Divergent { iterations: 0 });
    assert_eq!(table[2][0], State::Divergent { iterations: 1 });
}

#[test]
fn mandelbrot_golden_raster() {
    let inside = |z: Cx| abs(z) <= 2.0;
    let locate = locator(1.0, 0.0, 0.0);
    let data = render_divergence(
        LimitMethod::Mandelbrot,
        cx(0.0, 0.0),
        &mandelbrot,
        &inside,
        50,
        [4, 4],
        &locate,
        false,
        [0, 5, 15],
        [255, 250, 240],
        [100, 100, 100],
    );
    let expected: Vec<u8> = vec![
        5, 5, 4, 5, 5, 4, 10, 10, 9, 5, 5, 4, 5, 5, 4, 15, 15, 14, 0, 5, 15, 10, 10, 9, 0, 5,
        15, 0, 5, 15, 0, 5, 15, 15, 15, 14, 5, 5, 4, 15, 15, 14, 0, 5, 15, 10, 10, 9,
    ];
    assert_eq!(data.raw_pixels.len(), 48);
    assert_eq!(data.raw_pixels, expected);
    assert_eq!(data.iterations_total, 270);
}

#[test]
fn render_root_rejects_unknown_method() {
    let locate = locator(1.0, 0.0, 0.0);
    let bad = render_root(1, &square_minus_one, &twice, &newton_step, &is_zero, &same, 10, [2, 2], &locate, [0, 0, 0]);
    assert_eq!(bad.err(), Some(UnknownSelector { id: 1 }));
    let good = render_root(0, &square_minus_one, &twice, &newton_step, &is_zero, &same, 30, [4, 4], &locate, [0, 0, 0]);
    let data = good.ok().expect("method 0 is Newton");
    assert_eq!(data.raw_pixels.len(), 48);
}

fn parameters() -> Parameters {
    Parameters {
        zoom: 1.0f64.to_bits(),
        position_x: 0.0f64.to_bits(),
        position_y: 0.0f64.to_bits(),
        iterations: 50,
        threshold: 2.0f64.to_bits(),
        constant_re: 0.0f64.to_bits(),
        constant_im: 0.0f64.to_bits(),
        selector: 0,
    }
}

#[test]
fn change_gate_reports_each_change_once() {
    let mut gate = ChangeGate::new(parameters());
    assert!(gate.is_state_updated());
    assert!(!gate.is_state_updated());
    assert!(!gate.is_state_updated());
    gate.current.zoom = 2.5f64.to_bits();
    assert!(gate.is_state_updated());
    assert!(!gate.is_state_updated());
    gate.current.iterations = 51;
    assert!(gate.is_state_updated());
    assert!(!gate.is_state_updated());
    gate.current.position_y = 0.5f64.to_bits();
    gate.current.constant_re = (-0.75f64).to_bits();
    assert!(gate.is_state_updated());
    assert!(!gate.is_state_updated());
    gate.current.selector = 1;
    assert!(gate.is_state_updated());
    gate.current.selector = 0;
    assert!(gate.is_state_updated());
    assert!(!gate.is_state_updated());
}

#[test]
fn selectors_list_and_names() {
    assert_eq!(Method::list(), vec![Method::Debug, Method::Divergence, Method::Roots]);
    assert_eq!(Method::Divergence.to_static_str(), "1. Divergence.");
    assert_eq!(Method::Roots.name(), "Method::Roots");
    assert_eq!(Method::from_id(2), Ok(Method::Roots));
    assert_eq!(Method::from_id(3), Err(UnknownSelector { id: 3 }));
    assert_eq!(LimitMethod::list(), vec![LimitMethod::Mandelbrot, LimitMethod::Julia]);
    assert_eq!(LimitMethod::Julia.to_static_str(), "2. Julia");
    assert_eq!(LimitMethod::Mandelbrot.name(), "Mandelbrot");
    assert_eq!(LimitMethod::from_id(1), Ok(LimitMethod::Julia));
    assert_eq!(LimitMethod::from_id(7), Err(UnknownSelector { id: 7 }));
    assert_eq!(RootMethod::list(), vec![RootMethod::Newton]);
    assert_eq!(RootMethod::Newton.to_static_str(), "1. Newton");
    assert_eq!(RootMethod::from_id(0), Ok(RootMethod::Newton));
    assert_eq!(RootMethod::from_id(1), Err(UnknownSelector { id: 1 }));
    let settings = Settings::new();
    assert_eq!(settings.method(), Ok(Method::Debug));
    assert_eq!(Settings { method_id: 9 }.method(), Err(UnknownSelector { id: 9 }));
}
