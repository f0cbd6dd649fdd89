use rand::rngs::StdRng;
use rand::SeedableRng;
use redraw::adapt::{shrink_due, shrink_max};
use redraw::generate::{rasterize, second_anchor, Proposal, OFFSET_SCALE};
use redraw::palette::build_palette;
use redraw::raster::{Raster, Rgb};
use redraw::scoring::{accept, draw, error_sums};
use redraw::search::{parse_shapes, run, Config, ConfigError, Search};
use redraw::shapes::{gen_line, gen_rect, ShapeKind};

const RED: Rgb = Rgb { r: 255, g: 0, b: 0 };
const BLACK: Rgb = Rgb { r: 0, g: 0, b: 0 };

fn config(iterations: u64, shapes: Vec<ShapeKind>) -> Config {
    Config {
        iterations,
        min_size: 1,
        max_size: 20,
        shapes,
        uniform_palette: false,
        adaptive: false,
        adapt_rate: 100_000,
        adapt_coeff_num: 9,
        adapt_coeff_den: 10,
        biased: false,
        animate: false,
        animation_interval: 1000,
        quiet: true,
    }
}

fn filled(w: u32, h: u32, c: Rgb) -> Raster {
    Raster::from_pixels(w, h, vec![c; (w * h) as usize]).unwrap()
}

fn gradient(w: u32, h: u32) -> Raster {
    let mut px = Vec::new();
    for y in 0..h {
        for x in 0..w {
            px.push(Rgb { r: (x * 7 % 256) as u8, g: (y * 11 % 256) as u8, b: ((x + y) % 256) as u8 });
        }
    }
    Raster::from_pixels(w, h, px).unwrap()
}

fn connected(pts: &[(u32, u32)]) -> bool {
    pts.windows(2).all(|w| {
        (w[0].0 as i64 - w[1].0 as i64).abs() <= 1 && (w[0].1 as i64 - w[1].1 as i64).abs() <= 1
    })
}

#[test]
fn line_shallow_first_octant() {
    assert_eq!(gen_line(0, 0, 3, 1), vec![(0, 0), (1, 0), (2, 1), (3, 1)]);
}

#[test]
fn line_reversed_direction() {
    assert_eq!(gen_line(3, 1, 0, 0), vec![(3, 1), (2, 1), (1, 0), (0, 0)]);
}

#[test]
fn line_single_point() {
    assert_eq!(gen_line(5, 5, 5, 5), vec![(5, 5)]);
}

#[test]
fn line_vertical_and_diagonal() {
    assert_eq!(gen_line(2, 0, 2, 3), vec![(2, 0), (2, 1), (2, 2), (2, 3)]);
    assert_eq!(gen_line(0, 3, 3, 0), vec![(0, 3), (1, 2), (2, 1), (3, 0)]);
}

#[test]
fn line_endpoints_and_connectivity_all_octants() {
    let anchors = [0u32, 1, 4, 9, 17];
    for &x0 in &anchors {
        for &y0 in &anchors {
            for &x1 in &anchors {
                for &y1 in &anchors {
                    let l = gen_line(x0, y0, x1, y1);
                    assert_eq!(l[0], (x0, y0));
                    assert_eq!(*l.last().unwrap(), (x1, y1));
                    assert!(connected(&l));
                }
            }
        }
    }
}

#[test]
fn rect_cells_column_by_column() {
    assert_eq!(gen_rect(1, 2, 3, 4), vec![(1, 2), (1, 3), (2, 2), (2, 3)]);
}

#[test]
fn rect_size_formula_and_reversed_ranges() {
    assert_eq!(gen_rect(0, 0, 5, 3).len(), 15);
    assert!(gen_rect(5, 0, 2, 3).is_empty());
    assert!(gen_rect(0, 5, 3, 2).is_empty());
    assert!(gen_rect(4, 4, 4, 9).is_empty());
}

#[test]
fn rasterize_dispatches_on_kind() {
    assert_eq!(rasterize(ShapeKind::Line, 0, 0, 2, 0), vec![(0, 0), (1, 0), (2, 0)]);
    assert_eq!(rasterize(ShapeKind::Rectangle, 0, 0, 1, 2), vec![(0, 0), (0, 1)]);
}

#[test]
fn error_sums_and_accept() {
    let target = filled(2, 2, RED);
    let canvas = filled(2, 2, BLACK);
    let fp = vec![(0, 0), (1, 1), (5, 5)];
    assert_eq!(error_sums(&target, &canvas, &fp, RED), (510, 0));
    assert!(accept(&target, &canvas, &fp, RED));
    assert!(!accept(&target, &canvas, &fp, BLACK));
    let green = Rgb { r: 0, g: 10, b: 3 };
    assert_eq!(error_sums(&target, &canvas, &fp, green), (510, 2 * (255 + 10 + 3)));
}

#[test]
fn degenerate_footprint_is_rejected() {
    let target = filled(2, 2, RED);
    let canvas = filled(2, 2, BLACK);
    assert!(!accept(&target, &canvas, &vec![], RED));
    assert!(!accept(&target, &canvas, &vec![(9, 9)], RED));
}

#[test]
fn acceptance_repeats_on_equal_inputs() {
    let target = gradient(6, 5);
    let canvas = filled(6, 5, BLACK);
    let fp = gen_rect(1, 1, 4, 3);
    let c = Rgb { r: 20, g: 30, b: 4 };
    assert_eq!(accept(&target, &canvas, &fp, c), accept(&target, &canvas, &fp, c));
}

#[test]
fn commit_zeroes_candidate_error() {
    let target = gradient(6, 5);
    let mut canvas = filled(6, 5, BLACK);
    let fp = gen_line(0, 0, 9, 3);
    let c = Rgb { r: 40, g: 50, b: 6 };
    draw(&mut canvas, &fp, c);
    assert_eq!(error_sums(&canvas, &canvas, &fp, c).1, 0);
    assert_eq!(canvas.get(0, 0), c);
    assert_eq!(canvas.get(5, 4), BLACK);
}

#[test]
fn shrink_schedule_thresholds() {
    assert!(!shrink_due(100, 0, 100));
    assert!(shrink_due(101, 0, 100));
    assert!(!shrink_due(200, 1, 100));
    assert!(shrink_due(201, 1, 100));
    assert!(!shrink_due(u64::MAX, 64, 1));
}

#[test]
fn shrink_max_truncates_and_clamps() {
    assert_eq!(shrink_max(20, 1, 9, 10), 18);
    assert_eq!(shrink_max(2, 1, 9, 10), 2);
    assert_eq!(shrink_max(5, 3, 1, 2), 4);
}

#[test]
fn adaptive_max_never_grows_nor_reaches_min() {
    let mut cfg = config(0, vec![ShapeKind::Line]);
    cfg.adaptive = true;
    cfg.adapt_rate = 1;
    cfg.min_size = 3;
    cfg.max_size = 40;
    let mut s = Search::new(&cfg);
    let mut last = s.max;
    for i in 0..200u64 {
        s.iteration = i;
        s.adapt(&cfg);
        assert!(s.max <= last);
        assert!(s.max > s.min);
        last = s.max;
    }
    assert_eq!(s.max, 15);
}

#[test]
fn second_anchor_cases() {
    let s = OFFSET_SCALE;
    assert_eq!(second_anchor(10, 5, 3 * s, 2 * s, false), (13, 7));
    assert_eq!(second_anchor(10, 5, 3 * s, 2 * s, true), (7, 7));
    assert_eq!(second_anchor(2, 5, 4 * s, 2 * s, true), (0, 6));
    assert_eq!(second_anchor(u32::MAX, 0, 3 * s, 0, false), (u32::MAX, 0));
}

#[test]
fn palette_per_pixel_and_uniform() {
    let blue = Rgb { r: 0, g: 0, b: 9 };
    let px = vec![RED, blue, RED, BLACK, blue, RED];
    let target = Raster::from_pixels(3, 2, px.clone()).unwrap();
    assert_eq!(build_palette(&target, false), px);
    assert_eq!(build_palette(&target, true), vec![BLACK, blue, RED]);
}

#[test]
fn from_pixels_checks_length() {
    assert!(Raster::from_pixels(2, 2, vec![RED; 3]).is_none());
    assert!(Raster::from_pixels(2, 2, vec![RED; 4]).is_some());
}

#[test]
fn validate_names_each_error() {
    assert_eq!(config(1, vec![ShapeKind::Line]).validate(), Ok(()));
    assert_eq!(config(1, vec![]).validate(), Err(ConfigError::NoShapes));
    let mut c = config(1, vec![ShapeKind::Line]);
    c.min_size = 20;
    assert_eq!(c.validate(), Err(ConfigError::SizeRange));
    let mut c = config(1, vec![ShapeKind::Line]);
    c.adapt_rate = 0;
    assert_eq!(c.validate(), Err(ConfigError::AdaptRate));
    let mut c = config(1, vec![ShapeKind::Line]);
    c.adapt_coeff_num = 10;
    assert_eq!(c.validate(), Err(ConfigError::AdaptCoeff));
    let mut c = config(1, vec![ShapeKind::Line]);
    c.animation_interval = 0;
    assert_eq!(c.validate(), Err(ConfigError::AnimationInterval));
}

#[test]
fn two_by_two_red_rectangle_is_accepted() {
    let target = filled(2, 2, RED);
    let mut canvas = Raster::blank(2, 2);
    let mut cfg = config(1, vec![ShapeKind::Rectangle]);
    cfg.max_size = 2;
    let mut s = Search::new(&cfg);
    let p = Proposal { kind: ShapeKind::Rectangle, x0: 0, y0: 0, x1: 2, y1: 2, color: RED };
    assert_eq!(error_sums(&target, &canvas, &gen_rect(0, 0, 2, 2), RED), (1020, 0));
    assert!(s.apply(&target, &mut canvas, &cfg, &p));
    assert_eq!(s.committed, 1);
    assert_eq!(s.iteration, 1);
    assert!(canvas.pixels.iter().all(|&c| c == RED));
}

#[test]
fn zero_iterations_leave_canvas_black() {
    let target = gradient(8, 6);
    let mut cfg = config(0, vec![ShapeKind::Line, ShapeKind::Rectangle]);
    cfg.uniform_palette = true;
    cfg.adaptive = true;
    let mut rng = StdRng::seed_from_u64(3);
    let (canvas, state) = run(&target, &cfg, &mut rng);
    assert_eq!(state.iteration, 0);
    assert_eq!((canvas.width, canvas.height), (8, 6));
    assert!(canvas.pixels.iter().all(|&c| c == BLACK));
}

#[test]
fn seeded_runs_are_identical() {
    let target = gradient(16, 12);
    let cfg = config(3000, vec![ShapeKind::Line, ShapeKind::Rectangle]);
    let (a, sa) = run(&target, &cfg, &mut StdRng::seed_from_u64(42));
    let (b, sb) = run(&target, &cfg, &mut StdRng::seed_from_u64(42));
    assert_eq!(a.pixels, b.pixels);
    assert_eq!(sa, sb);
    assert_eq!(sa.iteration, 3000);
    assert!(sa.committed > 0 && sa.committed <= 3000);
    assert!(a.pixels.iter().any(|&c| c != BLACK));
}

#[test]
fn step_proposals_stay_in_range() {
    let target = gradient(5, 4);
    let palette = build_palette(&target, false);
    let mut canvas = Raster::blank(5, 4);
    let mut cfg = config(100, vec![ShapeKind::Rectangle]);
    cfg.animate = true;
    cfg.animation_interval = 1;
    cfg.quiet = false;
    let mut s = Search::new(&cfg);
    let mut rng = StdRng::seed_from_u64(9);
    let mut xs = std::collections::HashSet::new();
    for i in 0..100u64 {
        let before = s.committed;
        let r = s.step(&target, &mut canvas, &palette, &cfg, &mut rng);
        assert!(r.proposal.x0 < 5 && r.proposal.y0 < 4);
        assert!(palette.contains(&r.proposal.color));
        assert_eq!(r.proposal.kind, ShapeKind::Rectangle);
        assert!(r.proposal.y1 >= r.proposal.y0 && r.proposal.y1 < r.proposal.y0 + 20);
        assert_eq!(r.frame, if r.accepted { Some(before + 1) } else { None });
        assert_eq!(r.progress, Some(i));
        xs.insert(r.proposal.x0);
    }
    assert!(xs.len() > 1);
}

#[test]
fn run_only_paints_target_colors() {
    let target = gradient(10, 10);
    let mut cfg = config(2000, vec![ShapeKind::Line]);
    cfg.biased = true;
    let (canvas, _) = run(&target, &cfg, &mut StdRng::seed_from_u64(1));
    assert!(canvas.pixels.iter().all(|c| *c == BLACK || target.pixels.contains(c)));
}

#[test]
fn parse_shape_lists() {
    let p = |s: &str| parse_shapes(&s.as_bytes().to_vec());
    assert_eq!(p("lines"), Ok(vec![ShapeKind::Line]));
    assert_eq!(p("rectangles,lines"), Ok(vec![ShapeKind::Rectangle, ShapeKind::Line]));
    assert_eq!(p("lines,circles"), Err(ConfigError::UnknownShape));
    assert_eq!(p(""), Err(ConfigError::UnknownShape));
    assert_eq!(p("lines,"), Err(ConfigError::UnknownShape));
}

#[test]
fn rgb_bytes_round_trip() {
    let raw = vec![1u8, 2, 3, 4, 5, 6];
    let r = Raster::from_rgb_bytes(2, 1, &raw).unwrap();
    assert_eq!(r.pixels, vec![Rgb { r: 1, g: 2, b: 3 }, Rgb { r: 4, g: 5, b: 6 }]);
    assert_eq!(r.to_rgb_bytes(), raw);
    assert!(Raster::from_rgb_bytes(2, 2, &raw).is_none());
}

#[test]
fn owned_array_takes_first_three() {
    assert_eq!(redraw::raster::owned_array(&[7u8, 8, 9, 10]), [7, 8, 9]);
}

#[test]
fn version_names_the_program() {
    assert_eq!(
        redraw::version("1.2.3", "x86_64-unknown-linux-gnu", "2017-05-01"),
        "ReDraw 1.2.3 (x86_64-unknown-linux-gnu), compiled on 2017-05-01.\nCheck your copy-privilege. \u{1F12F}  2017"
    );
}

#[test]
fn empty_target_runs_to_black() {
    let target = Raster::from_pixels(0, 3, vec![]).unwrap();
    let (canvas, state) = run(&target, &config(50, vec![ShapeKind::Line]), &mut StdRng::seed_from_u64(5));
    assert!(canvas.pixels.is_empty());
    assert_eq!((canvas.width, canvas.height), (0, 3));
    assert_eq!(state.iteration, 0);
}
