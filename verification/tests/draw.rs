use balance_overlay::draw::{
    can_draw_bar, can_draw_graph, can_outline, draw_bar, draw_graph, draw_grid, draw_row_text,
    draw_text_outline, grid_cell, DrawOp, Point, Rect,
};
use balance_overlay::layout::{can_line_height, can_scale, divide, line_height, scale};
use balance_overlay::config::Config;

fn rect(left: i32, top: i32, right: i32, bottom: i32) -> Rect {
    Rect { left, top, right, bottom }
}

#[test]
fn lengths_scale_with_the_dpi() {
    assert_eq!(scale(10, 96), 10);
    assert_eq!(scale(-7, 96), -7);
    assert_eq!(scale(10, 144), 15);
    assert_eq!(scale(5, 120), 6); // 6.25, toward zero
    assert_eq!(scale(-5, 120), -6);
    assert_eq!(scale(3, 0), 0);
    assert!(can_scale(i32::MAX, 1));
    assert!(!can_scale(i32::MAX, 2));
    assert!(can_scale(i32::MIN, 1));
}

#[test]
fn lines_are_half_again_as_high_as_the_font() {
    let mut cfg = Config::default();
    assert_eq!(line_height(&cfg, 96), 27);
    assert_eq!(line_height(&cfg, 192), 54);
    cfg.font_size = 10;
    assert_eq!(line_height(&cfg, 96), 24); // never lower
    cfg.font_size = 19;
    assert_eq!(line_height(&cfg, 96), 28);
    cfg.font_size = i32::MAX;
    assert!(!can_line_height(&cfg, 96));
}

#[test]
fn outlines_cover_the_box_around_the_text() {
    let r = rect(10, 20, 30, 40);
    assert_eq!(draw_text_outline(r, 0), vec![]);
    let mut want = Vec::new();
    for dx in -2..=2 {
        for dy in -2..=2 {
            if dx != 0 || dy != 0 {
                want.push(rect(10 + dx, 20 + dy, 30 + dx, 40 + dy));
            }
        }
    }
    let got = draw_text_outline(r, 2);
    assert_eq!(got, want);
    assert_eq!(got.len() + 1, 25);
    assert!(can_outline(r, 2));
    assert!(!can_outline(rect(i32::MIN, 0, 1, 1), 1));
    assert!(!can_outline(rect(0, 0, i32::MAX, 1), 1));
}

#[test]
fn outline_goes_under_its_text() {
    let r = rect(0, 0, 9, 9);
    let mut out = Vec::new();
    draw_row_text(&mut out, "hi", r, 1, 2, 1);
    assert_eq!(out.len(), 2);
    match (&out[0], &out[1]) {
        (
            DrawOp::Text { text: a, rects: ra, color: 2 },
            DrawOp::Text { text: b, rects: rb, color: 1 },
        ) => {
            assert_eq!((a.as_str(), ra.len()), ("hi", 8));
            assert_eq!((b.as_str(), rb), ("hi", &vec![r]));
        }
        _ => panic!("not two texts"),
    }
    let mut out = Vec::new();
    draw_row_text(&mut out, "hi", r, 1, 2, 0);
    assert_eq!(out.len(), 1);
}

#[test]
fn bars_fill_from_the_left() {
    let r = rect(10, 0, 60, 8);
    let filled = |percent: Option<u32>| {
        let mut out = Vec::new();
        draw_bar(&mut out, r, percent, 0xFFFFFF, 7);
        match out.first() {
            Some(DrawOp::Fill { rect, color: 7 }) => assert_eq!(*rect, r),
            _ => panic!("no well"),
        }
        match out.last() {
            Some(DrawOp::Frame { rect, color: 0x4F4F4F, chart: false }) => assert_eq!(*rect, r),
            _ => panic!("no frame"),
        }
        match out.get(1) {
            Some(DrawOp::Fill { rect, color: 0xFFFFFF }) => Some(rect.right),
            _ => None,
        }
    };
    assert_eq!(filled(None), None);
    assert_eq!(filled(Some(0)), None);
    assert_eq!(filled(Some(1)), None); // half a pixel
    assert_eq!(filled(Some(2)), Some(11));
    assert_eq!(filled(Some(50)), Some(35));
    assert_eq!(filled(Some(100)), Some(60));
    assert_eq!(filled(Some(500)), Some(60));
    assert!(can_draw_bar(rect(i32::MIN, 0, i32::MAX, 1), None));
    assert!(!can_draw_bar(rect(i32::MIN, 0, i32::MAX, 1), Some(1)));
    assert!(!can_draw_bar(rect(0, 0, i32::MAX, 1), Some(2)));
}

#[test]
fn grid_cells_divide_the_height_when_they_can() {
    assert_eq!(grid_cell(15, 5), 5);
    assert_eq!(grid_cell(16, 5), 4);
    assert_eq!(grid_cell(22, 7), 11);
    assert_eq!(grid_cell(4, 5), 2);
    assert_eq!(grid_cell(12, 5), 4); // 4 and 6 are equally close
    for h in 4..60i32 {
        for target in 2..12i32 {
            let want = (2..=h / 2).min_by_key(|c| (h % c, (c - target).abs())).unwrap();
            assert_eq!(grid_cell(h, target), want);
        }
    }
}

#[test]
fn grids_are_anchored_bottom_right() {
    let mut out = Vec::new();
    draw_grid(&mut out, rect(0, 0, 12, 10), 5, 9);
    let lines: Vec<Rect> = out
        .iter()
        .map(|op| match op {
            DrawOp::Fill { rect, color: 9 } => *rect,
            _ => panic!("not a line"),
        })
        .collect();
    assert_eq!(lines, vec![rect(7, 0, 8, 10), rect(2, 0, 3, 10), rect(0, 5, 12, 6)]);
    for (r, target) in [(rect(0, 0, 3, 10), 5), (rect(0, 0, 12, 3), 5), (rect(0, 0, 12, 10), 1)] {
        let mut out = Vec::new();
        draw_grid(&mut out, r, target, 9);
        assert!(out.is_empty());
    }
}

fn polygon(r: Rect, history: &Vec<u32>, capacity: usize) -> Option<Vec<Point>> {
    let mut out = Vec::new();
    draw_graph(&mut out, r, history, capacity, 0xFFFFFF, 7, 0);
    out.into_iter().find_map(|op| match op {
        DrawOp::Polygon { points, color: 0xFFFFFF } => Some(points),
        _ => None,
    })
}

#[test]
fn charts_scroll_in_from_the_right() {
    let r = rect(100, 0, 160, 50);
    let p = |x: i32, y: i32| Point { x, y };
    assert_eq!(
        polygon(r, &vec![0, 50, 100], 7),
        Some(vec![p(140, 50), p(150, 25), p(160, 0), p(160, 50), p(140, 50)])
    );
    let full = polygon(r, &vec![10; 7], 7).unwrap();
    assert_eq!(full[0].x, 100);
    assert_eq!(full[6].x, 160);
    // A history longer than the chart piles up on its left edge.
    let long = polygon(r, &vec![999; 9], 7).unwrap();
    assert_eq!((long[0].x, long[1].x, long[2].x, long[3].x), (100, 100, 100, 110));
    assert_eq!(long[0].y, 0);
}

#[test]
fn charts_need_two_samples_and_some_room() {
    assert_eq!(polygon(rect(0, 0, 60, 50), &vec![], 60), None);
    assert_eq!(polygon(rect(0, 0, 60, 50), &vec![5], 60), None);
    assert_eq!(polygon(rect(0, 0, 60, 50), &vec![5, 6], 1), None);
    assert_eq!(polygon(rect(0, 0, 1, 50), &vec![5, 6], 60), None);
    assert_eq!(polygon(rect(0, 0, 60, 0), &vec![5, 6], 60), None);
    assert!(polygon(rect(0, 0, 60, 50), &vec![5, 6], 60).is_some());
    assert!(can_draw_graph(rect(0, 0, 60, 50), &vec![5, 6], 60));
    assert!(!can_draw_graph(rect(i32::MIN, 0, i32::MAX, 50), &vec![5, 6], 60));
    assert!(!can_draw_graph(rect(0, 0, i32::MAX, 50), &vec![1, 2, 3], 60));
}

#[test]
fn charts_put_their_grid_under_the_area() {
    let mut out = Vec::new();
    draw_graph(&mut out, rect(0, 0, 12, 10), &vec![1, 2], 60, 0xFFFFFF, 7, 5);
    assert_eq!(out.len(), 6);
    assert!(matches!(out[0], DrawOp::Fill { color: 7, .. }));
    assert!(matches!(out[1], DrawOp::Fill { color: 0x6F6F6F, .. }));
    assert!(matches!(out[4], DrawOp::Polygon { .. }));
    assert!(matches!(out[5], DrawOp::Frame { color: 0x4F4F4F, chart: true, .. }));
}

#[test]
fn quotients_are_rounded_toward_zero() {
    for a in [-7, -1, 0, 1, 7, i32::MAX, i32::MIN + 1] {
        for b in [-3, -2, -1, 1, 2, 3, i32::MIN, i32::MAX] {
            assert_eq!(divide(a, b), a / b);
        }
    }
}

#[test]
fn capacities_count_by_their_low_half() {
    let r = rect(0, 0, 60, 50);
    let wrapped = |low: usize| (1usize << 32) + low;
    assert_eq!(polygon(r, &vec![5, 6], wrapped(7)), polygon(r, &vec![5, 6], 7));
    // One slot to the right instead of to the left.
    assert_eq!(polygon(r, &vec![5, 6], wrapped(0)).unwrap()[0].x, 120);
    assert!(!can_draw_graph(r, &vec![5, 6], wrapped(1)));
    assert!(!can_draw_graph(r, &vec![5, 6], 1usize << 31));
}
