use balance_overlay::config::Config;
use balance_overlay::draw::{DrawOp, Rect};
use balance_overlay::render::{
    can_meter_row_width, can_paint, can_window_rect, label_column_width, meter_row_width, paint,
    percent_text, window_rect, Row, BACKGROUND,
};
use balance_overlay::surface::{bake_opacity, chart_areas};

fn text(s: &str) -> Row {
    Row::Text(s.to_string())
}

fn graph(label: &'static str, history: Vec<u32>) -> Row {
    Row::Graph { label, percent: history.last().copied(), history, capacity: 60 }
}

#[test]
fn percentages_are_four_characters_wide() {
    assert_eq!(percent_text(None), "  --");
    assert_eq!(percent_text(Some(0)), "  0%");
    assert_eq!(percent_text(Some(42)), " 42%");
    assert_eq!(percent_text(Some(100)), "100%");
    assert_eq!(percent_text(Some(12345)), "12345%");
}

#[test]
fn rows_know_their_label_and_percentage() {
    assert_eq!(text("x").label(), None);
    assert_eq!(text("x").percent(), None);
    let bar = Row::Bar { label: "DISK", percent: Some(3) };
    assert_eq!((bar.label(), bar.percent()), (Some("DISK"), Some(3)));
    let chart = graph("CPU", vec![1, 2]);
    assert_eq!((chart.label(), chart.percent()), (Some("CPU"), Some(2)));
    let copy = chart.clone();
    assert_eq!((copy.label(), copy.percent()), (Some("CPU"), Some(2)));
}

#[test]
fn the_label_column_is_as_wide_as_the_widest_label() {
    let rows = vec![text("long text"), graph("CPU", vec![]), graph("RAM", vec![])];
    assert_eq!(label_column_width(&rows, &vec![500, 21, 24]), 24);
    assert_eq!(label_column_width(&rows, &vec![500, -3, -4]), -3);
    assert_eq!(label_column_width(&vec![text("a")], &vec![500]), 0);
    assert_eq!(label_column_width(&vec![], &vec![]), 0);
}

#[test]
fn meter_rows_hold_label_meter_and_percentage() {
    assert_eq!(meter_row_width(40, 24, 120, 96), 24 + 6 + 120 + 6 + 40);
    assert_eq!(meter_row_width(40, 24, 180, 144), 24 + 9 + 180 + 9 + 40);
    assert!(!can_meter_row_width(1, i32::MAX, 0, 96));
}

#[test]
fn the_window_is_as_large_as_its_contents() {
    let cfg = Config::default();
    let charts = vec![graph("CPU", vec![]), graph("RAM", vec![])];
    assert!(can_window_rect(&charts, &cfg, &vec![0, 0], 24, 40, 96));
    assert_eq!(
        window_rect(&charts, &cfg, &vec![0, 0], 24, 40, 96),
        (10, 10, 8 + 196 + 6, 54)
    );
    let lines = vec![text("a"), text("bb"), text("c")];
    assert_eq!(
        window_rect(&lines, &cfg, &vec![10, 333, 20], 0, 40, 96),
        (10, 10, 8 + 333 + 6, 81)
    );
    assert_eq!(window_rect(&lines, &cfg, &vec![10, 333, 20], 0, 40, 192).0, 20);
    assert!(!can_window_rect(&lines, &cfg, &vec![10, i32::MAX, 20], 0, 40, 96));
}

fn texts(ops: &[DrawOp]) -> Vec<(String, Rect)> {
    ops.iter()
        .filter_map(|op| match op {
            DrawOp::Text { text, rects, .. } if rects.len() == 1 => Some((text.clone(), rects[0])),
            _ => None,
        })
        .collect()
}

#[test]
fn pictures_hold_every_row() {
    let cfg = Config::default();
    let rows = vec![text("hello"), graph("CPU", vec![10, 20]), Row::Bar { label: "DISK", percent: None }];
    assert!(can_paint(&rows, &cfg, 210, 81, 96, 24));
    let ops = paint(&rows, &cfg, 210, 81, 96, 24);
    match &ops[0] {
        DrawOp::Fill { rect, color } => {
            assert_eq!(*rect, Rect { left: 0, top: 0, right: 210, bottom: 81 });
            assert_eq!(*color, BACKGROUND);
        }
        _ => panic!("no background"),
    }
    let at = |left: i32, top: i32| Rect { left, top: top + 4, right: 206, bottom: top + 27 };
    assert_eq!(
        texts(&ops),
        vec![
            ("hello".to_string(), at(8, 0)),
            ("CPU".to_string(), at(8, 27)),
            (" 20%".to_string(), at(164, 27)),
            ("DISK".to_string(), at(8, 54)),
            ("  --".to_string(), at(164, 54)),
        ]
    );
    // Meters are fifteen pixels high, centred in lines of twenty-seven.
    // Only the graph is a chart.
    assert_eq!(
        chart_areas(&ops),
        vec![Rect { left: 38, top: 33, right: 158, bottom: 48 }]
    );
    // The well of a chart has the color of the outline; the track of a bar is a
    // shade of its fill.
    let ground = |top: i32| {
        ops.iter().find_map(|op| match op {
            DrawOp::Fill { rect, color } if (rect.left, rect.top) == (38, top) => Some(*color),
            _ => None,
        })
    };
    assert_eq!(ground(33), Some(0));
    assert_eq!(ground(60), Some(0x4F4F4F));
}

#[test]
fn nothing_is_drawn_without_rows_or_room() {
    let cfg = Config::default();
    assert!(paint(&vec![], &cfg, 100, 100, 96, 0).is_empty());
    assert!(paint(&vec![text("a")], &cfg, 0, 100, 96, 0).is_empty());
    assert!(paint(&vec![text("a")], &cfg, 100, -1, 96, 0).is_empty());
    assert!(can_paint(&vec![text("a")], &cfg, 0, 100, u32::MAX, 0));
}

#[test]
fn pictures_that_would_overflow_are_told_apart() {
    let mut cfg = Config::default();
    let rows = vec![graph("CPU", vec![10, 20])];
    assert!(!can_paint(&rows, &cfg, 100, 27, 96, i32::MAX));
    assert!(!can_paint(&rows, &cfg, 100, 27, 1_000_000_000, 20));
    cfg.meter_width = i32::MAX;
    assert!(!can_paint(&rows, &cfg, 100, 27, 96, 20));
    assert!(!can_paint(&vec![text("a")], &cfg, 100, 27, 96, 20));
}

#[test]
fn charts_stay_opaque_under_any_opacity() {
    let chart = Rect { left: 1, top: 0, right: 3, bottom: 1 };
    let mut pixels = vec![0x00102030u32; 8];
    bake_opacity(&mut pixels, 4, &vec![chart], 51);
    let solid = 0xFF102030;
    let faint = 0x33030609; // a fifth of every channel
    assert_eq!(pixels, vec![faint, solid, solid, faint, faint, faint, faint, faint]);
    let mut pixels = vec![0x00FFFFFFu32; 2];
    bake_opacity(&mut pixels, 2, &vec![], 0);
    assert_eq!(pixels, vec![0, 0]);
    let mut pixels = vec![0xAB123456u32];
    bake_opacity(&mut pixels, 1, &vec![], 255);
    assert_eq!(pixels, vec![0xFF123456]);
}

#[test]
fn rows_have_the_room_they_were_measured_for() {
    let cfg = Config::default();
    let rows = vec![text("aaaa"), graph("CPU", vec![1, 2]), text("bb")];
    for (widths, percent_width) in [(vec![400, 0, 9], 40), (vec![5, 0, 9], 40)] {
        let (_, _, width, height) = window_rect(&rows, &cfg, &widths, 24, percent_width, 96);
        let drawn = texts(&paint(&rows, &cfg, width, height, 96, 24));
        let room = |i: usize| drawn[i].1.right - drawn[i].1.left;
        assert!(room(0) >= widths[0]);
        assert!(room(2) >= percent_width);
        assert!(room(3) >= widths[2]);
    }
}
