use chrono::{Datelike, NaiveDate, Weekday};
use gantt_chart::calendar::{day_of_week, days_in_month, month_of, weekend_shift};
use gantt_chart::color::{hsv_to_rgb, resource_styles, HALF};
use gantt_chart::layout::{
    layout_chart, process_chart_data, shadow_duration, ChartData, DateTime, Gutter, ItemData,
    LayoutError,
};
use gantt_chart::scene::{render_chart, Label, Shape, StyleClass};

fn day(y: i32, m: u32, d: u32) -> i64 {
    NaiveDate::from_ymd_opt(y, m, d).unwrap().num_days_from_ce() as i64
}

fn item(title: &str, start: Option<i64>, duration: Option<i64>, resource: Option<usize>) -> ItemData {
    ItemData {
        title: title.to_string(),
        duration,
        duration_ms: None,
        start_ms: None,
        start_date: start.map(|d| DateTime { day: d, second: 0 }),
        resource_index: resource,
        open: None,
    }
}

fn chart(items: Vec<ItemData>, resources: usize, marked: Option<i64>) -> ChartData {
    ChartData {
        title: "Plan".to_string(),
        marked_date: marked,
        resources: (0..resources).map(|i| format!("R{}", i + 1)).collect(),
        items,
    }
}

fn example() -> ChartData {
    chart(
        vec![
            item("A", Some(day(2024, 1, 1)), Some(5), Some(0)),
            item("B", None, Some(3), Some(1)),
        ],
        2,
        None,
    )
}

#[test]
fn weekday_matches_calendar() {
    for (y, m, d) in [(2024, 1, 1), (2024, 1, 6), (2024, 1, 7), (1970, 1, 1), (1, 1, 1), (-44, 3, 15)] {
        let date = NaiveDate::from_ymd_opt(y, m, d).unwrap();
        let w = day_of_week(date.num_days_from_ce() as i64);
        assert_eq!(w, date.weekday().num_days_from_monday());
    }
}

#[test]
fn weekend_shift_moves_to_monday() {
    assert_eq!(weekend_shift(day(2024, 1, 6)), 2);
    assert_eq!(weekend_shift(day(2024, 1, 7)), 1);
    assert_eq!(weekend_shift(day(2024, 1, 8)), 0);
    assert_eq!(weekend_shift(day(2024, 1, 12)), 0);
}

#[test]
fn shadow_skips_weekend_end() {
    // Monday plus five days lands on Saturday: two more days reach Monday.
    let d = shadow_duration(day(2024, 1, 1), 5);
    assert_eq!(d, 7);
    let end = NaiveDate::from_num_days_from_ce_opt((day(2024, 1, 1) + d) as i32).unwrap();
    assert_eq!(end.weekday(), Weekday::Mon);
    // Ending on a weekday keeps the duration.
    assert_eq!(shadow_duration(day(2024, 1, 1), 3), 3);
    assert_eq!(shadow_duration(day(2024, 1, 1), 6), 7);
}

#[test]
fn month_lengths() {
    assert_eq!(days_in_month(2024, 2), 29);
    assert_eq!(days_in_month(2023, 2), 28);
    assert_eq!(days_in_month(1900, 2), 28);
    assert_eq!(days_in_month(2000, 2), 29);
    assert_eq!(days_in_month(2024, 4), 30);
    assert_eq!(days_in_month(2024, 12), 31);
    assert_eq!(days_in_month(-4, 2), 29);
}

#[test]
fn month_of_day() {
    let (y, m, first) = month_of(day(2024, 3, 15));
    assert_eq!((y, m), (2024, 3));
    assert_eq!(first, day(2024, 3, 1));
}

#[test]
fn gutter_sizes() {
    let g = Gutter { left: 1, top: 2, right: 3, bottom: 4 };
    assert_eq!(g.width(), 4);
    assert_eq!(g.height(), 6);
}

#[test]
fn hsv_conversion() {
    assert_eq!(hsv_to_rgb(0, HALF, HALF), 0x804040);
    assert_eq!(hsv_to_rgb(0x8000_0000, HALF, HALF), 0x408080);
    assert_eq!(hsv_to_rgb(0, 0, 0x8000_0000), 0x808080);
}

#[test]
fn resource_hues_step() {
    let styles = resource_styles(0, 3);
    assert_eq!(styles.len(), 3);
    assert_eq!(styles[0].rgb, 0x804040);
    for (i, s) in styles.iter().enumerate() {
        assert_eq!(s.resource_index, i);
    }
    assert_ne!(styles[0].rgb, styles[1].rgb);
    assert_ne!(styles[1].rgb, styles[2].rgb);
}

#[test]
fn example_schedule_layout() {
    let rd = process_chart_data(210, 80, &example(), 0).unwrap();
    assert_eq!(rd.cols.len(), 1);
    assert_eq!((rd.cols[0].year, rd.cols[0].month), (2024, 1));
    assert_eq!(rd.cols[0].width, 2 * 80 * 31);
    assert_eq!(rd.total_days, 31);
    assert_eq!(rd.total_width, 4960);
    assert_eq!(rd.rows.len(), 2);
    assert_eq!(rd.rows[0].offset, 13640);
    assert_eq!(rd.rows[0].length, Some(2 * 80 * 7));
    assert_eq!(rd.rows[1].offset, 13640 + 2 * 80 * 7);
    assert_eq!(rd.rows[1].length, Some(2 * 80 * 3));
    assert_eq!(rd.rows[0].resource_index, 0);
    assert_eq!(rd.rows[1].resource_index, 1);
    assert_eq!(rd.styles.len(), 2);
    assert_eq!(rd.title, "Plan");
    assert_eq!(rd.resources, vec!["R1".to_string(), "R2".to_string()]);
}

#[test]
fn start_on_weekend_and_month_boundary() {
    // Saturday the 31st moves to Monday the 2nd of the next month.
    let c = chart(
        vec![
            item("A", Some(day(2024, 8, 31)), Some(1), Some(0)),
            item("B", None, Some(1), None),
        ],
        1,
        None,
    );
    let rd = process_chart_data(210, 80, &c, 0).unwrap();
    assert_eq!((rd.cols[0].year, rd.cols[0].month), (2024, 9));
    // The row still starts from its own date, one day before the first column.
    assert_eq!(rd.rows[0].offset, 13640 - 160);
    assert_eq!(rd.rows[1].resource_index, 0);
}

#[test]
fn columns_span_months() {
    let c = chart(
        vec![
            item("A", Some(day(2024, 1, 29)), Some(30), Some(0)),
            item("B", None, Some(10), Some(0)),
        ],
        1,
        None,
    );
    let rd = process_chart_data(210, 80, &c, 0).unwrap();
    assert_eq!(rd.cols.len(), 3);
    assert_eq!(rd.cols[1].month, 2);
    assert_eq!(rd.cols[1].width, 2 * 80 * 29);
    assert_eq!(rd.total_days, 31 + 29 + 31);
    assert_eq!(rd.total_width, 2 * 80 * (31 + 29 + 31));
    let sum: i64 = rd.cols.iter().map(|c| c.width).sum();
    assert!(rd.total_days > 0 && sum > 0);
}

#[test]
fn milestone_has_no_length() {
    let c = chart(
        vec![
            item("A", Some(day(2024, 1, 1)), Some(2), Some(0)),
            item("M", None, None, None),
        ],
        1,
        None,
    );
    let rd = process_chart_data(210, 80, &c, 0).unwrap();
    assert_eq!(rd.rows[0].length, Some(2 * 80 * 2));
    assert_eq!(rd.rows[1].length, None);
    assert_eq!(rd.rows[1].offset, 13640 + 2 * 80 * 2);
    assert!(rd.rows[0].offset <= rd.rows[1].offset);
}

#[test]
fn rejects_single_item() {
    let c = chart(vec![item("A", Some(day(2024, 1, 1)), Some(5), Some(0))], 1, None);
    assert_eq!(process_chart_data(210, 80, &c, 0).unwrap_err(), LayoutError::TooFewItems);
}

#[test]
fn rejects_missing_start() {
    let c = chart(vec![item("A", None, Some(5), Some(0)), item("B", None, Some(1), None)], 1, None);
    assert_eq!(process_chart_data(210, 80, &c, 0).unwrap_err(), LayoutError::MissingStartDate);
}

#[test]
fn rejects_missing_resource() {
    let c = chart(
        vec![item("A", Some(day(2024, 1, 1)), Some(5), None), item("B", None, Some(1), None)],
        1,
        None,
    );
    assert_eq!(process_chart_data(210, 80, &c, 0).unwrap_err(), LayoutError::MissingResource);
}

#[test]
fn rejects_resource_out_of_range() {
    let c = chart(
        vec![item("A", Some(day(2024, 1, 1)), Some(5), Some(0)), item("B", None, Some(1), Some(2))],
        2,
        None,
    );
    assert_eq!(process_chart_data(210, 80, &c, 0).unwrap_err(), LayoutError::ResourceOutOfRange);
}

#[test]
fn rejects_date_out_of_range() {
    let c = chart(
        vec![item("A", Some(96_000_000), Some(5), Some(0)), item("B", None, Some(1), None)],
        1,
        None,
    );
    assert_eq!(process_chart_data(210, 80, &c, 0).unwrap_err(), LayoutError::DateOutOfRange);
}

#[test]
fn accepts_far_calendar_dates() {
    let start = 95_100_000;
    assert!(NaiveDate::from_num_days_from_ce_opt(start as i32).is_some());
    let c = chart(
        vec![item("A", Some(start), Some(5), Some(0)), item("B", None, Some(3), None)],
        1,
        Some(day(262142, 12, 31)),
    );
    let rd = process_chart_data(210, 80, &c, 0).unwrap();
    assert_eq!(rd.rows.len(), 2);
    assert!(!rd.cols.is_empty());
    let c = chart(
        vec![item("A", Some(day(-262143, 1, 1)), Some(5), Some(0)), item("B", None, Some(3), None)],
        1,
        None,
    );
    assert!(process_chart_data(210, 80, &c, 0).is_ok());
}

#[test]
fn same_seed_same_layout() {
    let a = process_chart_data(210, 80, &example(), 12345).unwrap();
    let b = process_chart_data(210, 80, &example(), 12345).unwrap();
    let c = layout_chart(210, 80, &example()).unwrap();
    assert_eq!(a.styles, b.styles);
    for i in 0..2 {
        assert_eq!(a.rows[i].offset, c.rows[i].offset);
        assert_eq!(a.rows[i].length, c.rows[i].length);
    }
    assert_eq!(a.cols, c.cols);
}

#[test]
fn canvas_size_and_shapes() {
    let c = chart(example().items, 2, Some(day(2024, 1, 8)));
    let rd = process_chart_data(210, 80, &c, 0).unwrap();
    assert_eq!(rd.marked_date_offset, Some(14760));
    let scene = render_chart(false, &rd);
    assert_eq!(scene.width, 620 + 13020 + 4960 + 620);
    assert_eq!(scene.height, 4960 + 2 * 1860 + 620);
    assert_eq!(scene.columns.len(), 3);
    assert_eq!(scene.rows.len(), 7);
    assert_eq!(
        scene.tasks,
        Shape::Text { class: StyleClass::TaskHeading, x: 620 + 310, y: 4960 - 310 - 930, label: Label::TasksHeading }
    );
    assert!(scene.resources.is_empty());
    assert_eq!(
        scene.rows[2],
        Shape::Rect {
            class: StyleClass::ResourceClosed(0),
            x: 13640,
            y: 4960 + 310,
            radius: 186,
            width: 1120,
            height: 1240,
        }
    );
    assert_eq!(
        scene.marker,
        Some(Shape::Line { class: StyleClass::Marker, x1: 14760, y1: 4960 - 310, x2: 14760, y2: 4960 + 3720 + 310 })
    );
    let legend = render_chart(true, &rd);
    assert_eq!(legend.height, 4960 + 2 * 1860 + 1240 + 2480 + 620);
    assert_eq!(legend.resources.len(), 4);
    assert_eq!(
        legend.resources[0],
        Shape::Text { class: StyleClass::Resource, x: 620 + 6200 - 310, y: 4960 + 3720 + 1240, label: Label::ResourceName(0) }
    );
}

#[test]
fn milestone_diamond() {
    let c = chart(
        vec![item("A", Some(day(2024, 1, 1)), Some(2), Some(0)), item("M", None, None, None)],
        1,
        None,
    );
    let rd = process_chart_data(210, 80, &c, 0).unwrap();
    let scene = render_chart(false, &rd);
    assert_eq!(
        scene.rows[5],
        Shape::Diamond { class: StyleClass::Milestone, x: 13640 + 320 - 620, y: 4960 + 1860 + 310 + 620, half: 620 }
    );
}
