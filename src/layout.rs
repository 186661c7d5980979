//! The layout engine: validates a schedule, folds its items over a running
//! date, and derives month columns and the geometry of each row.
//!
//! Every length is counted in sub-units, `SUBUNITS` to a unit, so that a day
//! of a month of width `w` spans exactly `2 * w` sub-units and half a unit is
//! whole.
use crate::calendar::{
    civil_of, days_in_month, in_range, month_length, month_of, weekend_shift, weekend_shift_of,
    weekday, in_calendar, DAY_BOUND, FIRST_DAY, LAST_DAY,
};
use crate::color::{resource_rgb, resource_styles, ResourceStyle};
use crate::scene::{lemma_layout_renderable, render_wf};
use vstd::arithmetic::div_mod::lemma_fundamental_div_mod_converse;
use vstd::prelude::*;

verus! {

/// Sub-units in a unit.
pub const SUBUNITS: i64 = 62;

pub const SECONDS_PER_DAY: i64 = 86400;

/// An instant: a day number (see `calendar`) and a second of that day.
#[derive(Clone, Copy, Debug, PartialEq, Eq)]
pub struct DateTime {
    pub day: i64,
    pub second: u32,
}

/// One task or milestone of a schedule.
#[derive(Clone, Debug)]
pub struct ItemData {
    pub title: String,
    pub duration: Option<i64>,
    pub duration_ms: Option<i64>,
    pub start_ms: Option<i64>,
    pub start_date: Option<DateTime>,
    pub resource_index: Option<usize>,
    pub open: Option<bool>,
}

/// A schedule: a title, an optional marked day, the resources and the items.
#[derive(Clone, Debug)]
pub struct ChartData {
    pub title: String,
    pub marked_date: Option<i64>,
    pub resources: Vec<String>,
    pub items: Vec<ItemData>,
}

/// Why a schedule cannot be laid out.
#[derive(Clone, Copy, Debug, PartialEq, Eq)]
pub enum LayoutError {
    /// Fewer than two items.
    TooFewItems,
    /// The first item has no start date.
    MissingStartDate,
    /// The first item has no resource.
    MissingResource,
    /// A resource index past the end of the resource list.
    ResourceOutOfRange,
    /// A date outside the calendar, or a running date too close to its last
    /// day to be moved off a weekend.
    DateOutOfRange,
}

/// The state of the fold over the items: the project's start, the running
/// date and the latest running date so far.
pub struct Scan {
    pub start: Option<(int, int)>,
    pub cursor: (int, int),
    pub end: Option<int>,
}

pub open spec fn before(a: (int, int), b: (int, int)) -> bool {
    a.0 < b.0 || (a.0 == b.0 && a.1 < b.1)
}

pub open spec fn instant(d: DateTime) -> (int, int) {
    (d.day as int, d.second as int)
}

/// A duration stretched so that it does not end on a weekend.
pub open spec fn shadow_of(day: int, duration: int) -> int {
    duration + weekend_shift_of(day + duration)
}

/// The running date once an item's own start date, if any, is taken.
pub open spec fn entry_cursor(s: Scan, item: ItemData) -> (int, int) {
    match item.start_date {
        Some(d) => instant(d),
        None => s.cursor,
    }
}

pub open spec fn item_shadow(s: Scan, item: ItemData) -> Option<int> {
    match item.duration {
        Some(d) => Some(shadow_of(entry_cursor(s, item).0, d as int)),
        None => None,
    }
}

pub open spec fn step(s: Scan, item: ItemData) -> Scan {
    let c = entry_cursor(s, item);
    let start = match item.start_date {
        Some(d) => if s.start is None || before(instant(d), s.start->0) {
            Some((d.day + weekend_shift_of(d.day as int), d.second as int))
        } else {
            s.start
        },
        None => s.start,
    };
    let cursor = match item_shadow(s, item) {
        Some(sh) => (c.0 + sh, c.1),
        None => c,
    };
    let end = match s.end {
        Some(e) => if e < cursor.0 {
            Some(cursor.0)
        } else {
            Some(e)
        },
        None => Some(cursor.0),
    };
    Scan { start, cursor, end }
}

/// The fold's state after the first `n` items.
pub open spec fn scan(items: Seq<ItemData>, n: nat) -> Scan
    decreases n,
{
    if n == 0 {
        Scan { start: None, cursor: (0, 0), end: None }
    } else {
        step(scan(items, (n - 1) as nat), items[n - 1])
    }
}

/// What is wrong with the item at `i`, given the fold's state before it.
pub open spec fn item_error(s: Scan, item: ItemData, i: int, resources: int) -> Option<
    LayoutError,
> {
    let c = entry_cursor(s, item);
    if i == 0 && item.start_date is None {
        Some(LayoutError::MissingStartDate)
    } else if item.start_date is Some && !in_range(item.start_date->0.day as int) {
        Some(LayoutError::DateOutOfRange)
    } else if item.duration is Some && (!in_range(c.0 + item.duration->0) || !in_range(
        c.0 + shadow_of(c.0, item.duration->0 as int),
    )) {
        Some(LayoutError::DateOutOfRange)
    } else if item.resource_index is Some && item.resource_index->0 >= resources {
        Some(LayoutError::ResourceOutOfRange)
    } else if i == 0 && item.resource_index is None {
        Some(LayoutError::MissingResource)
    } else {
        None
    }
}

/// The first error among the first `n` items.
pub open spec fn first_error(items: Seq<ItemData>, resources: int, n: nat) -> Option<LayoutError>
    decreases n,
{
    if n == 0 {
        None
    } else {
        match first_error(items, resources, (n - 1) as nat) {
            Some(e) => Some(e),
            None => item_error(scan(items, (n - 1) as nat), items[n - 1], n - 1, resources),
        }
    }
}

/// The error that a schedule is rejected with, if any.
pub open spec fn chart_error(chart: ChartData) -> Option<LayoutError> {
    let items = chart.items@;
    if items.len() < 2 {
        Some(LayoutError::TooFewItems)
    } else {
        match first_error(items, chart.resources@.len() as int, items.len()) {
            Some(e) => Some(e),
            None => if chart.marked_date is Some && !in_calendar(chart.marked_date->0 as int) {
                Some(LayoutError::DateOutOfRange)
            } else {
                None
            },
        }
    }
}

/// The resource of row `i`: its own, or else the one of the row before.
pub open spec fn resource_at(items: Seq<ItemData>, i: int) -> int
    decreases i + 1,
{
    if i < 0 {
        0
    } else {
        match items[i].resource_index {
            Some(r) => r as int,
            None => resource_at(items, i - 1),
        }
    }
}

/// Whole days from midnight of day `first` to instant `c`, truncated
/// toward zero.
pub open spec fn days_since(c: (int, int), first: int) -> int {
    let diff = (c.0 - first) * SECONDS_PER_DAY + c.1;
    if diff >= 0 {
        diff / (SECONDS_PER_DAY as int)
    } else {
        -((-diff) / (SECONDS_PER_DAY as int))
    }
}

/// The project's start, weekend skipped, before it is moved to the first
/// of its month.
pub open spec fn project_start(chart: ChartData) -> int {
    (scan(chart.items@, chart.items@.len()).start->0).0
}

/// The first day of the month of the project's start.
pub open spec fn first_day(chart: ChartData) -> int {
    project_start(chart) - civil_of(project_start(chart)).2 + 1
}

/// The latest running date.
pub open spec fn project_end(chart: ChartData) -> int {
    scan(chart.items@, chart.items@.len()).end->0
}

pub open spec fn month_index(year: int, month: int) -> int {
    year * 12 + month - 1
}

pub open spec fn start_month_index(chart: ChartData) -> int {
    month_index(civil_of(project_start(chart)).0, civil_of(project_start(chart)).1)
}

pub open spec fn end_month_index(chart: ChartData) -> int {
    month_index(civil_of(project_end(chart)).0, civil_of(project_end(chart)).1)
}

/// One column for each month from the start's to the end's.
pub open spec fn column_count(chart: ChartData) -> int {
    if end_month_index(chart) < start_month_index(chart) {
        0
    } else {
        end_month_index(chart) - start_month_index(chart) + 1
    }
}

pub open spec fn year_of_index(mi: int) -> int {
    mi / 12
}

pub open spec fn month_of_index(mi: int) -> int {
    mi % 12 + 1
}

pub open spec fn days_of_index(mi: int) -> int {
    month_length(year_of_index(mi), month_of_index(mi))
}

/// Days in the `n` months from month index `mi`.
pub open spec fn days_sum(mi: int, n: nat) -> int
    decreases n,
{
    if n == 0 {
        0
    } else {
        days_sum(mi, (n - 1) as nat) + days_of_index(mi + n - 1)
    }
}

/// Left gutter of the chart, in sub-units.
pub const GUTTER_LEFT: i64 = 620;

/// Horizontal position of an instant: past the gutter and the title column,
/// `2 * max_month_width` sub-units for each day from the first day.
pub open spec fn date_offset(title_width: int, max_month_width: int, first: int, c: (int, int)) -> int {
    SUBUNITS * title_width + GUTTER_LEFT + 2 * max_month_width * days_since(c, first)
}

pub open spec fn row_cursor(items: Seq<ItemData>, i: int) -> (int, int) {
    entry_cursor(scan(items, i as nat), items[i])
}

pub open spec fn row_shadow(items: Seq<ItemData>, i: int) -> Option<int> {
    item_shadow(scan(items, i as nat), items[i])
}

pub open spec fn row_length(max_month_width: int, items: Seq<ItemData>, i: int) -> Option<int> {
    match row_shadow(items, i) {
        Some(s) => Some(2 * max_month_width * s),
        None => None,
    }
}

pub open spec fn opt_int(o: Option<i64>) -> Option<int> {
    match o {
        Some(v) => Some(v as int),
        None => None,
    }
}

/// `duration` days from `day`, stretched by the weekend shift of the day it
/// would end on: the end then falls on a weekday, and a duration that already
/// ends on a weekday is kept.
pub fn shadow_duration(day: i64, duration: i64) -> (r: i64)
    requires
        in_range(day as int),
        in_range(day + duration),
    ensures
        r as int == shadow_of(day as int, duration as int),
        weekday(day + r) < 5,
        weekday(day + duration) < 5 ==> r == duration,
        duration <= r <= duration + 2,
{
    duration + weekend_shift(day + duration)
}

proof fn lemma_scan_step(items: Seq<ItemData>, i: nat)
    requires
        i < items.len(),
    ensures
        scan(items, i + 1) == step(scan(items, i), items[i as int]),
{
    assert(((i + 1) as nat - 1) as nat == i);
}

proof fn lemma_first_error_step(items: Seq<ItemData>, resources: int, i: nat)
    requires
        i < items.len(),
        first_error(items, resources, i) is None,
        item_error(scan(items, i), items[i as int], i as int, resources) is None,
    ensures
        first_error(items, resources, i + 1) is None,
{
    assert(((i + 1) as nat - 1) as nat == i);
}

proof fn lemma_first_error_stays(items: Seq<ItemData>, resources: int, i: nat, n: nat)
    requires
        i <= n <= items.len(),
        first_error(items, resources, i) is Some,
    ensures
        first_error(items, resources, n) == first_error(items, resources, i),
    decreases n - i,
{
    if n > i {
        lemma_first_error_stays(items, resources, i, (n - 1) as nat);
    }
}

/// The first pass: checks each item and folds the running date over them.
/// Gives the project's start (weekend skipped), the latest running date and
/// the shadow duration of each item.
fn scan_items(chart: &ChartData) -> (r: Result<(DateTime, i64, Vec<Option<i64>>), LayoutError>)
    requires
        chart.items@.len() >= 2,
    ensures
        match r {
            Err(e) => first_error(chart.items@, chart.resources@.len() as int, chart.items@.len())
                == Some(e),
            Ok((start, end, shadows)) => {
                let s = scan(chart.items@, chart.items@.len());
                &&& first_error(chart.items@, chart.resources@.len() as int, chart.items@.len())
                    is None
                &&& s.start == Some(instant(start))
                &&& s.end == Some(end as int)
                &&& in_calendar(start.day as int)
                &&& in_range(end as int)
                &&& shadows@.len() == chart.items@.len()
                &&& forall|j: int|
                    0 <= j <= chart.items@.len() ==> in_range(
                        (#[trigger] scan(chart.items@, j as nat)).cursor.0,
                    )
                &&& forall|j: int|
                    0 <= j < chart.items@.len() ==> in_range(
                        (#[trigger] row_cursor(chart.items@, j)).0,
                    )
                &&& forall|j: int|
                    0 <= j < shadows@.len() ==> opt_int(#[trigger] shadows@[j]) == row_shadow(
                        chart.items@,
                        j,
                    )
            },
        },
{
    let ghost items = chart.items@;
    let ghost nres = chart.resources@.len() as int;
    let n = chart.items.len();
    let mut start: Option<DateTime> = None;
    let mut cursor = DateTime { day: 0, second: 0 };
    let mut end: Option<i64> = None;
    let mut shadows: Vec<Option<i64>> = Vec::new();
    let mut i: usize = 0;
    while i < n
        invariant
            n == items.len(),
            items == chart.items@,
            nres == chart.resources@.len(),
            i <= n,
            first_error(items, nres, i as nat) is None,
            instant(cursor) == scan(items, i as nat).cursor,
            in_range(cursor.day as int),
            match start {
                Some(st) => scan(items, i as nat).start == Some(instant(st)) && in_calendar(
                    st.day as int,
                ),
                None => scan(items, i as nat).start is None,
            },
            opt_int(end) == scan(items, i as nat).end,
            end is Some ==> in_range(end->0 as int),
            i > 0 ==> start is Some && end is Some,
            shadows@.len() == i,
            forall|j: int|
                0 <= j < i ==> opt_int(#[trigger] shadows@[j]) == row_shadow(items, j),
            forall|j: int| 0 <= j <= i ==> in_range((#[trigger] scan(items, j as nat)).cursor.0),
            forall|j: int| 0 <= j < i ==> in_range((#[trigger] row_cursor(items, j)).0),
        decreases n - i,
    {
        let item = &chart.items[i];
        let ghost s = scan(items, i as nat);
        proof {
            lemma_scan_step(items, i as nat);
        }
        match item.start_date {
            Some(sd) => {
                if sd.day < FIRST_DAY || sd.day > LAST_DAY - 2 {
                    proof {
                        lemma_first_error_stays(items, nres, (i + 1) as nat, n as nat);
                    }
                    return Err(LayoutError::DateOutOfRange);
                }
                cursor = sd;
                let earlier = match start {
                    None => true,
                    Some(st) => sd.day < st.day || (sd.day == st.day && sd.second < st.second),
                };
                if earlier {
                    start = Some(DateTime { day: sd.day + weekend_shift(sd.day), second: sd.second });
                }
            },
            None => {
                if i == 0 {
                    proof {
                        lemma_first_error_stays(items, nres, (i + 1) as nat, n as nat);
                    }
                    return Err(LayoutError::MissingStartDate);
                }
            },
        }
        assert(instant(cursor) == entry_cursor(s, items[i as int]));
        let ghost entry = cursor;
        match item.duration {
            Some(d) => {
                if d < -2 * DAY_BOUND || d > 2 * DAY_BOUND || cursor.day + d < FIRST_DAY
                    || cursor.day + d > LAST_DAY - 2 {
                    proof {
                        lemma_first_error_stays(items, nres, (i + 1) as nat, n as nat);
                    }
                    return Err(LayoutError::DateOutOfRange);
                }
                let sh = shadow_duration(cursor.day, d);
                if cursor.day + sh > LAST_DAY - 2 {
                    proof {
                        lemma_first_error_stays(items, nres, (i + 1) as nat, n as nat);
                    }
                    return Err(LayoutError::DateOutOfRange);
                }
                cursor.day = cursor.day + sh;
                shadows.push(Some(sh));
            },
            None => {
                shadows.push(None);
            },
        }
        end = match end {
            Some(e) => if e < cursor.day {
                Some(cursor.day)
            } else {
                Some(e)
            },
            None => Some(cursor.day),
        };
        match item.resource_index {
            Some(ri) => {
                if ri >= chart.resources.len() {
                    proof {
                        lemma_first_error_stays(items, nres, (i + 1) as nat, n as nat);
                    }
                    return Err(LayoutError::ResourceOutOfRange);
                }
            },
            None => {
                if i == 0 {
                    proof {
                        lemma_first_error_stays(items, nres, (i + 1) as nat, n as nat);
                    }
                    return Err(LayoutError::MissingResource);
                }
            },
        }
        proof {
            lemma_first_error_step(items, nres, i as nat);
            assert forall|j: int| 0 <= j < i + 1 implies opt_int(#[trigger] shadows@[j])
                == row_shadow(items, j) by {}
            assert(in_range(row_cursor(items, i as int).0));
            assert(in_range(scan(items, (i + 1) as nat).cursor.0));
            assert forall|j: int| 0 <= j <= i + 1 implies in_range(
                (#[trigger] scan(items, j as nat)).cursor.0,
            ) by {}
            assert forall|j: int| 0 <= j < i + 1 implies in_range(
                (#[trigger] row_cursor(items, j)).0,
            ) by {}
        }
        i = i + 1;
    }
    let st = match start {
        Some(st) => st,
        None => DateTime { day: 0, second: 0 },
    };
    let e = match end {
        Some(e) => e,
        None => 0,
    };
    Ok((st, e, shadows))
}

/// One month column: its width in sub-units and the month it shows.
#[derive(Clone, Copy, Debug, PartialEq, Eq)]
pub struct ColumnRenderData {
    pub width: i64,
    pub year: i32,
    pub month: u32,
}

pub open spec fn column_fits(c: ColumnRenderData, max_month_width: int, mi: int) -> bool {
    &&& c.width == 2 * max_month_width * days_of_index(mi)
    &&& c.year == year_of_index(mi)
    &&& c.month == month_of_index(mi)
}

proof fn lemma_month_index(y: int, m: int)
    requires
        1 <= m <= 12,
    ensures
        year_of_index(month_index(y, m)) == y,
        month_of_index(month_index(y, m)) == m,
        days_of_index(month_index(y, m)) == month_length(y, m),
{
    lemma_fundamental_div_mod_converse(month_index(y, m), 12, y, m - 1);
}

/// The columns of the months from (`sy`, `sm`) to (`ey`, `em`), with their
/// total day count and total width.
fn month_columns(sy: i32, sm: u32, ey: i32, em: u32, max_month_width: u32) -> (r: (
    Vec<ColumnRenderData>,
    i64,
    i64,
))
    requires
        1 <= sm <= 12,
        1 <= em <= 12,
        -262143 <= sy <= 262142,
        -262143 <= ey <= 262142,
    ensures
        ({
            let mi0 = month_index(sy as int, sm as int);
            let mi1 = month_index(ey as int, em as int);
            &&& r.0@.len() == (if mi1 < mi0 {
                0
            } else {
                mi1 - mi0 + 1
            })
            &&& forall|k: int|
                0 <= k < r.0@.len() ==> column_fits(
                    #[trigger] r.0@[k],
                    max_month_width as int,
                    mi0 + k,
                )
            &&& r.1 == days_sum(mi0, r.0@.len())
            &&& r.2 == 2 * max_month_width * r.1
            &&& r.1 <= 31 * r.0@.len()
            &&& r.0@.len() <= 6_400_000
        }),
{
    let mmw = max_month_width as i64;
    let mut y = sy;
    let mut m = sm;
    let mut cols: Vec<ColumnRenderData> = Vec::new();
    let mut total_days: i64 = 0;
    let mut total_width: i64 = 0;
    let ghost mi0 = month_index(sy as int, sm as int);
    let last: i64 = ey as i64 * 12 + em as i64 - 1;
    while y as i64 * 12 + m as i64 - 1 <= last
        invariant
            1 <= m <= 12,
            -262143 <= y <= 262143,
            month_index(y as int, m as int) == mi0 + cols@.len(),
            cols@.len() > 0 ==> month_index(y as int, m as int) <= last + 1,
            -262143 * 12 <= mi0,
            last <= 262142 * 12 + 11,
            last == month_index(ey as int, em as int),
            mi0 == month_index(sy as int, sm as int),
            mmw == max_month_width,
            0 <= mmw <= 0xFFFF_FFFF,
            forall|k: int|
                0 <= k < cols@.len() ==> column_fits(#[trigger] cols@[k], mmw as int, mi0 + k),
            total_days == days_sum(mi0, cols@.len()),
            0 <= total_days <= 31 * cols@.len(),
            total_width == 2 * mmw * total_days,
            cols@.len() <= 6_400_000,
        decreases last + 1 - month_index(y as int, m as int),
    {
        let d = days_in_month(y, m);
        proof {
            lemma_month_index(y as int, m as int);
            assert(2 * mmw * (d as int) <= 2 * 0xFFFF_FFFF * 31) by (nonlinear_arith)
                requires 0 <= mmw <= 0xFFFF_FFFF, 0 <= d <= 31;
            assert(2 * mmw * (total_days + d) <= 2 * 0xFFFF_FFFF * (31 * 6_400_001))
                by (nonlinear_arith)
                requires 0 <= mmw <= 0xFFFF_FFFF, 0 <= total_days + d <= 31 * 6_400_001;
            assert(2 * mmw * (total_days + d) == total_width + 2 * mmw * d) by (nonlinear_arith)
                requires total_width == 2 * mmw * total_days;
        }
        let width = 2 * mmw * d as i64;
        let ghost old_cols = cols@;
        cols.push(ColumnRenderData { width, year: y, month: m });
        total_days = total_days + d as i64;
        total_width = total_width + width;
        proof {
            assert forall|k: int| 0 <= k < cols@.len() implies column_fits(
                #[trigger] cols@[k],
                mmw as int,
                mi0 + k,
            ) by {
                if k < old_cols.len() {
                    assert(cols@[k] == old_cols[k]);
                }
            }
            assert(days_sum(mi0, cols@.len()) == days_sum(mi0, old_cols.len()) + days_of_index(
                mi0 + old_cols.len(),
            ));
        }
        if m == 12 {
            y = y + 1;
            m = 1;
        } else {
            m = m + 1;
        }
    }
    (cols, total_days, total_width)
}

/// Every start date of the schedule names a second within its day.
pub open spec fn times_valid(items: Seq<ItemData>) -> bool {
    forall|j: int|
        0 <= j < items.len() && (#[trigger] items[j]).start_date is Some ==> items[j].start_date->0.second
            < SECONDS_PER_DAY
}

/// One row: a task bar, or a milestone where `length` is absent.
#[derive(Clone, Debug)]
pub struct RowRenderData {
    pub title: String,
    pub resource_index: usize,
    pub offset: i64,
    pub length: Option<i64>,
    pub open: bool,
}

pub open spec fn open_flag(item: ItemData) -> bool {
    match item.open {
        Some(b) => b,
        None => false,
    }
}

pub open spec fn row_fits(
    row: RowRenderData,
    items: Seq<ItemData>,
    title_width: int,
    max_month_width: int,
    first: int,
    j: int,
) -> bool {
    &&& row.offset == date_offset(title_width, max_month_width, first, row_cursor(items, j))
    &&& opt_int(row.length) == row_length(max_month_width, items, j)
    &&& row.resource_index == resource_at(items, j)
    &&& row.open == open_flag(items[j])
    &&& row.title@ == items[j].title@
}

/// A row whose offset and length stay within 1.5 * 2^60 sub-units of zero.
pub open spec fn row_bounded(row: RowRenderData) -> bool {
    &&& -0x1801_0000_0000_0000 <= row.offset <= 0x1801_0000_0000_0000
    &&& row.length is Some ==> -0x1800_0000_0000_0000 <= row.length->0 <= 0x1800_0000_0000_0000
}

/// Whole days from midnight of day `first` to `c`, truncated toward zero.
fn days_between(c: DateTime, first: i64) -> (r: i64)
    requires
        -DAY_BOUND - 40 <= c.day <= DAY_BOUND + 40,
        -DAY_BOUND - 40 <= first <= DAY_BOUND + 40,
        c.second < SECONDS_PER_DAY,
    ensures
        r == days_since(instant(c), first as int),
        -2 * DAY_BOUND - 81 <= r <= 2 * DAY_BOUND + 81,
{
    let diff: i64 = (c.day - first) * SECONDS_PER_DAY + c.second as i64;
    proof {
        let b: int = 2 * DAY_BOUND + 81;
        assert(-b * 86400 <= diff <= b * 86400);
        vstd::arithmetic::div_mod::lemma_div_multiples_vanish(b, 86400);
        if diff >= 0 {
            vstd::arithmetic::div_mod::lemma_div_is_ordered(diff as int, b * 86400, 86400);
            vstd::arithmetic::div_mod::lemma_div_is_ordered(0, diff as int, 86400);
        } else {
            vstd::arithmetic::div_mod::lemma_div_is_ordered(-diff, b * 86400, 86400);
            vstd::arithmetic::div_mod::lemma_div_is_ordered(0, -diff, 86400);
        }
    }
    if diff >= 0 {
        (diff as u64 / SECONDS_PER_DAY as u64) as i64
    } else {
        -(((-diff) as u64 / SECONDS_PER_DAY as u64) as i64)
    }
}

proof fn lemma_offset_bound(title_width: int, max_month_width: int, k: int)
    requires
        0 <= title_width <= 0xFFFF_FFFF,
        0 <= max_month_width <= 0xFFFF_FFFF,
        -2 * DAY_BOUND - 81 <= k <= 2 * DAY_BOUND + 81,
    ensures
        -0x1800_0000_0000_0000 <= 2 * max_month_width * k <= 0x1800_0000_0000_0000,
        0 <= SUBUNITS * title_width + GUTTER_LEFT <= 0x1_0000_0000_0000,
{
    assert(-0x1800_0000_0000_0000 <= 2 * max_month_width * k <= 0x1800_0000_0000_0000)
        by (nonlinear_arith)
        requires
            0 <= max_month_width <= 0xFFFF_FFFF,
            -2 * 95_746_129 - 81 <= k <= 2 * 95_746_129 + 81,
    ;
}

/// The second pass: the running date restarts at `first` and each item
/// gives a row placed by its running date and, for a task, sized by its
/// shadow duration.
fn chart_rows(
    chart: &ChartData,
    shadows: &Vec<Option<i64>>,
    first: i64,
    title_width: u32,
    max_month_width: u32,
) -> (rows: Vec<RowRenderData>)
    requires
        chart.items@.len() >= 2,
        first_error(chart.items@, chart.resources@.len() as int, chart.items@.len()) is None,
        shadows@.len() == chart.items@.len(),
        forall|j: int|
            0 <= j < shadows@.len() ==> opt_int(#[trigger] shadows@[j]) == row_shadow(
                chart.items@,
                j,
            ),
        forall|j: int|
            0 <= j <= chart.items@.len() ==> in_range(
                (#[trigger] scan(chart.items@, j as nat)).cursor.0,
            ),
        forall|j: int|
            0 <= j < chart.items@.len() ==> in_range((#[trigger] row_cursor(chart.items@, j)).0),
        -DAY_BOUND - 40 <= first <= DAY_BOUND + 40,
        times_valid(chart.items@),
    ensures
        rows@.len() == chart.items@.len(),
        forall|j: int|
            0 <= j < rows@.len() ==> row_fits(
                #[trigger] rows@[j],
                chart.items@,
                title_width as int,
                max_month_width as int,
                first as int,
                j,
            ),
        forall|j: int|
            0 <= j < rows@.len() ==> row_bounded(#[trigger] rows@[j]),
{
    let ghost items = chart.items@;
    let ghost nres = chart.resources@.len() as int;
    let n = chart.items.len();
    let tw = title_width as i64;
    let mmw = max_month_width as i64;
    let mut cur = DateTime { day: first, second: 0 };
    let mut res: usize = 0;
    let mut rows: Vec<RowRenderData> = Vec::new();
    let mut i: usize = 0;
    proof {
        assert(item_error(scan(items, 0), items[0], 0, nres) is None) by {
            lemma_first_error_prefix(items, nres, 1, n as nat);
            assert(((1 as nat) - 1) as nat == 0);
        }
    }
    while i < n
        invariant
            n == items.len(),
            items == chart.items@,
            nres == chart.resources@.len(),
            n >= 2,
            first_error(items, nres, n as nat) is None,
            item_error(scan(items, 0), items[0], 0, nres) is None,
            shadows@.len() == n,
            forall|j: int|
                0 <= j < shadows@.len() ==> opt_int(#[trigger] shadows@[j]) == row_shadow(
                    items,
                    j,
                ),
            forall|j: int| 0 <= j <= n ==> in_range((#[trigger] scan(items, j as nat)).cursor.0),
            forall|j: int| 0 <= j < n ==> in_range((#[trigger] row_cursor(items, j)).0),
            -DAY_BOUND - 40 <= first <= DAY_BOUND + 40,
            times_valid(items),
            cur.second < SECONDS_PER_DAY,
            tw == title_width,
            mmw == max_month_width,
            i <= n,
            i > 0 ==> instant(cur) == scan(items, i as nat).cursor,
            i > 0 ==> res == resource_at(items, i - 1),
            rows@.len() == i,
            forall|j: int|
                0 <= j < i ==> row_fits(
                    #[trigger] rows@[j],
                    items,
                    title_width as int,
                    max_month_width as int,
                    first as int,
                    j,
                ),
            forall|j: int| 0 <= j < i ==> row_bounded(#[trigger] rows@[j]),
        decreases n - i,
    {
        let item = &chart.items[i];
        proof {
            lemma_scan_step(items, i as nat);
        }
        match item.start_date {
            Some(sd) => {
                cur = sd;
            },
            None => {},
        }
        assert(instant(cur) == row_cursor(items, i as int));
        let k = days_between(cur, first);
        proof {
            lemma_offset_bound(tw as int, mmw as int, k as int);
        }
        let offset = SUBUNITS * tw + GUTTER_LEFT + 2 * mmw * k;
        let length = match shadows[i] {
            Some(sh) => {
                assert(scan(items, (i + 1) as nat).cursor.0 == cur.day + sh);
                assert(in_range(scan(items, (i + 1) as nat).cursor.0));
                proof {
                    lemma_offset_bound(tw as int, mmw as int, sh as int);
                }
                cur.day = cur.day + sh;
                Some(2 * mmw * sh)
            },
            None => None,
        };
        match item.resource_index {
            Some(r) => {
                res = r;
            },
            None => {},
        }
        let open = match item.open {
            Some(b) => b,
            None => false,
        };
        let ghost old_rows = rows@;
        rows.push(RowRenderData { title: item.title.clone(), resource_index: res, offset, length, open });
        proof {
            assert forall|j: int| 0 <= j < i + 1 implies row_fits(
                #[trigger] rows@[j],
                items,
                title_width as int,
                max_month_width as int,
                first as int,
                j,
            ) by {
                if j < i {
                    assert(rows@[j] == old_rows[j]);
                }
            }
            assert forall|j: int| 0 <= j < i + 1 implies row_bounded(#[trigger] rows@[j]) by {
                if j < i {
                    assert(rows@[j] == old_rows[j]);
                }
            }
        }
        i = i + 1;
    }
    rows
}

proof fn lemma_first_error_prefix(items: Seq<ItemData>, resources: int, i: nat, n: nat)
    requires
        i <= n <= items.len(),
        first_error(items, resources, n) is None,
    ensures
        first_error(items, resources, i) is None,
    decreases n - i,
{
    if i < n {
        lemma_first_error_prefix(items, resources, i + 1, n);
    }
}

/// Margins on the four sides of a region, in sub-units.
#[derive(Clone, Copy, Debug, PartialEq, Eq)]
pub struct Gutter {
    pub left: i64,
    pub top: i64,
    pub right: i64,
    pub bottom: i64,
}

impl Gutter {
    /// Margins no longer than 2^40 sub-units and not negative.
    pub open spec fn wf(&self) -> bool {
        &&& 0 <= self.left <= 0x100_0000_0000
        &&& 0 <= self.top <= 0x100_0000_0000
        &&& 0 <= self.right <= 0x100_0000_0000
        &&& 0 <= self.bottom <= 0x100_0000_0000
    }

    pub fn height(&self) -> (r: i64)
        requires
            self.wf(),
        ensures
            r == self.top + self.bottom,
    {
        self.bottom + self.top
    }

    pub fn width(&self) -> (r: i64)
        requires
            self.wf(),
        ensures
            r == self.left + self.right,
    {
        self.right + self.left
    }
}

/// The margins of the chart: 10 units left, right and below, 80 above.
pub open spec fn chart_gutter() -> Gutter {
    Gutter { left: GUTTER_LEFT, top: GUTTER_TOP, right: MARGIN, bottom: MARGIN }
}

/// The margins inside a row: 5 units on each side.
pub open spec fn row_gutter() -> Gutter {
    Gutter { left: ROW_MARGIN, top: ROW_MARGIN, right: ROW_MARGIN, bottom: ROW_MARGIN }
}

/// The margins round a legend swatch: 10 units on each side.
pub open spec fn resource_gutter() -> Gutter {
    Gutter { left: MARGIN, top: MARGIN, right: MARGIN, bottom: MARGIN }
}

/// Top margin of the chart, 80 units, in sub-units.
pub const GUTTER_TOP: i64 = 4960;

/// A margin of 10 units, in sub-units.
pub const MARGIN: i64 = 620;

/// A row's margin of 5 units, in sub-units.
pub const ROW_MARGIN: i64 = 310;

/// Height of a bar or a legend swatch, in sub-units.
pub const BAR_HEIGHT: i64 = 1240;

/// Corner radius of bars and swatches, in sub-units.
pub const CORNER_RADIUS: i64 = 186;

/// The geometry of a chart, every length in sub-units.
#[derive(Clone, Debug)]
pub struct RenderData {
    pub title: String,
    pub gutter: Gutter,
    pub row_gutter: Gutter,
    pub row_height: i64,
    pub resource_gutter: Gutter,
    pub resource_height: i64,
    pub marked_date_offset: Option<i64>,
    pub title_width: i64,
    pub max_month_width: i64,
    pub rect_corner_radius: i64,
    pub styles: Vec<ResourceStyle>,
    pub cols: Vec<ColumnRenderData>,
    pub rows: Vec<RowRenderData>,
    pub resources: Vec<String>,
    pub total_days: i64,
    pub total_width: i64,
}

/// The offset of the marked day, if the schedule has one.
pub open spec fn marked_offset(chart: ChartData, title_width: int, max_month_width: int) -> Option<
    int,
> {
    match chart.marked_date {
        Some(m) => Some(date_offset(title_width, max_month_width, first_day(chart), (m as int, 0))),
        None => None,
    }
}

/// What a laid-out chart holds for a valid schedule, widths in units given
/// for the title column and for a 31-day month, and the first resource's hue.
pub open spec fn layout_fits(
    rd: RenderData,
    chart: ChartData,
    title_width: int,
    max_month_width: int,
    hue_seed: int,
) -> bool {
    let items = chart.items@;
    &&& rd.title@ == chart.title@
    &&& rd.gutter == chart_gutter()
    &&& rd.row_gutter == row_gutter()
    &&& rd.row_height == row_gutter().top + row_gutter().bottom + BAR_HEIGHT
    &&& rd.resource_gutter == resource_gutter()
    &&& rd.resource_height == resource_gutter().top + resource_gutter().bottom + BAR_HEIGHT
    &&& rd.rect_corner_radius == CORNER_RADIUS
    &&& rd.title_width == SUBUNITS * title_width
    &&& rd.max_month_width == SUBUNITS * max_month_width
    &&& opt_int(rd.marked_date_offset) == marked_offset(chart, title_width, max_month_width)
    &&& rd.cols@.len() == column_count(chart)
    &&& forall|k: int|
        0 <= k < rd.cols@.len() ==> column_fits(
            #[trigger] rd.cols@[k],
            max_month_width,
            start_month_index(chart) + k,
        )
    &&& rd.total_days == days_sum(start_month_index(chart), rd.cols@.len())
    &&& rd.total_width == 2 * max_month_width * rd.total_days
    &&& rd.total_days <= 31 * rd.cols@.len()
    &&& rd.cols@.len() <= 6_400_000
    &&& forall|j: int| 0 <= j < rd.rows@.len() ==> row_bounded(#[trigger] rd.rows@[j])
    &&& rd.marked_date_offset is Some ==> -0x1801_0000_0000_0000 <= rd.marked_date_offset->0
        <= 0x1801_0000_0000_0000
    &&& rd.rows@.len() == items.len()
    &&& forall|j: int|
        0 <= j < items.len() ==> row_fits(
            #[trigger] rd.rows@[j],
            items,
            title_width,
            max_month_width,
            first_day(chart),
            j,
        )
    &&& rd.resources@.len() == chart.resources@.len()
    &&& forall|i: int|
        0 <= i < rd.resources@.len() ==> (#[trigger] rd.resources@[i])@ == chart.resources@[i]@
    &&& rd.styles@.len() == chart.resources@.len()
    &&& forall|i: int|
        0 <= i < rd.styles@.len() ==> (#[trigger] rd.styles@[i]).resource_index == i
            && rd.styles@[i].rgb as int == resource_rgb(hue_seed, i)
}

/// Lays out a schedule: `title_width` is the width of the title column and
/// `max_month_width` that of a 31-day month, in units; `hue_seed` is the hue
/// of the first resource, as a fraction of 2^32. Fails exactly when
/// `chart_error` names an error.
pub fn process_chart_data(
    title_width: u32,
    max_month_width: u32,
    chart: &ChartData,
    hue_seed: u32,
) -> (r: Result<RenderData, LayoutError>)
    requires
        times_valid(chart.items@),
    ensures
        r is Err <==> chart_error(*chart) is Some,
        match r {
            Err(e) => chart_error(*chart) == Some(e),
            Ok(rd) => {
                &&& layout_fits(
                    rd,
                    *chart,
                    title_width as int,
                    max_month_width as int,
                    hue_seed as int,
                )
                &&& chart.items@.len() <= 0x1000_0000 && chart.resources@.len() <= 0x1000_0000
                    ==> render_wf(rd)
            },
        },
{
    if chart.items.len() < 2 {
        return Err(LayoutError::TooFewItems);
    }
    let (start, end, shadows) = match scan_items(chart) {
        Ok(v) => v,
        Err(e) => {
            return Err(e);
        },
    };
    if let Some(m) = chart.marked_date {
        if m < FIRST_DAY || m > LAST_DAY {
            return Err(LayoutError::DateOutOfRange);
        }
    }
    let (sy, sm, first) = month_of(start.day);
    let (ey, em, _) = month_of(end);
    let (cols, total_days, total_width) = month_columns(sy, sm, ey, em, max_month_width);
    let rows = chart_rows(chart, &shadows, first, title_width, max_month_width);
    let tw = title_width as i64;
    let mmw = max_month_width as i64;
    let marked_date_offset = match chart.marked_date {
        Some(m) => {
            let k = days_between(DateTime { day: m, second: 0 }, first);
            proof {
                lemma_offset_bound(tw as int, mmw as int, k as int);
            }
            Some(SUBUNITS * tw + GUTTER_LEFT + 2 * mmw * k)
        },
        None => None,
    };
    let gutter = Gutter {
        left: GUTTER_LEFT,
        top: GUTTER_TOP,
        right: MARGIN,
        bottom: MARGIN,
    };
    let row_gutter = Gutter {
        left: ROW_MARGIN,
        top: ROW_MARGIN,
        right: ROW_MARGIN,
        bottom: ROW_MARGIN,
    };
    let row_height = row_gutter.height() + BAR_HEIGHT;
    let resource_gutter = Gutter {
        left: MARGIN,
        top: MARGIN,
        right: MARGIN,
        bottom: MARGIN,
    };
    let resource_height = resource_gutter.height() + BAR_HEIGHT;
    let styles = resource_styles(hue_seed, chart.resources.len());
    proof {
        lemma_days_sum_bounds(start_month_index(*chart), cols@.len());
    }
    let mut resources: Vec<String> = Vec::new();
    let mut i: usize = 0;
    while i < chart.resources.len()
        invariant
            i <= chart.resources@.len(),
            resources@.len() == i,
            forall|j: int| 0 <= j < i ==> (#[trigger] resources@[j])@ == chart.resources@[j]@,
        decreases chart.resources@.len() - i,
    {
        resources.push(chart.resources[i].clone());
        i = i + 1;
    }
    let rd = RenderData {
        title: chart.title.clone(),
        gutter,
        row_gutter,
        row_height,
        resource_gutter,
        resource_height,
        marked_date_offset,
        title_width: SUBUNITS * tw,
        max_month_width: SUBUNITS * mmw,
        rect_corner_radius: CORNER_RADIUS,
        styles,
        cols,
        rows,
        resources,
        total_days,
        total_width,
    };
    proof {
        if chart.items@.len() <= 0x1000_0000 && chart.resources@.len() <= 0x1000_0000 {
            lemma_layout_renderable(
                rd,
                *chart,
                title_width as int,
                max_month_width as int,
                hue_seed as int,
            );
        }
    }
    Ok(rd)
}

pub proof fn lemma_days_sum_nonneg(mi: int, n: nat)
    ensures
        0 <= days_sum(mi, n),
{
    lemma_days_sum_bounds(mi, n);
}

proof fn lemma_days_sum_bounds(mi: int, n: nat)
    ensures
        28 * n <= days_sum(mi, n) <= 31 * n,
    decreases n,
{
    if n > 0 {
        lemma_days_sum_bounds(mi, (n - 1) as nat);
    }
}

proof fn lemma_item_ok(items: Seq<ItemData>, resources: int, i: nat)
    requires
        i < items.len(),
        first_error(items, resources, items.len()) is None,
    ensures
        item_error(scan(items, i), items[i as int], i as int, resources) is None,
{
    lemma_first_error_prefix(items, resources, i + 1, items.len());
    assert(((i + 1) as nat - 1) as nat == i);
}

proof fn lemma_resource_at_in_range(items: Seq<ItemData>, resources: int, i: int)
    requires
        0 <= i < items.len(),
        first_error(items, resources, items.len()) is None,
    ensures
        0 <= resource_at(items, i) < resources,
    decreases i,
{
    lemma_item_ok(items, resources, i as nat);
    if items[i].resource_index is None {
        lemma_resource_at_in_range(items, resources, i - 1);
    }
}

/// For a schedule that passes validation, the resource of every row is an
/// index into the resource list.
pub proof fn lemma_row_resources_in_range(
    rd: RenderData,
    chart: ChartData,
    title_width: int,
    max_month_width: int,
    hue_seed: int,
    i: int,
)
    requires
        layout_fits(rd, chart, title_width, max_month_width, hue_seed),
        chart_error(chart) is None,
        0 <= i < rd.rows@.len(),
    ensures
        0 <= rd.rows@[i].resource_index < chart.resources@.len(),
{
    assert(row_fits(rd.rows@[i], chart.items@, title_width, max_month_width, first_day(chart), i));
    lemma_resource_at_in_range(chart.items@, chart.resources@.len() as int, i);
}

/// A laid-out chart with at least one month column counts a positive
/// number of days, and a positive total width when months are wider than
/// nothing.
pub proof fn lemma_columns_positive(
    rd: RenderData,
    chart: ChartData,
    title_width: int,
    max_month_width: int,
    hue_seed: int,
)
    requires
        layout_fits(rd, chart, title_width, max_month_width, hue_seed),
        rd.cols@.len() > 0,
    ensures
        rd.total_days > 0,
        max_month_width > 0 ==> rd.total_width > 0,
{
    lemma_days_sum_bounds(start_month_index(chart), rd.cols@.len());
    if max_month_width > 0 {
        assert(2 * max_month_width * rd.total_days > 0) by (nonlinear_arith)
            requires max_month_width > 0, rd.total_days > 0;
    }
}

proof fn lemma_scan_seconds(items: Seq<ItemData>, n: nat)
    requires
        n <= items.len(),
        times_valid(items),
    ensures
        0 <= scan(items, n).cursor.1 < SECONDS_PER_DAY,
    decreases n,
{
    if n > 0 {
        lemma_scan_seconds(items, (n - 1) as nat);
        let item = items[n - 1];
        assert(item.start_date is Some ==> item.start_date->0.second < SECONDS_PER_DAY);
    }
}

/// The offset of an instant never decreases as the instant moves later.
pub proof fn lemma_date_offset_monotone(
    title_width: int,
    max_month_width: int,
    first: int,
    c1: (int, int),
    c2: (int, int),
)
    requires
        0 <= max_month_width,
        0 <= c1.1 < SECONDS_PER_DAY,
        0 <= c2.1 < SECONDS_PER_DAY,
        !before(c2, c1),
    ensures
        date_offset(title_width, max_month_width, first, c1) <= date_offset(
            title_width,
            max_month_width,
            first,
            c2,
        ),
{
    let d = SECONDS_PER_DAY as int;
    let x = (c1.0 - first) * d + c1.1;
    let y = (c2.0 - first) * d + c2.1;
    if c1.0 < c2.0 {
        assert((c1.0 - first) * d + d <= (c2.0 - first) * d) by (nonlinear_arith)
            requires c1.0 < c2.0, d > 0;
    }
    assert(x <= y);
    let k1 = days_since(c1, first);
    let k2 = days_since(c2, first);
    if x >= 0 {
        vstd::arithmetic::div_mod::lemma_div_is_ordered(x, y, d);
    } else if y >= 0 {
        vstd::arithmetic::div_mod::lemma_div_is_ordered(0, -x, d);
        vstd::arithmetic::div_mod::lemma_div_is_ordered(0, y, d);
    } else {
        vstd::arithmetic::div_mod::lemma_div_is_ordered(-y, -x, d);
    }
    assert(k1 <= k2);
    assert(2 * max_month_width * k1 <= 2 * max_month_width * k2) by (nonlinear_arith)
        requires 0 <= max_month_width, k1 <= k2;
}

/// A row lies past the gutter and the title column by its share of the
/// total width: its days from the first day over the total day count.
pub proof fn lemma_row_offset_proportional(
    rd: RenderData,
    chart: ChartData,
    title_width: int,
    max_month_width: int,
    hue_seed: int,
    i: int,
)
    requires
        layout_fits(rd, chart, title_width, max_month_width, hue_seed),
        0 <= i < rd.rows@.len(),
    ensures
        rd.rows@[i].offset * rd.total_days == (rd.gutter.left + rd.title_width) * rd.total_days
            + days_since(row_cursor(chart.items@, i), first_day(chart)) * rd.total_width,
{
    let k = days_since(row_cursor(chart.items@, i), first_day(chart));
    assert(row_fits(rd.rows@[i], chart.items@, title_width, max_month_width, first_day(chart), i));
    let t = rd.total_days as int;
    let o = rd.rows@[i].offset as int;
    let base = (rd.gutter.left + rd.title_width) as int;
    assert(o == base + 2 * max_month_width * k);
    assert(o * t == base * t + k * (2 * max_month_width * t)) by (nonlinear_arith)
        requires o == base + 2 * max_month_width * k;
}

/// Of two rows, the one whose running date is not earlier lies not further
/// left: rows of a schedule in chronological order have non-decreasing
/// offsets.
pub proof fn lemma_row_offsets_monotone(
    rd: RenderData,
    chart: ChartData,
    title_width: int,
    max_month_width: int,
    hue_seed: int,
    i: int,
    j: int,
)
    requires
        layout_fits(rd, chart, title_width, max_month_width, hue_seed),
        times_valid(chart.items@),
        0 <= max_month_width,
        0 <= i < rd.rows@.len(),
        0 <= j < rd.rows@.len(),
        !before(row_cursor(chart.items@, j), row_cursor(chart.items@, i)),
    ensures
        rd.rows@[i].offset <= rd.rows@[j].offset,
{
    let items = chart.items@;
    assert(row_fits(rd.rows@[i], items, title_width, max_month_width, first_day(chart), i));
    assert(row_fits(rd.rows@[j], items, title_width, max_month_width, first_day(chart), j));
    lemma_scan_seconds(items, i as nat);
    lemma_scan_seconds(items, j as nat);
    assert(items[i].start_date is Some ==> items[i].start_date->0.second < SECONDS_PER_DAY);
    assert(items[j].start_date is Some ==> items[j].start_date->0.second < SECONDS_PER_DAY);
    lemma_date_offset_monotone(
        title_width,
        max_month_width,
        first_day(chart),
        row_cursor(items, i),
        row_cursor(items, j),
    );
}

/// A milestone's row has no length; a task's row has one, positive when
/// the task lasts a positive number of days and months have a positive
/// width.
pub proof fn lemma_row_kinds(
    rd: RenderData,
    chart: ChartData,
    title_width: int,
    max_month_width: int,
    hue_seed: int,
    i: int,
)
    requires
        layout_fits(rd, chart, title_width, max_month_width, hue_seed),
        0 <= i < rd.rows@.len(),
    ensures
        rd.rows@[i].length is None <==> chart.items@[i].duration is None,
        chart.items@[i].duration is Some && chart.items@[i].duration->0 > 0 && max_month_width > 0
            ==> rd.rows@[i].length is Some && rd.rows@[i].length->0 > 0,
{
    let items = chart.items@;
    assert(row_fits(rd.rows@[i], items, title_width, max_month_width, first_day(chart), i));
    if items[i].duration is Some && items[i].duration->0 > 0 && max_month_width > 0 {
        let sh = row_shadow(items, i)->0;
        assert(sh >= items[i].duration->0);
        assert(2 * max_month_width * sh > 0) by (nonlinear_arith)
            requires max_month_width > 0, sh > 0;
    }
}

/// Two layouts of one schedule with the same sizes hold the same geometry,
/// whatever their seeds; with the same seed they hold the same colours too.
pub proof fn lemma_layout_deterministic(
    rd1: RenderData,
    rd2: RenderData,
    chart: ChartData,
    title_width: int,
    max_month_width: int,
    seed1: int,
    seed2: int,
)
    requires
        layout_fits(rd1, chart, title_width, max_month_width, seed1),
        layout_fits(rd2, chart, title_width, max_month_width, seed2),
    ensures
        rd1.cols@ == rd2.cols@,
        rd1.rows@.len() == rd2.rows@.len(),
        forall|i: int|
            0 <= i < rd1.rows@.len() ==> (#[trigger] rd1.rows@[i]).offset == rd2.rows@[i].offset
                && rd1.rows@[i].length == rd2.rows@[i].length && rd1.rows@[i].resource_index
                == rd2.rows@[i].resource_index && rd1.rows@[i].open == rd2.rows@[i].open,
        rd1.marked_date_offset == rd2.marked_date_offset,
        rd1.title@ == rd2.title@,
        rd1.resources@.len() == rd2.resources@.len(),
        forall|i: int|
            0 <= i < rd1.resources@.len() ==> (#[trigger] rd1.resources@[i])@
                == rd2.resources@[i]@,
        rd1.total_days == rd2.total_days,
        rd1.total_width == rd2.total_width,
        seed1 == seed2 ==> rd1.styles@ == rd2.styles@,
{
    assert(rd1.cols@ =~= rd2.cols@) by {
        assert forall|k: int| 0 <= k < rd1.cols@.len() implies rd1.cols@[k] == rd2.cols@[k] by {
            assert(column_fits(rd1.cols@[k], max_month_width, start_month_index(chart) + k));
            assert(column_fits(rd2.cols@[k], max_month_width, start_month_index(chart) + k));
        }
    }
    assert forall|i: int| 0 <= i < rd1.rows@.len() implies (#[trigger] rd1.rows@[i]).offset
        == rd2.rows@[i].offset && rd1.rows@[i].length == rd2.rows@[i].length
        && rd1.rows@[i].resource_index == rd2.rows@[i].resource_index && rd1.rows@[i].open
        == rd2.rows@[i].open by {
        assert(row_fits(rd1.rows@[i], chart.items@, title_width, max_month_width, first_day(chart), i));
        assert(row_fits(rd2.rows@[i], chart.items@, title_width, max_month_width, first_day(chart), i));
        match rd1.rows@[i].length {
            Some(a) => {
                assert(rd2.rows@[i].length is Some);
            },
            None => {},
        }
    }
    match rd1.marked_date_offset {
        Some(a) => {
            assert(rd2.marked_date_offset is Some);
        },
        None => {},
    }
    assert forall|i: int| 0 <= i < rd1.resources@.len() implies (#[trigger] rd1.resources@[i])@
        == rd2.resources@[i]@ by {
        assert(rd1.resources@[i]@ == chart.resources@[i]@);
        assert(rd2.resources@[i]@ == chart.resources@[i]@);
    }
    if seed1 == seed2 {
        assert(rd1.styles@ =~= rd2.styles@) by {
            assert forall|k: int| 0 <= k < rd1.styles@.len() implies rd1.styles@[k]
                == rd2.styles@[k] by {
                assert(rd1.styles@[k].resource_index == k);
                assert(rd2.styles@[k].resource_index == k);
            }
        }
    }
}

/// Relies on `rand::random::<u32>`: a value drawn from the thread's
/// generator, of which nothing is promised.
#[verifier::external_body]
fn random_u32() -> (r: u32) {
    rand::random::<u32>()
}

/// Lays out a schedule as `process_chart_data` does, with the first
/// resource's hue drawn at random: the geometry is the same whatever is
/// drawn.
pub fn layout_chart(title_width: u32, max_month_width: u32, chart: &ChartData) -> (r: Result<
    RenderData,
    LayoutError,
>)
    requires
        times_valid(chart.items@),
    ensures
        r is Err <==> chart_error(*chart) is Some,
        match r {
            Err(e) => chart_error(*chart) == Some(e),
            Ok(rd) => exists|seed: u32|
                layout_fits(rd, *chart, title_width as int, max_month_width as int, seed as int),
        },
{
    let seed = random_u32();
    let r = process_chart_data(title_width, max_month_width, chart, seed);
    match r {
        Ok(rd) => {
            assert(layout_fits(rd, *chart, title_width as int, max_month_width as int, seed as int));
            Ok(rd)
        },
        Err(e) => Err(e),
    }
}

} // verus!
