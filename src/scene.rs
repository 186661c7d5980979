//! The scene builder: turns a chart's geometry into an ordered tree of
//! drawing primitives tagged with style classes. Coordinates are in
//! sub-units, as in `layout`.
use crate::layout::{
    column_fits, layout_fits, row_bounded, ChartData, ColumnRenderData, RenderData, SUBUNITS,
};
use vstd::prelude::*;

verus! {

/// The style classes of the stylesheet.
#[derive(Clone, Copy, Debug, PartialEq, Eq)]
pub enum StyleClass {
    OuterLines,
    InnerLines,
    Item,
    Resource,
    Title,
    Heading,
    TaskHeading,
    Milestone,
    Marker,
    /// The filled style of a resource, for closed tasks and the legend.
    ResourceClosed(usize),
    /// The outlined style of a resource, for open tasks.
    ResourceOpen(usize),
}

/// What a text shows.
#[derive(Clone, Copy, Debug, PartialEq, Eq)]
pub enum Label {
    /// The chart's title.
    ChartTitle,
    /// The heading of the title column.
    TasksHeading,
    /// The name of a month, 1 to 12.
    Month(u32),
    /// The title of the row at this index.
    RowTitle(usize),
    /// The name of the resource at this index.
    ResourceName(usize),
}

/// A drawing primitive.
#[derive(Clone, Copy, Debug, PartialEq, Eq)]
pub enum Shape {
    Line { class: StyleClass, x1: i64, y1: i64, x2: i64, y2: i64 },
    Rect { class: StyleClass, x: i64, y: i64, radius: i64, width: i64, height: i64 },
    /// A square standing on a corner: its left corner at (`x`, `y`), its
    /// half diagonal `half`.
    Diamond { class: StyleClass, x: i64, y: i64, half: i64 },
    Text { class: StyleClass, x: i64, y: i64, label: Label },
}

/// A chart's drawing, in document order: title, columns, the heading of
/// the title column, rows, the marker and the legend.
#[derive(Clone, Debug)]
pub struct Scene {
    pub width: i64,
    pub height: i64,
    pub title: Shape,
    pub columns: Vec<Shape>,
    pub tasks: Shape,
    pub rows: Vec<Shape>,
    pub marker: Option<Shape>,
    pub resources: Vec<Shape>,
}

/// Width of the columns before column `i`.
pub open spec fn col_prefix(cols: Seq<ColumnRenderData>, i: nat) -> int
    decreases i,
{
    if i == 0 {
        0
    } else {
        col_prefix(cols, (i - 1) as nat) + cols[i - 1].width
    }
}

pub open spec fn canvas_width(rd: RenderData) -> int {
    rd.gutter.left + rd.title_width + col_prefix(rd.cols@, rd.cols@.len()) + rd.gutter.right
}

pub open spec fn body_bottom(rd: RenderData) -> int {
    rd.gutter.top + rd.rows@.len() * rd.row_height
}

pub open spec fn canvas_height(rd: RenderData, legend: bool) -> int {
    body_bottom(rd) + (if legend {
        rd.resource_gutter.top + rd.resource_gutter.bottom + rd.resource_height
    } else {
        0
    }) + rd.gutter.bottom
}

/// Baseline of the chart's title, 25 units down, in sub-units.
pub const TITLE_Y: i64 = 1550;

/// A bound on every horizontal length of a scene, in sub-units.
pub const BOUND: i64 = 0x2000_0000_0000_0000;

/// Sizes small enough that no coordinate of the scene overflows.
pub open spec fn render_wf(rd: RenderData) -> bool {
    &&& rd.gutter.wf()
    &&& rd.row_gutter.wf()
    &&& rd.resource_gutter.wf()
    &&& 0 <= rd.row_height <= 0x100_0000
    &&& rd.row_gutter.top + rd.row_gutter.bottom <= rd.row_height
    &&& 0 <= rd.resource_height <= 0x100_0000
    &&& 0 <= rd.title_width <= 0x100_0000_0000
    &&& 0 <= rd.max_month_width <= 0x100_0000_0000
    &&& rd.rows@.len() <= 0x1000_0000
    &&& rd.cols@.len() <= 0x1000_0000
    &&& rd.resources@.len() <= 0x1000_0000
    &&& forall|i: int| 0 <= i < rd.cols@.len() ==> 0 <= (#[trigger] rd.cols@[i]).width
    &&& col_prefix(rd.cols@, rd.cols@.len()) <= BOUND
    &&& forall|i: int|
        0 <= i < rd.rows@.len() ==> -BOUND <= (#[trigger] rd.rows@[i]).offset <= BOUND && (
        rd.rows@[i].length is Some ==> -BOUND <= rd.rows@[i].length->0 <= BOUND)
    &&& rd.marked_date_offset is Some ==> -BOUND <= rd.marked_date_offset->0 <= BOUND
}

pub open spec fn row_top(rd: RenderData, i: int) -> int {
    rd.gutter.top + i * rd.row_height
}

/// The horizontal line above row `i`, or below the last row: the first and
/// the last are outer lines.
pub open spec fn row_line(rd: RenderData, i: int) -> Shape {
    Shape::Line {
        class: if i == 0 || i == rd.rows@.len() {
            StyleClass::OuterLines
        } else {
            StyleClass::InnerLines
        },
        x1: rd.gutter.left as i64,
        y1: row_top(rd, i) as i64,
        x2: (canvas_width(rd) - rd.gutter.right) as i64,
        y2: row_top(rd, i) as i64,
    }
}

pub open spec fn row_label(rd: RenderData, i: int) -> Shape {
    Shape::Text {
        class: StyleClass::Item,
        x: (rd.gutter.left + rd.row_gutter.left) as i64,
        y: (row_top(rd, i) + rd.row_gutter.top + rd.row_height / 2) as i64,
        label: Label::RowTitle(i as usize),
    }
}

/// A bar styled by its resource and by whether it is open, or a milestone's
/// diamond centred on the row's offset.
pub open spec fn row_mark(rd: RenderData, i: int) -> Shape {
    let row = rd.rows@[i];
    let inner = rd.row_height - (rd.row_gutter.top + rd.row_gutter.bottom);
    match row.length {
        Some(len) => Shape::Rect {
            class: if row.open {
                StyleClass::ResourceOpen(row.resource_index)
            } else {
                StyleClass::ResourceClosed(row.resource_index)
            },
            x: row.offset,
            y: (row_top(rd, i) + rd.row_gutter.top) as i64,
            radius: rd.rect_corner_radius,
            width: len,
            height: inner as i64,
        },
        None => Shape::Diamond {
            class: StyleClass::Milestone,
            x: (row.offset - inner / 2) as i64,
            y: (row_top(rd, i) + rd.row_gutter.top + inner / 2) as i64,
            half: (inner / 2) as i64,
        },
    }
}

/// The row shapes in order: for each row its line, its title and its mark,
/// then the line below the last row.
pub open spec fn rows_fit(rd: RenderData, shapes: Seq<Shape>) -> bool {
    let n = rd.rows@.len() as int;
    &&& shapes.len() == 3 * n + 1
    &&& forall|i: int|
        0 <= i < n ==> shapes[3 * i] == row_line(rd, i) && shapes[3 * i + 1] == row_label(rd, i)
            && shapes[3 * i + 2] == row_mark(rd, i)
    &&& shapes[3 * n] == row_line(rd, n)
}

pub open spec fn heading_y(rd: RenderData) -> int {
    rd.gutter.top - rd.row_gutter.bottom - rd.row_height / 2
}

pub open spec fn column_x(rd: RenderData, i: int) -> int {
    rd.gutter.left + rd.title_width + col_prefix(rd.cols@, i as nat)
}

pub open spec fn column_line(rd: RenderData, i: int) -> Shape {
    Shape::Line {
        class: StyleClass::InnerLines,
        x1: column_x(rd, i) as i64,
        y1: rd.gutter.top,
        x2: column_x(rd, i) as i64,
        y2: body_bottom(rd) as i64,
    }
}

pub open spec fn column_label(rd: RenderData, i: int) -> Shape {
    Shape::Text {
        class: StyleClass::Heading,
        x: (column_x(rd, i) + rd.max_month_width / 2) as i64,
        y: heading_y(rd) as i64,
        label: Label::Month(rd.cols@[i].month),
    }
}

/// The column shapes in order: for each column its left line and its month,
/// then the line right of the last column.
pub open spec fn columns_fit(rd: RenderData, shapes: Seq<Shape>) -> bool {
    let n = rd.cols@.len() as int;
    &&& shapes.len() == 2 * n + 1
    &&& forall|i: int|
        0 <= i < n ==> shapes[2 * i] == column_line(rd, i) && shapes[2 * i + 1] == column_label(
            rd,
            i,
        )
    &&& shapes[2 * n] == column_line(rd, n)
}

/// A legend entry's horizontal anchor: 100 units apart.
pub open spec fn legend_x(rd: RenderData, i: int) -> int {
    rd.resource_gutter.left + (i + 1) * 100 * SUBUNITS
}

pub open spec fn legend_name(rd: RenderData, i: int) -> Shape {
    Shape::Text {
        class: StyleClass::Resource,
        x: (legend_x(rd, i) - 5 * SUBUNITS) as i64,
        y: (body_bottom(rd) + rd.resource_height / 2) as i64,
        label: Label::ResourceName(i as usize),
    }
}

pub open spec fn legend_swatch(rd: RenderData, i: int) -> Shape {
    let side = rd.resource_height - (rd.resource_gutter.top + rd.resource_gutter.bottom);
    Shape::Rect {
        class: StyleClass::ResourceClosed(i as usize),
        x: (legend_x(rd, i) + 5 * SUBUNITS) as i64,
        y: (body_bottom(rd) + rd.resource_gutter.top) as i64,
        radius: rd.rect_corner_radius,
        width: side as i64,
        height: side as i64,
    }
}

/// The legend in order: for each resource its name and its swatch; empty
/// when no legend is asked for.
pub open spec fn legend_fits(rd: RenderData, legend: bool, shapes: Seq<Shape>) -> bool {
    if legend {
        &&& shapes.len() == 2 * rd.resources@.len()
        &&& forall|i: int|
            0 <= i < rd.resources@.len() ==> shapes[2 * i] == legend_name(rd, i) && shapes[2 * i
                + 1] == legend_swatch(rd, i)
    } else {
        shapes.len() == 0
    }
}

pub open spec fn marker_line(rd: RenderData, offset: int) -> Shape {
    Shape::Line {
        class: StyleClass::Marker,
        x1: offset as i64,
        y1: (rd.gutter.top - 5 * SUBUNITS) as i64,
        x2: offset as i64,
        y2: (body_bottom(rd) + 5 * SUBUNITS) as i64,
    }
}

proof fn lemma_col_prefix_mono(cols: Seq<ColumnRenderData>, i: nat, n: nat)
    requires
        i <= n <= cols.len(),
        forall|k: int| 0 <= k < cols.len() ==> 0 <= (#[trigger] cols[k]).width,
    ensures
        0 <= col_prefix(cols, i) <= col_prefix(cols, n),
    decreases n,
{
    if n > 0 {
        if i < n {
            lemma_col_prefix_mono(cols, i, (n - 1) as nat);
        } else {
            lemma_col_prefix_mono(cols, (n - 1) as nat, (n - 1) as nat);
        }
        assert(0 <= cols[n - 1].width);
    }
}

/// Sum of the widths of the columns before column `i`.
fn columns_width(rd: &RenderData, i: usize) -> (r: i64)
    requires
        render_wf(*rd),
        i <= rd.cols@.len(),
    ensures
        r == col_prefix(rd.cols@, i as nat),
        0 <= r <= BOUND,
{
    let mut sum: i64 = 0;
    let mut k: usize = 0;
    while k < i
        invariant
            render_wf(*rd),
            k <= i <= rd.cols@.len(),
            sum == col_prefix(rd.cols@, k as nat),
        decreases i - k,
    {
        proof {
            lemma_col_prefix_mono(rd.cols@, (k + 1) as nat, rd.cols@.len());
        }
        sum = sum + rd.cols[k].width;
        k = k + 1;
    }
    proof {
        lemma_col_prefix_mono(rd.cols@, i as nat, rd.cols@.len());
    }
    sum
}

proof fn lemma_body(rd: RenderData, i: int)
    requires
        render_wf(rd),
        0 <= i <= rd.rows@.len(),
    ensures
        0 <= i * rd.row_height <= rd.rows@.len() * rd.row_height <= 0x1_0000_0000 * 0x100_0000,
{
    assert(0 <= i * rd.row_height <= rd.rows@.len() * rd.row_height <= 0x1_0000_0000 * 0x100_0000)
        by (nonlinear_arith)
        requires
            0 <= i <= rd.rows@.len() <= 0x1_0000_0000,
            0 <= rd.row_height <= 0x100_0000,
    ;
}

/// The width of the whole drawing: gutters, title column and columns.
pub fn chart_width(rd: &RenderData) -> (r: i64)
    requires
        render_wf(*rd),
    ensures
        r == canvas_width(*rd),
{
    rd.gutter.left + rd.title_width + columns_width(rd, rd.cols.len()) + rd.gutter.right
}

/// The height of the whole drawing: gutters, rows and, if asked for, the
/// legend.
pub fn chart_height(rd: &RenderData, add_resource_table: bool) -> (r: i64)
    requires
        render_wf(*rd),
    ensures
        r == canvas_height(*rd, add_resource_table),
{
    proof {
        lemma_body(*rd, 0);
    }
    let legend = if add_resource_table {
        rd.resource_gutter.height() + rd.resource_height
    } else {
        0
    };
    rd.gutter.top + rd.rows.len() as i64 * rd.row_height + legend + rd.gutter.bottom
}

fn column_shapes(rd: &RenderData) -> (r: Vec<Shape>)
    requires
        render_wf(*rd),
    ensures
        columns_fit(*rd, r@),
{
    let n = rd.cols.len();
    let mut shapes: Vec<Shape> = Vec::new();
    let mut i: usize = 0;
    proof {
        lemma_body(*rd, 0);
    }
    let bottom = rd.gutter.top + rd.rows.len() as i64 * rd.row_height;
    let heading = rd.gutter.top - rd.row_gutter.bottom - rd.row_height / 2;
    while i <= n
        invariant
            render_wf(*rd),
            n == rd.cols@.len(),
            i <= n + 1,
            bottom == body_bottom(*rd),
            heading == heading_y(*rd),
            shapes@.len() == 2 * i - (if i > n { 1int } else { 0 }),
            forall|j: int|
                0 <= j < i && j < n ==> shapes@[2 * j] == column_line(*rd, j) && shapes@[2 * j
                    + 1] == column_label(*rd, j),
            i > n ==> shapes@[2 * n] == column_line(*rd, n as int),
        decreases n + 1 - i,
    {
        let x = rd.gutter.left + rd.title_width + columns_width(rd, i);
        let ghost old_shapes = shapes@;
        shapes.push(
            Shape::Line { class: StyleClass::InnerLines, x1: x, y1: rd.gutter.top, x2: x, y2: bottom },
        );
        if i < n {
            shapes.push(
                Shape::Text {
                    class: StyleClass::Heading,
                    x: x + rd.max_month_width / 2,
                    y: heading,
                    label: Label::Month(rd.cols[i].month),
                },
            );
        }
        proof {
            assert forall|j: int|
                0 <= j < i + 1 && j < n implies shapes@[2 * j] == column_line(*rd, j) && shapes@[2
                * j + 1] == column_label(*rd, j) by {
                if j < i {
                    assert(shapes@[2 * j] == old_shapes[2 * j]);
                    assert(shapes@[2 * j + 1] == old_shapes[2 * j + 1]);
                }
            }
        }
        i = i + 1;
    }
    shapes
}

fn row_shapes(rd: &RenderData, width: i64) -> (r: Vec<Shape>)
    requires
        render_wf(*rd),
        width == canvas_width(*rd),
    ensures
        rows_fit(*rd, r@),
{
    let n = rd.rows.len();
    let mut shapes: Vec<Shape> = Vec::new();
    let mut i: usize = 0;
    proof {
        lemma_col_prefix_mono(rd.cols@, 0, rd.cols@.len());
    }
    let inner = rd.row_height - rd.row_gutter.height();
    let half = inner / 2;
    while i <= n
        invariant
            render_wf(*rd),
            n == rd.rows@.len(),
            i <= n + 1,
            width == canvas_width(*rd),
            0 <= width <= 4 * BOUND,
            inner == rd.row_height - (rd.row_gutter.top + rd.row_gutter.bottom),
            half == inner / 2,
            shapes@.len() == 3 * i - (if i > n { 2int } else { 0 }),
            forall|j: int|
                0 <= j < i && j < n ==> shapes@[3 * j] == row_line(*rd, j) && shapes@[3 * j + 1]
                    == row_label(*rd, j) && shapes@[3 * j + 2] == row_mark(*rd, j),
            i > n ==> shapes@[3 * n] == row_line(*rd, n as int),
        decreases n + 1 - i,
    {
        proof {
            lemma_body(*rd, i as int);
        }
        let y = rd.gutter.top + i as i64 * rd.row_height;
        let class = if i == 0 || i == n {
            StyleClass::OuterLines
        } else {
            StyleClass::InnerLines
        };
        let ghost old_shapes = shapes@;
        shapes.push(Shape::Line { class, x1: rd.gutter.left, y1: y, x2: width - rd.gutter.right, y2: y });
        if i < n {
            let row = &rd.rows[i];
            shapes.push(
                Shape::Text {
                    class: StyleClass::Item,
                    x: rd.gutter.left + rd.row_gutter.left,
                    y: y + rd.row_gutter.top + rd.row_height / 2,
                    label: Label::RowTitle(i),
                },
            );
            match row.length {
                Some(len) => {
                    let class = if row.open {
                        StyleClass::ResourceOpen(row.resource_index)
                    } else {
                        StyleClass::ResourceClosed(row.resource_index)
                    };
                    shapes.push(
                        Shape::Rect {
                            class,
                            x: row.offset,
                            y: y + rd.row_gutter.top,
                            radius: rd.rect_corner_radius,
                            width: len,
                            height: inner,
                        },
                    );
                },
                None => {
                    shapes.push(
                        Shape::Diamond {
                            class: StyleClass::Milestone,
                            x: row.offset - half,
                            y: y + rd.row_gutter.top + half,
                            half,
                        },
                    );
                },
            }
        }
        proof {
            assert forall|j: int|
                0 <= j < i + 1 && j < n implies shapes@[3 * j] == row_line(*rd, j) && shapes@[3 * j
                + 1] == row_label(*rd, j) && shapes@[3 * j + 2] == row_mark(*rd, j) by {
                if j < i {
                    assert(shapes@[3 * j] == old_shapes[3 * j]);
                    assert(shapes@[3 * j + 1] == old_shapes[3 * j + 1]);
                    assert(shapes@[3 * j + 2] == old_shapes[3 * j + 2]);
                }
            }
        }
        i = i + 1;
    }
    shapes
}

fn legend_shapes(rd: &RenderData, add_resource_table: bool) -> (r: Vec<Shape>)
    requires
        render_wf(*rd),
    ensures
        legend_fits(*rd, add_resource_table, r@),
{
    let mut shapes: Vec<Shape> = Vec::new();
    if !add_resource_table {
        return shapes;
    }
    let n = rd.resources.len();
    proof {
        lemma_body(*rd, 0);
    }
    let bottom = rd.gutter.top + rd.rows.len() as i64 * rd.row_height;
    let side = rd.resource_height - rd.resource_gutter.height();
    let mut i: usize = 0;
    while i < n
        invariant
            render_wf(*rd),
            n == rd.resources@.len(),
            i <= n,
            bottom == body_bottom(*rd),
            0 <= bottom <= 0x100_0000_0000 + 0x1_0000_0000 * 0x100_0000,
            side == rd.resource_height - (rd.resource_gutter.top + rd.resource_gutter.bottom),
            shapes@.len() == 2 * i,
            forall|j: int|
                0 <= j < i ==> shapes@[2 * j] == legend_name(*rd, j) && shapes@[2 * j + 1]
                    == legend_swatch(*rd, j),
        decreases n - i,
    {
        let x = rd.resource_gutter.left + (i as i64 + 1) * 100 * SUBUNITS;
        let ghost old_shapes = shapes@;
        shapes.push(
            Shape::Text {
                class: StyleClass::Resource,
                x: x - 5 * SUBUNITS,
                y: bottom + rd.resource_height / 2,
                label: Label::ResourceName(i),
            },
        );
        shapes.push(
            Shape::Rect {
                class: StyleClass::ResourceClosed(i),
                x: x + 5 * SUBUNITS,
                y: bottom + rd.resource_gutter.top,
                radius: rd.rect_corner_radius,
                width: side,
                height: side,
            },
        );
        proof {
            assert forall|j: int| 0 <= j < i + 1 implies shapes@[2 * j] == legend_name(*rd, j)
                && shapes@[2 * j + 1] == legend_swatch(*rd, j) by {
                if j < i {
                    assert(shapes@[2 * j] == old_shapes[2 * j]);
                    assert(shapes@[2 * j + 1] == old_shapes[2 * j + 1]);
                }
            }
        }
        i = i + 1;
    }
    shapes
}

/// Draws a chart: the canvas is exactly as wide as the gutters, the title
/// column and the month columns together, and as high as the gutters, the
/// rows and, when `add_resource_table` holds, the legend.
pub fn render_chart(add_resource_table: bool, rd: &RenderData) -> (r: Scene)
    requires
        render_wf(*rd),
    ensures
        r.width == canvas_width(*rd),
        r.width == rd.gutter.left + rd.title_width + col_prefix(rd.cols@, rd.cols@.len())
            + rd.gutter.right,
        r.height == canvas_height(*rd, add_resource_table),
        r.title == (Shape::Text {
            class: StyleClass::Title,
            x: rd.gutter.left,
            y: TITLE_Y,
            label: Label::ChartTitle,
        }),
        columns_fit(*rd, r.columns@),
        r.tasks == (Shape::Text {
            class: StyleClass::TaskHeading,
            x: (rd.gutter.left + rd.row_gutter.left) as i64,
            y: heading_y(*rd) as i64,
            label: Label::TasksHeading,
        }),
        rows_fit(*rd, r.rows@),
        match rd.marked_date_offset {
            Some(offset) => r.marker == Some(marker_line(*rd, offset as int)),
            None => r.marker is None,
        },
        legend_fits(*rd, add_resource_table, r.resources@),
{
    let width = chart_width(rd);
    let height = chart_height(rd, add_resource_table);
    let columns = column_shapes(rd);
    let rows = row_shapes(rd, width);
    let tasks = Shape::Text {
        class: StyleClass::TaskHeading,
        x: rd.gutter.left + rd.row_gutter.left,
        y: rd.gutter.top - rd.row_gutter.bottom - rd.row_height / 2,
        label: Label::TasksHeading,
    };
    let title = Shape::Text {
        class: StyleClass::Title,
        x: rd.gutter.left,
        y: TITLE_Y,
        label: Label::ChartTitle,
    };
    proof {
        lemma_body(*rd, 0);
    }
    let marker = match rd.marked_date_offset {
        Some(offset) => Some(
            Shape::Line {
                class: StyleClass::Marker,
                x1: offset,
                y1: rd.gutter.top - 5 * SUBUNITS,
                x2: offset,
                y2: rd.gutter.top + rd.rows.len() as i64 * rd.row_height + 5 * SUBUNITS,
            },
        ),
        None => None,
    };
    let resources = legend_shapes(rd, add_resource_table);
    Scene { width, height, title, columns, tasks, rows, marker, resources }
}

proof fn lemma_col_prefix_sum(cols: Seq<ColumnRenderData>, mmw: int, mi: int, n: nat)
    requires
        n <= cols.len(),
        forall|k: int| 0 <= k < cols.len() ==> column_fits(#[trigger] cols[k], mmw, mi + k),
    ensures
        col_prefix(cols, n) == 2 * mmw * crate::layout::days_sum(mi, n),
    decreases n,
{
    if n > 0 {
        lemma_col_prefix_sum(cols, mmw, mi, (n - 1) as nat);
        assert(column_fits(cols[n - 1], mmw, mi + n - 1));
        let a = crate::layout::days_sum(mi, n);
        let b = crate::layout::days_sum(mi, (n - 1) as nat);
        let c = crate::layout::days_of_index(mi + n - 1);
        assert(a == b + c);
        assert(2 * mmw * a == 2 * mmw * b + 2 * mmw * c) by (nonlinear_arith)
            requires a == b + c;
    }
}

/// A chart laid out from a schedule of at most 2^28 items and resources can
/// be drawn, and its columns together are as wide as its total width.
pub proof fn lemma_layout_renderable(
    rd: RenderData,
    chart: ChartData,
    title_width: int,
    max_month_width: int,
    hue_seed: int,
)
    requires
        0 <= title_width <= 0xFFFF_FFFF,
        0 <= max_month_width <= 0xFFFF_FFFF,
        layout_fits(rd, chart, title_width, max_month_width, hue_seed),
        chart.items@.len() <= 0x1000_0000,
        chart.resources@.len() <= 0x1000_0000,
    ensures
        render_wf(rd),
        col_prefix(rd.cols@, rd.cols@.len()) == rd.total_width,
{
    let mi0 = crate::layout::start_month_index(chart);
    lemma_col_prefix_sum(rd.cols@, max_month_width, mi0, rd.cols@.len());
    crate::layout::lemma_days_sum_nonneg(mi0, rd.cols@.len());
    assert(rd.total_width <= 2 * 0xFFFF_FFFF * (31 * 6_400_000)) by (nonlinear_arith)
        requires
            rd.total_width == 2 * max_month_width * rd.total_days,
            0 <= max_month_width <= 0xFFFF_FFFF,
            0 <= rd.total_days <= 31 * rd.cols@.len(),
            rd.cols@.len() <= 6_400_000,
    {
        assert(max_month_width * rd.total_days <= 0xFFFF_FFFF * (31 * 6_400_000));
    }
    assert forall|i: int| 0 <= i < rd.cols@.len() implies 0 <= (#[trigger] rd.cols@[i]).width by {
        assert(column_fits(rd.cols@[i], max_month_width, mi0 + i));
        assert(0 <= max_month_width * crate::layout::days_of_index(mi0 + i)) by (nonlinear_arith)
            requires 0 <= max_month_width, 0 <= crate::layout::days_of_index(mi0 + i);
    }
    assert(0 <= rd.total_width) by (nonlinear_arith)
        requires rd.total_width == 2 * max_month_width * rd.total_days, 0 <= max_month_width, 0 <= rd.total_days;
    assert(rd.gutter.wf());
    assert(rd.row_gutter.wf());
    assert(rd.resource_gutter.wf());
    assert(0 <= rd.title_width <= 0x100_0000_0000);
    assert(0 <= rd.max_month_width <= 0x100_0000_0000);
    assert(rd.rows@.len() <= 0x1000_0000);
    assert(col_prefix(rd.cols@, rd.cols@.len()) == rd.total_width);
    assert(2 * 0xFFFF_FFFFint * (31 * 6_400_000) <= BOUND);
    assert(col_prefix(rd.cols@, rd.cols@.len()) <= BOUND);
    assert(forall|i: int|
        0 <= i < rd.rows@.len() ==> -BOUND <= (#[trigger] rd.rows@[i]).offset <= BOUND && (
        rd.rows@[i].length is Some ==> -BOUND <= rd.rows@[i].length->0 <= BOUND)) by {
        assert(forall|j: int| 0 <= j < rd.rows@.len() ==> row_bounded(#[trigger] rd.rows@[j]));
    }
}

} // verus!
