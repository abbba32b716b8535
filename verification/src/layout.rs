//! Named plot regions and the axis along which a layout splits.
use vstd::prelude::*;
use crate::theme::ThemeSizes;
use crate::facet::{ceil_div, is_wrap_width, spec_wrap_columns, wrap_columns, wrap_rows};

verus! {

/// Named regions in a plot layout.
#[derive(Debug, Clone, Copy, PartialEq, Eq, Structural, Hash)]
pub enum PlotRegion {
    DataArea,
    XAxisGutter,
    YAxisGutter,
    Title,
    Legend,
    Caption,
    Spacer,
    FacetLabel,
    FacetColLabel,
    FacetRowLabel,
}

/// Axis along which a layout node's children are placed.
#[derive(Debug, Clone, Copy, PartialEq, Eq, Structural)]
pub enum SplitAxis {
    /// Rows: top to bottom.
    Vertical,
    /// Columns: left to right.
    Horizontal,
}

} // verus!

verus! {

/// A region of the plot: shared by the whole plot, or one panel's own.
#[derive(Debug, Clone, Copy, PartialEq, Eq, Structural, Hash)]
pub struct RegionKey {
    pub region: PlotRegion,
    pub panel: Option<usize>,
}

/// The size of a layout child: fixed pixels, or a share of what is left
/// after the fixed children, in proportion to its weight.
#[derive(Debug, Clone, Copy, PartialEq, Eq, Structural)]
pub enum SizeSpec {
    Pixels(u32),
    Flex(u32),
}

/// A node of the layout tree.
pub enum LayoutNode {
    Leaf(RegionKey),
    Split { axis: SplitAxis, children: Vec<(SizeSpec, LayoutNode)> },
}

pub enum SLayoutNode {
    Leaf(RegionKey),
    Split { axis: SplitAxis, children: Seq<(SizeSpec, SLayoutNode)> },
}

/// The mathematical value of a layout tree.
pub open spec fn node_view(n: LayoutNode) -> SLayoutNode
    decreases n,
{
    match n {
        LayoutNode::Leaf(k) => SLayoutNode::Leaf(k),
        LayoutNode::Split { axis, children } => SLayoutNode::Split { axis, children: children_view(children@) },
    }
}

/// The mathematical value of a node's children.
pub open spec fn children_view(cs: Seq<(SizeSpec, LayoutNode)>) -> Seq<(SizeSpec, SLayoutNode)>
    decreases cs,
{
    if cs.len() == 0 {
        seq![]
    } else {
        children_view(cs.drop_last()).push((cs.last().0, node_view(cs.last().1)))
    }
}

} // verus!

verus! {

/// The key of a region shared by the whole plot.
pub open spec fn shared_key(region: PlotRegion) -> RegionKey {
    RegionKey { region, panel: None }
}

/// The key of a panel's own region.
pub open spec fn panel_key(region: PlotRegion, panel: usize) -> RegionKey {
    RegionKey { region, panel: Some(panel) }
}

impl RegionKey {
    /// The key of a region shared by the whole plot.
    pub fn shared(region: PlotRegion) -> (k: Self)
        ensures
            k == shared_key(region),
    {
        RegionKey { region, panel: None }
    }

    /// The key of a panel's own region.
    pub fn panel(region: PlotRegion, panel: usize) -> (k: Self)
        ensures
            k == panel_key(region, panel),
    {
        RegionKey { region, panel: Some(panel) }
    }
}

pub open spec fn sleaf(k: RegionKey) -> SLayoutNode {
    SLayoutNode::Leaf(k)
}

pub open spec fn spacer() -> SLayoutNode {
    SLayoutNode::Leaf(shared_key(PlotRegion::Spacer))
}

pub open spec fn ssplit(axis: SplitAxis, children: Seq<(SizeSpec, SLayoutNode)>) -> SLayoutNode {
    SLayoutNode::Split { axis, children }
}

/// A column of a region over a fixed-height spacer.
pub open spec fn over_spacer(top: RegionKey, spacer_px: u32) -> SLayoutNode {
    ssplit(SplitAxis::Vertical, seq![(SizeSpec::Flex(1), sleaf(top)), (SizeSpec::Pixels(spacer_px), spacer())])
}

/// The spacer and legend column that close a row of columns when the plot
/// has a legend.
pub open spec fn legend_cells(s: ThemeSizes) -> Seq<(SizeSpec, SLayoutNode)> {
    seq![
        (SizeSpec::Pixels(s.legend_margin), spacer()),
        (SizeSpec::Pixels(s.legend_width), over_spacer(shared_key(PlotRegion::Legend), s.x_gutter_height)),
    ]
}

/// The title above and the caption below the main area, where the plot has them.
pub open spec fn framed(main: SLayoutNode, has_title: bool, has_caption: bool, s: ThemeSizes) -> SLayoutNode {
    let top: Seq<(SizeSpec, SLayoutNode)> = if has_title {
        seq![(SizeSpec::Pixels(s.title_height), sleaf(shared_key(PlotRegion::Title)))]
    } else {
        seq![]
    };
    let bottom: Seq<(SizeSpec, SLayoutNode)> = if has_caption {
        seq![(SizeSpec::Pixels(s.caption_height), sleaf(shared_key(PlotRegion::Caption)))]
    } else {
        seq![]
    };
    ssplit(SplitAxis::Vertical, top + seq![(SizeSpec::Flex(1), main)] + bottom)
}

/// The layout of a plot without facets: the y-axis gutter left of the data
/// area, the x-axis gutter under it, the legend at the right where there is
/// one, and the title and caption above and below.
pub open spec fn spec_standard_layout(has_title: bool, has_caption: bool, has_legend: bool, s: ThemeSizes) -> SLayoutNode {
    let columns = seq![
        (SizeSpec::Pixels(s.y_gutter_width), over_spacer(shared_key(PlotRegion::YAxisGutter), s.x_gutter_height)),
        (SizeSpec::Flex(1), ssplit(SplitAxis::Vertical, seq![
            (SizeSpec::Flex(1), sleaf(shared_key(PlotRegion::DataArea))),
            (SizeSpec::Pixels(s.x_gutter_height), sleaf(shared_key(PlotRegion::XAxisGutter))),
        ])),
    ];
    let all = if has_legend { columns + legend_cells(s) } else { columns };
    framed(ssplit(SplitAxis::Horizontal, all), has_title, has_caption, s)
}

// ---------------------------------------------------------------------------
// Building trees

fn leaf(k: RegionKey) -> (r: LayoutNode)
    ensures
        node_view(r) == sleaf(k),
{
    LayoutNode::Leaf(k)
}

fn spacer_leaf() -> (r: LayoutNode)
    ensures
        node_view(r) == spacer(),
{
    LayoutNode::Leaf(RegionKey::shared(PlotRegion::Spacer))
}

fn split(axis: SplitAxis, children: Vec<(SizeSpec, LayoutNode)>) -> (r: LayoutNode)
    ensures
        node_view(r) == ssplit(axis, children_view(children@)),
{
    LayoutNode::Split { axis, children }
}

fn no_children() -> (r: Vec<(SizeSpec, LayoutNode)>)
    ensures
        children_view(r@) == Seq::<(SizeSpec, SLayoutNode)>::empty(),
{
    Vec::new()
}

fn push_child(v: &mut Vec<(SizeSpec, LayoutNode)>, size: SizeSpec, node: LayoutNode)
    ensures
        children_view(final(v)@) == children_view(old(v)@).push((size, node_view(node))),
{
    let ghost before = v@;
    v.push((size, node));
    assert(v@.drop_last() =~= before);
}

fn over_spacer_node(top: RegionKey, spacer_px: u32) -> (r: LayoutNode)
    ensures
        node_view(r) == over_spacer(top, spacer_px),
{
    let mut c = no_children();
    push_child(&mut c, SizeSpec::Flex(1), leaf(top));
    push_child(&mut c, SizeSpec::Pixels(spacer_px), spacer_leaf());
    assert(children_view(c@) =~= seq![(SizeSpec::Flex(1), sleaf(top)), (SizeSpec::Pixels(spacer_px), spacer())]);
    split(SplitAxis::Vertical, c)
}

fn push_legend_cells(v: &mut Vec<(SizeSpec, LayoutNode)>, s: &ThemeSizes)
    ensures
        children_view(final(v)@) == children_view(old(v)@) + legend_cells(*s),
{
    let ghost before = children_view(v@);
    push_child(v, SizeSpec::Pixels(s.legend_margin), spacer_leaf());
    push_child(v, SizeSpec::Pixels(s.legend_width), over_spacer_node(RegionKey::shared(PlotRegion::Legend), s.x_gutter_height));
    assert(children_view(v@) =~= before + legend_cells(*s));
}

fn framed_node(main: LayoutNode, has_title: bool, has_caption: bool, s: &ThemeSizes) -> (r: LayoutNode)
    ensures
        node_view(r) == framed(node_view(main), has_title, has_caption, *s),
{
    let ghost mv = node_view(main);
    let mut rows = no_children();
    if has_title {
        push_child(&mut rows, SizeSpec::Pixels(s.title_height), leaf(RegionKey::shared(PlotRegion::Title)));
    }
    push_child(&mut rows, SizeSpec::Flex(1), main);
    if has_caption {
        push_child(&mut rows, SizeSpec::Pixels(s.caption_height), leaf(RegionKey::shared(PlotRegion::Caption)));
    }
    let ghost top: Seq<(SizeSpec, SLayoutNode)> = if has_title {
        seq![(SizeSpec::Pixels(s.title_height), sleaf(shared_key(PlotRegion::Title)))]
    } else {
        seq![]
    };
    let ghost bottom: Seq<(SizeSpec, SLayoutNode)> = if has_caption {
        seq![(SizeSpec::Pixels(s.caption_height), sleaf(shared_key(PlotRegion::Caption)))]
    } else {
        seq![]
    };
    assert(children_view(rows@) =~= top + seq![(SizeSpec::Flex(1), mv)] + bottom);
    split(SplitAxis::Vertical, rows)
}

/// The layout of a plot without facets (see `spec_standard_layout`).
pub fn standard_plot_layout(has_title: bool, has_caption: bool, has_legend: bool, s: &ThemeSizes) -> (r: LayoutNode)
    ensures
        node_view(r) == spec_standard_layout(has_title, has_caption, has_legend, *s),
{
    let mut data = no_children();
    push_child(&mut data, SizeSpec::Flex(1), leaf(RegionKey::shared(PlotRegion::DataArea)));
    push_child(&mut data, SizeSpec::Pixels(s.x_gutter_height), leaf(RegionKey::shared(PlotRegion::XAxisGutter)));
    let ghost data_cells = seq![
        (SizeSpec::Flex(1), sleaf(shared_key(PlotRegion::DataArea))),
        (SizeSpec::Pixels(s.x_gutter_height), sleaf(shared_key(PlotRegion::XAxisGutter))),
    ];
    assert(children_view(data@) =~= data_cells);
    let mut columns = no_children();
    push_child(&mut columns, SizeSpec::Pixels(s.y_gutter_width), over_spacer_node(RegionKey::shared(PlotRegion::YAxisGutter), s.x_gutter_height));
    push_child(&mut columns, SizeSpec::Flex(1), split(SplitAxis::Vertical, data));
    let ghost base = seq![
        (SizeSpec::Pixels(s.y_gutter_width), over_spacer(shared_key(PlotRegion::YAxisGutter), s.x_gutter_height)),
        (SizeSpec::Flex(1), ssplit(SplitAxis::Vertical, data_cells)),
    ];
    assert(children_view(columns@) =~= base);
    if has_legend {
        push_legend_cells(&mut columns, s);
    }
    framed_node(split(SplitAxis::Horizontal, columns), has_title, has_caption, s)
}

} // verus!

verus! {

// ---------------------------------------------------------------------------
// Faceted layouts

/// A y-axis gutter between a facet-label-high spacer and an x-gutter-high one.
pub open spec fn y_gutter_strip(key: RegionKey, s: ThemeSizes) -> SLayoutNode {
    ssplit(SplitAxis::Vertical, seq![
        (SizeSpec::Pixels(s.facet_label_height), spacer()),
        (SizeSpec::Flex(1), sleaf(key)),
        (SizeSpec::Pixels(s.x_gutter_height), spacer()),
    ])
}

/// A wrapped panel: its label, data area and x-axis gutter from top to
/// bottom, with its own y-axis gutter at the left when y scales are free.
pub open spec fn wrap_panel(p: usize, y_free: bool, s: ThemeSizes) -> SLayoutNode {
    let content = ssplit(SplitAxis::Vertical, seq![
        (SizeSpec::Pixels(s.facet_label_height), sleaf(panel_key(PlotRegion::FacetLabel, p))),
        (SizeSpec::Flex(1), sleaf(panel_key(PlotRegion::DataArea, p))),
        (SizeSpec::Pixels(s.x_gutter_height), sleaf(panel_key(PlotRegion::XAxisGutter, p))),
    ]);
    if y_free {
        ssplit(SplitAxis::Horizontal, seq![
            (SizeSpec::Pixels(s.y_gutter_width), y_gutter_strip(panel_key(PlotRegion::YAxisGutter, p), s)),
            (SizeSpec::Flex(1), content),
        ])
    } else {
        content
    }
}

/// The first `k` columns of a row of wrapped panels: the row's shared
/// y-axis gutter first (unless y scales are free), gaps between columns,
/// and a spacer where the row has no panel left.
pub open spec fn wrap_row_cells(row: int, ncols: int, n: int, y_free: bool, s: ThemeSizes, k: nat) -> Seq<(SizeSpec, SLayoutNode)>
    decreases k,
{
    if k == 0 {
        if y_free {
            seq![]
        } else {
            seq![(SizeSpec::Pixels(s.y_gutter_width), y_gutter_strip(panel_key(PlotRegion::YAxisGutter, row as usize), s))]
        }
    } else {
        let col = k - 1;
        let gap: Seq<(SizeSpec, SLayoutNode)> = if col > 0 { seq![(SizeSpec::Pixels(s.facet_gap), spacer())] } else { seq![] };
        let p = row * ncols + col;
        let cell = if p >= n { (SizeSpec::Flex(1), spacer()) } else { (SizeSpec::Flex(1), wrap_panel(p as usize, y_free, s)) };
        wrap_row_cells(row, ncols, n, y_free, s, (k - 1) as nat) + gap + seq![cell]
    }
}

/// The first `k` rows of wrapped panels.
pub open spec fn wrap_grid_rows(ncols: int, n: int, y_free: bool, s: ThemeSizes, k: nat) -> Seq<(SizeSpec, SLayoutNode)>
    decreases k,
{
    if k == 0 {
        seq![]
    } else {
        wrap_grid_rows(ncols, n, y_free, s, (k - 1) as nat).push(
            (SizeSpec::Flex(1), ssplit(SplitAxis::Horizontal, wrap_row_cells(k - 1, ncols, n, y_free, s, ncols as nat))),
        )
    }
}

/// What surrounds the panels of a faceted plot: the shared y-axis label
/// column at the left, the shared x-axis label under the panels, the legend
/// at the right where there is one, and the title and caption.
pub open spec fn facet_frame(panels: SLayoutNode, has_title: bool, has_caption: bool, has_legend: bool, s: ThemeSizes) -> SLayoutNode {
    let with_x_label = ssplit(SplitAxis::Vertical, seq![
        (SizeSpec::Flex(1), panels),
        (SizeSpec::Pixels(s.x_gutter_height), sleaf(shared_key(PlotRegion::XAxisGutter))),
    ]);
    let columns = seq![
        (SizeSpec::Pixels(s.y_axis_label_width), over_spacer(shared_key(PlotRegion::YAxisGutter), s.x_gutter_height)),
        (SizeSpec::Flex(1), with_x_label),
    ];
    framed(ssplit(SplitAxis::Horizontal, if has_legend { columns + legend_cells(s) } else { columns }), has_title, has_caption, s)
}

/// The layout of a wrapped facet of `num_panels` panels: rows of
/// `spec_wrap_columns` panels each, as many rows as they need.
pub open spec fn spec_wrap_layout(num_panels: int, columns: Option<u32>, has_title: bool, has_caption: bool, has_legend: bool, y_free: bool, s: ThemeSizes) -> SLayoutNode {
    let ncols = spec_wrap_columns(num_panels, columns);
    let nrows = ceil_div(num_panels, ncols);
    facet_frame(ssplit(SplitAxis::Vertical, wrap_grid_rows(ncols, num_panels, y_free, s, nrows as nat)), has_title, has_caption, has_legend, s)
}

fn y_gutter_strip_node(key: RegionKey, s: &ThemeSizes) -> (r: LayoutNode)
    ensures
        node_view(r) == y_gutter_strip(key, *s),
{
    let mut c = no_children();
    push_child(&mut c, SizeSpec::Pixels(s.facet_label_height), spacer_leaf());
    push_child(&mut c, SizeSpec::Flex(1), leaf(key));
    push_child(&mut c, SizeSpec::Pixels(s.x_gutter_height), spacer_leaf());
    assert(children_view(c@) =~= seq![
        (SizeSpec::Pixels(s.facet_label_height), spacer()),
        (SizeSpec::Flex(1), sleaf(key)),
        (SizeSpec::Pixels(s.x_gutter_height), spacer()),
    ]);
    split(SplitAxis::Vertical, c)
}

fn wrap_panel_node(p: usize, y_free: bool, s: &ThemeSizes) -> (r: LayoutNode)
    ensures
        node_view(r) == wrap_panel(p, y_free, *s),
{
    let mut c = no_children();
    push_child(&mut c, SizeSpec::Pixels(s.facet_label_height), leaf(RegionKey::panel(PlotRegion::FacetLabel, p)));
    push_child(&mut c, SizeSpec::Flex(1), leaf(RegionKey::panel(PlotRegion::DataArea, p)));
    push_child(&mut c, SizeSpec::Pixels(s.x_gutter_height), leaf(RegionKey::panel(PlotRegion::XAxisGutter, p)));
    let ghost cells = seq![
        (SizeSpec::Pixels(s.facet_label_height), sleaf(panel_key(PlotRegion::FacetLabel, p))),
        (SizeSpec::Flex(1), sleaf(panel_key(PlotRegion::DataArea, p))),
        (SizeSpec::Pixels(s.x_gutter_height), sleaf(panel_key(PlotRegion::XAxisGutter, p))),
    ];
    assert(children_view(c@) =~= cells);
    let content = split(SplitAxis::Vertical, c);
    if y_free {
        let mut h = no_children();
        push_child(&mut h, SizeSpec::Pixels(s.y_gutter_width), y_gutter_strip_node(RegionKey::panel(PlotRegion::YAxisGutter, p), s));
        push_child(&mut h, SizeSpec::Flex(1), content);
        assert(children_view(h@) =~= seq![
            (SizeSpec::Pixels(s.y_gutter_width), y_gutter_strip(panel_key(PlotRegion::YAxisGutter, p), *s)),
            (SizeSpec::Flex(1), ssplit(SplitAxis::Vertical, cells)),
        ]);
        split(SplitAxis::Horizontal, h)
    } else {
        content
    }
}

fn wrap_row_node(row: usize, ncols: usize, n: usize, y_free: bool, s: &ThemeSizes) -> (r: LayoutNode)
    requires
        row * ncols < n,
    ensures
        node_view(r) == ssplit(SplitAxis::Horizontal, wrap_row_cells(row as int, ncols as int, n as int, y_free, *s, ncols as nat)),
{
    let start = row * ncols;
    let mut cells = no_children();
    if !y_free {
        push_child(&mut cells, SizeSpec::Pixels(s.y_gutter_width), y_gutter_strip_node(RegionKey::panel(PlotRegion::YAxisGutter, row), s));
    }
    assert(children_view(cells@) =~= wrap_row_cells(row as int, ncols as int, n as int, y_free, *s, 0));
    let mut col: usize = 0;
    while col < ncols
        invariant
            col <= ncols,
            start == row * ncols,
            start < n,
            children_view(cells@) == wrap_row_cells(row as int, ncols as int, n as int, y_free, *s, col as nat),
        decreases ncols - col,
    {
        let ghost before = children_view(cells@);
        if col > 0 {
            push_child(&mut cells, SizeSpec::Pixels(s.facet_gap), spacer_leaf());
        }
        let ghost gap: Seq<(SizeSpec, SLayoutNode)> = if col > 0 { seq![(SizeSpec::Pixels(s.facet_gap), spacer())] } else { seq![] };
        assert(children_view(cells@) =~= before + gap);
        if col >= n - start {
            push_child(&mut cells, SizeSpec::Flex(1), spacer_leaf());
        } else {
            push_child(&mut cells, SizeSpec::Flex(1), wrap_panel_node(start + col, y_free, s));
        }
        assert(children_view(cells@) =~= wrap_row_cells(row as int, ncols as int, n as int, y_free, *s, (col + 1) as nat));
        col = col + 1;
    }
    split(SplitAxis::Horizontal, cells)
}

fn facet_frame_node(panels: LayoutNode, has_title: bool, has_caption: bool, has_legend: bool, s: &ThemeSizes) -> (r: LayoutNode)
    ensures
        node_view(r) == facet_frame(node_view(panels), has_title, has_caption, has_legend, *s),
{
    let ghost pv = node_view(panels);
    let mut xl = no_children();
    push_child(&mut xl, SizeSpec::Flex(1), panels);
    push_child(&mut xl, SizeSpec::Pixels(s.x_gutter_height), leaf(RegionKey::shared(PlotRegion::XAxisGutter)));
    let ghost xl_cells = seq![
        (SizeSpec::Flex(1), pv),
        (SizeSpec::Pixels(s.x_gutter_height), sleaf(shared_key(PlotRegion::XAxisGutter))),
    ];
    assert(children_view(xl@) =~= xl_cells);
    let mut columns = no_children();
    push_child(&mut columns, SizeSpec::Pixels(s.y_axis_label_width), over_spacer_node(RegionKey::shared(PlotRegion::YAxisGutter), s.x_gutter_height));
    push_child(&mut columns, SizeSpec::Flex(1), split(SplitAxis::Vertical, xl));
    assert(children_view(columns@) =~= seq![
        (SizeSpec::Pixels(s.y_axis_label_width), over_spacer(shared_key(PlotRegion::YAxisGutter), s.x_gutter_height)),
        (SizeSpec::Flex(1), ssplit(SplitAxis::Vertical, xl_cells)),
    ]);
    if has_legend {
        push_legend_cells(&mut columns, s);
    }
    framed_node(split(SplitAxis::Horizontal, columns), has_title, has_caption, s)
}

/// The layout of a wrapped facet (see `spec_wrap_layout`).
pub fn faceted_wrap_layout(
    num_panels: usize,
    facet_columns: Option<u32>,
    has_title: bool,
    has_caption: bool,
    has_legend: bool,
    y_free: bool,
    s: &ThemeSizes,
) -> (r: LayoutNode)
    ensures
        node_view(r) == spec_wrap_layout(num_panels as int, facet_columns, has_title, has_caption, has_legend, y_free, *s),
{
    let ncols = wrap_columns(num_panels, facet_columns);
    let nrows = wrap_rows(num_panels, ncols);
    let mut rows = no_children();
    let mut row: usize = 0;
    while row < nrows
        invariant
            row <= nrows,
            ncols >= 1,
            ncols as int == spec_wrap_columns(num_panels as int, facet_columns),
            nrows == 0 || (nrows - 1) * ncols < num_panels,
            children_view(rows@) == wrap_grid_rows(ncols as int, num_panels as int, y_free, *s, row as nat),
        decreases nrows - row,
    {
        assert(row * ncols < num_panels) by (nonlinear_arith)
            requires
                row < nrows,
                (nrows - 1) * ncols < num_panels,
                ncols >= 1,
        ;
        push_child(&mut rows, SizeSpec::Flex(1), wrap_row_node(row, ncols, num_panels, y_free, s));
        row = row + 1;
    }
    facet_frame_node(split(SplitAxis::Vertical, rows), has_title, has_caption, has_legend, s)
}

} // verus!

verus! {

/// A gap before every column but the first.
pub open spec fn gap_before(col: int, s: ThemeSizes) -> Seq<(SizeSpec, SLayoutNode)> {
    if col > 0 { seq![(SizeSpec::Pixels(s.facet_gap), spacer())] } else { seq![] }
}

/// The first `k` cells of a facet grid's label row: a spacer as wide as the
/// y-axis gutters, then each column's label.
pub open spec fn grid_label_cells(s: ThemeSizes, k: nat) -> Seq<(SizeSpec, SLayoutNode)>
    decreases k,
{
    if k == 0 {
        seq![(SizeSpec::Pixels(s.y_gutter_width), spacer())]
    } else {
        grid_label_cells(s, (k - 1) as nat) + gap_before(k - 1, s)
            + seq![(SizeSpec::Flex(1), sleaf(panel_key(PlotRegion::FacetColLabel, (k - 1) as usize)))]
    }
}

/// The first `k` cells of row `ri` of a facet grid: the row's y-axis gutter,
/// then each panel's data area over its x-axis gutter.
pub open spec fn grid_row_cells(ri: int, ncols: int, s: ThemeSizes, k: nat) -> Seq<(SizeSpec, SLayoutNode)>
    decreases k,
{
    if k == 0 {
        seq![(SizeSpec::Pixels(s.y_gutter_width), over_spacer(panel_key(PlotRegion::YAxisGutter, ri as usize), s.x_gutter_height))]
    } else {
        let p = (ri * ncols + (k - 1)) as usize;
        grid_row_cells(ri, ncols, s, (k - 1) as nat) + gap_before(k - 1, s) + seq![(SizeSpec::Flex(1), ssplit(SplitAxis::Vertical, seq![
            (SizeSpec::Flex(1), sleaf(panel_key(PlotRegion::DataArea, p))),
            (SizeSpec::Pixels(s.x_gutter_height), sleaf(panel_key(PlotRegion::XAxisGutter, p))),
        ]))]
    }
}

/// The label row and the first `k` panel rows of a facet grid; each row
/// ends with its row label (the label row with a spacer).
pub open spec fn grid_body_rows(ncols: int, s: ThemeSizes, k: nat) -> Seq<(SizeSpec, SLayoutNode)>
    decreases k,
{
    if k == 0 {
        seq![(SizeSpec::Pixels(s.facet_label_height), ssplit(SplitAxis::Horizontal,
            grid_label_cells(s, ncols as nat).push((SizeSpec::Pixels(s.facet_row_label_width), spacer()))))]
    } else {
        grid_body_rows(ncols, s, (k - 1) as nat).push((SizeSpec::Flex(1), ssplit(SplitAxis::Horizontal,
            grid_row_cells(k - 1, ncols, s, ncols as nat).push((SizeSpec::Pixels(s.facet_row_label_width),
                over_spacer(panel_key(PlotRegion::FacetRowLabel, (k - 1) as usize), s.x_gutter_height))))))
    }
}

/// The layout of a facet grid of `num_rows` by `num_cols` panels, panel
/// `ri * num_cols + ci` at row `ri` and column `ci`.
pub open spec fn spec_grid_layout(num_rows: int, num_cols: int, has_title: bool, has_caption: bool, has_legend: bool, s: ThemeSizes) -> SLayoutNode {
    facet_frame(ssplit(SplitAxis::Vertical, grid_body_rows(num_cols, s, num_rows as nat)), has_title, has_caption, has_legend, s)
}

fn grid_label_row(num_cols: usize, s: &ThemeSizes) -> (r: LayoutNode)
    ensures
        node_view(r) == ssplit(SplitAxis::Horizontal,
            grid_label_cells(*s, num_cols as nat).push((SizeSpec::Pixels(s.facet_row_label_width), spacer()))),
{
    let mut cells = no_children();
    push_child(&mut cells, SizeSpec::Pixels(s.y_gutter_width), spacer_leaf());
    assert(children_view(cells@) =~= grid_label_cells(*s, 0));
    let mut ci: usize = 0;
    while ci < num_cols
        invariant
            ci <= num_cols,
            children_view(cells@) == grid_label_cells(*s, ci as nat),
        decreases num_cols - ci,
    {
        let ghost before = children_view(cells@);
        if ci > 0 {
            push_child(&mut cells, SizeSpec::Pixels(s.facet_gap), spacer_leaf());
        }
        assert(children_view(cells@) =~= before + gap_before(ci as int, *s));
        push_child(&mut cells, SizeSpec::Flex(1), leaf(RegionKey::panel(PlotRegion::FacetColLabel, ci)));
        assert(children_view(cells@) =~= grid_label_cells(*s, (ci + 1) as nat));
        ci = ci + 1;
    }
    push_child(&mut cells, SizeSpec::Pixels(s.facet_row_label_width), spacer_leaf());
    split(SplitAxis::Horizontal, cells)
}

fn grid_panel_row(ri: usize, num_cols: usize, s: &ThemeSizes) -> (r: LayoutNode)
    requires
        (ri + 1) * num_cols <= usize::MAX,
    ensures
        node_view(r) == ssplit(SplitAxis::Horizontal,
            grid_row_cells(ri as int, num_cols as int, *s, num_cols as nat).push((SizeSpec::Pixels(s.facet_row_label_width),
                over_spacer(panel_key(PlotRegion::FacetRowLabel, ri), s.x_gutter_height)))),
{
    let mut cells = no_children();
    push_child(&mut cells, SizeSpec::Pixels(s.y_gutter_width), over_spacer_node(RegionKey::panel(PlotRegion::YAxisGutter, ri), s.x_gutter_height));
    assert(children_view(cells@) =~= grid_row_cells(ri as int, num_cols as int, *s, 0));
    assert(ri * num_cols + num_cols <= usize::MAX) by (nonlinear_arith)
        requires
            (ri + 1) * num_cols <= usize::MAX,
    ;
    let start = ri * num_cols;
    let mut ci: usize = 0;
    while ci < num_cols
        invariant
            ci <= num_cols,
            start == ri * num_cols,
            start + num_cols <= usize::MAX,
            children_view(cells@) == grid_row_cells(ri as int, num_cols as int, *s, ci as nat),
        decreases num_cols - ci,
    {
        let ghost before = children_view(cells@);
        if ci > 0 {
            push_child(&mut cells, SizeSpec::Pixels(s.facet_gap), spacer_leaf());
        }
        assert(children_view(cells@) =~= before + gap_before(ci as int, *s));
        let p = start + ci;
        let mut panel = no_children();
        push_child(&mut panel, SizeSpec::Flex(1), leaf(RegionKey::panel(PlotRegion::DataArea, p)));
        push_child(&mut panel, SizeSpec::Pixels(s.x_gutter_height), leaf(RegionKey::panel(PlotRegion::XAxisGutter, p)));
        assert(children_view(panel@) =~= seq![
            (SizeSpec::Flex(1), sleaf(panel_key(PlotRegion::DataArea, p))),
            (SizeSpec::Pixels(s.x_gutter_height), sleaf(panel_key(PlotRegion::XAxisGutter, p))),
        ]);
        push_child(&mut cells, SizeSpec::Flex(1), split(SplitAxis::Vertical, panel));
        assert(children_view(cells@) =~= grid_row_cells(ri as int, num_cols as int, *s, (ci + 1) as nat));
        ci = ci + 1;
    }
    push_child(&mut cells, SizeSpec::Pixels(s.facet_row_label_width), over_spacer_node(RegionKey::panel(PlotRegion::FacetRowLabel, ri), s.x_gutter_height));
    split(SplitAxis::Horizontal, cells)
}

/// The layout of a facet grid (see `spec_grid_layout`).
pub fn faceted_grid_layout(
    num_row_values: usize,
    num_col_values: usize,
    has_title: bool,
    has_caption: bool,
    has_legend: bool,
    s: &ThemeSizes,
) -> (r: LayoutNode)
    requires
        num_row_values * num_col_values <= usize::MAX,
    ensures
        node_view(r) == spec_grid_layout(num_row_values as int, num_col_values as int, has_title, has_caption, has_legend, *s),
{
    let mut rows = no_children();
    push_child(&mut rows, SizeSpec::Pixels(s.facet_label_height), grid_label_row(num_col_values, s));
    assert(children_view(rows@) =~= grid_body_rows(num_col_values as int, *s, 0));
    let mut ri: usize = 0;
    while ri < num_row_values
        invariant
            ri <= num_row_values,
            num_row_values * num_col_values <= usize::MAX,
            children_view(rows@) == grid_body_rows(num_col_values as int, *s, ri as nat),
        decreases num_row_values - ri,
    {
        assert((ri + 1) * num_col_values <= num_row_values * num_col_values) by (nonlinear_arith)
            requires
                ri < num_row_values,
        ;
        push_child(&mut rows, SizeSpec::Flex(1), grid_panel_row(ri, num_col_values, s));
        ri = ri + 1;
    }
    facet_frame_node(split(SplitAxis::Vertical, rows), has_title, has_caption, has_legend, s)
}

} // verus!

verus! {

// ---------------------------------------------------------------------------
// The regions a layout places

/// The regions that a layout places, in order: every leaf but spacers.
pub open spec fn placed(n: SLayoutNode) -> Seq<RegionKey>
    decreases n,
{
    match n {
        SLayoutNode::Leaf(k) => if k.region == PlotRegion::Spacer { seq![] } else { seq![k] },
        SLayoutNode::Split { children, .. } => placed_children(children),
    }
}

pub open spec fn placed_children(cs: Seq<(SizeSpec, SLayoutNode)>) -> Seq<RegionKey>
    decreases cs,
{
    if cs.len() == 0 {
        seq![]
    } else {
        placed_children(cs.drop_last()) + placed(cs.last().1)
    }
}

#[verifier::loop_isolation(false)]
fn collect_regions(node: &LayoutNode, out: &mut Vec<RegionKey>)
    ensures
        final(out)@ == old(out)@ + placed(node_view(*node)),
    decreases node,
{
    match node {
        LayoutNode::Leaf(k) => {
            if k.region != PlotRegion::Spacer {
                out.push(*k);
            } else {
                assert(old(out)@ + placed(node_view(*node)) =~= old(out)@);
            }
        },
        LayoutNode::Split { children, .. } => {
            let ghost start = out@;
            let mut i: usize = 0;
            assert(children@.take(0) =~= Seq::<(SizeSpec, LayoutNode)>::empty());
            assert(start + placed_children(children_view(children@.take(0))) =~= start);
            while i < children.len()
                invariant
                    i <= children.len(),
                    out@ == start + placed_children(children_view(children@.take(i as int))),
                decreases children.len() - i,
            {
                let ghost before = out@;
                let ghost pre = children@.take(i as int);
                let ghost nxt = children@.take(i as int + 1);
                assert(nxt.drop_last() =~= pre);
                assert(nxt.last() == children@[i as int]);
                let ghost cv = children_view(nxt);
                assert(cv == children_view(pre).push((children@[i as int].0, node_view(children@[i as int].1))));
                assert(cv.drop_last() =~= children_view(pre));
                assert(placed_children(cv) == placed_children(children_view(pre)) + placed(node_view(children@[i as int].1)));
                collect_regions(&children[i].1, out);
                assert(out@ =~= start + placed_children(children_view(children@.take(i as int + 1))));
                i = i + 1;
            }
            assert(children@.take(i as int) =~= children@);
        },
    }
}

impl LayoutNode {
    /// The regions that this layout places (see `placed`): the regions that
    /// get a place in the window when the layout is resolved.
    pub fn regions(&self) -> (r: Vec<RegionKey>)
        ensures
            r@ == placed(node_view(*self)),
    {
        let mut out: Vec<RegionKey> = Vec::new();
        collect_regions(self, &mut out);
        assert(out@ =~= placed(node_view(*self)));
        out
    }
}

} // verus!

verus! {

// ---------------------------------------------------------------------------
// Laws: what the layouts place

proof fn lemma_placed_children_has(cs: Seq<(SizeSpec, SLayoutNode)>, i: int, k: RegionKey)
    requires
        0 <= i < cs.len(),
        placed(cs[i].1).contains(k),
    ensures
        placed_children(cs).contains(k),
    decreases cs.len(),
{
    let init = cs.drop_last();
    let tail = placed(cs.last().1);
    if i == cs.len() - 1 {
        let j = choose|j: int| 0 <= j < tail.len() && tail[j] == k;
        assert((placed_children(init) + tail)[placed_children(init).len() + j] == k);
    } else {
        assert(init[i] == cs[i]);
        lemma_placed_children_has(init, i, k);
        let j = choose|j: int| 0 <= j < placed_children(init).len() && placed_children(init)[j] == k;
        assert((placed_children(init) + tail)[j] == k);
    }
}

proof fn lemma_split_has(axis: SplitAxis, cs: Seq<(SizeSpec, SLayoutNode)>, i: int, k: RegionKey)
    requires
        0 <= i < cs.len(),
        placed(cs[i].1).contains(k),
    ensures
        placed(ssplit(axis, cs)).contains(k),
{
    lemma_placed_children_has(cs, i, k);
}

proof fn lemma_leaf_has(k: RegionKey)
    requires
        k.region != PlotRegion::Spacer,
    ensures
        placed(sleaf(k)).contains(k),
{
    assert(placed(sleaf(k))[0] == k);
}

proof fn lemma_wrap_panel_has(p: usize, y_free: bool, s: ThemeSizes)
    ensures
        placed(wrap_panel(p, y_free, s)).contains(panel_key(PlotRegion::DataArea, p)),
        placed(wrap_panel(p, y_free, s)).contains(panel_key(PlotRegion::FacetLabel, p)),
        placed(wrap_panel(p, y_free, s)).contains(panel_key(PlotRegion::XAxisGutter, p)),
{
    let cells = seq![
        (SizeSpec::Pixels(s.facet_label_height), sleaf(panel_key(PlotRegion::FacetLabel, p))),
        (SizeSpec::Flex(1), sleaf(panel_key(PlotRegion::DataArea, p))),
        (SizeSpec::Pixels(s.x_gutter_height), sleaf(panel_key(PlotRegion::XAxisGutter, p))),
    ];
    let content = ssplit(SplitAxis::Vertical, cells);
    let keys = seq![
        panel_key(PlotRegion::FacetLabel, p),
        panel_key(PlotRegion::DataArea, p),
        panel_key(PlotRegion::XAxisGutter, p),
    ];
    assert forall|j: int| 0 <= j < 3 implies #[trigger] placed(content).contains(keys[j]) by {
        lemma_leaf_has(keys[j]);
        assert(cells[j].1 == sleaf(keys[j]));
        lemma_split_has(SplitAxis::Vertical, cells, j, keys[j]);
    }
    if y_free {
        let outer = seq![
            (SizeSpec::Pixels(s.y_gutter_width), y_gutter_strip(panel_key(PlotRegion::YAxisGutter, p), s)),
            (SizeSpec::Flex(1), content),
        ];
        assert forall|j: int| 0 <= j < 3 implies #[trigger] placed(wrap_panel(p, y_free, s)).contains(keys[j]) by {
            assert(placed(content).contains(keys[j]));
            lemma_split_has(SplitAxis::Horizontal, outer, 1, keys[j]);
        }
    }
    assert(placed(wrap_panel(p, y_free, s)).contains(keys[0]));
    assert(placed(wrap_panel(p, y_free, s)).contains(keys[1]));
    assert(placed(wrap_panel(p, y_free, s)).contains(keys[2]));
}

proof fn lemma_row_cells_have(row: int, ncols: int, n: int, y_free: bool, s: ThemeSizes, col: int, k: nat)
    requires
        0 <= col < k,
        0 <= row * ncols + col < n,
    ensures
        exists|i: int| 0 <= i < wrap_row_cells(row, ncols, n, y_free, s, k).len()
            && (#[trigger] wrap_row_cells(row, ncols, n, y_free, s, k)[i]).1 == wrap_panel((row * ncols + col) as usize, y_free, s),
    decreases k,
{
    let cells = wrap_row_cells(row, ncols, n, y_free, s, k);
    let prev = wrap_row_cells(row, ncols, n, y_free, s, (k - 1) as nat);
    let gap: Seq<(SizeSpec, SLayoutNode)> = if k - 1 > 0 { seq![(SizeSpec::Pixels(s.facet_gap), spacer())] } else { seq![] };
    if col == k - 1 {
        assert(cells[cells.len() - 1].1 == wrap_panel((row * ncols + col) as usize, y_free, s));
    } else {
        lemma_row_cells_have(row, ncols, n, y_free, s, col, (k - 1) as nat);
        let i = choose|i: int| 0 <= i < prev.len() && (#[trigger] prev[i]).1 == wrap_panel((row * ncols + col) as usize, y_free, s);
        assert(cells[i] == prev[i]);
    }
}

proof fn lemma_grid_rows_have(ncols: int, n: int, y_free: bool, s: ThemeSizes, row: int, k: nat)
    requires
        0 <= row < k,
    ensures
        row < wrap_grid_rows(ncols, n, y_free, s, k).len(),
        wrap_grid_rows(ncols, n, y_free, s, k)[row].1 == ssplit(SplitAxis::Horizontal, wrap_row_cells(row, ncols, n, y_free, s, ncols as nat)),
    decreases k,
{
    lemma_grid_rows_len(ncols, n, y_free, s, k);
    if row < k - 1 {
        lemma_grid_rows_have(ncols, n, y_free, s, row, (k - 1) as nat);
        lemma_grid_rows_len(ncols, n, y_free, s, (k - 1) as nat);
    }
}

proof fn lemma_grid_rows_len(ncols: int, n: int, y_free: bool, s: ThemeSizes, k: nat)
    ensures
        wrap_grid_rows(ncols, n, y_free, s, k).len() == k,
    decreases k,
{
    if k > 0 {
        lemma_grid_rows_len(ncols, n, y_free, s, (k - 1) as nat);
    }
}

proof fn lemma_framed_has(main: SLayoutNode, has_title: bool, has_caption: bool, s: ThemeSizes, k: RegionKey)
    requires
        placed(main).contains(k),
    ensures
        placed(framed(main, has_title, has_caption, s)).contains(k),
{
    let top: Seq<(SizeSpec, SLayoutNode)> = if has_title {
        seq![(SizeSpec::Pixels(s.title_height), sleaf(shared_key(PlotRegion::Title)))]
    } else {
        seq![]
    };
    let bottom: Seq<(SizeSpec, SLayoutNode)> = if has_caption {
        seq![(SizeSpec::Pixels(s.caption_height), sleaf(shared_key(PlotRegion::Caption)))]
    } else {
        seq![]
    };
    let cs = top + seq![(SizeSpec::Flex(1), main)] + bottom;
    assert(cs[top.len() as int].1 == main);
    lemma_split_has(SplitAxis::Vertical, cs, top.len() as int, k);
}

proof fn lemma_facet_frame_has(panels: SLayoutNode, has_title: bool, has_caption: bool, has_legend: bool, s: ThemeSizes, k: RegionKey)
    requires
        placed(panels).contains(k),
    ensures
        placed(facet_frame(panels, has_title, has_caption, has_legend, s)).contains(k),
{
    let xl = seq![
        (SizeSpec::Flex(1), panels),
        (SizeSpec::Pixels(s.x_gutter_height), sleaf(shared_key(PlotRegion::XAxisGutter))),
    ];
    lemma_split_has(SplitAxis::Vertical, xl, 0, k);
    let columns = seq![
        (SizeSpec::Pixels(s.y_axis_label_width), over_spacer(shared_key(PlotRegion::YAxisGutter), s.x_gutter_height)),
        (SizeSpec::Flex(1), ssplit(SplitAxis::Vertical, xl)),
    ];
    let all = if has_legend { columns + legend_cells(s) } else { columns };
    assert(all[1] == columns[1]);
    lemma_split_has(SplitAxis::Horizontal, all, 1, k);
    lemma_framed_has(ssplit(SplitAxis::Horizontal, all), has_title, has_caption, s, k);
}

proof fn lemma_wrap_width_exists(n: int)
    requires
        n >= 0,
    ensures
        exists|c: int| is_wrap_width(c, n),
    decreases n,
{
    if n <= 1 {
        assert(is_wrap_width(1, n));
    } else {
        lemma_wrap_width_exists(n - 1);
        let c = choose|c: int| #[trigger] is_wrap_width(c, n - 1);
        if c * c >= n {
            assert(is_wrap_width(c, n));
        } else {
            assert((c + 1) * (c + 1) >= n) by (nonlinear_arith)
                requires
                    c * c >= n - 1,
                    c >= 1,
            ;
            assert(is_wrap_width(c + 1, n));
        }
    }
}

/// A wrapped facet places every one of its panels: each panel's data area,
/// facet label and x-axis gutter get a place in the layout.
pub proof fn law_wrap_places_every_panel(num_panels: usize, columns: Option<u32>, has_title: bool, has_caption: bool, has_legend: bool, y_free: bool, s: ThemeSizes, p: usize)
    requires
        p < num_panels,
    ensures
        placed(spec_wrap_layout(num_panels as int, columns, has_title, has_caption, has_legend, y_free, s)).contains(panel_key(PlotRegion::DataArea, p)),
        placed(spec_wrap_layout(num_panels as int, columns, has_title, has_caption, has_legend, y_free, s)).contains(panel_key(PlotRegion::FacetLabel, p)),
        placed(spec_wrap_layout(num_panels as int, columns, has_title, has_caption, has_legend, y_free, s)).contains(panel_key(PlotRegion::XAxisGutter, p)),
{
    let n = num_panels as int;
    let ncols = spec_wrap_columns(n, columns);
    if columns is None {
        lemma_wrap_width_exists(n);
    }
    assert(ncols >= 1);
    let nrows = ceil_div(n, ncols);
    let row = p as int / ncols;
    let col = p as int % ncols;
    vstd::arithmetic::div_mod::lemma_fundamental_div_mod(p as int, ncols);
    vstd::arithmetic::div_mod::lemma_mod_bound(p as int, ncols);
    vstd::arithmetic::div_mod::lemma_fundamental_div_mod(n + ncols - 1, ncols);
    vstd::arithmetic::div_mod::lemma_mod_bound(n + ncols - 1, ncols);
    assert(row >= 0) by (nonlinear_arith)
        requires
            p as int == ncols * row + col,
            0 <= col < ncols,
            p >= 0,
            ncols >= 1,
    ;
    assert(row < nrows) by (nonlinear_arith)
        requires
            p as int == ncols * row + col,
            0 <= col,
            p < n,
            n + ncols - 1 == ncols * nrows + (n + ncols - 1) % ncols,
            0 <= (n + ncols - 1) % ncols < ncols,
            ncols >= 1,
    ;
    assert(row * ncols + col == p as int) by (nonlinear_arith)
        requires
            p as int == ncols * row + col,
    ;
    lemma_row_cells_have(row, ncols, n, y_free, s, col, ncols as nat);
    let cells = wrap_row_cells(row, ncols, n, y_free, s, ncols as nat);
    let i = choose|i: int| 0 <= i < cells.len() && (#[trigger] cells[i]).1 == wrap_panel((row * ncols + col) as usize, y_free, s);
    lemma_grid_rows_have(ncols, n, y_free, s, row, nrows as nat);
    let rows = wrap_grid_rows(ncols, n, y_free, s, nrows as nat);
    lemma_wrap_panel_has(p, y_free, s);
    let keys = seq![
        panel_key(PlotRegion::DataArea, p),
        panel_key(PlotRegion::FacetLabel, p),
        panel_key(PlotRegion::XAxisGutter, p),
    ];
    assert forall|j: int| 0 <= j < 3 implies #[trigger] placed(spec_wrap_layout(n, columns, has_title, has_caption, has_legend, y_free, s)).contains(keys[j]) by {
        lemma_split_has(SplitAxis::Horizontal, cells, i, keys[j]);
        lemma_split_has(SplitAxis::Vertical, rows, row, keys[j]);
        lemma_facet_frame_has(ssplit(SplitAxis::Vertical, rows), has_title, has_caption, has_legend, s, keys[j]);
    }
    assert(placed(spec_wrap_layout(n, columns, has_title, has_caption, has_legend, y_free, s)).contains(keys[0]));
    assert(placed(spec_wrap_layout(n, columns, has_title, has_caption, has_legend, y_free, s)).contains(keys[1]));
    assert(placed(spec_wrap_layout(n, columns, has_title, has_caption, has_legend, y_free, s)).contains(keys[2]));
}

} // verus!

verus! {

proof fn lemma_grid_row_cells_have(ri: int, ncols: int, s: ThemeSizes, ci: int, k: nat)
    requires
        0 <= ci < k,
    ensures
        exists|i: int| 0 <= i < grid_row_cells(ri, ncols, s, k).len()
            && (#[trigger] grid_row_cells(ri, ncols, s, k)[i]).1 == ssplit(SplitAxis::Vertical, seq![
                (SizeSpec::Flex(1), sleaf(panel_key(PlotRegion::DataArea, (ri * ncols + ci) as usize))),
                (SizeSpec::Pixels(s.x_gutter_height), sleaf(panel_key(PlotRegion::XAxisGutter, (ri * ncols + ci) as usize))),
            ]),
    decreases k,
{
    let cells = grid_row_cells(ri, ncols, s, k);
    let prev = grid_row_cells(ri, ncols, s, (k - 1) as nat);
    if ci == k - 1 {
        assert(cells[cells.len() - 1] == seq![(SizeSpec::Flex(1), ssplit(SplitAxis::Vertical, seq![
            (SizeSpec::Flex(1), sleaf(panel_key(PlotRegion::DataArea, (ri * ncols + ci) as usize))),
            (SizeSpec::Pixels(s.x_gutter_height), sleaf(panel_key(PlotRegion::XAxisGutter, (ri * ncols + ci) as usize))),
        ]))][0]);
    } else {
        lemma_grid_row_cells_have(ri, ncols, s, ci, (k - 1) as nat);
        let i = choose|i: int| 0 <= i < prev.len() && (#[trigger] prev[i]).1 == ssplit(SplitAxis::Vertical, seq![
            (SizeSpec::Flex(1), sleaf(panel_key(PlotRegion::DataArea, (ri * ncols + ci) as usize))),
            (SizeSpec::Pixels(s.x_gutter_height), sleaf(panel_key(PlotRegion::XAxisGutter, (ri * ncols + ci) as usize))),
        ]);
        assert(cells[i] == prev[i]);
    }
}

proof fn lemma_grid_label_cells_have(s: ThemeSizes, ci: int, k: nat)
    requires
        0 <= ci < k,
    ensures
        exists|i: int| 0 <= i < grid_label_cells(s, k).len()
            && (#[trigger] grid_label_cells(s, k)[i]).1 == sleaf(panel_key(PlotRegion::FacetColLabel, ci as usize)),
    decreases k,
{
    let cells = grid_label_cells(s, k);
    let prev = grid_label_cells(s, (k - 1) as nat);
    if ci == k - 1 {
        assert(cells[cells.len() - 1].1 == sleaf(panel_key(PlotRegion::FacetColLabel, ci as usize)));
    } else {
        lemma_grid_label_cells_have(s, ci, (k - 1) as nat);
        let i = choose|i: int| 0 <= i < prev.len() && (#[trigger] prev[i]).1 == sleaf(panel_key(PlotRegion::FacetColLabel, ci as usize));
        assert(cells[i] == prev[i]);
    }
}

proof fn lemma_grid_body_rows(ncols: int, s: ThemeSizes, ri: int, k: nat)
    requires
        0 <= ri < k,
    ensures
        grid_body_rows(ncols, s, k).len() == k + 1,
        grid_body_rows(ncols, s, k)[0] == grid_body_rows(ncols, s, 0)[0],
        grid_body_rows(ncols, s, k)[ri + 1].1 == ssplit(SplitAxis::Horizontal,
            grid_row_cells(ri, ncols, s, ncols as nat).push((SizeSpec::Pixels(s.facet_row_label_width),
                over_spacer(panel_key(PlotRegion::FacetRowLabel, ri as usize), s.x_gutter_height)))),
    decreases k,
{
    lemma_grid_body_len(ncols, s, k);
    if k > 1 {
        if ri < k - 1 {
            lemma_grid_body_rows(ncols, s, ri, (k - 1) as nat);
        } else {
            lemma_grid_body_rows(ncols, s, 0, (k - 1) as nat);
        }
    }
}

proof fn lemma_grid_body_len(ncols: int, s: ThemeSizes, k: nat)
    ensures
        grid_body_rows(ncols, s, k).len() == k + 1,
    decreases k,
{
    if k > 0 {
        lemma_grid_body_len(ncols, s, (k - 1) as nat);
    }
}

/// A facet grid places every panel's data area, every column's label and
/// every row's label.
pub proof fn law_grid_places_every_panel(num_rows: usize, num_cols: usize, has_title: bool, has_caption: bool, has_legend: bool, s: ThemeSizes, ri: usize, ci: usize)
    requires
        ri < num_rows,
        ci < num_cols,
    ensures
        placed(spec_grid_layout(num_rows as int, num_cols as int, has_title, has_caption, has_legend, s)).contains(
            panel_key(PlotRegion::DataArea, (ri * num_cols + ci) as usize)),
        placed(spec_grid_layout(num_rows as int, num_cols as int, has_title, has_caption, has_legend, s)).contains(
            panel_key(PlotRegion::FacetColLabel, ci)),
        placed(spec_grid_layout(num_rows as int, num_cols as int, has_title, has_caption, has_legend, s)).contains(
            panel_key(PlotRegion::FacetRowLabel, ri)),
{
    let r = ri as int;
    let c = ci as int;
    let nc = num_cols as int;
    let p = (r * nc + c) as usize;
    let body = grid_body_rows(nc, s, num_rows as nat);
    let layout = spec_grid_layout(num_rows as int, nc, has_title, has_caption, has_legend, s);
    lemma_grid_body_rows(nc, s, r, num_rows as nat);
    // the panel's data area
    lemma_grid_row_cells_have(r, nc, s, c, num_cols as nat);
    let cells = grid_row_cells(r, nc, s, num_cols as nat);
    let row_cells = cells.push((SizeSpec::Pixels(s.facet_row_label_width),
        over_spacer(panel_key(PlotRegion::FacetRowLabel, ri), s.x_gutter_height)));
    let i = choose|i: int| 0 <= i < cells.len() && (#[trigger] cells[i]).1 == ssplit(SplitAxis::Vertical, seq![
        (SizeSpec::Flex(1), sleaf(panel_key(PlotRegion::DataArea, p))),
        (SizeSpec::Pixels(s.x_gutter_height), sleaf(panel_key(PlotRegion::XAxisGutter, p))),
    ]);
    let data_key = panel_key(PlotRegion::DataArea, p);
    lemma_leaf_has(data_key);
    lemma_split_has(SplitAxis::Vertical, seq![
        (SizeSpec::Flex(1), sleaf(panel_key(PlotRegion::DataArea, p))),
        (SizeSpec::Pixels(s.x_gutter_height), sleaf(panel_key(PlotRegion::XAxisGutter, p))),
    ], 0, data_key);
    assert(row_cells[i] == cells[i]);
    lemma_split_has(SplitAxis::Horizontal, row_cells, i, data_key);
    lemma_split_has(SplitAxis::Vertical, body, r + 1, data_key);
    lemma_facet_frame_has(ssplit(SplitAxis::Vertical, body), has_title, has_caption, has_legend, s, data_key);
    // the row's label
    let row_key = panel_key(PlotRegion::FacetRowLabel, ri);
    lemma_leaf_has(row_key);
    lemma_split_has(SplitAxis::Vertical, seq![(SizeSpec::Flex(1), sleaf(row_key)), (SizeSpec::Pixels(s.x_gutter_height), spacer())], 0, row_key);
    lemma_split_has(SplitAxis::Horizontal, row_cells, cells.len() as int, row_key);
    lemma_split_has(SplitAxis::Vertical, body, r + 1, row_key);
    lemma_facet_frame_has(ssplit(SplitAxis::Vertical, body), has_title, has_caption, has_legend, s, row_key);
    // the column's label
    let col_key = panel_key(PlotRegion::FacetColLabel, ci);
    lemma_grid_label_cells_have(s, c, num_cols as nat);
    let labels = grid_label_cells(s, num_cols as nat);
    let label_cells = labels.push((SizeSpec::Pixels(s.facet_row_label_width), spacer()));
    let j = choose|j: int| 0 <= j < labels.len() && (#[trigger] labels[j]).1 == sleaf(panel_key(PlotRegion::FacetColLabel, ci));
    lemma_leaf_has(col_key);
    assert(label_cells[j] == labels[j]);
    lemma_split_has(SplitAxis::Horizontal, label_cells, j, col_key);
    assert(body[0] == grid_body_rows(nc, s, 0)[0]);
    lemma_split_has(SplitAxis::Vertical, body, 0, col_key);
    lemma_facet_frame_has(ssplit(SplitAxis::Vertical, body), has_title, has_caption, has_legend, s, col_key);
}

} // verus!

verus! {

proof fn lemma_placed_children_concat(a: Seq<(SizeSpec, SLayoutNode)>, b: Seq<(SizeSpec, SLayoutNode)>)
    ensures
        placed_children(a + b) == placed_children(a) + placed_children(b),
    decreases b.len(),
{
    if b.len() == 0 {
        assert(a + b =~= a);
        assert(placed_children(a) + placed_children(b) =~= placed_children(a));
    } else {
        lemma_placed_children_concat(a, b.drop_last());
        assert((a + b).drop_last() =~= a + b.drop_last());
        assert((a + b).last() == b.last());
        assert(placed_children(a + b) =~= placed_children(a) + placed_children(b));
    }
}

proof fn lemma_placed_pair(x: (SizeSpec, SLayoutNode), y: (SizeSpec, SLayoutNode))
    ensures
        placed_children(seq![x, y]) == placed(x.1) + placed(y.1),
{
    assert(seq![x, y].drop_last() =~= seq![x]);
    assert(seq![x].drop_last() =~= Seq::<(SizeSpec, SLayoutNode)>::empty());
    assert(seq![x].last() == x);
    assert(placed_children(Seq::<(SizeSpec, SLayoutNode)>::empty()) =~= Seq::<RegionKey>::empty());
    assert(Seq::<RegionKey>::empty() + placed(x.1) =~= placed(x.1));
    assert(placed_children(seq![x]) =~= placed(x.1));
}

proof fn lemma_placed_one(x: (SizeSpec, SLayoutNode))
    ensures
        placed_children(seq![x]) == placed(x.1),
{
    assert(seq![x].drop_last() =~= Seq::<(SizeSpec, SLayoutNode)>::empty());
    assert(seq![x].last() == x);
    assert(placed_children(Seq::<(SizeSpec, SLayoutNode)>::empty()) =~= Seq::<RegionKey>::empty());
    assert(Seq::<RegionKey>::empty() + placed(x.1) =~= placed(x.1));
    assert(placed_children(seq![x]) =~= placed(x.1));
}

proof fn lemma_placed_over_spacer(k: RegionKey, px: u32)
    requires
        k.region != PlotRegion::Spacer,
    ensures
        placed(over_spacer(k, px)) == seq![k],
{
    lemma_placed_pair((SizeSpec::Flex(1), sleaf(k)), (SizeSpec::Pixels(px), spacer()));
    assert(placed(spacer()) =~= Seq::<RegionKey>::empty());
    assert(seq![k] + Seq::<RegionKey>::empty() =~= seq![k]);
}

proof fn lemma_placed_framed(main: SLayoutNode, has_title: bool, has_caption: bool, s: ThemeSizes)
    ensures
        placed(framed(main, has_title, has_caption, s))
            == (if has_title { seq![shared_key(PlotRegion::Title)] } else { seq![] }) + placed(main)
                + (if has_caption { seq![shared_key(PlotRegion::Caption)] } else { seq![] }),
{
    let top: Seq<(SizeSpec, SLayoutNode)> = if has_title {
        seq![(SizeSpec::Pixels(s.title_height), sleaf(shared_key(PlotRegion::Title)))]
    } else {
        seq![]
    };
    let bottom: Seq<(SizeSpec, SLayoutNode)> = if has_caption {
        seq![(SizeSpec::Pixels(s.caption_height), sleaf(shared_key(PlotRegion::Caption)))]
    } else {
        seq![]
    };
    let mid = seq![(SizeSpec::Flex(1), main)];
    lemma_placed_children_concat(top + mid, bottom);
    lemma_placed_children_concat(top, mid);
    lemma_placed_one((SizeSpec::Flex(1), main));
    if has_title {
        lemma_placed_one((SizeSpec::Pixels(s.title_height), sleaf(shared_key(PlotRegion::Title))));
    }
    if has_caption {
        lemma_placed_one((SizeSpec::Pixels(s.caption_height), sleaf(shared_key(PlotRegion::Caption))));
    }
    assert(placed_children(Seq::<(SizeSpec, SLayoutNode)>::empty()) =~= Seq::<RegionKey>::empty());
}

/// A plot without facets places exactly these regions, in this order: the
/// title where there is one, the y-axis gutter, the data area, the x-axis
/// gutter, the legend where there is one, and the caption where there is one.
pub proof fn law_standard_layout_regions(has_title: bool, has_caption: bool, has_legend: bool, s: ThemeSizes)
    ensures
        placed(spec_standard_layout(has_title, has_caption, has_legend, s))
            == (if has_title { seq![shared_key(PlotRegion::Title)] } else { seq![] })
                + seq![shared_key(PlotRegion::YAxisGutter), shared_key(PlotRegion::DataArea), shared_key(PlotRegion::XAxisGutter)]
                + (if has_legend { seq![shared_key(PlotRegion::Legend)] } else { seq![] })
                + (if has_caption { seq![shared_key(PlotRegion::Caption)] } else { seq![] }),
{
    let data_cells = seq![
        (SizeSpec::Flex(1), sleaf(shared_key(PlotRegion::DataArea))),
        (SizeSpec::Pixels(s.x_gutter_height), sleaf(shared_key(PlotRegion::XAxisGutter))),
    ];
    lemma_placed_pair(data_cells[0], data_cells[1]);
    assert(data_cells =~= seq![data_cells[0], data_cells[1]]);
    let ycol = (SizeSpec::Pixels(s.y_gutter_width), over_spacer(shared_key(PlotRegion::YAxisGutter), s.x_gutter_height));
    let dcol = (SizeSpec::Flex(1), ssplit(SplitAxis::Vertical, data_cells));
    let columns = seq![ycol, dcol];
    lemma_placed_pair(ycol, dcol);
    lemma_placed_over_spacer(shared_key(PlotRegion::YAxisGutter), s.x_gutter_height);
    let lcells = legend_cells(s);
    lemma_placed_pair(lcells[0], lcells[1]);
    assert(lcells =~= seq![lcells[0], lcells[1]]);
    lemma_placed_over_spacer(shared_key(PlotRegion::Legend), s.x_gutter_height);
    assert(placed(spacer()) =~= Seq::<RegionKey>::empty());
    lemma_placed_children_concat(columns, lcells);
    let all = if has_legend { columns + lcells } else { columns };
    let main = ssplit(SplitAxis::Horizontal, all);
    lemma_placed_framed(main, has_title, has_caption, s);
    let mid = seq![shared_key(PlotRegion::YAxisGutter), shared_key(PlotRegion::DataArea), shared_key(PlotRegion::XAxisGutter)];
    assert(placed(sleaf(shared_key(PlotRegion::DataArea))) =~= seq![shared_key(PlotRegion::DataArea)]);
    assert(placed(sleaf(shared_key(PlotRegion::XAxisGutter))) =~= seq![shared_key(PlotRegion::XAxisGutter)]);
    assert(placed_children(columns) =~= mid);
    if has_legend {
        assert(placed(main) =~= mid + seq![shared_key(PlotRegion::Legend)]);
    } else {
        assert(placed(main) =~= mid + Seq::<RegionKey>::empty());
    }
    let t: Seq<RegionKey> = if has_title { seq![shared_key(PlotRegion::Title)] } else { seq![] };
    let l: Seq<RegionKey> = if has_legend { seq![shared_key(PlotRegion::Legend)] } else { seq![] };
    let c: Seq<RegionKey> = if has_caption { seq![shared_key(PlotRegion::Caption)] } else { seq![] };
    assert(t + (mid + l) + c =~= t + mid + l + c);
}

/// A row of columns that ends with a legend: its last column places the
/// legend alone and is `legend_width` pixels wide, and a spacer of
/// `legend_margin` pixels stands just before it.
pub open spec fn ends_with_legend(cs: Seq<(SizeSpec, SLayoutNode)>, s: ThemeSizes) -> bool {
    &&& cs.len() >= 2
    &&& cs.last().0 == SizeSpec::Pixels(s.legend_width)
    &&& placed(cs.last().1) == seq![shared_key(PlotRegion::Legend)]
    &&& cs[cs.len() - 2] == (SizeSpec::Pixels(s.legend_margin), spacer())
}

/// Whether a plot's tree, a column of bands, has a flexible band that is a
/// row of columns ending with a legend (see `ends_with_legend`).
pub open spec fn has_legend_column(n: SLayoutNode, s: ThemeSizes) -> bool {
    match n {
        SLayoutNode::Split { axis, children } => axis == SplitAxis::Vertical && exists|j: int|
            0 <= j < children.len() && (#[trigger] children[j]).0 == SizeSpec::Flex(1) && match children[j].1 {
                SLayoutNode::Split { axis, children } => axis == SplitAxis::Horizontal && ends_with_legend(children, s),
                SLayoutNode::Leaf(_) => false,
            },
        SLayoutNode::Leaf(_) => false,
    }
}

proof fn lemma_framed_legend(columns: Seq<(SizeSpec, SLayoutNode)>, has_title: bool, has_caption: bool, s: ThemeSizes)
    ensures
        has_legend_column(framed(ssplit(SplitAxis::Horizontal, columns + legend_cells(s)), has_title, has_caption, s), s),
{
    let cs = columns + legend_cells(s);
    lemma_placed_over_spacer(shared_key(PlotRegion::Legend), s.x_gutter_height);
    assert(cs.last() == legend_cells(s)[1]);
    assert(cs[cs.len() - 2] == legend_cells(s)[0]);
    assert(ends_with_legend(cs, s));
    let main = ssplit(SplitAxis::Horizontal, cs);
    let top: Seq<(SizeSpec, SLayoutNode)> = if has_title {
        seq![(SizeSpec::Pixels(s.title_height), sleaf(shared_key(PlotRegion::Title)))]
    } else {
        seq![]
    };
    let bottom: Seq<(SizeSpec, SLayoutNode)> = if has_caption {
        seq![(SizeSpec::Pixels(s.caption_height), sleaf(shared_key(PlotRegion::Caption)))]
    } else {
        seq![]
    };
    let vc = top + seq![(SizeSpec::Flex(1), main)] + bottom;
    assert(vc[top.len() as int] == (SizeSpec::Flex(1), main));
}

/// In every layout with a legend (plain, wrapped or grid), the legend's
/// column is `legend_width` pixels wide, with a spacer of `legend_margin`
/// pixels just before it.
pub proof fn law_legend_column_sizes(num_panels: int, columns: Option<u32>, num_rows: int, num_cols: int, has_title: bool, has_caption: bool, y_free: bool, s: ThemeSizes)
    ensures
        has_legend_column(spec_standard_layout(has_title, has_caption, true, s), s),
        has_legend_column(spec_wrap_layout(num_panels, columns, has_title, has_caption, true, y_free, s), s),
        has_legend_column(spec_grid_layout(num_rows, num_cols, has_title, has_caption, true, s), s),
{
    let std_columns = seq![
        (SizeSpec::Pixels(s.y_gutter_width), over_spacer(shared_key(PlotRegion::YAxisGutter), s.x_gutter_height)),
        (SizeSpec::Flex(1), ssplit(SplitAxis::Vertical, seq![
            (SizeSpec::Flex(1), sleaf(shared_key(PlotRegion::DataArea))),
            (SizeSpec::Pixels(s.x_gutter_height), sleaf(shared_key(PlotRegion::XAxisGutter))),
        ])),
    ];
    lemma_framed_legend(std_columns, has_title, has_caption, s);
    let ncols = spec_wrap_columns(num_panels, columns);
    let nrows = ceil_div(num_panels, ncols);
    let wrap_panels = ssplit(SplitAxis::Vertical, wrap_grid_rows(ncols, num_panels, y_free, s, nrows as nat));
    let grid_panels = ssplit(SplitAxis::Vertical, grid_body_rows(num_cols, s, num_rows as nat));
    let frame_columns = |panels: SLayoutNode| seq![
        (SizeSpec::Pixels(s.y_axis_label_width), over_spacer(shared_key(PlotRegion::YAxisGutter), s.x_gutter_height)),
        (SizeSpec::Flex(1), ssplit(SplitAxis::Vertical, seq![
            (SizeSpec::Flex(1), panels),
            (SizeSpec::Pixels(s.x_gutter_height), sleaf(shared_key(PlotRegion::XAxisGutter))),
        ])),
    ];
    lemma_framed_legend(frame_columns(wrap_panels), has_title, has_caption, s);
    lemma_framed_legend(frame_columns(grid_panels), has_title, has_caption, s);
}

} // verus!
