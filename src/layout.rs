//! Geometry and the layout description a split container hands to the host
//! layout engine: grid tracks, splitter placement, cursor glyphs, panel
//! decoration.
use vstd::prelude::*;

use crate::ratio::RATIO_ONE;

verus! {

/// Gap between neighbouring tracks, in logical units.
pub const TRACK_GAP: u32 = 7;

/// Thickness of a splitter handle: the gap less one unit on each side.
pub const HANDLE_THICKNESS: u32 = 5;

/// Inner padding of a decorated panel, in logical units.
pub const PANEL_PADDING: u32 = 5;

/// Border width of a decorated panel, in logical units.
pub const PANEL_BORDER: u32 = 1;

/// Axis along which a split container arranges its children.
#[derive(Clone, Copy, Debug, PartialEq, Eq, Structural)]
pub enum SplitOrientation {
    /// Children side by side, left to right.
    Horizontal,
    /// Children stacked, top to bottom.
    Vertical,
}

/// A point in logical units.
#[derive(Clone, Copy, Debug, PartialEq, Eq, Structural)]
pub struct Point {
    pub x: i32,
    pub y: i32,
}

/// A resolved rectangle, corners included.
#[derive(Clone, Copy, Debug, PartialEq, Eq, Structural)]
pub struct Rect {
    pub min_x: i32,
    pub min_y: i32,
    pub max_x: i32,
    pub max_y: i32,
}

impl Rect {
    /// The corners are in order.
    pub open spec fn wf(&self) -> bool {
        self.min_x <= self.max_x && self.min_y <= self.max_y
    }

    pub open spec fn spec_contains(&self, p: Point) -> bool {
        self.min_x <= p.x <= self.max_x && self.min_y <= p.y <= self.max_y
    }

    /// Whether `p` lies inside the rectangle or on its border.
    pub fn contains(&self, p: Point) -> (r: bool)
        ensures
            r == self.spec_contains(p),
    {
        self.min_x <= p.x && p.x <= self.max_x && self.min_y <= p.y && p.y <= self.max_y
    }

    pub open spec fn spec_extent(&self, o: SplitOrientation) -> int {
        match o {
            SplitOrientation::Horizontal => self.max_x - self.min_x,
            SplitOrientation::Vertical => self.max_y - self.min_y,
        }
    }

    /// Size of the rectangle along the primary axis of `o`.
    pub fn extent(&self, o: SplitOrientation) -> (e: u32)
        requires
            self.wf(),
        ensures
            e == self.spec_extent(o),
    {
        match o {
            SplitOrientation::Horizontal => (self.max_x as i64 - self.min_x as i64) as u32,
            SplitOrientation::Vertical => (self.max_y as i64 - self.min_y as i64) as u32,
        }
    }
}

/// Where a splitter handle is drawn: an absolutely positioned box.
#[derive(Clone, Copy, Debug, PartialEq, Eq, Structural)]
pub struct Placement {
    pub left: i32,
    pub top: i32,
    pub width: u32,
    pub height: u32,
}

/// The handle between child `c` and the next one of a container at `parent`:
/// on the right (or bottom) edge of `c`, spanning the container across.
pub open spec fn placement_of(o: SplitOrientation, parent: Rect, c: Rect) -> Placement {
    match o {
        SplitOrientation::Horizontal => Placement {
            left: c.max_x,
            top: parent.min_y,
            width: HANDLE_THICKNESS,
            height: (parent.max_y - parent.min_y) as u32,
        },
        SplitOrientation::Vertical => Placement {
            left: parent.min_x,
            top: c.max_y,
            width: (parent.max_x - parent.min_x) as u32,
            height: HANDLE_THICKNESS,
        },
    }
}

/// Places the handle that follows child `child` of a container resolved at `parent`.
pub fn splitter_placement(o: SplitOrientation, parent: &Rect, child: &Rect) -> (p: Placement)
    requires
        parent.wf(),
    ensures
        p == placement_of(o, *parent, *child),
{
    match o {
        SplitOrientation::Horizontal => Placement {
            left: child.max_x,
            top: parent.min_y,
            width: HANDLE_THICKNESS,
            height: parent.extent(SplitOrientation::Vertical),
        },
        SplitOrientation::Vertical => Placement {
            left: parent.min_x,
            top: child.max_y,
            width: parent.extent(SplitOrientation::Horizontal),
            height: HANDLE_THICKNESS,
        },
    }
}

/// The mouse cursor's look.
#[derive(Clone, Copy, Debug, PartialEq, Eq, Structural)]
pub enum CursorGlyph {
    Default,
    ColResize,
    RowResize,
}

pub open spec fn glyph_of(o: SplitOrientation) -> CursorGlyph {
    match o {
        SplitOrientation::Horizontal => CursorGlyph::ColResize,
        SplitOrientation::Vertical => CursorGlyph::RowResize,
    }
}

/// The resize cursor for a splitter of a container with orientation `o`.
pub fn resize_glyph(o: SplitOrientation) -> (g: CursorGlyph)
    ensures
        g == glyph_of(o),
{
    match o {
        SplitOrientation::Horizontal => CursorGlyph::ColResize,
        SplitOrientation::Vertical => CursorGlyph::RowResize,
    }
}

/// A grid layout: flexible track weights for columns and rows, and the gaps.
pub struct GridSpec {
    pub columns: Vec<u32>,
    pub rows: Vec<u32>,
    pub column_gap: u32,
    pub row_gap: u32,
}

/// The mathematical content of a `GridSpec`.
pub struct GridView {
    pub columns: Seq<u32>,
    pub rows: Seq<u32>,
    pub column_gap: u32,
    pub row_gap: u32,
}

impl View for GridSpec {
    type V = GridView;

    open spec fn view(&self) -> GridView {
        GridView {
            columns: self.columns@,
            rows: self.rows@,
            column_gap: self.column_gap,
            row_gap: self.row_gap,
        }
    }
}

/// The grid for a container: one row (or column) of tracks weighted by the
/// ratios, a single full track across, and `TRACK_GAP` between tracks.
pub open spec fn grid_of(o: SplitOrientation, ratios: Seq<u32>) -> GridView {
    match o {
        SplitOrientation::Horizontal => GridView {
            columns: ratios,
            rows: seq![RATIO_ONE],
            column_gap: TRACK_GAP,
            row_gap: 0,
        },
        SplitOrientation::Vertical => GridView {
            columns: seq![RATIO_ONE],
            rows: ratios,
            column_gap: 0,
            row_gap: TRACK_GAP,
        },
    }
}

/// A fresh copy of a track list.
pub fn copy_tracks(r: &Vec<u32>) -> (c: Vec<u32>)
    ensures
        c@ == r@,
{
    let mut c: Vec<u32> = Vec::new();
    let mut i: usize = 0;
    while i < r.len()
        invariant
            0 <= i <= r.len(),
            c@ == r@.subrange(0, i as int),
        decreases r.len() - i,
    {
        c.push(r[i]);
        i = i + 1;
        assert(c@ =~= r@.subrange(0, i as int));
    }
    assert(c@ =~= r@);
    c
}

/// Builds the grid layout for a container with orientation `o` and `ratios`.
pub fn grid_spec(o: SplitOrientation, ratios: &Vec<u32>) -> (g: GridSpec)
    ensures
        g@ == grid_of(o, ratios@),
{
    let tracks = copy_tracks(ratios);
    let single: Vec<u32> = vec![RATIO_ONE];
    assert(single@ =~= seq![RATIO_ONE]);
    match o {
        SplitOrientation::Horizontal => GridSpec {
            columns: tracks,
            rows: single,
            column_gap: TRACK_GAP,
            row_gap: 0,
        },
        SplitOrientation::Vertical => GridSpec {
            columns: single,
            rows: tracks,
            column_gap: 0,
            row_gap: TRACK_GAP,
        },
    }
}

/// A fresh copy of a grid layout.
pub fn copy_grid(g: &GridSpec) -> (c: GridSpec)
    ensures
        c@ == g@,
{
    GridSpec {
        columns: copy_tracks(&g.columns),
        rows: copy_tracks(&g.rows),
        column_gap: g.column_gap,
        row_gap: g.row_gap,
    }
}

/// Whether two track lists are the same.
pub fn same_tracks(a: &Vec<u32>, b: &Vec<u32>) -> (r: bool)
    ensures
        r == (a@ == b@),
{
    if a.len() != b.len() {
        return false;
    }
    let mut i: usize = 0;
    while i < a.len()
        invariant
            0 <= i <= a.len(),
            a.len() == b.len(),
            forall|j: int| 0 <= j < i ==> a@[j] == b@[j],
        decreases a.len() - i,
    {
        if a[i] != b[i] {
            return false;
        }
        i = i + 1;
    }
    assert(a@ =~= b@);
    true
}

/// Whether two grid layouts are the same.
pub fn same_grid(a: &GridSpec, b: &GridSpec) -> (r: bool)
    ensures
        r == (a@ == b@),
{
    a.column_gap == b.column_gap && a.row_gap == b.row_gap && same_tracks(&a.columns, &b.columns)
        && same_tracks(&a.rows, &b.rows)
}

/// An opaque colour, one byte per channel.
#[derive(Clone, Copy, Debug, PartialEq, Eq, Structural)]
pub struct Rgb {
    pub r: u8,
    pub g: u8,
    pub b: u8,
}

/// The colours of the dock.
#[derive(Clone, Copy, Debug, PartialEq, Eq, Structural)]
pub struct DockColors {
    pub panel_background: Rgb,
    pub dock_background: Rgb,
    pub panel_border_color: Rgb,
}

impl Default for DockColors {
    fn default() -> (c: Self)
        ensures
            c.panel_background == (Rgb { r: 32, g: 31, b: 35 }),
            c.dock_background == (Rgb { r: 51, g: 49, b: 55 }),
            c.panel_border_color == (Rgb { r: 35, g: 33, b: 38 }),
    {
        DockColors {
            panel_background: Rgb { r: 32, g: 31, b: 35 },
            dock_background: Rgb { r: 51, g: 49, b: 55 },
            panel_border_color: Rgb { r: 35, g: 33, b: 38 },
        }
    }
}

/// A leaf of the split tree: content under a title.
pub struct Panel {
    pub name: String,
}

/// Direction in which a flex box lays out its content.
#[derive(Clone, Copy, Debug, PartialEq, Eq, Structural)]
pub enum FlexDirection {
    Row,
    Column,
}

/// How a panel is drawn: a box filling its slot, laying its content out in a
/// row and clipping what overflows, bordered and padded, with its name as label.
pub struct PanelDecoration {
    pub label: String,
    pub width_percent: u32,
    pub height_percent: u32,
    pub direction: FlexDirection,
    pub clip_overflow: bool,
    pub padding: u32,
    pub border: u32,
    pub border_color: Rgb,
    pub background: Rgb,
}

/// `d` is the decoration of a panel named `name` in the colours `colors`.
pub open spec fn decorates(d: PanelDecoration, name: Seq<char>, colors: DockColors) -> bool {
    &&& d.label@ == name
    &&& d.width_percent == 100
    &&& d.height_percent == 100
    &&& d.direction == FlexDirection::Row
    &&& d.clip_overflow
    &&& d.padding == PANEL_PADDING
    &&& d.border == PANEL_BORDER
    &&& d.border_color == colors.panel_border_color
    &&& d.background == colors.panel_background
}

/// The decoration of `panel` in the dock's colours.
pub fn panel_decoration(panel: &Panel, colors: &DockColors) -> (d: PanelDecoration)
    ensures
        decorates(d, panel.name@, *colors),
{
    PanelDecoration {
        label: panel.name.clone(),
        width_percent: 100,
        height_percent: 100,
        direction: FlexDirection::Row,
        clip_overflow: true,
        padding: PANEL_PADDING,
        border: PANEL_BORDER,
        border_color: colors.panel_border_color,
        background: colors.panel_background,
    }
}

/// A panel together with the name it was last drawn with, so that it is
/// redrawn only when it changed.
pub struct PanelNode {
    pub panel: Panel,
    pub drawn: Option<String>,
}

impl PanelNode {
    /// The panel changed since it was last drawn, or was never drawn.
    pub open spec fn needs_redraw(&self) -> bool {
        match self.drawn {
            Some(n) => n@ != self.panel.name@,
            None => true,
        }
    }

    /// A panel that has not been drawn yet.
    pub fn new(panel: Panel) -> (p: PanelNode)
        ensures
            p.panel.name@ == panel.name@,
            p.drawn is None,
    {
        PanelNode { panel, drawn: None }
    }

    /// Gives the panel a new name; it is redrawn at the next `redraw` if the
    /// name differs from the one drawn.
    pub fn set_name(&mut self, name: String)
        ensures
            final(self).panel.name@ == name@,
            final(self).drawn == old(self).drawn,
    {
        self.panel = Panel { name };
    }

    /// Redraws the panel if it changed since it was last drawn: returns its
    /// decoration and records it as drawn; otherwise returns nothing and
    /// changes nothing.
    pub fn redraw(&mut self, colors: &DockColors) -> (d: Option<PanelDecoration>)
        ensures
            final(self).panel.name@ == old(self).panel.name@,
            old(self).needs_redraw() ==> d is Some && decorates(d->0, old(self).panel.name@, *colors)
                && final(self).drawn is Some && final(self).drawn->0@ == old(self).panel.name@,
            !old(self).needs_redraw() ==> d is None && final(self).drawn == old(self).drawn,
            !final(self).needs_redraw(),
    {
        let same = match &self.drawn {
            Some(n) => *n == self.panel.name,
            None => false,
        };
        if same {
            None
        } else {
            self.drawn = Some(self.panel.name.clone());
            Some(panel_decoration(&self.panel, colors))
        }
    }
}

} // verus!
