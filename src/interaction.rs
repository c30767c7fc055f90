//! Per-frame passes over a synced dock: placing the splitter handles from the
//! resolved geometry, and the hover / drag state machine that moves ratio mass
//! between the two panels next to the dragged handle.
use vstd::prelude::*;

use crate::dock::{Dock, LayoutWrite, PanelSplit, SelectedFakeSplitter};
use crate::layout::{
    glyph_of, placement_of, resize_glyph, splitter_placement, copy_tracks, CursorGlyph,
    Placement, Point, Rect, SplitOrientation,
};
use crate::ratio::{
    delta_of, dragged, normalized_delta, ratio_sum, ratios_valid, resize_pair, total,
};

verus! {

/// State of the primary pointer button this frame.
#[derive(Clone, Copy, Debug, PartialEq, Eq, Structural)]
pub enum ButtonState {
    Pressed,
    JustPressed,
    JustReleased,
    Released,
}

/// What the host reports for one frame.
///
/// `handle_rects[h]` is the resolved rectangle of handle `h` and
/// `container_rects[c]` that of container `c`, `None` where the layout engine
/// has none yet. The motion is the pointer displacement since the last frame.
pub struct FrameInput {
    pub window: bool,
    pub cursor: Option<Point>,
    pub motion_x: i64,
    pub motion_y: i64,
    pub button: ButtonState,
    pub handle_rects: Vec<Option<Rect>>,
    pub container_rects: Vec<Option<Rect>>,
}

pub open spec fn is_pressed(b: ButtonState) -> bool {
    b is Pressed || b is JustPressed
}

/// A primary window and a cursor position are there to evaluate against.
pub open spec fn interactive(inp: &FrameInput) -> bool {
    inp.window && inp.cursor is Some
}

/// The cursor lies on live handle `h`.
pub open spec fn hovers(d: &Dock, inp: &FrameInput, h: int) -> bool {
    &&& 0 <= h < d.handles@.len()
    &&& d.handles@[h] is Some
    &&& h < inp.handle_rects@.len()
    &&& inp.handle_rects@[h] is Some
    &&& inp.cursor is Some
    &&& inp.handle_rects@[h]->0.spec_contains(inp.cursor->0)
}

/// The highest-numbered handle below `n` that the cursor lies on.
pub open spec fn last_hovered(d: &Dock, inp: &FrameInput, n: int) -> Option<usize>
    decreases n,
{
    if n <= 0 {
        None
    } else if hovers(d, inp, n - 1) {
        Some((n - 1) as usize)
    } else {
        last_hovered(d, inp, n - 1)
    }
}

/// The handle under the cursor this frame, if any.
pub open spec fn hovered(d: &Dock, inp: &FrameInput) -> Option<usize> {
    last_hovered(d, inp, d.handles@.len() as int)
}

/// The container of live handle `h`.
pub open spec fn parent_of(d: &Dock, h: int) -> int {
    d.handles@[h]->0.parent as int
}

/// Handle `h` is live and its container still has a ratio on each side of it.
pub open spec fn draggable(d: &Dock, h: int) -> bool {
    &&& 0 <= h < d.handles@.len()
    &&& d.handles@[h] is Some
    &&& d.handles@[h]->0.index + 1 < d.ratios_of(parent_of(d, h)).len()
}

/// The drag session once the hover pass has run: a press on a hovered handle
/// starts one when none is active.
pub open spec fn picked(d: &Dock, inp: &FrameInput) -> Option<usize> {
    if interactive(inp) && d.selected.0 is None && inp.button is JustPressed {
        hovered(d, inp)
    } else {
        d.selected.0
    }
}

/// The drag session at the end of the frame. Without a window the frame is
/// skipped and the session stays. Otherwise it ends once the button is not
/// held, wherever the pointer is (a release outside the window included), and
/// when its handle can no longer be resolved. While the button is held and the
/// cursor has no position, the frame is skipped.
pub open spec fn session_after(d: &Dock, inp: &FrameInput) -> Option<usize> {
    if !inp.window {
        d.selected.0
    } else if !is_pressed(inp.button) {
        None
    } else if inp.cursor is None {
        d.selected.0
    } else {
        match picked(d, inp) {
            Some(h) => if draggable(d, h as int) {
                Some(h)
            } else {
                None
            },
            None => None,
        }
    }
}

/// The cursor glyph at the end of the frame.
pub open spec fn glyph_after(d: &Dock, inp: &FrameInput) -> CursorGlyph {
    if !inp.window {
        d.cursor
    } else if inp.cursor is None {
        CursorGlyph::Default
    } else {
        match session_after(d, inp) {
            Some(h) => glyph_of(d.orientation_of(parent_of(d, h as int))),
            None => match hovered(d, inp) {
                Some(h) => glyph_of(d.orientation_of(parent_of(d, h as int))),
                None => CursorGlyph::Default,
            },
        }
    }
}

/// Pointer displacement along the primary axis of `o`.
pub open spec fn displacement(inp: &FrameInput, o: SplitOrientation) -> int {
    match o {
        SplitOrientation::Horizontal => inp.motion_x as int,
        SplitOrientation::Vertical => inp.motion_y as int,
    }
}

/// The container's resolved rectangle, where it has a usable one.
pub open spec fn resolved(inp: &FrameInput, c: int) -> Option<Rect> {
    if 0 <= c < inp.container_rects@.len() && inp.container_rects@[c] is Some
        && inp.container_rects@[c]->0.wf() {
        inp.container_rects@[c]
    } else {
        None
    }
}

/// The ratio edit this frame makes, as (container, handle index, delta in ratio
/// units); none where the container has no resolved rectangle or a zero extent.
pub open spec fn drag_edit(d: &Dock, inp: &FrameInput) -> Option<(int, int, int)> {
    if interactive(inp) && session_after(d, inp) is Some {
        let h = session_after(d, inp)->0 as int;
        let p = parent_of(d, h);
        let o = d.orientation_of(p);
        match resolved(inp, p) {
            Some(r) => if r.spec_extent(o) > 0 {
                Some(
                    (
                        p,
                        d.handles@[h]->0.index as int,
                        delta_of(displacement(inp, o), r.spec_extent(o), total(d.ratios_of(p))),
                    ),
                )
            } else {
                None
            },
            None => None,
        }
    } else {
        None
    }
}

/// Where handle `h` goes, given the resolved rectangles of the containers and of
/// their children; none where one of the two is not resolved.
pub open spec fn placement_for(
    d: &Dock,
    container_rects: Seq<Option<Rect>>,
    child_rects: Seq<Vec<Option<Rect>>>,
    h: int,
) -> Option<Placement> {
    if d.handles@[h] is Some {
        let s = d.handles@[h]->0;
        let p = s.parent as int;
        if p < container_rects.len() && container_rects[p] is Some && container_rects[p]->0.wf()
            && p < child_rects.len() && s.index + 1 < child_rects[p]@.len()
            && child_rects[p]@[s.index as int] is Some && child_rects[p]@[s.index + 1] is Some {
            Some(
                placement_of(
                    d.orientation_of(p),
                    container_rects[p]->0,
                    child_rects[p]@[s.index as int]->0,
                ),
            )
        } else {
            None
        }
    } else {
        None
    }
}

proof fn lemma_last_hovered_is_hovered(d: &Dock, inp: &FrameInput, n: int)
    requires
        n <= usize::MAX,
    ensures
        last_hovered(d, inp, n) is Some ==> hovers(d, inp, last_hovered(d, inp, n)->0 as int)
            && last_hovered(d, inp, n)->0 < n,
    decreases n,
{
    if n > 0 && !hovers(d, inp, n - 1) {
        lemma_last_hovered_is_hovered(d, inp, n - 1);
    }
}

fn usable(rects: &Vec<Option<Rect>>, c: usize) -> (r: Option<Rect>)
    ensures
        r == (if c < rects@.len() && rects@[c as int] is Some && rects@[c as int]->0.wf() {
            rects@[c as int]
        } else {
            None
        }),
{
    if c < rects.len() {
        match rects[c] {
            Some(r) => if r.min_x <= r.max_x && r.min_y <= r.max_y {
                Some(r)
            } else {
                None
            },
            None => None,
        }
    } else {
        None
    }
}

/// What one frame hands back to the host: the layouts to write and where each
/// handle goes (`placements[h]` for handle `h`).
pub struct FrameOutput {
    pub writes: Vec<LayoutWrite>,
    pub placements: Vec<Option<Placement>>,
}

impl Dock {
    /// Runs one frame in the required order: the layout pass (layouts and
    /// handle counts) first, then the handle positions from the synced handles,
    /// then the pointer interaction, whose cursor reset precedes hover and drag.
    pub fn update(&mut self, input: &FrameInput, child_rects: &Vec<Vec<Option<Rect>>>) -> (out:
        FrameOutput)
        requires
            old(self).wf(),
        ensures
            final(self).wf(),
            old(self).synced() ==> out.writes@.len() == 0,
            exists|mid: Dock|
                {
                    &&& mid.wf()
                    &&& mid.synced()
                    &&& mid.same_splits(old(self))
                    &&& mid.selected == old(self).selected
                    &&& mid.cursor == old(self).cursor
                    &&& out.placements@.len() == mid.handles@.len()
                    &&& forall|h: int|
                        0 <= h < out.placements@.len() ==> #[trigger] out.placements@[h]
                            == placement_for(&mid, input.container_rects@, child_rects@, h)
                    &&& final(self).handles == mid.handles
                    &&& final(self).internals == mid.internals
                    &&& final(self).selected == SelectedFakeSplitter(session_after(&mid, input))
                    &&& final(self).cursor == glyph_after(&mid, input)
                },
    {
        let writes = self.sync();
        let ghost mid = *self;
        let placements = self.position_splitters(&input.container_rects, child_rects);
        self.frame(input);
        let out = FrameOutput { writes, placements };
        assert(out.placements@.len() == mid.handles@.len());
        out
    }

    /// Places every handle between its two neighbouring children: `out[h]` is
    /// the placement of handle `h`, `None` for a despawned handle or one whose
    /// geometry is not resolved this frame.
    pub fn position_splitters(
        &self,
        container_rects: &Vec<Option<Rect>>,
        child_rects: &Vec<Vec<Option<Rect>>>,
    ) -> (out: Vec<Option<Placement>>)
        requires
            self.wf(),
        ensures
            out@.len() == self.handles@.len(),
            forall|h: int|
                0 <= h < out@.len() ==> #[trigger] out@[h] == placement_for(
                    self,
                    container_rects@,
                    child_rects@,
                    h,
                ),
    {
        let mut out: Vec<Option<Placement>> = Vec::new();
        let mut h: usize = 0;
        while h < self.handles.len()
            invariant
                self.wf(),
                0 <= h <= self.handles@.len(),
                out@.len() == h,
                forall|k: int|
                    0 <= k < h ==> #[trigger] out@[k] == placement_for(
                        self,
                        container_rects@,
                        child_rects@,
                        k,
                    ),
            decreases self.handles@.len() - h,
        {
            let mut placed: Option<Placement> = None;
            match self.handles[h] {
                Some(s) => {
                    proof {
                        assert(self.linked(h as int));
                    }
                    match usable(container_rects, s.parent) {
                        Some(parent) => {
                            if s.parent < child_rects.len() && s.index < child_rects[s.parent].len()
                                && s.index < child_rects[s.parent].len() - 1 {
                                match (child_rects[s.parent][s.index], child_rects[s.parent][s.index + 1]) {
                                    (Some(child), Some(_)) => {
                                        placed = Some(
                                            splitter_placement(
                                                self.splits[s.parent].orientation,
                                                &parent,
                                                &child,
                                            ),
                                        );
                                    },
                                    _ => {},
                                }
                            }
                        },
                        None => {},
                    }
                },
                None => {},
            }
            out.push(placed);
            h = h + 1;
        }
        out
    }

    /// Resets the cursor glyph to the default at the start of a frame; without a
    /// primary window there is no cursor to reset and nothing changes.
    pub fn reset_cursor(&mut self, window: bool)
        ensures
            window ==> final(self).cursor == CursorGlyph::Default,
            !window ==> final(self).cursor == old(self).cursor,
            *final(self) == (Dock { cursor: final(self).cursor, ..*old(self) }),
    {
        if window {
            self.cursor = CursorGlyph::Default;
        }
    }

    /// One frame of pointer interaction. Without a primary window nothing
    /// happens. Otherwise the cursor glyph is first reset to the default, and a
    /// session whose button is no longer held ends, wherever the pointer is.
    /// With a cursor position, the hover pass then finds the handle under the
    /// cursor, which shows a resize glyph and, on a fresh press with no drag
    /// active, becomes the dragged handle; the drag pass ends the session when
    /// its handle is gone, and else moves the pointer's displacement, in ratio
    /// units, from the ratio after the handle to the one before it.
    pub fn frame(&mut self, input: &FrameInput)
        requires
            old(self).wf(),
        ensures
            final(self).wf(),
            final(self).internals == old(self).internals,
            final(self).alive == old(self).alive,
            final(self).handles == old(self).handles,
            final(self).emitted == old(self).emitted,
            final(self).n_containers() == old(self).n_containers(),
            forall|c: int|
                0 <= c < final(self).n_containers() ==> #[trigger] final(self).orientation_of(c)
                    == old(self).orientation_of(c),
            final(self).selected == SelectedFakeSplitter(session_after(old(self), input)),
            final(self).cursor == glyph_after(old(self), input),
            input.window && hovered(old(self), input) is None && final(self).selected.0 is None
                ==> final(self).cursor == CursorGlyph::Default,
            drag_edit(old(self), input) is None ==> forall|c: int|
                0 <= c < final(self).n_containers() ==> #[trigger] final(self).ratios_of(c) == old(
                self).ratios_of(c),
            drag_edit(old(self), input) is Some ==> {
                let e = drag_edit(old(self), input)->0;
                &&& final(self).ratios_of(e.0) == dragged(old(self).ratios_of(e.0), e.1, e.2)
                &&& forall|c: int|
                    0 <= c < final(self).n_containers() && c != e.0 ==> #[trigger] final(self).ratios_of(c)
                        == old(self).ratios_of(c)
            },
    {
        self.reset_cursor(input.window);
        proof {
            Dock::lemma_wf_same_splits(old(self), self);
        }
        if !input.window {
            return;
        }
        let held = input.button == ButtonState::Pressed || input.button == ButtonState::JustPressed;
        let point = match input.cursor {
            Some(p) => p,
            None => {
                if !held {
                    self.selected = SelectedFakeSplitter(None);
                    proof {
                        Dock::lemma_wf_same_splits(old(self), self);
                    }
                }
                return;
            },
        };
        let mut found: Option<usize> = None;
        let mut h: usize = 0;
        while h < self.handles.len()
            invariant
                *self == (Dock { cursor: CursorGlyph::Default, ..*old(self) }),
                0 <= h <= self.handles@.len(),
                input.cursor == Some(point),
                found == last_hovered(old(self), input, h as int),
            decreases self.handles@.len() - h,
        {
            match self.handles[h] {
                Some(_) => {
                    if h < input.handle_rects.len() {
                        match input.handle_rects[h] {
                            Some(r) => {
                                if r.contains(point) {
                                    found = Some(h);
                                }
                            },
                            None => {},
                        }
                    }
                },
                None => {},
            }
            h = h + 1;
        }
        proof {
            lemma_last_hovered_is_hovered(old(self), input, self.handles@.len() as int);
        }
        if self.selected.0.is_none() && input.button == ButtonState::JustPressed {
            self.selected = SelectedFakeSplitter(found);
        }
        match found {
            Some(k) => {
                proof {
                    assert(old(self).linked(k as int));
                }
                match self.handles[k] {
                    Some(s) => {
                        self.cursor = resize_glyph(self.splits[s.parent].orientation);
                    },
                    None => {},
                }
            },
            None => {},
        }
        match self.selected.0 {
            None => {},
            Some(k) => {
                let pressed = input.button == ButtonState::Pressed || input.button
                    == ButtonState::JustPressed;
                if !pressed || k >= self.handles.len() {
                    self.selected = SelectedFakeSplitter(None);
                    proof {
                        Dock::lemma_wf_same_splits(old(self), self);
                    }
                    return;
                }
                match self.handles[k] {
                    None => {
                        self.selected = SelectedFakeSplitter(None);
                        proof {
                            Dock::lemma_wf_same_splits(old(self), self);
                        }
                        return;
                    },
                    Some(s) => {
                        proof {
                            assert(old(self).linked(k as int));
                            assert(ratios_valid(old(self).ratios_of(s.parent as int)));
                        }
                        let p = s.parent;
                        let count = self.splits[p].ratios.len();
                        if s.index >= count - 1 {
                            self.selected = SelectedFakeSplitter(None);
                            proof {
                                Dock::lemma_wf_same_splits(old(self), self);
                            }
                            return;
                        }
                        let o = self.splits[p].orientation;
                        self.cursor = resize_glyph(o);
                        match usable(&input.container_rects, p) {
                            None => {},
                            Some(r) => {
                                let extent = r.extent(o);
                                if extent > 0 {
                                    let disp = match o {
                                        SplitOrientation::Horizontal => input.motion_x,
                                        SplitOrientation::Vertical => input.motion_y,
                                    };
                                    let sum = ratio_sum(&self.splits[p].ratios);
                                    let delta = normalized_delta(disp, extent, sum);
                                    let mut rs = copy_tracks(&self.splits[p].ratios);
                                    resize_pair(&mut rs, s.index, delta);
                                    let ghost before = *self;
                                    self.splits.set(p, PanelSplit { orientation: o, ratios: rs });
                                    proof {
                                        assert forall|c: int|
                                            0 <= c < self.n_containers() implies ratios_valid(
                                                #[trigger] self.ratios_of(c),
                                            ) by {
                                            if c != p {
                                                assert(self.ratios_of(c) == old(self).ratios_of(c));
                                            }
                                        }
                                        Dock::lemma_wf_same_structure(old(self), self);
                                        assert forall|c: int|
                                            0 <= c < self.n_containers() implies #[trigger] self.orientation_of(c)
                                                == old(self).orientation_of(c) by {
                                            assert(self.splits@[c].orientation == before.splits@[c].orientation);
                                        }
                                        assert forall|c: int|
                                            0 <= c < self.n_containers() && c != p implies #[trigger] self.ratios_of(c)
                                                == old(self).ratios_of(c) by {
                                            assert(self.splits@[c] == before.splits@[c]);
                                        }
                                    }
                                }
                            },
                        }
                    },
                }
            },
        }
        proof {
            if self.splits == old(self).splits {
                Dock::lemma_wf_same_splits(old(self), self);
            }
        }
    }
}

} // verus!
