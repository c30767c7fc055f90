//! The split tree's store: containers and their splitter handles held in flat
//! arrays and referred to by index, the handle manager, and the layout pass
//! with its change-detection guard.
use vstd::prelude::*;

use crate::layout::{copy_grid, grid_of, grid_spec, same_grid, copy_tracks, CursorGlyph, GridSpec, SplitOrientation};
use crate::ratio::{ratios_valid, validate_ratios, validation_of, DockError};

verus! {

/// What a split container declares: its axis and one weight per child.
pub struct PanelSplit {
    pub orientation: SplitOrientation,
    pub ratios: Vec<u32>,
}

/// The handles a split container owns, in order: `splitters[j]` sits between
/// children `j` and `j + 1`.
pub struct PanelSplitInternal {
    pub splitters: Vec<usize>,
}

/// A splitter handle: the container it belongs to and its position there.
#[derive(Clone, Copy, Debug, PartialEq, Eq, Structural)]
pub struct FakeSplitter {
    pub parent: usize,
    pub index: usize,
}

/// The handle being dragged, if any.
#[derive(Clone, Copy, Debug, PartialEq, Eq, Structural)]
pub struct SelectedFakeSplitter(pub Option<usize>);

/// A layout written to the host engine for one container.
pub struct LayoutWrite {
    pub container: usize,
    pub grid: GridSpec,
}

/// All split containers and handles, the drag session and the cursor glyph.
///
/// Container `c` is described by `splits[c]`, `internals[c]`, `alive[c]` and
/// `emitted[c]` (the last layout written for it). Handle `h` is `handles[h]`,
/// `None` once despawned; handle ids are never reused.
pub struct Dock {
    pub splits: Vec<PanelSplit>,
    pub internals: Vec<PanelSplitInternal>,
    pub alive: Vec<bool>,
    pub emitted: Vec<Option<GridSpec>>,
    pub handles: Vec<Option<FakeSplitter>>,
    pub selected: SelectedFakeSplitter,
    pub cursor: CursorGlyph,
}

impl Dock {
    pub open spec fn n_containers(&self) -> int {
        self.splits@.len() as int
    }

    pub open spec fn ratios_of(&self, c: int) -> Seq<u32> {
        self.splits@[c].ratios@
    }

    pub open spec fn orientation_of(&self, c: int) -> SplitOrientation {
        self.splits@[c].orientation
    }

    pub open spec fn splitters_of(&self, c: int) -> Seq<usize> {
        self.internals@[c].splitters@
    }

    pub open spec fn is_live(&self, c: int) -> bool {
        0 <= c < self.n_containers() && self.alive@[c]
    }

    /// Handle `h` exists and is the `j`-th handle of container `c`.
    pub open spec fn owns(&self, c: int, j: int, h: usize) -> bool {
        &&& h < self.handles@.len()
        &&& self.handles@[h as int] is Some
        &&& self.handles@[h as int]->0.parent == c
        &&& self.handles@[h as int]->0.index == j
    }

    /// A live handle is listed by its container at its own index.
    pub open spec fn linked(&self, h: int) -> bool {
        let s = self.handles@[h]->0;
        &&& s.parent < self.n_containers()
        &&& s.index < self.splitters_of(s.parent as int).len()
        &&& self.splitters_of(s.parent as int)[s.index as int] == h
    }

    /// The store's invariant.
    pub open spec fn wf(&self) -> bool {
        &&& self.internals@.len() == self.n_containers()
        &&& self.alive@.len() == self.n_containers()
        &&& self.emitted@.len() == self.n_containers()
        &&& forall|c: int|
            0 <= c < self.n_containers() ==> ratios_valid(#[trigger] self.ratios_of(c))
        &&& forall|c: int|
            0 <= c < self.n_containers() && !self.alive@[c] ==> (#[trigger] self.splitters_of(
                c,
            )).len() == 0
        &&& forall|c: int, j: int|
            0 <= c < self.n_containers() && 0 <= j < self.splitters_of(c).len() ==> self.owns(
                c,
                j,
                #[trigger] self.splitters_of(c)[j],
            )
        &&& forall|h: int|
            0 <= h < self.handles@.len() && (#[trigger] self.handles@[h]) is Some ==> self.linked(
                h,
            )
    }

    /// The last layout written for `c` is the one its current state asks for.
    pub open spec fn emitted_matches(&self, c: int) -> bool {
        match self.emitted@[c] {
            Some(g) => g@ == grid_of(self.orientation_of(c), self.ratios_of(c)),
            None => false,
        }
    }

    /// Every live container has the handles and the layout its ratios ask for.
    pub open spec fn synced(&self) -> bool {
        forall|c: int|
            #![trigger self.splitters_of(c)]
            #![trigger self.emitted@[c]]
            self.is_live(c) ==> self.emitted_matches(c) && self.splitters_of(c).len()
                == self.ratios_of(c).len() - 1
    }

    /// Both states hold the same containers, with the same ratios and orientations.
    pub open spec fn same_splits(&self, other: &Dock) -> bool {
        &&& self.n_containers() == other.n_containers()
        &&& self.alive@ == other.alive@
        &&& forall|c: int|
            0 <= c < self.n_containers() ==> #[trigger] self.ratios_of(c) == other.ratios_of(c)
                && self.orientation_of(c) == other.orientation_of(c)
    }

    /// The invariant depends on the ratios only through their validity, and
    /// not on the layouts written.
    pub proof fn lemma_wf_same_structure(a: &Dock, b: &Dock)
        requires
            a.wf(),
            b.splits@.len() == a.splits@.len(),
            b.internals == a.internals,
            b.alive == a.alive,
            b.handles == a.handles,
            b.emitted@.len() == a.emitted@.len(),
            forall|c: int| 0 <= c < b.n_containers() ==> ratios_valid(#[trigger] b.ratios_of(c)),
        ensures
            b.wf(),
    {
        assert forall|c: int|
            0 <= c < b.n_containers() && !b.alive@[c] implies (#[trigger] b.splitters_of(c)).len()
                == 0 by {
            assert(a.splitters_of(c).len() == 0);
        }
        assert forall|c: int, j: int|
            0 <= c < b.n_containers() && 0 <= j < b.splitters_of(c).len() implies b.owns(
            c,
            j,
            #[trigger] b.splitters_of(c)[j],
        ) by {
            assert(a.owns(c, j, a.splitters_of(c)[j]));
        }
        assert forall|h: int|
            0 <= h < b.handles@.len() && (#[trigger] b.handles@[h]) is Some implies b.linked(h) by {
            assert(a.linked(h));
        }
    }

    /// The invariant does not depend on the drag session, the cursor, or the
    /// layouts written.
    pub proof fn lemma_wf_same_splits(a: &Dock, b: &Dock)
        requires
            a.wf(),
            b.splits == a.splits,
            b.internals == a.internals,
            b.alive == a.alive,
            b.handles == a.handles,
            b.emitted@.len() == a.emitted@.len(),
        ensures
            b.wf(),
    {
        assert forall|c: int| 0 <= c < b.n_containers() implies ratios_valid(
            #[trigger] b.ratios_of(c),
        ) by {
            assert(a.ratios_of(c) == b.ratios_of(c));
        }
        Dock::lemma_wf_same_structure(a, b);
    }

    /// An empty dock: no container, no handle, no drag, the default cursor.
    pub fn new() -> (d: Dock)
        ensures
            d.wf(),
            d.n_containers() == 0,
            d.handles@.len() == 0,
            d.selected == SelectedFakeSplitter(None),
            d.cursor == CursorGlyph::Default,
    {
        Dock {
            splits: Vec::new(),
            internals: Vec::new(),
            alive: Vec::new(),
            emitted: Vec::new(),
            handles: Vec::new(),
            selected: SelectedFakeSplitter(None),
            cursor: CursorGlyph::Default,
        }
    }

    /// Declares a split container with orientation `o` and `ratios`. It gets the
    /// next id, and its handles and layout at the next `sync`.
    pub fn create_split(&mut self, o: SplitOrientation, ratios: Vec<u32>) -> (res: Result<
        usize,
        DockError,
    >)
        requires
            old(self).wf(),
        ensures
            final(self).wf(),
            final(self).handles == old(self).handles,
            final(self).selected == old(self).selected,
            final(self).cursor == old(self).cursor,
            validation_of(ratios@) is Err ==> res == Err::<usize, DockError>(
                validation_of(ratios@)->Err_0,
            ) && *final(self) == *old(self),
            validation_of(ratios@) is Ok ==> {
                &&& res == Ok::<usize, DockError>(old(self).n_containers() as usize)
                &&& final(self).emitted@ == old(self).emitted@.push(None)
                &&& final(self).n_containers() == old(self).n_containers() + 1
                &&& final(self).is_live(old(self).n_containers())
                &&& final(self).ratios_of(old(self).n_containers()) == ratios@
                &&& final(self).orientation_of(old(self).n_containers()) == o
                &&& final(self).splitters_of(old(self).n_containers()).len() == 0
                &&& forall|c: int|
                    0 <= c < old(self).n_containers() ==> final(self).alive@[c] == old(self).alive@[c] && #[trigger] final(self).ratios_of(c) == old(self).ratios_of(c)
                        && final(self).orientation_of(c) == old(self).orientation_of(c)
                        && final(self).splitters_of(c) == old(self).splitters_of(c)
            },
    {
        match validate_ratios(&ratios) {
            Err(e) => Err(e),
            Ok(()) => {
                let id = self.splits.len();
                self.splits.push(PanelSplit { orientation: o, ratios });
                self.internals.push(PanelSplitInternal { splitters: Vec::new() });
                self.alive.push(true);
                self.emitted.push(None);
                proof {
                    assert(self.splitters_of(id as int) =~= Seq::<usize>::empty());
                    assert forall|c: int, j: int|
                        0 <= c < self.n_containers() && 0 <= j < self.splitters_of(
                            c,
                        ).len() implies self.owns(c, j, #[trigger] self.splitters_of(c)[j]) by {
                        assert(c < id);
                        assert(self.splitters_of(c) == old(self).splitters_of(c));
                    }
                    assert forall|h: int|
                        0 <= h < self.handles@.len() && (#[trigger] self.handles@[h]) is Some implies self.linked(
                        h,
                    ) by {
                        assert(old(self).linked(h));
                        let s = self.handles@[h]->0;
                        assert(self.splitters_of(s.parent as int) == old(self).splitters_of(
                            s.parent as int,
                        ));
                    }
                    assert forall|c: int|
                        0 <= c < self.n_containers() && !self.alive@[c] implies (
                        #[trigger] self.splitters_of(c)).len() == 0 by {
                        assert(c < id);
                        assert(self.splitters_of(c) == old(self).splitters_of(c));
                    }
                    assert forall|c: int|
                        0 <= c < self.n_containers() implies ratios_valid(
                            #[trigger] self.ratios_of(c),
                        ) by {
                        if c < id {
                            assert(self.ratios_of(c) == old(self).ratios_of(c));
                        }
                    }
                }
                Ok(id)
            },
        }
    }

    /// Replaces the ratios of container `c`. They must pass the same checks as
    /// at creation; on any failure nothing changes. Handles follow at the next `sync`.
    pub fn set_ratios(&mut self, c: usize, ratios: Vec<u32>) -> (res: Result<(), DockError>)
        requires
            old(self).wf(),
        ensures
            final(self).wf(),
            !old(self).is_live(c as int) ==> res == Err::<(), DockError>(
                DockError::UnknownContainer,
            ),
            old(self).is_live(c as int) && validation_of(ratios@) is Err ==> res == Err::<
                (),
                DockError,
            >(validation_of(ratios@)->Err_0),
            res is Err ==> *final(self) == *old(self),
            old(self).is_live(c as int) && validation_of(ratios@) is Ok ==> {
                &&& res is Ok
                &&& final(self).ratios_of(c as int) == ratios@
                &&& final(self).orientation_of(c as int) == old(self).orientation_of(c as int)
                &&& final(self).n_containers() == old(self).n_containers()
                &&& final(self).internals == old(self).internals
                &&& final(self).alive == old(self).alive
                &&& final(self).emitted == old(self).emitted
                &&& final(self).handles == old(self).handles
                &&& final(self).selected == old(self).selected
                &&& final(self).cursor == old(self).cursor
                &&& forall|k: int|
                    0 <= k < final(self).n_containers() && k != c ==> #[trigger] final(self).ratios_of(k)
                        == old(self).ratios_of(k) && final(self).orientation_of(k) == old(
                        self).orientation_of(k)
            },
    {
        if c >= self.splits.len() || !self.alive[c] {
            return Err(DockError::UnknownContainer);
        }
        match validate_ratios(&ratios) {
            Err(e) => Err(e),
            Ok(()) => {
                let o = self.splits[c].orientation;
                self.splits.set(c, PanelSplit { orientation: o, ratios });
                proof {
                    assert forall|k: int|
                        0 <= k < self.n_containers() implies ratios_valid(
                            #[trigger] self.ratios_of(k),
                        ) by {
                        if k != c {
                            assert(self.ratios_of(k) == old(self).ratios_of(k));
                        }
                    }
                    Dock::lemma_wf_same_structure(old(self), self);
                }
                Ok(())
            },
        }
    }

    /// The current ratios of container `c`.
    pub fn get_ratios(&self, c: usize) -> (res: Result<Vec<u32>, DockError>)
        requires
            self.wf(),
        ensures
            !self.is_live(c as int) ==> res == Err::<Vec<u32>, DockError>(
                DockError::UnknownContainer,
            ),
            self.is_live(c as int) ==> res is Ok && res->Ok_0@ == self.ratios_of(c as int),
    {
        if c >= self.splits.len() || !self.alive[c] {
            return Err(DockError::UnknownContainer);
        }
        Ok(copy_tracks(&self.splits[c].ratios))
    }

    /// Removes container `c`, despawning all its handles.
    pub fn remove_split(&mut self, c: usize) -> (res: Result<(), DockError>)
        requires
            old(self).wf(),
        ensures
            final(self).wf(),
            !old(self).is_live(c as int) ==> res == Err::<(), DockError>(
                DockError::UnknownContainer,
            ) && *final(self) == *old(self),
            old(self).is_live(c as int) ==> {
                &&& res is Ok
                &&& !final(self).is_live(c as int)
                &&& final(self).splitters_of(c as int).len() == 0
                &&& forall|h: int|
                    0 <= h < final(self).handles@.len() && (#[trigger] final(self).handles@[h]) is Some
                        ==> final(self).handles@[h]->0.parent != c
                &&& final(self).handles@.len() == old(self).handles@.len()
                &&& final(self).splits == old(self).splits
                &&& final(self).emitted == old(self).emitted
                &&& final(self).selected == old(self).selected
                &&& final(self).cursor == old(self).cursor
                &&& forall|k: int|
                    0 <= k < final(self).n_containers() && k != c ==> final(self).alive@[k] == old(
                        self).alive@[k] && #[trigger] final(self).splitters_of(k) == old(self).splitters_of(k)
            },
    {
        if c >= self.splits.len() || !self.alive[c] {
            return Err(DockError::UnknownContainer);
        }
        self.shrink_handles(c, 0);
        let ghost mid = *self;
        self.alive.set(c, false);
        proof {
            assert(self.splitters_of(c as int).len() == 0);
            assert forall|k: int|
                0 <= k < self.n_containers() && !self.alive@[k] implies (
                #[trigger] self.splitters_of(k)).len() == 0 by {
                if k != c {
                    assert(self.splitters_of(k) == mid.splitters_of(k));
                    assert(mid.splitters_of(k) == old(self).splitters_of(k));
                    assert(!old(self).alive@[k]);
                    assert(old(self).splitters_of(k).len() == 0);
                }
            }
            assert forall|k: int|
                0 <= k < self.n_containers() implies ratios_valid(#[trigger] self.ratios_of(k)) by {
                assert(mid.ratios_of(k) == self.ratios_of(k));
            }
            assert forall|k: int, j: int|
                0 <= k < self.n_containers() && 0 <= j < self.splitters_of(k).len() implies self.owns(
                k,
                j,
                #[trigger] self.splitters_of(k)[j],
            ) by {
                assert(mid.splitters_of(k) == self.splitters_of(k));
                assert(mid.owns(k, j, mid.splitters_of(k)[j]));
            }
            assert forall|h: int|
                0 <= h < self.handles@.len() && (#[trigger] self.handles@[h]) is Some implies self.linked(h) by {
                assert(mid.handles@[h] is Some);
                assert(mid.linked(h));
                let s = mid.handles@[h]->0;
                assert(mid.splitters_of(s.parent as int) == self.splitters_of(s.parent as int));
            }
            assert forall|k: int|
                0 <= k < self.n_containers() && k != c implies self.alive@[k] == old(self).alive@[k]
                    && #[trigger] self.splitters_of(k) == old(self).splitters_of(k) by {
                assert(self.splitters_of(k) == mid.splitters_of(k));
                assert(mid.splitters_of(k) == old(self).splitters_of(k));
            }
            assert forall|h: int|
                0 <= h < self.handles@.len() && (#[trigger] self.handles@[h]) is Some implies self.handles@[h]->0.parent != c by {
                assert(self.linked(h));
            }
        }
        Ok(())
    }

    /// One layout pass. For every live container: writes its grid to the layout
    /// engine unless the last grid written for it is the same, and brings its
    /// handle count to one less than its ratio count, appending or removing at
    /// the tail so that the handles that stay keep their ids.
    pub fn sync(&mut self) -> (writes: Vec<LayoutWrite>)
        requires
            old(self).wf(),
        ensures
            final(self).wf(),
            final(self).synced(),
            forall|c: int, j: int|
                final(self).is_live(c) && 0 <= j < final(self).splitters_of(c).len() ==> final(
                self).owns(c, j, #[trigger] final(self).splitters_of(c)[j]),
            final(self).same_splits(old(self)),
            final(self).selected == old(self).selected,
            final(self).cursor == old(self).cursor,
            forall|c: int, j: int|
                0 <= c < final(self).n_containers() && 0 <= j < old(self).splitters_of(c).len()
                    && j < final(self).splitters_of(c).len() ==> #[trigger] final(self).splitters_of(c)[j]
                    == old(self).splitters_of(c)[j],
            final(self).handles@.len() >= old(self).handles@.len(),
            forall|h: int|
                0 <= h < old(self).handles@.len() && old(self).handles@[h] is None ==> #[trigger] final(
                self).handles@[h] is None,
            forall|c: int, j: int|
                0 <= c < final(self).n_containers() && old(self).splitters_of(c).len() <= j
                    < final(self).splitters_of(c).len() ==> #[trigger] final(self).splitters_of(c)[j]
                    >= old(self).handles@.len(),
            forall|c: int, j: int|
                0 <= c < final(self).n_containers() && final(self).splitters_of(c).len() <= j
                    < old(self).splitters_of(c).len() ==> final(self).handles@[#[trigger] old(
                self).splitters_of(c)[j] as int] is None,
            forall|i: int|
                0 <= i < writes@.len() ==> {
                    let c = (#[trigger] writes@[i]).container as int;
                    &&& final(self).is_live(c)
                    &&& !old(self).emitted_matches(c)
                    &&& writes@[i].grid@ == grid_of(old(self).orientation_of(c), old(self).ratios_of(c))
                },
            forall|c: int|
                old(self).is_live(c) && !old(self).emitted_matches(c) ==> exists|i: int|
                    0 <= i < writes@.len() && (#[trigger] writes@[i]).container == c,
            old(self).synced() ==> writes@.len() == 0,
    {
        let mut writes: Vec<LayoutWrite> = Vec::new();
        let n = self.splits.len();
        let ghost ob = old(self).handles@.len();
        let mut c: usize = 0;
        while c < n
            invariant
                self.wf(),
                old(self).wf(),
                n == self.n_containers(),
                0 <= c <= n,
                self.same_splits(old(self)),
                self.selected == old(self).selected,
                self.cursor == old(self).cursor,
                ob == old(self).handles@.len(),
                self.handles@.len() >= ob,
                forall|h: int|
                    0 <= h < ob && old(self).handles@[h] is None ==> #[trigger] self.handles@[h] is None,
                forall|k: int, j: int|
                    0 <= k < n && 0 <= j < old(self).splitters_of(k).len() && j < self.splitters_of(k).len()
                        ==> #[trigger] self.splitters_of(k)[j] == old(self).splitters_of(k)[j],
                forall|k: int, j: int|
                    0 <= k < n && old(self).splitters_of(k).len() <= j < self.splitters_of(k).len()
                        ==> #[trigger] self.splitters_of(k)[j] >= ob,
                forall|k: int, j: int|
                    0 <= k < n && self.splitters_of(k).len() <= j < old(self).splitters_of(k).len()
                        ==> self.handles@[#[trigger] old(self).splitters_of(k)[j] as int] is None,
                forall|k: int|
                    c <= k < n ==> #[trigger] self.emitted@[k] == old(self).emitted@[k]
                        && self.splitters_of(k) == old(self).splitters_of(k),
                forall|k: int|
                    0 <= k < c && self.is_live(k) ==> #[trigger] self.emitted_matches(k)
                        && self.splitters_of(k).len() == self.ratios_of(k).len() - 1,
                forall|i: int|
                    0 <= i < writes@.len() ==> {
                        let k = (#[trigger] writes@[i]).container as int;
                        &&& 0 <= k < c
                        &&& self.is_live(k)
                        &&& !old(self).emitted_matches(k)
                        &&& writes@[i].grid@ == grid_of(old(self).orientation_of(k), old(self).ratios_of(k))
                    },
                forall|k: int|
                    0 <= k < c && old(self).is_live(k) && !old(self).emitted_matches(k) ==> exists|i: int|
                        0 <= i < writes@.len() && (#[trigger] writes@[i]).container == k,
            decreases n - c,
        {
            let ghost start = *self;
            let ghost w0 = writes@;
            proof {
                assert(start.emitted@[c as int] == old(self).emitted@[c as int]);
                assert(start.ratios_of(c as int) == old(self).ratios_of(c as int));
                assert(start.emitted_matches(c as int) == old(self).emitted_matches(c as int));
            }
            match self.sync_container(c) {
                Some(w) => {
                    writes.push(w);
                },
                None => {},
            }
            proof {
                assert forall|k: int|
                    0 <= k < n implies #[trigger] self.ratios_of(k) == old(self).ratios_of(k)
                        && self.orientation_of(k) == old(self).orientation_of(k) by {
                    assert(start.ratios_of(k) == old(self).ratios_of(k));
                }
                assert forall|h: int|
                    0 <= h < ob && old(self).handles@[h] is None implies #[trigger] self.handles@[h] is None by {
                    assert(start.handles@[h] is None);
                }
                assert forall|k: int, j: int|
                    0 <= k < n && 0 <= j < old(self).splitters_of(k).len() && j < self.splitters_of(k).len()
                        implies #[trigger] self.splitters_of(k)[j] == old(self).splitters_of(k)[j] by {
                    if k != c {
                        assert(self.emitted@[k] == start.emitted@[k]);
                        assert(self.splitters_of(k) == start.splitters_of(k));
                    } else {
                        assert(start.emitted@[k] == old(self).emitted@[k]);
                    }
                }
                assert forall|k: int, j: int|
                    0 <= k < n && old(self).splitters_of(k).len() <= j < self.splitters_of(k).len()
                        implies #[trigger] self.splitters_of(k)[j] >= ob by {
                    if k != c {
                        assert(self.emitted@[k] == start.emitted@[k]);
                        assert(self.splitters_of(k) == start.splitters_of(k));
                    } else {
                        assert(start.emitted@[k] == old(self).emitted@[k]);
                    }
                }
                assert forall|k: int, j: int|
                    0 <= k < n && self.splitters_of(k).len() <= j < old(self).splitters_of(k).len()
                        implies self.handles@[#[trigger] old(self).splitters_of(k)[j] as int] is None by {
                    assert(old(self).owns(k, j, old(self).splitters_of(k)[j]));
                    if k != c {
                        assert(self.emitted@[k] == start.emitted@[k]);
                        assert(self.splitters_of(k) == start.splitters_of(k));
                        assert(start.handles@[old(self).splitters_of(k)[j] as int] is None);
                    } else {
                        assert(start.emitted@[k] == old(self).emitted@[k]);
                    }
                }
                assert forall|i: int|
                    0 <= i < writes@.len() implies {
                        let k = (#[trigger] writes@[i]).container as int;
                        &&& 0 <= k < c + 1
                        &&& self.is_live(k)
                        &&& !old(self).emitted_matches(k)
                        &&& writes@[i].grid@ == grid_of(old(self).orientation_of(k), old(self).ratios_of(k))
                    } by {
                    if i < w0.len() {
                        assert(writes@[i] == w0[i]);
                    }
                }
                assert forall|k: int|
                    0 <= k < c + 1 && old(self).is_live(k) && !old(self).emitted_matches(k) implies exists|i: int|
                        0 <= i < writes@.len() && (#[trigger] writes@[i]).container == k by {
                    if k < c {
                        let i = choose|i: int| 0 <= i < w0.len() && (#[trigger] w0[i]).container == k;
                        assert(writes@[i] == w0[i]);
                    } else {
                        assert(writes@[w0.len() as int].container == c);
                    }
                }
            }
            c = c + 1;
            proof {
                assert forall|k: int|
                    0 <= k < c && self.is_live(k) implies #[trigger] self.emitted_matches(k)
                        && self.splitters_of(k).len() == self.ratios_of(k).len() - 1 by {
                    if k < c - 1 {
                        assert(start.alive@[k]);
                        assert(start.emitted_matches(k));
                        assert(self.emitted@[k] == start.emitted@[k]);
                        assert(self.splitters_of(k) == start.splitters_of(k));
                        assert(self.ratios_of(k) == start.ratios_of(k));
                        assert(self.orientation_of(k) == start.orientation_of(k));
                    } else {
                        assert(start.alive@[k]);
                        assert(self.emitted_matches(k));
                    }
                }
                assert forall|k: int|
                    c <= k < n implies #[trigger] self.emitted@[k] == old(self).emitted@[k]
                        && self.splitters_of(k) == old(self).splitters_of(k) by {
                    assert(self.emitted@[k] == start.emitted@[k]);
                    assert(self.splitters_of(k) == start.splitters_of(k));
                    assert(start.emitted@[k] == old(self).emitted@[k]);
                }
            }
        }
        proof {
            if old(self).synced() && writes@.len() > 0 {
                let k = writes@[0].container as int;
                assert(old(self).is_live(k));
                assert(old(self).emitted_matches(k));
            }
        }
        writes
    }

    /// The layout pass for one container: a live container gets its grid
    /// written, unless the last one written is the same, and its handle count
    /// brought to one less than its ratio count. A removed one is left alone.
    fn sync_container(&mut self, c: usize) -> (w: Option<LayoutWrite>)
        requires
            old(self).wf(),
            0 <= c < old(self).n_containers(),
        ensures
            final(self).wf(),
            final(self).splits == old(self).splits,
            final(self).alive == old(self).alive,
            final(self).selected == old(self).selected,
            final(self).cursor == old(self).cursor,
            forall|k: int|
                0 <= k < old(self).n_containers() && k != c ==> #[trigger] final(self).emitted@[k]
                    == old(self).emitted@[k] && final(self).splitters_of(k) == old(self).splitters_of(k),
            old(self).alive@[c as int] ==> final(self).emitted_matches(c as int)
                && final(self).splitters_of(c as int).len() == final(self).ratios_of(c as int).len() - 1,
            !old(self).alive@[c as int] ==> *final(self) == *old(self),
            w is Some <==> old(self).alive@[c as int] && !old(self).emitted_matches(c as int),
            w is Some ==> w->0.container == c && w->0.grid@ == grid_of(
                old(self).orientation_of(c as int),
                old(self).ratios_of(c as int),
            ),
            final(self).handles@.len() >= old(self).handles@.len(),
            forall|h: int|
                0 <= h < old(self).handles@.len() && old(self).handles@[h] is None ==> #[trigger] final(
                self).handles@[h] is None,
            forall|j: int|
                0 <= j < old(self).splitters_of(c as int).len() && j < final(self).splitters_of(
                    c as int,
                ).len() ==> #[trigger] final(self).splitters_of(c as int)[j] == old(self).splitters_of(
                    c as int,
                )[j],
            forall|j: int|
                old(self).splitters_of(c as int).len() <= j < final(self).splitters_of(c as int).len()
                    ==> #[trigger] final(self).splitters_of(c as int)[j] >= old(self).handles@.len(),
            forall|j: int|
                final(self).splitters_of(c as int).len() <= j < old(self).splitters_of(c as int).len()
                    ==> final(self).handles@[#[trigger] old(self).splitters_of(c as int)[j] as int] is None,
    {
        if !self.alive[c] {
            return None;
        }
        let o = self.splits[c].orientation;
        let grid = grid_spec(o, &self.splits[c].ratios);
        let same = match &self.emitted[c] {
            Some(g) => same_grid(g, &grid),
            None => false,
        };
        let mut w: Option<LayoutWrite> = None;
        if !same {
            w = Some(LayoutWrite { container: c, grid: copy_grid(&grid) });
            self.emitted.set(c, Some(grid));
            proof {
                Dock::lemma_wf_same_splits(old(self), self);
            }
        }
        let ghost mid = *self;
        proof {
            assert(ratios_valid(old(self).ratios_of(c as int)));
            assert(self.ratios_of(c as int) == old(self).ratios_of(c as int));
        }
        let target = self.splits[c].ratios.len() - 1;
        let have = self.internals[c].splitters.len();
        if have < target {
            self.grow_handles(c, target);
        } else if have > target {
            self.shrink_handles(c, target);
        }
        proof {
            assert forall|k: int|
                0 <= k < old(self).n_containers() && k != c implies #[trigger] self.emitted@[k]
                    == old(self).emitted@[k] && self.splitters_of(k) == old(self).splitters_of(k) by {
                assert(self.splitters_of(k) == mid.splitters_of(k));
            }
            assert(self.ratios_of(c as int) == mid.ratios_of(c as int));
        }
        w
    }

    /// Appends handles to container `c` until it has `target` of them.
    fn grow_handles(&mut self, c: usize, target: usize)
        requires
            old(self).wf(),
            0 <= c < old(self).n_containers(),
            old(self).alive@[c as int],
            old(self).splitters_of(c as int).len() <= target,
        ensures
            final(self).wf(),
            final(self).splits == old(self).splits,
            final(self).alive == old(self).alive,
            final(self).emitted == old(self).emitted,
            final(self).selected == old(self).selected,
            final(self).cursor == old(self).cursor,
            final(self).splitters_of(c as int).len() == target,
            forall|j: int|
                0 <= j < old(self).splitters_of(c as int).len() ==> #[trigger] final(self).splitters_of(c as int)[j] == old(self).splitters_of(c as int)[j],
            final(self).handles@.len() >= old(self).handles@.len(),
            forall|h: int|
                0 <= h < old(self).handles@.len() ==> #[trigger] final(self).handles@[h] == old(self).handles@[h],
            forall|j: int|
                old(self).splitters_of(c as int).len() <= j < target ==> #[trigger] final(self).splitters_of(c as int)[j]
                    >= old(self).handles@.len(),
            forall|k: int|
                0 <= k < final(self).n_containers() && k != c ==> #[trigger] final(self).splitters_of(k) == old(self).splitters_of(k),
    {
        let n = self.internals[c].splitters.len();
        let mut spl = prefix_of(&self.internals[c].splitters, n);
        let ghost old_spl = old(self).splitters_of(c as int);
        let ghost old_h = old(self).handles@;
        let base = self.handles.len();
        while spl.len() < target
            invariant
                self.splits == old(self).splits,
                self.internals == old(self).internals,
                self.alive == old(self).alive,
                self.emitted == old(self).emitted,
                self.selected == old(self).selected,
                self.cursor == old(self).cursor,
                old(self).wf(),
                0 <= c < old(self).n_containers(),
                old_spl == old(self).splitters_of(c as int),
                old_h == old(self).handles@,
                base == old_h.len(),
                n == old_spl.len(),
                n <= spl@.len() <= target,
                self.handles@.len() == base + (spl@.len() - n),
                forall|k: int| 0 <= k < base ==> #[trigger] self.handles@[k] == old_h[k],
                forall|k: int|
                    base <= k < self.handles@.len() ==> #[trigger] self.handles@[k] == Some(
                        FakeSplitter { parent: c, index: (n + (k - base)) as usize },
                    ),
                forall|j: int| 0 <= j < n ==> #[trigger] spl@[j] == old_spl[j],
                forall|j: int| n <= j < spl@.len() ==> #[trigger] spl@[j] == base + (j - n),
            decreases target - spl@.len(),
        {
            let id = self.handles.len();
            self.handles.push(Some(FakeSplitter { parent: c, index: spl.len() }));
            spl.push(id);
        }
        self.internals.set(c, PanelSplitInternal { splitters: spl });
        proof {
            assert forall|k: int, j: int|
                0 <= k < self.n_containers() && 0 <= j < self.splitters_of(k).len() implies self.owns(
                k,
                j,
                #[trigger] self.splitters_of(k)[j],
            ) by {
                if k != c {
                    assert(self.splitters_of(k) == old(self).splitters_of(k));
                    assert(old(self).owns(k, j, old(self).splitters_of(k)[j]));
                } else if j < n {
                    assert(old(self).owns(k, j, old_spl[j]));
                }
            }
            assert forall|h: int|
                0 <= h < self.handles@.len() && (#[trigger] self.handles@[h]) is Some implies self.linked(
                h,
            ) by {
                if h < base {
                    assert(old(self).handles@[h] is Some);
                    assert(old(self).linked(h));
                    let s = old_h[h]->0;
                    if s.parent != c {
                        assert(self.splitters_of(s.parent as int) == old(self).splitters_of(
                            s.parent as int,
                        ));
                    }
                } else {
                    assert(self.splitters_of(c as int)[n + (h - base)] == h);
                }
            }
            assert forall|k: int|
                0 <= k < self.n_containers() && !self.alive@[k] implies (
                #[trigger] self.splitters_of(k)).len() == 0 by {
                assert(k != c);
                assert(self.splitters_of(k) == old(self).splitters_of(k));
            }
            assert forall|k: int|
                0 <= k < self.n_containers() implies ratios_valid(#[trigger] self.ratios_of(k)) by {
                assert(self.ratios_of(k) == old(self).ratios_of(k));
            }
        }
    }

    /// Despawns the handles of container `c` from the tail until `target` remain.
    fn shrink_handles(&mut self, c: usize, target: usize)
        requires
            old(self).wf(),
            0 <= c < old(self).n_containers(),
            target <= old(self).splitters_of(c as int).len(),
        ensures
            final(self).wf(),
            final(self).splits == old(self).splits,
            final(self).alive == old(self).alive,
            final(self).emitted == old(self).emitted,
            final(self).selected == old(self).selected,
            final(self).cursor == old(self).cursor,
            final(self).handles@.len() == old(self).handles@.len(),
            forall|h: int|
                0 <= h < old(self).handles@.len() && old(self).handles@[h] is None ==> #[trigger] final(
                self).handles@[h] is None,
            forall|j: int|
                target <= j < old(self).splitters_of(c as int).len() ==> final(self).handles@[#[trigger] old(
                self).splitters_of(c as int)[j] as int] is None,
            final(self).splitters_of(c as int) == old(self).splitters_of(c as int).subrange(
                0,
                target as int,
            ),
            forall|k: int|
                0 <= k < final(self).n_containers() && k != c ==> #[trigger] final(self).splitters_of(k) == old(self).splitters_of(k),
    {
        let n = self.internals[c].splitters.len();
        let spl = prefix_of(&self.internals[c].splitters, target);
        let ghost old_spl = old(self).splitters_of(c as int);
        let ghost old_h = old(self).handles@;
        let mut m: usize = target;
        while m < n
            invariant
                self.splits == old(self).splits,
                self.internals == old(self).internals,
                self.alive == old(self).alive,
                self.emitted == old(self).emitted,
                self.selected == old(self).selected,
                self.cursor == old(self).cursor,
                old(self).wf(),
                0 <= c < old(self).n_containers(),
                old_spl == old(self).splitters_of(c as int),
                old_h == old(self).handles@,
                n == old_spl.len(),
                target <= m <= n,
                spl@ == old_spl.subrange(0, target as int),
                self.handles@.len() == old_h.len(),
                forall|h: int|
                    0 <= h < old_h.len() ==> #[trigger] self.handles@[h] == old_h[h] || (
                    self.handles@[h] is None && old_h[h] is Some && old_h[h]->0.parent == c
                        && target <= old_h[h]->0.index),
                forall|j: int| target <= j < m ==> #[trigger] self.handles@[old_spl[j] as int] is None,
            decreases n - m,
        {
            let h = self.internals[c].splitters[m];
            proof {
                assert(old(self).owns(c as int, m as int, old_spl[m as int]));
            }
            self.handles.set(h, None);
            m = m + 1;
        }
        self.internals.set(c, PanelSplitInternal { splitters: spl });
        proof {
            assert forall|k: int, j: int|
                0 <= k < self.n_containers() && 0 <= j < self.splitters_of(k).len() implies self.owns(
                k,
                j,
                #[trigger] self.splitters_of(k)[j],
            ) by {
                let hh = old(self).splitters_of(k)[j] as int;
                if k != c {
                    assert(self.splitters_of(k) == old(self).splitters_of(k));
                } else {
                    assert(self.splitters_of(k)[j] == old_spl[j]);
                }
                assert(old(self).owns(k, j, old(self).splitters_of(k)[j]));
                assert(self.handles@[hh] == old_h[hh] || (self.handles@[hh] is None && old_h[hh] is Some
                    && old_h[hh]->0.parent == c && target <= old_h[hh]->0.index));

            }
            assert forall|h: int|
                0 <= h < self.handles@.len() && (#[trigger] self.handles@[h]) is Some implies self.linked(
                h,
            ) by {
                assert(self.handles@[h] == old_h[h]);
                assert(old(self).handles@[h] is Some);
                assert(old(self).linked(h));
                let s = old_h[h]->0;
                if s.parent != c {
                    assert(self.splitters_of(s.parent as int) == old(self).splitters_of(
                        s.parent as int,
                    ));
                } else if s.index >= target {
                    assert(self.handles@[old_spl[s.index as int] as int] is None);
                }
            }
            assert forall|k: int|
                0 <= k < self.n_containers() && !self.alive@[k] implies (
                #[trigger] self.splitters_of(k)).len() == 0 by {
                if k != c {
                    assert(self.splitters_of(k) == old(self).splitters_of(k));
                }
            }
            assert forall|k: int|
                0 <= k < self.n_containers() implies ratios_valid(#[trigger] self.ratios_of(k)) by {
                assert(self.ratios_of(k) == old(self).ratios_of(k));
            }
        }
    }
}

/// The first `len` entries of `v`.
pub fn prefix_of(v: &Vec<usize>, len: usize) -> (r: Vec<usize>)
    requires
        len <= v@.len(),
    ensures
        r@ == v@.subrange(0, len as int),
{
    let mut r: Vec<usize> = Vec::new();
    let mut i: usize = 0;
    while i < len
        invariant
            0 <= i <= len <= v@.len(),
            r@ == v@.subrange(0, i as int),
        decreases len - i,
    {
        r.push(v[i]);
        i = i + 1;
        assert(r@ =~= v@.subrange(0, i as int));
    }
    r
}

} // verus!
