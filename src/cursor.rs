//! Editing the force grid with the mouse: which edit mode the held keys
//! select, and the drag session that captures cells on a press, rewrites them
//! while the mouse moves and lets go of them on release.
use crate::grid::{selection, Grid};
use crate::keys::Key;
use vstd::prelude::*;

verus! {

/// How a drag displaces the captured vectors.
#[derive(Clone, Copy, Debug, PartialEq, Eq, Structural)]
pub enum EditModeE {
    /// Each vector points at the cursor.
    Centered,
    /// Each vector is moved by the drag.
    Shift,
    /// Each vector is turned about the drag's anchor.
    Rotate,
}

/// Whether a drag adds to the vectors captured at the press or replaces
/// them.
#[derive(Clone, Copy, Debug, PartialEq, Eq, Structural)]
pub enum RelAbE {
    Relative,
    Absolute,
}

/// How the effect of a drag fades with distance.
#[derive(Clone, Copy, Debug, PartialEq, Eq, Structural)]
pub enum Falloff {
    Abrupt,
    Linear,
    InverseDistance,
}

/// The edit mode selected by the held keys: the last control or shift key in
/// `keys` decides, and with neither held the mode is `Centered`.
pub open spec fn mode_for_keys(keys: Seq<Key>) -> EditModeE
    decreases keys.len(),
{
    if keys.len() == 0 {
        EditModeE::Centered
    } else {
        match keys.last() {
            Key::LControl | Key::RControl => EditModeE::Rotate,
            Key::LShift | Key::RShift => EditModeE::Shift,
            _ => mode_for_keys(keys.drop_last()),
        }
    }
}

/// Holding space makes edits absolute.
pub open spec fn relativity_for_keys(keys: Seq<Key>) -> RelAbE {
    if keys.contains(Key::Space) {
        RelAbE::Absolute
    } else {
        RelAbE::Relative
    }
}

/// The settings of an edit. `S` is the scalar type of the radius within
/// which a press captures cells and of the strength of the edit.
#[derive(Clone, Copy, Debug)]
pub struct EditMode<S> {
    pub mode: EditModeE,
    pub ra: RelAbE,
    pub falloff: Falloff,
    pub falloff_dist: S,
    pub strength: S,
}

impl<S> EditMode<S> {
    /// Sets mode and relativity from the keys held this frame, overriding any
    /// earlier choice; falloff, radius and strength are kept.
    pub fn process_input(&mut self, keys: &[Key])
        ensures
            final(self).mode == mode_for_keys(keys@),
            final(self).ra == relativity_for_keys(keys@),
            final(self).falloff == old(self).falloff,
            final(self).falloff_dist == old(self).falloff_dist,
            final(self).strength == old(self).strength,
    {
        let mut mode = EditModeE::Centered;
        let mut space = false;
        let mut idx: usize = 0;
        while idx < keys.len()
            invariant
                idx <= keys@.len(),
                mode == mode_for_keys(keys@.subrange(0, idx as int)),
                space == keys@.subrange(0, idx as int).contains(Key::Space),
            decreases keys@.len() - idx,
        {
            let key = keys[idx];
            proof {
                let done = keys@.subrange(0, idx as int);
                let next = keys@.subrange(0, idx + 1);
                assert(next.drop_last() == done);
                assert(next.last() == key);
                if next.contains(Key::Space) && key != Key::Space {
                    let at = choose|at: int| 0 <= at < next.len() && next[at] == Key::Space;
                    assert(done[at] == Key::Space);
                }
                if done.contains(Key::Space) {
                    let at = choose|at: int| 0 <= at < done.len() && done[at] == Key::Space;
                    assert(next[at] == Key::Space);
                }
            }
            match key {
                Key::LControl | Key::RControl => mode = EditModeE::Rotate,
                Key::LShift | Key::RShift => mode = EditModeE::Shift,
                Key::Space => space = true,
                _ => {},
            }
            idx = idx + 1;
        }
        proof {
            assert(keys@.subrange(0, idx as int) == keys@);
        }
        self.mode = mode;
        self.ra = if space {
            RelAbE::Absolute
        } else {
            RelAbE::Relative
        };
    }
}

/// `g` with `targets[n]` written at `cells[n]`, in order, for each `n`.
pub open spec fn overwrite<V>(g: Seq<V>, cells: Seq<usize>, targets: Seq<V>) -> Seq<V>
    decreases cells.len(),
{
    if cells.len() == 0 {
        g
    } else {
        overwrite(g, cells.drop_last(), targets.take(cells.len() - 1)).update(
            cells.last() as int,
            targets[cells.len() - 1],
        )
    }
}

/// Writing each of a set of distinct cells once: every listed cell holds its
/// target, every other cell keeps its value.
pub proof fn lemma_overwrite<V>(g: Seq<V>, cells: Seq<usize>, targets: Seq<V>)
    requires
        targets.len() == cells.len(),
        forall|a: int, b: int| 0 <= a < b < cells.len() ==> #[trigger] cells[a] < #[trigger] cells[b],
        forall|a: int| 0 <= a < cells.len() ==> #[trigger] cells[a] < g.len(),
    ensures
        overwrite(g, cells, targets).len() == g.len(),
        forall|n: int| 0 <= n < cells.len() ==> overwrite(g, cells, targets)[#[trigger] cells[n] as int] == targets[n],
        forall|idx: int|
            0 <= idx < g.len() && !cells.contains(idx as usize) ==> #[trigger] overwrite(g, cells, targets)[idx]
                == g[idx],
    decreases cells.len(),
{
    if cells.len() > 0 {
        let front = cells.drop_last();
        let front_targets = targets.take(cells.len() - 1);
        lemma_overwrite(g, front, front_targets);
        let r = overwrite(g, cells, targets);
        assert forall|n: int| 0 <= n < cells.len() implies r[#[trigger] cells[n] as int] == targets[n] by {
            if n < cells.len() - 1 {
                assert(front[n] == cells[n]);
                assert(cells[n] < cells.last());
                assert(front_targets[n] == targets[n]);
            }
        }
        assert forall|idx: int| 0 <= idx < g.len() && !cells.contains(idx as usize) implies #[trigger] r[idx]
            == g[idx] by {
            assert(cells[cells.len() - 1] == cells.last());
            if front.contains(idx as usize) {
                let at = choose|at: int| 0 <= at < front.len() && front[at] == idx as usize;
                assert(cells[at] == idx as usize);
            }
        }
    }
}

/// A drag in progress or none. `V` is the type of the grid's values and `A`
/// what is kept of the cursor at the press.
///
/// While idle nothing is captured. A press captures the anchor, the cells the
/// press reaches in ascending order and their values at that moment, one
/// value per cell.
pub struct EditSession<V, A> {
    anchor: Option<A>,
    affected_indices: Vec<usize>,
    affected_original_values: Vec<V>,
}

impl<V, A> EditSession<V, A> {
    /// What was kept of the cursor at the press; `None` while idle.
    pub closed spec fn anchor_spec(&self) -> Option<A> {
        self.anchor
    }

    /// The captured cells.
    pub closed spec fn affected(&self) -> Seq<usize> {
        self.affected_indices@
    }

    /// The values the captured cells held at the press.
    pub closed spec fn originals(&self) -> Seq<V> {
        self.affected_original_values@
    }

    pub open spec fn wf(&self) -> bool {
        &&& self.affected().len() == self.originals().len()
        &&& self.anchor_spec() is None ==> self.affected().len() == 0
        &&& forall|a: int, b: int|
            0 <= a < b < self.affected().len() ==> #[trigger] self.affected()[a] < #[trigger] self.affected()[b]
    }

    /// The grid values after the mouse moves with `targets` computed for the
    /// captured cells: while dragging, each captured cell takes its target;
    /// while idle, nothing changes.
    pub open spec fn after_move(&self, g: Seq<V>, targets: Seq<V>) -> Seq<V> {
        if self.anchor_spec() is None {
            g
        } else {
            overwrite(g, self.affected(), targets)
        }
    }

    /// No drag.
    pub fn new() -> (s: Self)
        ensures
            s.wf(),
            s.anchor_spec() is None,
            s.affected().len() == 0,
            s.originals().len() == 0,
    {
        EditSession { anchor: None, affected_indices: Vec::new(), affected_original_values: Vec::new() }
    }

    /// What was kept of the cursor at the press; `None` while idle.
    pub fn anchor(&self) -> (r: &Option<A>)
        ensures
            *r == self.anchor_spec(),
    {
        &self.anchor
    }

    /// The captured cells, in ascending order.
    pub fn affected_indices(&self) -> (r: &[usize])
        ensures
            r@ == self.affected(),
    {
        self.affected_indices.as_slice()
    }

    /// The values the captured cells held at the press.
    pub fn affected_original_values(&self) -> (r: &[V])
        ensures
            r@ == self.originals(),
    {
        self.affected_original_values.as_slice()
    }

    /// Ends the drag: the anchor and both captured lists are cleared.
    pub fn mouse_up(&mut self)
        ensures
            final(self).wf(),
            final(self).anchor_spec() is None,
            final(self).affected().len() == 0,
            final(self).originals().len() == 0,
    {
        self.anchor = None;
        self.affected_indices = Vec::new();
        self.affected_original_values = Vec::new();
    }

}

impl<V: Copy, A> EditSession<V, A> {
    /// Writes the `targets` computed for the captured cells into `grid`, one
    /// per captured cell in the order of `affected_indices`. While idle the
    /// grid is left as it is.
    pub fn mouse_moved(&self, grid: &mut Grid<V>, targets: &[V])
        requires
            self.wf(),
            old(grid).wf(),
            targets@.len() == self.affected().len(),
            forall|n: int| 0 <= n < self.affected().len() ==> #[trigger] self.affected()[n] < old(grid).values().len(),
        ensures
            final(grid).wf(),
            final(grid).dims() == old(grid).dims(),
            final(grid).values() == self.after_move(old(grid).values(), targets@),
            self.anchor_spec() is Some ==> forall|n: int|
                0 <= n < self.affected().len() ==> final(grid).values()[#[trigger] self.affected()[n] as int]
                    == targets@[n],
            forall|idx: int|
                0 <= idx < old(grid).values().len() && !self.affected().contains(idx as usize)
                    ==> #[trigger] final(grid).values()[idx] == old(grid).values()[idx],
            final(grid).values().len() == old(grid).values().len(),
    {
        proof {
            lemma_overwrite(old(grid).values(), self.affected(), targets@);
        }
        if self.anchor.is_none() {
            return;
        }
        let mut n: usize = 0;
        while n < self.affected_indices.len()
            invariant
                self.wf(),
                self.anchor_spec() is Some,
                targets@.len() == self.affected().len(),
                forall|m: int| 0 <= m < self.affected().len() ==> #[trigger] self.affected()[m] < old(grid).values().len(),
                n <= self.affected().len(),
                grid.wf(),
                grid.dims() == old(grid).dims(),
                grid.values() == overwrite(old(grid).values(), self.affected().take(n as int), targets@.take(n as int)),
            decreases self.affected().len() - n,
        {
            proof {
                let cells = self.affected().take(n + 1);
                assert(cells.drop_last() == self.affected().take(n as int));
                assert(targets@.take(n + 1).take(n as int) == targets@.take(n as int));
                lemma_overwrite(old(grid).values(), self.affected().take(n as int), targets@.take(n as int));
            }
            let cell = self.affected_indices[n];
            grid.set(cell, targets[n]);
            n = n + 1;
        }
        proof {
            assert(self.affected().take(n as int) == self.affected());
            assert(targets@.take(n as int) == targets@);
        }
    }

    /// Starts a drag: keeps `anchor`, captures the cells flagged in `within`
    /// (one flag per cell of `grid`) and the values they hold now.
    pub fn mouse_down(&mut self, anchor: A, grid: &Grid<V>, within: &[bool])
        requires
            grid.wf(),
            within@.len() == grid.values().len(),
        ensures
            final(self).wf(),
            final(self).anchor_spec() == Some(anchor),
            final(self).affected() == selection(within@),
            final(self).originals().len() == final(self).affected().len(),
            forall|n: int|
                0 <= n < final(self).affected().len() ==> #[trigger] final(self).originals()[n]
                    == grid.values()[final(self).affected()[n] as int],
    {
        let cells = grid.get_indices(within);
        let mut values: Vec<V> = Vec::new();
        let mut n: usize = 0;
        while n < cells.len()
            invariant
                cells@ == selection(within@),
                forall|m: int| 0 <= m < cells@.len() ==> #[trigger] cells@[m] < grid.values().len(),
                n <= cells@.len(),
                values@.len() == n,
                forall|m: int| 0 <= m < n ==> #[trigger] values@[m] == grid.values()[cells@[m] as int],
            decreases cells@.len() - n,
        {
            values.push(*grid.get(cells[n]));
            n = n + 1;
        }
        self.anchor = Some(anchor);
        self.affected_indices = cells;
        self.affected_original_values = values;
    }
}

/// Releasing the mouse ends the edit: afterwards nothing is captured, and
/// moving the mouse until the next press leaves every cell as it is.
pub proof fn lemma_release_stops_edits<V, A>(released: EditSession<V, A>, g: Seq<V>, targets: Seq<V>)
    requires
        released.wf(),
        released.anchor_spec() is None,
    ensures
        released.affected().len() == 0,
        released.originals().len() == 0,
        released.after_move(g, targets) == g,
{
}

} // verus!
