//! A three-dimensional lattice of values stored flat, x outermost and z
//! innermost.
use vstd::arithmetic::div_mod::lemma_fundamental_div_mod_converse;
use vstd::prelude::*;

verus! {

/// Position of cell `(i, j, k)` in the flat storage of a lattice with `ny`
/// rows and `nz` columns per layer.
pub open spec fn index_of(ny: nat, nz: nat, i: nat, j: nat, k: nat) -> nat {
    i * (ny * nz) + j * nz + k
}

/// The cell `(i, j, k)` stored at position `idx`.
pub open spec fn coords_of(ny: nat, nz: nat, idx: nat) -> (nat, nat, nat) {
    (idx / (ny * nz), (idx % (ny * nz)) / nz, idx % (ny * nz) % nz)
}

/// A cell inside a lattice of `nx * ny * nz` cells has a position inside the
/// flat storage.
pub proof fn lemma_index_in_range(nx: nat, ny: nat, nz: nat, i: nat, j: nat, k: nat)
    requires
        i < nx,
        j < ny,
        k < nz,
    ensures
        index_of(ny, nz, i, j, k) < nx * ny * nz,
        j * nz + k < ny * nz,
{
    assert(j * nz + k < ny * nz) by (nonlinear_arith)
        requires
            j < ny,
            k < nz,
    ;
    assert(i * (ny * nz) + (ny * nz) <= nx * ny * nz) by (nonlinear_arith)
        requires
            i < nx,
    ;
}

/// Addressing is a bijection between the cells of the lattice and the
/// positions `0 .. nx * ny * nz`: reading back the cell of a cell's position
/// gives the cell, and the position of a stored position's cell gives the
/// position.
pub proof fn lemma_index_bijection(nx: nat, ny: nat, nz: nat)
    ensures
        forall|i: nat, j: nat, k: nat|
            i < nx && j < ny && k < nz ==> {
                &&& #[trigger] index_of(ny, nz, i, j, k) < nx * ny * nz
                &&& coords_of(ny, nz, index_of(ny, nz, i, j, k)) == (i, j, k)
            },
        forall|idx: nat|
            idx < nx * ny * nz ==> {
                let c = #[trigger] coords_of(ny, nz, idx);
                &&& c.0 < nx
                &&& c.1 < ny
                &&& c.2 < nz
                &&& index_of(ny, nz, c.0, c.1, c.2) == idx
            },
{
    assert forall|i: nat, j: nat, k: nat| i < nx && j < ny && k < nz implies {
        &&& #[trigger] index_of(ny, nz, i, j, k) < nx * ny * nz
        &&& coords_of(ny, nz, index_of(ny, nz, i, j, k)) == (i, j, k)
    } by {
        lemma_coords_of_index(nx, ny, nz, i, j, k);
    }
    assert forall|idx: nat| idx < nx * ny * nz implies {
        let c = #[trigger] coords_of(ny, nz, idx);
        &&& c.0 < nx
        &&& c.1 < ny
        &&& c.2 < nz
        &&& index_of(ny, nz, c.0, c.1, c.2) == idx
    } by {
        lemma_index_of_coords(nx, ny, nz, idx);
    }
}

proof fn lemma_coords_of_index(nx: nat, ny: nat, nz: nat, i: nat, j: nat, k: nat)
    requires
        i < nx,
        j < ny,
        k < nz,
    ensures
        index_of(ny, nz, i, j, k) < nx * ny * nz,
        coords_of(ny, nz, index_of(ny, nz, i, j, k)) == (i, j, k),
{
    lemma_index_in_range(nx, ny, nz, i, j, k);
    let idx = index_of(ny, nz, i, j, k);
    let rest = j * nz + k;
    assert(idx == i * (ny * nz) + rest);
    lemma_fundamental_div_mod_converse(idx as int, (ny * nz) as int, i as int, rest as int);
    lemma_fundamental_div_mod_converse(rest as int, nz as int, j as int, k as int);
}

proof fn lemma_index_of_coords(nx: nat, ny: nat, nz: nat, idx: nat)
    requires
        idx < nx * ny * nz,
    ensures
        coords_of(ny, nz, idx).0 < nx,
        coords_of(ny, nz, idx).1 < ny,
        coords_of(ny, nz, idx).2 < nz,
        index_of(ny, nz, coords_of(ny, nz, idx).0, coords_of(ny, nz, idx).1, coords_of(ny, nz, idx).2)
            == idx,
{
    let layer = ny * nz;
    assert(layer > 0) by (nonlinear_arith)
        requires
            idx < nx * ny * nz,
            layer == ny * nz,
    ;
    assert(nz > 0) by (nonlinear_arith)
        requires
            layer == ny * nz,
            layer > 0,
    ;
    let i = idx / layer;
    let rest = idx % layer;
    let j = rest / nz;
    let k = rest % nz;
    assert(idx == layer * i + rest) by (nonlinear_arith)
        requires
            layer > 0,
            i == idx / layer,
            rest == idx % layer,
    ;
    assert(rest == nz * j + k) by (nonlinear_arith)
        requires
            nz > 0,
            j == rest / nz,
            k == rest % nz,
    ;
    assert(i < nx) by (nonlinear_arith)
        requires
            idx == layer * i + rest,
            idx < nx * ny * nz,
            layer == ny * nz,
            rest >= 0,
    ;
    assert(j < ny) by (nonlinear_arith)
        requires
            rest == nz * j + k,
            rest < layer,
            layer == ny * nz,
            k >= 0,
    ;
    assert(k < nz);
    assert(idx == i * (ny * nz) + j * nz + k) by (nonlinear_arith)
        requires
            idx == layer * i + rest,
            rest == nz * j + k,
            layer == ny * nz,
    ;
}

/// The cells selected by `within`, in ascending order: position `idx` is
/// selected when `within[idx]` holds.
pub open spec fn selection(within: Seq<bool>) -> Seq<usize>
    decreases within.len(),
{
    if within.len() == 0 {
        Seq::empty()
    } else {
        let earlier = selection(within.drop_last());
        if within.last() {
            earlier.push((within.len() - 1) as usize)
        } else {
            earlier
        }
    }
}

/// Membership in a selection is exactly the flag of the position, and the
/// selection is strictly ascending.
pub proof fn lemma_selection(within: Seq<bool>)
    requires
        within.len() <= usize::MAX + 1,
    ensures
        forall|idx: usize| #[trigger]
            selection(within).contains(idx) <==> (idx < within.len() && within[idx as int]),
        forall|a: int, b: int|
            0 <= a < b < selection(within).len() ==> #[trigger] selection(within)[a]
                < #[trigger] selection(within)[b],
        forall|a: int| 0 <= a < selection(within).len() ==> #[trigger] selection(within)[a] < within.len(),
    decreases within.len(),
{
    if within.len() > 0 {
        let front = within.drop_last();
        lemma_selection(front);
        let earlier = selection(front);
        assert forall|idx: usize| #[trigger]
            selection(within).contains(idx) <==> (idx < within.len() && within[idx as int]) by {
            if within.last() {
                if selection(within).contains(idx) {
                    let at = choose|at: int| 0 <= at < selection(within).len() && selection(within)[at] == idx;
                    if at < earlier.len() {
                        assert(earlier.contains(idx));
                    }
                }
                if idx < within.len() && within[idx as int] && idx < front.len() {
                    assert(front[idx as int] == within[idx as int]);
                    assert(earlier.contains(idx));
                    let at = choose|at: int| 0 <= at < earlier.len() && earlier[at] == idx;
                    assert(selection(within)[at] == idx);
                }
                if idx == within.len() - 1 {
                    assert(selection(within)[earlier.len() as int] == idx);
                }
            } else {
                if idx < front.len() {
                    assert(front[idx as int] == within[idx as int]);
                }
            }
        }
    }
}

/// Widening the flags never drops a cell: every cell selected by `narrow` is
/// selected by `wide` when each flag of `narrow` implies the same flag of
/// `wide`.
pub proof fn lemma_selection_monotone(narrow: Seq<bool>, wide: Seq<bool>)
    requires
        narrow.len() == wide.len(),
        wide.len() <= usize::MAX + 1,
        forall|idx: int| 0 <= idx < narrow.len() && #[trigger] narrow[idx] ==> wide[idx],
    ensures
        forall|idx: usize| #[trigger] selection(narrow).contains(idx) ==> selection(wide).contains(idx),
{
    lemma_selection(narrow);
    lemma_selection(wide);
}

/// An offset inside the lattice measured in half cells along each axis, so
/// that the centre of a lattice with an odd number of cells is exact.
#[derive(Clone, Copy, Debug, PartialEq, Eq, Structural)]
pub struct HalfCells {
    pub x: i64,
    pub y: i64,
    pub z: i64,
}

/// The offset from cell `(i, j, k)` to the centre of a lattice of
/// `nx * ny * nz` cells, where cell coordinates count whole cells and the
/// centre lies at `(nx / 2, ny / 2, nz / 2)`.
pub open spec fn center_offset(nx: nat, ny: nat, nz: nat, i: nat, j: nat, k: nat) -> HalfCells {
    HalfCells { x: (nx - 2 * i) as i64, y: (ny - 2 * j) as i64, z: (nz - 2 * k) as i64 }
}

/// A lattice of `nx * ny * nz` values. Cell `(i, j, k)` is stored at
/// `index_of(ny, nz, i, j, k)`.
pub struct Grid<T> {
    grid: Vec<T>,
    nx: usize,
    ny: usize,
    nz: usize,
}

impl<T> Grid<T> {
    /// One value per cell.
    pub open spec fn wf(&self) -> bool {
        self.values().len() == self.dims().0 * self.dims().1 * self.dims().2
    }

    /// The values, in storage order.
    pub closed spec fn values(&self) -> Seq<T> {
        self.grid@
    }

    /// The number of cells along each axis.
    pub closed spec fn dims(&self) -> (nat, nat, nat) {
        (self.nx as nat, self.ny as nat, self.nz as nat)
    }

    /// Where cell `(i, j, k)` is stored.
    pub open spec fn index_spec(&self, i: nat, j: nat, k: nat) -> nat {
        index_of(self.dims().1, self.dims().2, i, j, k)
    }

    /// The cell stored at `idx`.
    pub open spec fn coords_spec(&self, idx: nat) -> (nat, nat, nat) {
        coords_of(self.dims().1, self.dims().2, idx)
    }

    /// A grid of `nx * ny * nz` cells built from its values in storage
    /// order.
    pub fn from_values(n_x: usize, n_y: usize, n_z: usize, values: Vec<T>) -> (g: Self)
        requires
            values@.len() == n_x * n_y * n_z,
        ensures
            g.wf(),
            g.dims() == (n_x as nat, n_y as nat, n_z as nat),
            g.values() == values@,
    {
        Grid { grid: values, nx: n_x, ny: n_y, nz: n_z }
    }

    /// The number of cells.
    pub fn num_instances(&self) -> (n: usize)
        requires
            self.wf(),
        ensures
            n == self.dims().0 * self.dims().1 * self.dims().2,
            n == self.values().len(),
    {
        self.grid.len()
    }

    /// The number of cells along each axis.
    pub fn size(&self) -> (r: (usize, usize, usize))
        ensures
            (r.0 as nat, r.1 as nat, r.2 as nat) == self.dims(),
    {
        (self.nx, self.ny, self.nz)
    }

    /// The values, in storage order.
    pub fn as_slice(&self) -> (r: &[T])
        ensures
            r@ == self.values(),
    {
        self.grid.as_slice()
    }

    /// Where cell `(i, j, k)` is stored.
    pub fn linear_index(&self, i: usize, j: usize, k: usize) -> (idx: usize)
        requires
            self.wf(),
            i < self.dims().0,
            j < self.dims().1,
            k < self.dims().2,
        ensures
            idx == self.index_spec(i as nat, j as nat, k as nat),
            idx < self.values().len(),
    {
        let n = self.grid.len();
        proof {
            lemma_index_in_range(self.nx as nat, self.ny as nat, self.nz as nat, i as nat, j as nat, k as nat);
            assert(self.ny * self.nz <= self.nx * self.ny * self.nz) by (nonlinear_arith)
                requires
                    i < self.nx,
            ;
            assert(i * (self.ny * self.nz) <= self.nx * self.ny * self.nz) by (nonlinear_arith)
                requires
                    i < self.nx,
            ;
            assert(j * self.nz <= self.ny * self.nz) by (nonlinear_arith)
                requires
                    j < self.ny,
            ;
        }
        let layer = self.ny * self.nz;
        i * layer + j * self.nz + k
    }

    /// The cell stored at `idx`.
    pub fn cell_coords(&self, idx: usize) -> (c: (usize, usize, usize))
        requires
            self.wf(),
            idx < self.values().len(),
        ensures
            c.0 < self.dims().0,
            c.1 < self.dims().1,
            c.2 < self.dims().2,
            (c.0 as nat, c.1 as nat, c.2 as nat) == self.coords_spec(idx as nat),
            self.index_spec(c.0 as nat, c.1 as nat, c.2 as nat) == idx,
    {
        let n = self.grid.len();
        proof {
            lemma_index_of_coords(self.nx as nat, self.ny as nat, self.nz as nat, idx as nat);
            assert(0 < self.ny * self.nz <= self.nx * self.ny * self.nz) by (nonlinear_arith)
                requires
                    idx < self.nx * self.ny * self.nz,
            ;
        }
        let layer = self.ny * self.nz;
        let rest = idx % layer;
        (idx / layer, rest / self.nz, rest % self.nz)
    }

    /// The value stored at `idx`.
    pub fn get(&self, idx: usize) -> (v: &T)
        requires
            idx < self.values().len(),
        ensures
            *v == self.values()[idx as int],
    {
        &self.grid[idx]
    }

    /// Replaces the value stored at `idx`.
    pub fn set(&mut self, idx: usize, v: T)
        requires
            idx < old(self).values().len(),
        ensures
            final(self).dims() == old(self).dims(),
            final(self).values() == old(self).values().update(idx as int, v),
            old(self).wf() ==> final(self).wf(),
    {
        self.grid.set(idx, v);
    }

    /// The cells selected by `within`, one flag per cell in storage order, in
    /// ascending order.
    pub fn get_indices(&self, within: &[bool]) -> (r: Vec<usize>)
        requires
            self.wf(),
            within@.len() == self.values().len(),
        ensures
            r@ == selection(within@),
            forall|a: int, b: int| 0 <= a < b < r@.len() ==> #[trigger] r@[a] < #[trigger] r@[b],
            forall|a: int| 0 <= a < r@.len() ==> #[trigger] r@[a] < within@.len() && within@[r@[a] as int],
            forall|idx: int| 0 <= idx < within@.len() && #[trigger] within@[idx] ==> r@.contains(idx as usize),
    {
        let mut r: Vec<usize> = Vec::new();
        let mut idx: usize = 0;
        while idx < within.len()
            invariant
                idx <= within@.len(),
                r@ == selection(within@.subrange(0, idx as int)),
            decreases within@.len() - idx,
        {
            proof {
                assert(within@.subrange(0, idx + 1).drop_last() == within@.subrange(0, idx as int));
            }
            if within[idx] {
                r.push(idx);
            }
            idx = idx + 1;
        }
        proof {
            assert(within@.subrange(0, idx as int) == within@);
            lemma_selection(within@);
            assert forall|a: int| 0 <= a < r@.len() implies #[trigger] r@[a] < within@.len() && within@[r@[a] as int] by {
                assert(r@.contains(r@[a]));
            }
        }
        r
    }

    /// One flag per cell, in storage order: whether the cell is among
    /// `selected`. Entries of `selected` outside the grid mark nothing.
    pub fn selection_mask(&self, selected: &[usize]) -> (mask: Vec<bool>)
        requires
            self.wf(),
        ensures
            mask@.len() == self.values().len(),
            forall|idx: int| 0 <= idx < mask@.len() ==> #[trigger] mask@[idx] == selected@.contains(idx as usize),
    {
        let n = self.grid.len();
        let mut mask: Vec<bool> = Vec::new();
        let mut idx: usize = 0;
        while idx < n
            invariant
                n == self.values().len(),
                idx <= n,
                mask@.len() == idx,
                forall|m: int| 0 <= m < idx ==> !#[trigger] mask@[m],
            decreases n - idx,
        {
            mask.push(false);
            idx = idx + 1;
        }
        let mut s: usize = 0;
        while s < selected.len()
            invariant
                n == self.values().len(),
                mask@.len() == n,
                s <= selected@.len(),
                forall|m: int|
                    0 <= m < n ==> #[trigger] mask@[m] == selected@.subrange(0, s as int).contains(m as usize),
            decreases selected@.len() - s,
        {
            let cell = selected[s];
            proof {
                let done = selected@.subrange(0, s as int);
                let next = selected@.subrange(0, s + 1);
                assert(next == done.push(cell));
                assert forall|c: usize| #[trigger] next.contains(c) <==> (done.contains(c) || c == cell) by {
                    if next.contains(c) && c != cell {
                        let at = choose|at: int| 0 <= at < next.len() && next[at] == c;
                        assert(done[at] == c);
                    }
                    if done.contains(c) {
                        let at = choose|at: int| 0 <= at < done.len() && done[at] == c;
                        assert(next[at] == c);
                    }
                    if c == cell {
                        assert(next[s as int] == c);
                    }
                }
            }
            if cell < n {
                mask.set(cell, true);
            }
            s = s + 1;
        }
        proof {
            assert(selected@.subrange(0, s as int) == selected@);
        }
        mask
    }
}

impl Grid<HalfCells> {
    /// A grid whose every cell holds the offset from the cell to the centre
    /// of the lattice, an inward-pointing field.
    pub fn new_centered(n_x: usize, n_y: usize, n_z: usize) -> (g: Self)
        requires
            n_x * n_y * n_z <= usize::MAX,
            n_x <= i64::MAX,
            n_y <= i64::MAX,
            n_z <= i64::MAX,
        ensures
            g.wf(),
            g.dims() == (n_x as nat, n_y as nat, n_z as nat),
            forall|i: nat, j: nat, k: nat|
                i < n_x && j < n_y && k < n_z ==> g.values()[#[trigger] g.index_spec(i, j, k) as int]
                    == center_offset(n_x as nat, n_y as nat, n_z as nat, i, j, k),
    {
        proof {
            assert(n_z == 0 || n_x * n_y <= n_x * n_y * n_z) by (nonlinear_arith);
        }
        let cap = if n_z == 0 || n_y == 0 { 0 } else { n_x * n_y * n_z };
        proof {
            assert(cap == n_x * n_y * n_z) by (nonlinear_arith)
                requires
                    n_z == 0 || n_y == 0 ==> cap == 0,
                    n_z != 0 && n_y != 0 ==> cap == n_x * n_y * n_z,
            ;
        }
        let mut v: Vec<HalfCells> = Vec::new();
        let mut idx: usize = 0;
        while idx < cap
            invariant
                cap == n_x * n_y * n_z,
                n_x <= i64::MAX,
                n_y <= i64::MAX,
                n_z <= i64::MAX,
                idx <= cap,
                v@.len() == idx,
                forall|m: nat|
                    m < idx ==> v@[m as int] == {
                        let c = #[trigger] coords_of(n_y as nat, n_z as nat, m);
                        center_offset(n_x as nat, n_y as nat, n_z as nat, c.0, c.1, c.2)
                    },
            decreases cap - idx,
        {
            proof {
                lemma_index_of_coords(n_x as nat, n_y as nat, n_z as nat, idx as nat);
                assert(0 < n_y * n_z <= n_x * n_y * n_z) by (nonlinear_arith)
                    requires
                        idx < n_x * n_y * n_z,
                ;
            }
            let layer = n_y * n_z;
            let rest = idx % layer;
            let i = idx / layer;
            let j = rest / n_z;
            let k = rest % n_z;
            let offset = HalfCells {
                x: (n_x - i) as i64 - i as i64,
                y: (n_y - j) as i64 - j as i64,
                z: (n_z - k) as i64 - k as i64,
            };
            v.push(offset);
            proof {
                assert(coords_of(n_y as nat, n_z as nat, idx as nat) == (i as nat, j as nat, k as nat));
            }
            idx = idx + 1;
        }
        proof {
            assert forall|i: nat, j: nat, k: nat| i < n_x && j < n_y && k < n_z implies v@[
                #[trigger] index_of(n_y as nat, n_z as nat, i, j, k) as int]
                == center_offset(n_x as nat, n_y as nat, n_z as nat, i, j, k) by {
                lemma_coords_of_index(n_x as nat, n_y as nat, n_z as nat, i, j, k);
                let m = index_of(n_y as nat, n_z as nat, i, j, k);
                assert(coords_of(n_y as nat, n_z as nat, m) == (i, j, k));
            }
        }
        Grid { grid: v, nx: n_x, ny: n_y, nz: n_z }
    }
}

impl<T: Copy> Grid<T> {
    /// A grid of `n_x * n_y * n_z` cells, each holding `t`.
    pub fn new_uniform(n_x: usize, n_y: usize, n_z: usize, t: &T) -> (g: Self)
        requires
            n_x * n_y * n_z <= usize::MAX,
        ensures
            g.wf(),
            g.dims() == (n_x as nat, n_y as nat, n_z as nat),
            forall|idx: int| 0 <= idx < g.values().len() ==> #[trigger] g.values()[idx] == *t,
    {
        proof {
            assert(n_x * n_y <= n_x * n_y * n_z || n_z == 0) by (nonlinear_arith);
        }
        let cap = if n_z == 0 { 0 } else { n_x * n_y * n_z };
        proof {
            assert(cap == n_x * n_y * n_z) by (nonlinear_arith)
                requires
                    n_z == 0 ==> cap == 0,
                    n_z != 0 ==> cap == n_x * n_y * n_z,
            ;
        }
        let mut grid: Vec<T> = Vec::new();
        let mut idx: usize = 0;
        while idx < cap
            invariant
                idx <= cap,
                grid@.len() == idx,
                forall|m: int| 0 <= m < idx ==> #[trigger] grid@[m] == *t,
            decreases cap - idx,
        {
            grid.push(*t);
            idx = idx + 1;
        }
        Grid { grid, nx: n_x, ny: n_y, nz: n_z }
    }
}

} // verus!
