//! The uniform grid: for each cell, the indices of the particles that lie in it.
use crate::cells::{Cell, lemma_add_contains};
use std::collections::HashMap;
use vstd::prelude::*;

verus! {

/// The key under which a cell is stored: its three coordinates, each as 32 bits,
/// side by side in one 128-bit word.
pub open spec fn cell_key(c: Cell) -> u128 {
    ((c.0 as u32) as u128) << 64u128 | ((c.1 as u32) as u128) << 32u128 | ((c.2 as u32) as u128)
}

pub(crate) fn key_of(c: Cell) -> (k: u128)
    ensures
        k == cell_key(c),
{
    ((c.0 as u32) as u128) << 64u128 | ((c.1 as u32) as u128) << 32u128 | ((c.2 as u32) as u128)
}

/// Two cells with the same key are the same cell.
pub proof fn lemma_cell_key_injective(a: Cell, b: Cell)
    requires
        cell_key(a) == cell_key(b),
    ensures
        a == b,
{
    let (a0, a1, a2) = a;
    let (b0, b1, b2) = b;
    assert(a0 == b0 && a1 == b1 && a2 == b2) by (bit_vector)
        requires
            ((a0 as u32) as u128) << 64u128 | ((a1 as u32) as u128) << 32u128 | ((a2 as u32) as u128)
                == ((b0 as u32) as u128) << 64u128 | ((b1 as u32) as u128) << 32u128 | ((
            b2 as u32) as u128),
    ;
}

/// What a map holds for a cell: its list, or the empty list where it has none.
pub open spec fn lookup(m: Map<Cell, Seq<usize>>, c: Cell) -> Seq<usize> {
    if m.contains_key(c) {
        m[c]
    } else {
        Seq::empty()
    }
}

/// The grid built from the cells of particles `0, 1, ...` in turn: each particle's index
/// is appended to the list of its cell.
pub open spec fn grid_of(cells: Seq<Cell>) -> Map<Cell, Seq<usize>>
    decreases cells.len(),
{
    if cells.len() == 0 {
        Map::empty()
    } else {
        let m = grid_of(cells.drop_last());
        m.insert(cells.last(), lookup(m, cells.last()).push((cells.len() - 1) as usize))
    }
}

/// The indices `i` with `cells[i] == c`, in increasing order.
pub open spec fn positions_of(cells: Seq<Cell>, c: Cell) -> Seq<usize>
    decreases cells.len(),
{
    if cells.len() == 0 {
        Seq::empty()
    } else if cells.last() == c {
        positions_of(cells.drop_last(), c).push((cells.len() - 1) as usize)
    } else {
        positions_of(cells.drop_last(), c)
    }
}

/// A spatial hash of particles: each occupied cell maps to the (non-empty) list of
/// the indices of the particles in it.
pub struct CellGrid {
    cells: HashMap<u128, Vec<usize>>,
}

impl View for CellGrid {
    type V = Map<Cell, Seq<usize>>;

    closed spec fn view(&self) -> Map<Cell, Seq<usize>> {
        Map::new(
            |c: Cell| self.cells@.contains_key(cell_key(c)),
            |c: Cell| self.cells@[cell_key(c)]@,
        )
    }
}

impl CellGrid {
    /// No occupied cell has an empty list.
    pub open spec fn wf(&self) -> bool {
        forall|c: Cell| #[trigger] self@.contains_key(c) ==> self@[c].len() > 0
    }

    /// An empty grid.
    pub fn new() -> (g: CellGrid)
        ensures
            g@ == Map::<Cell, Seq<usize>>::empty(),
            g.wf(),
    {
        let g = CellGrid { cells: HashMap::new() };
        assert(g@ =~= Map::<Cell, Seq<usize>>::empty());
        g
    }

    /// Empties the grid.
    pub fn clear(&mut self)
        ensures
            final(self)@ == Map::<Cell, Seq<usize>>::empty(),
            final(self).wf(),
    {
        self.cells.clear();
        assert(self@ =~= Map::<Cell, Seq<usize>>::empty());
    }

    /// The list of the particles in cell `c`, if it has any.
    pub fn get(&self, c: Cell) -> (r: Option<&Vec<usize>>)
        ensures
            match r {
                Some(v) => self@.contains_key(c) && v@ == self@[c],
                None => !self@.contains_key(c),
            },
    {
        let k = key_of(c);
        self.cells.get(&k)
    }

    /// Appends particle `index` to the list of cell `c`, opening the cell if it was empty.
    pub fn push(&mut self, c: Cell, index: usize)
        requires
            old(self).wf(),
        ensures
            final(self)@ == old(self)@.insert(c, lookup(old(self)@, c).push(index)),
            final(self).wf(),
    {
        let ghost before = self@;
        let k = key_of(c);
        let removed = self.cells.remove(&k);
        let mut list = match removed {
            Some(v) => v,
            None => Vec::new(),
        };
        assert(list@ == lookup(before, c));
        list.push(index);
        self.cells.insert(k, list);
        assert forall|d: Cell| #[trigger] self@.contains_key(d) == before.insert(c, lookup(before, c).push(index)).contains_key(d)
            && (self@.contains_key(d) ==> self@[d] == before.insert(c, lookup(before, c).push(index))[d]) by {
            if cell_key(d) == k {
                lemma_cell_key_injective(d, c);
            }
        }
        assert(self@ =~= before.insert(c, lookup(before, c).push(index)));
    }

    /// The grid of the particles whose cells are `cells`: particle `i` lies in `cells[i]`.
    pub fn from_cells(cells: &Vec<Cell>) -> (g: CellGrid)
        ensures
            g@ == grid_of(cells@),
            g.wf(),
    {
        let mut g = CellGrid::new();
        let n = cells.len();
        let mut i: usize = 0;
        while i < n
            invariant
                n == cells@.len(),
                i <= n,
                g.wf(),
                g@ == grid_of(cells@.take(i as int)),
            decreases n - i,
        {
            assert(cells@.take(i + 1).drop_last() =~= cells@.take(i as int));
            g.push(cells[i], i);
            i = i + 1;
        }
        assert(cells@.take(n as int) =~= cells@);
        g
    }
}

/// A grid holds a cell exactly when some particle lies in it, and then its list is the
/// indices of the particles that lie in it, in increasing order.
pub proof fn lemma_grid_of(cells: Seq<Cell>, c: Cell)
    requires
        cells.len() <= usize::MAX,
    ensures
        grid_of(cells).contains_key(c) <==> cells.contains(c),
        lookup(grid_of(cells), c) == positions_of(cells, c),
    decreases cells.len(),
{
    if cells.len() > 0 {
        let s = cells.drop_last();
        lemma_grid_of(s, c);
        if cells.contains(c) && cells.last() != c {
            let n = choose|n: int| 0 <= n < cells.len() && cells[n] == c;
            assert(s[n] == c);
        }
        if s.contains(c) {
            let n = choose|n: int| 0 <= n < s.len() && s[n] == c;
            assert(cells[n] == c);
        }
        if cells.last() == c {
            assert(cells[cells.len() - 1] == c);
        }
    }
}

/// The list of a cell holds index `i` exactly when particle `i` lies in that cell, and
/// its indices strictly increase.
pub proof fn lemma_positions_of(cells: Seq<Cell>, c: Cell)
    requires
        cells.len() <= usize::MAX,
    ensures
        forall|i: int| #![trigger positions_of(cells, c).contains(i as usize)]
            0 <= i < cells.len() ==> (positions_of(cells, c).contains(i as usize) <==> cells[i] == c),
        forall|n: int| #![trigger positions_of(cells, c)[n]]
            0 <= n < positions_of(cells, c).len() ==> positions_of(cells, c)[n] < cells.len()
                && cells[positions_of(cells, c)[n] as int] == c,
        forall|a: int, b: int|
            0 <= a < b < positions_of(cells, c).len() ==> positions_of(cells, c)[a] < positions_of(
                cells,
                c,
            )[b],
    decreases cells.len(),
{
    if cells.len() > 0 {
        let s = cells.drop_last();
        let last = (cells.len() - 1) as usize;
        lemma_positions_of(s, c);
        let p = positions_of(s, c);
        let q = positions_of(cells, c);
        assert forall|i: int| 0 <= i < cells.len() implies (#[trigger] q.contains(i as usize) <==> cells[i] == c) by {
            if i < s.len() {
                assert(s[i] == cells[i]);
                if cells.last() == c {
                    lemma_add_contains(p, seq![last], i as usize);
                    assert(p.push(last) =~= p + seq![last]);
                    if seq![last].contains(i as usize) {
                        assert(seq![last][0] == last);
                    }
                }
            } else {
                if cells.last() == c {
                    assert(q[p.len() as int] == last);
                } else {
                    if q.contains(i as usize) {
                        let n = choose|n: int| 0 <= n < p.len() && p[n] == i as usize;
                        assert(p[n] < s.len());
                    }
                }
            }
        }
    }
}


/// The grid of particles `0, 1, ...` lying in `cells`: every particle is listed under its
/// own cell and under no other; a cell is present exactly when some particle lies in it;
/// and every list is non-empty and strictly increasing.
pub proof fn lemma_grid_lists(cells: Seq<Cell>)
    requires
        cells.len() <= usize::MAX,
    ensures
        forall|i: int|
            0 <= i < cells.len() ==> #[trigger] grid_of(cells).contains_key(cells[i]) && grid_of(
                cells,
            )[cells[i]].contains(i as usize),
        forall|c: Cell, i: usize|
            grid_of(cells).contains_key(c) && #[trigger] grid_of(cells)[c].contains(i) ==> i < cells.len()
                && cells[i as int] == c,
        forall|c: Cell| #[trigger] grid_of(cells).contains_key(c) <==> cells.contains(c),
        forall|c: Cell|
            #[trigger] grid_of(cells).contains_key(c) ==> grid_of(cells)[c].len() > 0 && forall|a: int, b: int|
                0 <= a < b < grid_of(cells)[c].len() ==> grid_of(cells)[c][a] < grid_of(cells)[c][b],
{
    let g = grid_of(cells);
    assert forall|i: int| 0 <= i < cells.len() implies #[trigger] g.contains_key(cells[i]) && g[cells[i]].contains(
        i as usize,
    ) by {
        lemma_grid_of(cells, cells[i]);
        lemma_positions_of(cells, cells[i]);
        assert(positions_of(cells, cells[i]).contains(i as usize));
    }
    assert forall|c: Cell, i: usize| g.contains_key(c) && #[trigger] g[c].contains(i) implies i < cells.len()
        && cells[i as int] == c by {
        lemma_grid_of(cells, c);
        lemma_positions_of(cells, c);
        let m = choose|m: int| 0 <= m < g[c].len() && g[c][m] == i;
        assert(positions_of(cells, c)[m] == i);
    }
    assert forall|c: Cell| #[trigger] g.contains_key(c) <==> cells.contains(c) by {
        lemma_grid_of(cells, c);
    }
    assert forall|c: Cell| #[trigger] g.contains_key(c) implies g[c].len() > 0 && forall|a: int, b: int|
        0 <= a < b < g[c].len() ==> g[c][a] < g[c][b] by {
        lemma_grid_of(cells, c);
        lemma_positions_of(cells, c);
        let n = choose|n: int| 0 <= n < cells.len() && cells[n] == c;
        assert(positions_of(cells, c).contains(n as usize));
    }
}

} // verus!
