//! The integer side of the water simulation: the particle lattice, the grids of
//! particles by cell, the flattened grid that the compute shader reads, and the
//! neighbourhood of a cell that every force pass walks.
use crate::cells::{
    box_cells, row_cells, slab_cells, cells_increasing, lemma_box_increasing, lemma_filter_increasing, cell_at, fits_i32, lemma_add_contains, lemma_box_contains, lemma_box_len,
    lemma_filter_box, lemma_walk_ends, lemma_walk_next_plane, lemma_walk_next_row,
    lemma_walk_step, walk_cells, Cell,
};
use crate::grid::{grid_of, lemma_grid_lists, lemma_grid_of, lemma_positions_of, lookup, positions_of, CellGrid};
use vstd::prelude::*;

verus! {

/// Three integers: a count of cells along each axis.
pub type Triple = (i32, i32, i32);

/// What a cell of the initial lattice holds.
#[derive(PartialEq, Eq, Structural, Debug, Clone, Copy)]
pub enum CellKind {
    /// A fixed boundary particle.
    GhostParticle,
    /// Nothing: the gap between the boundary and the fluid.
    Empty,
    /// A fluid particle.
    Fluid,
}

/// A particle near a cell: a fluid particle or a ghost particle, by its index.
#[derive(PartialEq, Eq, Structural, Debug, Clone, Copy)]
pub enum Neighbor {
    Fluid(usize),
    GhostParticle(usize),
}

/// The size of the whole lattice: the fluid block with a ghost layer and an empty layer
/// on each side along `x` and `z`, and below it along `y` (there are no ghosts on top).
pub open spec fn spec_total_partition(p: Triple, g: Triple, e: Triple) -> Triple {
    ((p.0 + g.0 * 2 + e.0 * 2) as i32, (p.1 + g.1 + e.1) as i32, (p.2 + g.2 * 2 + e.2 * 2) as i32)
}

/// Every intermediate value that laying out the lattice computes fits in an `i32`.
#[verifier::opaque]
pub open spec fn partition_fits(p: Triple, g: Triple, e: Triple) -> bool {
    let tx = p.0 + g.0 * 2 + e.0 * 2;
    let ty = p.1 + g.1 + e.1;
    let tz = p.2 + g.2 * 2 + e.2 * 2;
    &&& fits_i32(g.0 * 2) && fits_i32(p.0 + g.0 * 2) && fits_i32(e.0 * 2) && fits_i32(tx)
    &&& fits_i32(p.1 + g.1) && fits_i32(ty)
    &&& fits_i32(g.2 * 2) && fits_i32(p.2 + g.2 * 2) && fits_i32(e.2 * 2) && fits_i32(tz)
    &&& fits_i32(g.0 - 1) && fits_i32(g.1 - 1) && fits_i32(g.2 - 1)
    &&& fits_i32(tx - g.0) && fits_i32(tx - 1)
    &&& fits_i32(tz - g.2) && fits_i32(tz - 1)
    &&& fits_i32(g.0 + e.0) && fits_i32(g.0 + e.0 - 1)
    &&& fits_i32(g.1 + e.1) && fits_i32(g.1 + e.1 - 1)
    &&& fits_i32(g.2 + e.2) && fits_i32(g.2 + e.2 - 1)
    &&& fits_i32(tx - g.0 - e.0) && fits_i32(tx - g.0 - 1)
    &&& fits_i32(tz - g.2 - e.2) && fits_i32(tz - g.2 - 1)
    &&& fits_i32(p.0 * p.1) && fits_i32(p.0 * p.1 * p.2)
}

/// Every value that placing a new top layer computes fits in an `i32`: the top row
/// `t.1 - 1`, and the fluid's end along `x` and `z`.
pub open spec fn layer_fits(t: Triple, g: Triple, e: Triple) -> bool {
    &&& fits_i32(t.1 - 1)
    &&& fits_i32(t.0 - (e.0 + g.0))
    &&& fits_i32(t.2 - (e.2 + g.2))
}

/// A cell of the ghost layer: below the ghost height, or within the ghost margin of a
/// side wall along `x` or `z`.
pub open spec fn is_ghost_cell(t: Triple, g: Triple, c: Cell) -> bool {
    ||| c.1 <= g.1 - 1
    ||| c.0 <= g.0 - 1
    ||| c.0 >= t.0 - g.0
    ||| c.2 <= g.2 - 1
    ||| c.2 >= t.2 - g.2
}

/// A cell within the ghost and empty margins together.
pub open spec fn is_empty_cell(t: Triple, g: Triple, e: Triple, c: Cell) -> bool {
    ||| c.1 <= g.1 + e.1 - 1
    ||| c.0 <= g.0 + e.0 - 1
    ||| c.0 >= t.0 - g.0 - e.0
    ||| c.2 <= g.2 + e.2 - 1
    ||| c.2 >= t.2 - g.2 - e.2
}

/// What the initial lattice puts at a cell: ghost first, then empty, else fluid.
pub open spec fn cell_kind(t: Triple, g: Triple, e: Triple, c: Cell) -> CellKind {
    if is_ghost_cell(t, g, c) {
        CellKind::GhostParticle
    } else if is_empty_cell(t, g, e, c) {
        CellKind::Empty
    } else {
        CellKind::Fluid
    }
}

pub open spec fn ghost_pred(t: Triple, g: Triple, e: Triple) -> spec_fn(Cell) -> bool {
    |c: Cell| cell_kind(t, g, e, c) == CellKind::GhostParticle
}

pub open spec fn fluid_pred(t: Triple, g: Triple, e: Triple) -> spec_fn(Cell) -> bool {
    |c: Cell| cell_kind(t, g, e, c) == CellKind::Fluid
}

proof fn lemma_filter_step(w: Seq<Cell>, c: Cell, p: spec_fn(Cell) -> bool)
    ensures
        w.push(c).filter(p) == if p(c) {
            w.filter(p).push(c)
        } else {
            w.filter(p)
        },
{
    w.lemma_filter_push(c, p);
}

/// All cells of a lattice of size `t`, in the order in which the simulation creates them.
pub open spec fn lattice_cells(t: Triple) -> Seq<Cell> {
    box_cells(0, t.0 as int, 0, t.1 as int, 0, t.2 as int)
}

/// The indices of the particles in the given cells, cell after cell.
pub open spec fn flat_indices(cells: Seq<Cell>, g: Map<Cell, Seq<usize>>) -> Seq<usize>
    decreases cells.len(),
{
    if cells.len() == 0 {
        Seq::empty()
    } else {
        flat_indices(cells.drop_last(), g) + lookup(g, cells.last())
    }
}

/// The GPU record of a cell whose particles start at position `start` of the flat index
/// array: the first and the last position of its particles, or two `u32::MAX` where the
/// cell holds none.
pub open spec fn gpu_cell(start: int, g: Map<Cell, Seq<usize>>, c: Cell) -> (u32, u32) {
    if g.contains_key(c) {
        (start as u32, (start + g[c].len() - 1) as u32)
    } else {
        (u32::MAX, u32::MAX)
    }
}

/// The GPU records of the given cells, in order.
pub open spec fn gpu_cells(cells: Seq<Cell>, g: Map<Cell, Seq<usize>>) -> Seq<(u32, u32)>
    decreases cells.len(),
{
    if cells.len() == 0 {
        Seq::empty()
    } else {
        gpu_cells(cells.drop_last(), g).push(
            gpu_cell(flat_indices(cells.drop_last(), g).len() as int, g, cells.last()),
        )
    }
}

/// Particle indices as the 32-bit words that the GPU reads.
pub open spec fn to_u32s(s: Seq<usize>) -> Seq<u32> {
    s.map_values(|x: usize| x as u32)
}

/// The particles of one cell: its fluid particles, then its ghost particles.
pub open spec fn cell_neighbors(
    fluid: Map<Cell, Seq<usize>>,
    ghost: Map<Cell, Seq<usize>>,
    c: Cell,
) -> Seq<Neighbor> {
    lookup(fluid, c).map_values(|i: usize| Neighbor::Fluid(i)) + lookup(ghost, c).map_values(
        |i: usize| Neighbor::GhostParticle(i),
    )
}

/// The particles of the given cells, cell after cell.
pub open spec fn neighbors_in(
    cells: Seq<Cell>,
    fluid: Map<Cell, Seq<usize>>,
    ghost: Map<Cell, Seq<usize>>,
) -> Seq<Neighbor>
    decreases cells.len(),
{
    if cells.len() == 0 {
        Seq::empty()
    } else {
        neighbors_in(cells.drop_last(), fluid, ghost) + cell_neighbors(fluid, ghost, cells.last())
    }
}

/// The cells within `l` cells of `c` along every axis, in walk order.
pub open spec fn neighborhood(c: Cell, l: int) -> Seq<Cell> {
    box_cells(c.0 - l, c.0 + l + 1, c.1 - l, c.1 + l + 1, c.2 - l, c.2 + l + 1)
}

/// The integer state of the simulation: how the lattice is laid out, how far around a
/// particle the forces reach (in cells), and the grids of fluid and ghost particles.
pub struct Water {
    pub particle_partition: Triple,
    pub ghost_partition: Triple,
    pub empty_partition: Triple,
    pub ghost_margin: Triple,
    pub empty_cells_margin: Triple,
    pub total_partition: Triple,
    pub particle_count: i32,
    pub ghost_rate: i32,
    pub lbox: i32,
    pub grid: CellGrid,
    pub ghost_grid: CellGrid,
}

impl Water {
    /// The layout fields agree with one another and the grids are well formed.
    pub open spec fn wf(&self) -> bool {
        &&& partition_fits(self.particle_partition, self.ghost_margin, self.empty_cells_margin)
        &&& self.ghost_partition == self.ghost_margin
        &&& self.empty_partition == self.empty_cells_margin
        &&& self.total_partition == spec_total_partition(
            self.particle_partition,
            self.ghost_margin,
            self.empty_cells_margin,
        )
        &&& self.grid.wf()
        &&& self.ghost_grid.wf()
    }

    /// What `new` makes of these margins: the layout they give, the default particle count
    /// `p.0 * p.1 * p.2`, forces reaching two cells, and empty grids.
    pub open spec fn is_fresh(&self, p: Triple, g: Triple, e: Triple) -> bool {
        &&& self.wf()
        &&& self.particle_partition == p
        &&& self.ghost_margin == g
        &&& self.empty_cells_margin == e
        &&& self.total_partition == spec_total_partition(p, g, e)
        &&& self.particle_count == p.0 * p.1 * p.2
        &&& self.lbox == 2
        &&& self.ghost_rate == 1
        &&& self.grid@ == Map::<Cell, Seq<usize>>::empty()
        &&& self.ghost_grid@ == Map::<Cell, Seq<usize>>::empty()
    }

    /// `new`, where the layout fits in `i32`; `None` where some value that laying it out
    /// computes would overflow.
    pub fn try_new(particle_partition: Triple, ghost_margin: Triple, empty_cells_margin: Triple) -> (r: Option<Water>)
        ensures
            r is Some <==> partition_fits(particle_partition, ghost_margin, empty_cells_margin),
            r matches Some(w) ==> w.is_fresh(particle_partition, ghost_margin, empty_cells_margin),
    {
        proof {
            reveal(partition_fits);
        }
        let p = particle_partition;
        let g = ghost_margin;
        let e = empty_cells_margin;
        let g0x2 = g.0.checked_mul(2)?;
        let tx = p.0.checked_add(g0x2)?;
        let e0x2 = e.0.checked_mul(2)?;
        let tx = tx.checked_add(e0x2)?;
        let ty = p.1.checked_add(g.1)?;
        let ty = ty.checked_add(e.1)?;
        let g2x2 = g.2.checked_mul(2)?;
        let tz = p.2.checked_add(g2x2)?;
        let e2x2 = e.2.checked_mul(2)?;
        let tz = tz.checked_add(e2x2)?;
        g.0.checked_sub(1)?;
        g.1.checked_sub(1)?;
        g.2.checked_sub(1)?;
        let txg = tx.checked_sub(g.0)?;
        tx.checked_sub(1)?;
        let tzg = tz.checked_sub(g.2)?;
        tz.checked_sub(1)?;
        let ge0 = g.0.checked_add(e.0)?;
        ge0.checked_sub(1)?;
        let ge1 = g.1.checked_add(e.1)?;
        ge1.checked_sub(1)?;
        let ge2 = g.2.checked_add(e.2)?;
        ge2.checked_sub(1)?;
        txg.checked_sub(e.0)?;
        txg.checked_sub(1)?;
        tzg.checked_sub(e.2)?;
        tzg.checked_sub(1)?;
        let p01 = p.0.checked_mul(p.1)?;
        p01.checked_mul(p.2)?;
        Some(Water::new(p, g, e))
    }

    /// Lays out a lattice around a fluid block of `particle_partition` cells, with a ghost
    /// layer of `ghost_margin` cells and an empty layer of `empty_cells_margin` cells.
    /// Both grids start empty; forces reach two cells around a particle.
    pub fn new(particle_partition: Triple, ghost_margin: Triple, empty_cells_margin: Triple) -> (w: Water)
        requires
            partition_fits(particle_partition, ghost_margin, empty_cells_margin),
        ensures
            w.is_fresh(particle_partition, ghost_margin, empty_cells_margin),
    {
        proof {
            reveal(partition_fits);
        }
        let p = particle_partition;
        let g = ghost_margin;
        let e = empty_cells_margin;
        let total: Triple = (p.0 + g.0 * 2 + e.0 * 2, p.1 + g.1 + e.1, p.2 + g.2 * 2 + e.2 * 2);
        Water {
            particle_partition: p,
            ghost_partition: g,
            empty_partition: e,
            ghost_margin: g,
            empty_cells_margin: e,
            total_partition: total,
            particle_count: p.0 * p.1 * p.2,
            ghost_rate: 1,
            lbox: 2,
            grid: CellGrid::new(),
            ghost_grid: CellGrid::new(),
        }
    }

    /// What the initial lattice puts at cell `c`.
    pub fn classify(&self, c: Cell) -> (k: CellKind)
        requires
            self.wf(),
        ensures
            k == cell_kind(self.total_partition, self.ghost_margin, self.empty_cells_margin, c),
            (k == CellKind::GhostParticle) <==> (c.1 < self.ghost_margin.1 || c.0 < self.ghost_margin.0
                || c.0 >= self.total_partition.0 - self.ghost_margin.0 || c.2 < self.ghost_margin.2 || c.2
                >= self.total_partition.2 - self.ghost_margin.2),
            (k == CellKind::Fluid) <==> (self.ghost_margin.1 <= c.1 && self.ghost_margin.0 <= c.0 < self.total_partition.0
                - self.ghost_margin.0 && self.ghost_margin.2 <= c.2 < self.total_partition.2 - self.ghost_margin.2
                && self.ghost_margin.1 + self.empty_cells_margin.1 <= c.1 && self.ghost_margin.0
                + self.empty_cells_margin.0 <= c.0 < self.total_partition.0 - self.ghost_margin.0
                - self.empty_cells_margin.0 && self.ghost_margin.2 + self.empty_cells_margin.2 <= c.2
                < self.total_partition.2 - self.ghost_margin.2 - self.empty_cells_margin.2),
    {
        proof {
            reveal(partition_fits);
        }
        let t = self.total_partition;
        let g = self.ghost_margin;
        let e = self.empty_cells_margin;
        let (i, j, k) = c;
        if j <= g.1 - 1 || i <= g.0 - 1 || i >= t.0 - g.0 || k <= g.2 - 1 || k >= t.2 - g.2 {
            CellKind::GhostParticle
        } else if j <= g.1 + e.1 - 1 || i <= g.0 + e.0 - 1 || i >= t.0 - g.0 - e.0 || k <= g.2
            + e.2 - 1 || k >= t.2 - g.2 - e.2 {
            CellKind::Empty
        } else {
            CellKind::Fluid
        }
    }

    /// Walks the whole lattice and returns the cells of its ghost particles and the cells
    /// of its fluid particles, each in walk order.
    #[verifier::spinoff_prover]
    pub fn initial_lattice(&self) -> (r: (Vec<Cell>, Vec<Cell>))
        requires
            self.wf(),
        ensures
            r.0@ == lattice_cells(self.total_partition).filter(
                ghost_pred(self.total_partition, self.ghost_margin, self.empty_cells_margin),
            ),
            r.1@ == lattice_cells(self.total_partition).filter(
                fluid_pred(self.total_partition, self.ghost_margin, self.empty_cells_margin),
            ),
    {
        let t = self.total_partition;
        let ghost gp = ghost_pred(self.total_partition, self.ghost_margin, self.empty_cells_margin);
        let ghost fp = fluid_pred(self.total_partition, self.ghost_margin, self.empty_cells_margin);
        let ghost (tx, ty, tz) = (t.0 as int, t.1 as int, t.2 as int);
        let mut ghosts: Vec<Cell> = Vec::new();
        let mut fluids: Vec<Cell> = Vec::new();
        proof {
            lemma_walk_ends(0, tx, 0, ty, 0, tz, if tx <= 0 { 0 } else { tx });
            assert(ghosts@ =~= Seq::<Cell>::empty().filter(gp)) by {
                reveal(Seq::filter);
            }
            assert(fluids@ =~= Seq::<Cell>::empty().filter(fp)) by {
                reveal(Seq::filter);
            }
        }
        let mut i: i32 = 0;
        while i < t.0
            invariant
                self.wf(),
                t == self.total_partition,
                tx == t.0,
                ty == t.1,
                tz == t.2,
                gp == ghost_pred(self.total_partition, self.ghost_margin, self.empty_cells_margin),
                fp == fluid_pred(self.total_partition, self.ghost_margin, self.empty_cells_margin),
                0 <= i,
                i == 0 || i <= t.0,
                ghosts@ == walk_cells(0, tx, 0, ty, 0, tz, i as int, 0, 0).filter(gp),
                fluids@ == walk_cells(0, tx, 0, ty, 0, tz, i as int, 0, 0).filter(fp),
            decreases t.0 - i,
        {
            let mut j: i32 = 0;
            while j < t.1
                invariant
                    self.wf(),
                    t == self.total_partition,
                    tx == t.0,
                    ty == t.1,
                    tz == t.2,
                    gp == ghost_pred(self.total_partition, self.ghost_margin, self.empty_cells_margin),
                    fp == fluid_pred(self.total_partition, self.ghost_margin, self.empty_cells_margin),
                    0 <= i < t.0,
                    0 <= j,
                    j == 0 || j <= t.1,
                    ghosts@ == walk_cells(0, tx, 0, ty, 0, tz, i as int, j as int, 0).filter(gp),
                    fluids@ == walk_cells(0, tx, 0, ty, 0, tz, i as int, j as int, 0).filter(fp),
                decreases t.1 - j,
            {
                let mut k: i32 = 0;
                while k < t.2
                    invariant
                        self.wf(),
                        t == self.total_partition,
                        tx == t.0,
                        ty == t.1,
                        tz == t.2,
                        gp == ghost_pred(self.total_partition, self.ghost_margin, self.empty_cells_margin),
                        fp == fluid_pred(self.total_partition, self.ghost_margin, self.empty_cells_margin),
                        0 <= i < t.0,
                        0 <= j < t.1,
                        0 <= k,
                        k == 0 || k <= t.2,
                        ghosts@ == walk_cells(0, tx, 0, ty, 0, tz, i as int, j as int, k as int).filter(gp),
                        fluids@ == walk_cells(0, tx, 0, ty, 0, tz, i as int, j as int, k as int).filter(fp),
                    decreases t.2 - k,
                {
                    let c: Cell = (i, j, k);
                    let ghost w = walk_cells(0, tx, 0, ty, 0, tz, i as int, j as int, k as int);
                    proof {
                        lemma_walk_step(0, tx, 0, ty, 0, tz, i as int, j as int, k as int);
                        assert(cell_at(i as int, j as int, k as int) == c);
                        lemma_filter_step(w, c, gp);
                        lemma_filter_step(w, c, fp);
                    }
                    match self.classify(c) {
                        CellKind::GhostParticle => {
                            ghosts.push(c);
                        },
                        CellKind::Empty => {},
                        CellKind::Fluid => {
                            fluids.push(c);
                        },
                    }
                    k = k + 1;
                }
                proof {
                    lemma_walk_next_row(0, tx, 0, ty, 0, tz, i as int, j as int, k as int);
                }
                j = j + 1;
            }
            proof {
                lemma_walk_next_plane(0, tx, 0, ty, 0, tz, i as int, j as int);
            }
            i = i + 1;
        }
        proof {
            lemma_walk_ends(0, tx, 0, ty, 0, tz, i as int);
        }
        (ghosts, fluids)
    }

    /// The coordinates that the walk of the initial lattice last stood at, per axis: the
    /// last index along an axis where the walk reached it, `0` where it never did (an
    /// axis is reached only if every outer axis is non-empty).
    pub fn last_lattice_cell(&self) -> (c: Cell)
        requires
            self.wf(),
        ensures
            c.0 == (if self.total_partition.0 > 0 { self.total_partition.0 - 1 } else { 0 }),
            c.1 == (if self.total_partition.0 > 0 && self.total_partition.1 > 0 {
                self.total_partition.1 - 1
            } else {
                0
            }),
            c.2 == (if self.total_partition.0 > 0 && self.total_partition.1 > 0 && self.total_partition.2 > 0 {
                self.total_partition.2 - 1
            } else {
                0
            }),
    {
        let t = self.total_partition;
        let i = if t.0 > 0 { t.0 - 1 } else { 0 };
        let j = if t.0 > 0 && t.1 > 0 { t.1 - 1 } else { 0 };
        let k = if t.0 > 0 && t.1 > 0 && t.2 > 0 { t.2 - 1 } else { 0 };
        (i, j, k)
    }

    /// The cells at which a new layer of fluid particles is added: the top row of the
    /// lattice (`j = total.1 - 1`), over the fluid's extent along `x` and `z`, in walk
    /// order.
    /// `None` where one of those values would overflow.
    #[verifier::spinoff_prover]
    pub fn new_particle_cells(&self) -> (r: Option<Vec<Cell>>)
        requires
            self.wf(),
        ensures
            r is Some <==> layer_fits(self.total_partition, self.ghost_partition, self.empty_partition),
            r matches Some(cells) ==> cells@ == box_cells(
                self.empty_partition.0 + self.ghost_partition.0,
                self.total_partition.0 - (self.empty_partition.0 + self.ghost_partition.0),
                self.total_partition.1 - 1,
                self.total_partition.1 as int,
                self.empty_partition.2 + self.ghost_partition.2,
                self.total_partition.2 - (self.empty_partition.2 + self.ghost_partition.2),
            ),
    {
        proof {
            reveal(partition_fits);
        }
        let t = self.total_partition;
        let j = t.1.checked_sub(1)?;
        let starti = self.empty_partition.0 + self.ghost_partition.0;
        let startk = self.empty_partition.2 + self.ghost_partition.2;
        let endi = t.0.checked_sub(starti)?;
        let endk = t.2.checked_sub(startk)?;
        let ghost (ilo, ihi, jlo, jhi, klo, khi) = (
            starti as int,
            endi as int,
            j as int,
            t.1 as int,
            startk as int,
            endk as int,
        );
        let mut cells: Vec<Cell> = Vec::new();
        proof {
            lemma_walk_ends(ilo, ihi, jlo, jhi, klo, khi, if ihi <= ilo { ilo } else { ihi });
        }
        let mut i: i32 = starti;
        while i < endi
            invariant
                ilo == starti,
                ihi == endi,
                jlo == j,
                jhi == j + 1,
                klo == startk,
                khi == endk,
                starti <= i,
                i == starti || i <= endi,
                cells@ == walk_cells(ilo, ihi, jlo, jhi, klo, khi, i as int, jlo, klo),
            decreases endi - i,
        {
            let mut k: i32 = startk;
            while k < endk
                invariant
                    ilo == starti,
                    ihi == endi,
                    jlo == j,
                    jhi == j + 1,
                    klo == startk,
                    khi == endk,
                    starti <= i < endi,
                    startk <= k,
                    k == startk || k <= endk,
                    cells@ == walk_cells(ilo, ihi, jlo, jhi, klo, khi, i as int, jlo, k as int),
                decreases endk - k,
            {
                proof {
                    lemma_walk_step(ilo, ihi, jlo, jhi, klo, khi, i as int, jlo, k as int);
                }
                cells.push((i, j, k));
                k = k + 1;
            }
            proof {
                lemma_walk_next_row(ilo, ihi, jlo, jhi, klo, khi, i as int, jlo, k as int);
                lemma_walk_next_plane(ilo, ihi, jlo, jhi, klo, khi, i as int, jhi);
            }
            i = i + 1;
        }
        proof {
            lemma_walk_ends(ilo, ihi, jlo, jhi, klo, khi, i as int);
        }
        Some(cells)
    }

    /// Rebuilds the grid of fluid particles: particle `i` lies in `cells[i]`.
    pub fn load_grid(&mut self, cells: &Vec<Cell>)
        requires
            old(self).wf(),
        ensures
            final(self).wf(),
            final(self).grid@ == grid_of(cells@),
            final(self).ghost_grid == old(self).ghost_grid,
            final(self).total_partition == old(self).total_partition,
            final(self).particle_partition == old(self).particle_partition,
            final(self).ghost_partition == old(self).ghost_partition,
            final(self).empty_partition == old(self).empty_partition,
            final(self).ghost_margin == old(self).ghost_margin,
            final(self).empty_cells_margin == old(self).empty_cells_margin,
            final(self).particle_count == old(self).particle_count,
            final(self).ghost_rate == old(self).ghost_rate,
            final(self).lbox == old(self).lbox,
    {
        self.grid = CellGrid::from_cells(cells);
    }

    /// Rebuilds the grid of ghost particles: ghost particle `i` lies in `cells[i]`.
    pub fn load_ghost_grid(&mut self, cells: &Vec<Cell>)
        requires
            old(self).wf(),
        ensures
            final(self).wf(),
            final(self).ghost_grid@ == grid_of(cells@),
            final(self).grid == old(self).grid,
            final(self).total_partition == old(self).total_partition,
            final(self).particle_partition == old(self).particle_partition,
            final(self).ghost_partition == old(self).ghost_partition,
            final(self).empty_partition == old(self).empty_partition,
            final(self).ghost_margin == old(self).ghost_margin,
            final(self).empty_cells_margin == old(self).empty_cells_margin,
            final(self).particle_count == old(self).particle_count,
            final(self).ghost_rate == old(self).ghost_rate,
            final(self).lbox == old(self).lbox,
    {
        self.ghost_grid = CellGrid::from_cells(cells);
    }

    /// Flattens `grid` for the GPU: walking the cells of the whole lattice in order, the
    /// indices of each cell's particles go one after another into one array, and each
    /// cell gets the positions of its first and last index there, or `u32::MAX` twice
    /// where it holds no particle.
    #[verifier::spinoff_prover]
    pub fn transform_hashmap_gpu_grid(&self, grid: &CellGrid) -> (r: (Vec<u32>, Vec<(u32, u32)>))
        requires
            self.wf(),
            grid.wf(),
        ensures
            r.0@ == to_u32s(flat_indices(lattice_cells(self.total_partition), grid@)),
            r.1@ == gpu_cells(lattice_cells(self.total_partition), grid@),
    {
        let t = self.total_partition;
        let ghost g = grid@;
        let ghost (tx, ty, tz) = (t.0 as int, t.1 as int, t.2 as int);
        let mut indices_flattened: Vec<u32> = Vec::new();
        let mut cells: Vec<(u32, u32)> = Vec::new();
        proof {
            lemma_walk_ends(0, tx, 0, ty, 0, tz, if tx <= 0 { 0 } else { tx });
            assert(indices_flattened@ =~= to_u32s(flat_indices(Seq::<Cell>::empty(), g)));
            assert(cells@ =~= gpu_cells(Seq::<Cell>::empty(), g));
        }
        let mut i: i32 = 0;
        while i < t.0
            invariant
                grid.wf(),
                g == grid@,
                tx == t.0,
                ty == t.1,
                tz == t.2,
                0 <= i,
                i == 0 || i <= t.0,
                indices_flattened@ == to_u32s(flat_indices(walk_cells(0, tx, 0, ty, 0, tz, i as int, 0, 0), g)),
                cells@ == gpu_cells(walk_cells(0, tx, 0, ty, 0, tz, i as int, 0, 0), g),
            decreases t.0 - i,
        {
            let mut j: i32 = 0;
            while j < t.1
                invariant
                    grid.wf(),
                    g == grid@,
                    tx == t.0,
                    ty == t.1,
                    tz == t.2,
                    0 <= i < t.0,
                    0 <= j,
                    j == 0 || j <= t.1,
                    indices_flattened@ == to_u32s(flat_indices(walk_cells(0, tx, 0, ty, 0, tz, i as int, j as int, 0), g)),
                    cells@ == gpu_cells(walk_cells(0, tx, 0, ty, 0, tz, i as int, j as int, 0), g),
                decreases t.1 - j,
            {
                let mut k: i32 = 0;
                while k < t.2
                    invariant
                        grid.wf(),
                        g == grid@,
                        tx == t.0,
                        ty == t.1,
                        tz == t.2,
                        0 <= i < t.0,
                        0 <= j < t.1,
                        0 <= k,
                        k == 0 || k <= t.2,
                        indices_flattened@ == to_u32s(flat_indices(walk_cells(0, tx, 0, ty, 0, tz, i as int, j as int, k as int), g)),
                        cells@ == gpu_cells(walk_cells(0, tx, 0, ty, 0, tz, i as int, j as int, k as int), g),
                    decreases t.2 - k,
                {
                    let grid_key: Cell = (i, j, k);
                    let ghost w = walk_cells(0, tx, 0, ty, 0, tz, i as int, j as int, k as int);
                    proof {
                        lemma_walk_step(0, tx, 0, ty, 0, tz, i as int, j as int, k as int);
                        assert(w.push(grid_key).drop_last() =~= w);
                    }
                    let start = indices_flattened.len();
                    let mut new_cell: (u32, u32) = (start as u32, u32::MAX);
                    match grid.get(grid_key) {
                        Some(indices) => {
                            let n = indices.len();
                            let mut m: usize = 0;
                            while m < n
                                invariant
                                    n == indices@.len(),
                                    m <= n,
                                    indices_flattened@ == to_u32s(flat_indices(w, g) + indices@.take(m as int)),
                                decreases n - m,
                            {
                                proof {
                                    assert((flat_indices(w, g) + indices@.take(m + 1)) =~= (flat_indices(w, g)
                                        + indices@.take(m as int)).push(indices@[m as int]));
                                }
                                indices_flattened.push(indices[m] as u32);
                                proof {
                                    assert(indices_flattened@ =~= to_u32s(flat_indices(w, g) + indices@.take(m + 1)));
                                }
                                m = m + 1;
                            }
                            proof {
                                assert(indices@.take(n as int) =~= indices@);
                                assert(indices@.len() > 0);
                            }
                            new_cell.1 = (indices_flattened.len() - 1) as u32;
                        },
                        None => {
                            new_cell.0 = u32::MAX;
                            proof {
                                assert(flat_indices(w, g) + lookup(g, grid_key) =~= flat_indices(w, g));
                            }
                        },
                    }
                    cells.push(new_cell);
                    k = k + 1;
                }
                proof {
                    lemma_walk_next_row(0, tx, 0, ty, 0, tz, i as int, j as int, k as int);
                }
                j = j + 1;
            }
            proof {
                lemma_walk_next_plane(0, tx, 0, ty, 0, tz, i as int, j as int);
            }
            i = i + 1;
        }
        proof {
            lemma_walk_ends(0, tx, 0, ty, 0, tz, i as int);
        }
        (indices_flattened, cells)
    }

    /// Whether the walk around cell `c` stays within `i32`: every coordinate within
    /// `lbox` cells of `c` fits (and `lbox` can be negated).
    pub fn neighborhood_fits(&self, c: Cell) -> (r: bool)
        ensures
            r == (self.lbox > i32::MIN && (self.lbox >= 0 ==> {
                &&& fits_i32(c.0 - self.lbox) && fits_i32(c.0 + self.lbox)
                &&& fits_i32(c.1 - self.lbox) && fits_i32(c.1 + self.lbox)
                &&& fits_i32(c.2 - self.lbox) && fits_i32(c.2 + self.lbox)
            })),
    {
        let l = self.lbox as i64;
        if self.lbox == i32::MIN {
            return false;
        }
        if l < 0 {
            return true;
        }
        let lo = i32::MIN as i64;
        let hi = i32::MAX as i64;
        let (x, y, z) = (c.0 as i64, c.1 as i64, c.2 as i64);
        x - l >= lo && x + l <= hi && y - l >= lo && y + l <= hi && z - l >= lo && z + l <= hi
    }

    /// The particles that the force passes visit around a particle in cell `c`: walking
    /// the cells within `lbox` cells of `c` along every axis in order, each cell's fluid
    /// particles, then its ghost particles.
    #[verifier::spinoff_prover]
    pub fn neighbor_particles(&self, c: Cell) -> (r: Vec<Neighbor>)
        requires
            self.wf(),
            self.lbox > i32::MIN,
            self.lbox >= 0 ==> {
                &&& fits_i32(c.0 - self.lbox) && fits_i32(c.0 + self.lbox)
                &&& fits_i32(c.1 - self.lbox) && fits_i32(c.1 + self.lbox)
                &&& fits_i32(c.2 - self.lbox) && fits_i32(c.2 + self.lbox)
            },
        ensures
            r@ == neighbors_in(neighborhood(c, self.lbox as int), self.grid@, self.ghost_grid@),
    {
        let l = self.lbox;
        let ghost fluid = self.grid@;
        let ghost ghosts = self.ghost_grid@;
        let ghost (ilo, ihi) = (c.0 - l, c.0 + l + 1);
        let ghost (jlo, jhi) = (c.1 - l, c.1 + l + 1);
        let ghost (klo, khi) = (c.2 - l, c.2 + l + 1);
        let mut out: Vec<Neighbor> = Vec::new();
        proof {
            lemma_walk_ends(ilo, ihi, jlo, jhi, klo, khi, if ihi <= ilo { ilo } else { ihi });
            assert(out@ =~= neighbors_in(Seq::<Cell>::empty(), fluid, ghosts));
        }
        let lo: i64 = -(l as i64);
        let hi: i64 = l as i64;
        let mut a: i64 = lo;
        while a <= hi
            invariant
                self.wf(),
                fluid == self.grid@,
                ghosts == self.ghost_grid@,
                l == self.lbox,
                lo == -l,
                hi == l,
                l > i32::MIN,
                l >= 0 ==> fits_i32(c.0 - l) && fits_i32(c.0 + l) && fits_i32(c.1 - l) && fits_i32(c.1 + l)
                    && fits_i32(c.2 - l) && fits_i32(c.2 + l),
                ilo == c.0 - l,
                ihi == c.0 + l + 1,
                jlo == c.1 - l,
                jhi == c.1 + l + 1,
                klo == c.2 - l,
                khi == c.2 + l + 1,
                lo <= a,
                a == lo || a <= hi + 1,
                out@ == neighbors_in(walk_cells(ilo, ihi, jlo, jhi, klo, khi, c.0 + a, jlo, klo), fluid, ghosts),
            decreases hi + 1 - a,
        {
            let mut b: i64 = lo;
            while b <= hi
                invariant
                    self.wf(),
                    fluid == self.grid@,
                    ghosts == self.ghost_grid@,
                    l == self.lbox,
                    lo == -l,
                    hi == l,
                    l >= 0,
                    fits_i32(c.0 - l) && fits_i32(c.0 + l) && fits_i32(c.1 - l) && fits_i32(c.1 + l)
                        && fits_i32(c.2 - l) && fits_i32(c.2 + l),
                    ilo == c.0 - l,
                    ihi == c.0 + l + 1,
                    jlo == c.1 - l,
                    jhi == c.1 + l + 1,
                    klo == c.2 - l,
                    khi == c.2 + l + 1,
                    lo <= a <= hi,
                    lo <= b,
                    b <= hi + 1,
                    out@ == neighbors_in(walk_cells(ilo, ihi, jlo, jhi, klo, khi, c.0 + a, c.1 + b, klo), fluid, ghosts),
                decreases hi + 1 - b,
            {
                let mut d: i64 = lo;
                while d <= hi
                    invariant
                        self.wf(),
                        fluid == self.grid@,
                        ghosts == self.ghost_grid@,
                        l == self.lbox,
                        lo == -l,
                        hi == l,
                        l >= 0,
                        fits_i32(c.0 - l) && fits_i32(c.0 + l) && fits_i32(c.1 - l) && fits_i32(c.1 + l)
                            && fits_i32(c.2 - l) && fits_i32(c.2 + l),
                        ilo == c.0 - l,
                        ihi == c.0 + l + 1,
                        jlo == c.1 - l,
                        jhi == c.1 + l + 1,
                        klo == c.2 - l,
                        khi == c.2 + l + 1,
                        lo <= a <= hi,
                        lo <= b <= hi,
                        lo <= d,
                        d <= hi + 1,
                        out@ == neighbors_in(
                            walk_cells(ilo, ihi, jlo, jhi, klo, khi, c.0 + a, c.1 + b, c.2 + d),
                            fluid,
                            ghosts,
                        ),
                    decreases hi + 1 - d,
                {
                    let other: Cell = ((c.0 as i64 + a) as i32, (c.1 as i64 + b) as i32, (c.2 as i64 + d) as i32);
                    let ghost w = walk_cells(ilo, ihi, jlo, jhi, klo, khi, c.0 + a, c.1 + b, c.2 + d);
                    proof {
                        lemma_walk_step(ilo, ihi, jlo, jhi, klo, khi, c.0 + a, c.1 + b, c.2 + d);
                        assert(cell_at(c.0 + a, c.1 + b, c.2 + d) == other);
                        assert(w.push(other).drop_last() =~= w);
                    }
                    let ghost base = out@;
                    if let Some(indices) = self.grid.get(other) {
                        let n = indices.len();
                        let mut m: usize = 0;
                        while m < n
                            invariant
                                n == indices@.len(),
                                m <= n,
                                out@ == base + indices@.take(m as int).map_values(|i: usize| Neighbor::Fluid(i)),
                            decreases n - m,
                        {
                            out.push(Neighbor::Fluid(indices[m]));
                            proof {
                                assert(indices@.take(m + 1).map_values(|i: usize| Neighbor::Fluid(i))
                                    =~= indices@.take(m as int).map_values(|i: usize| Neighbor::Fluid(i)).push(
                                    Neighbor::Fluid(indices@[m as int])));
                            }
                            m = m + 1;
                        }
                        proof {
                            assert(indices@.take(n as int) =~= indices@);
                        }
                    } else {
                        proof {
                            assert(base =~= base + lookup(fluid, other).map_values(|i: usize| Neighbor::Fluid(i)));
                        }
                    }
                    let ghost mid = out@;
                    if let Some(indices) = self.ghost_grid.get(other) {
                        let n = indices.len();
                        let mut m: usize = 0;
                        while m < n
                            invariant
                                n == indices@.len(),
                                m <= n,
                                out@ == mid + indices@.take(m as int).map_values(|i: usize| Neighbor::GhostParticle(i)),
                            decreases n - m,
                        {
                            out.push(Neighbor::GhostParticle(indices[m]));
                            proof {
                                assert(indices@.take(m + 1).map_values(|i: usize| Neighbor::GhostParticle(i))
                                    =~= indices@.take(m as int).map_values(|i: usize| Neighbor::GhostParticle(i)).push(
                                    Neighbor::GhostParticle(indices@[m as int])));
                            }
                            m = m + 1;
                        }
                        proof {
                            assert(indices@.take(n as int) =~= indices@);
                        }
                    } else {
                        proof {
                            assert(mid =~= mid + lookup(ghosts, other).map_values(|i: usize| Neighbor::GhostParticle(i)));
                        }
                    }
                    proof {
                        assert(out@ =~= base + cell_neighbors(fluid, ghosts, other));
                    }
                    d = d + 1;
                }
                proof {
                    lemma_walk_next_row(ilo, ihi, jlo, jhi, klo, khi, c.0 + a, c.1 + b, c.2 + d);
                }
                b = b + 1;
            }
            proof {
                lemma_walk_next_plane(ilo, ihi, jlo, jhi, klo, khi, c.0 + a, c.1 + b);
            }
            a = a + 1;
        }
        proof {
            lemma_walk_ends(ilo, ihi, jlo, jhi, klo, khi, c.0 + a);
        }
        out
    }
}


/// The fluid of the initial lattice is the block of `p.0 x p.1 x p.2` cells that starts
/// after the ghost and empty margins, walked in order; so there are
/// `p.0 * p.1 * p.2` fluid particles, the count that `Water::new` records.
pub proof fn lemma_fluid_block(p: Triple, g: Triple, e: Triple)
    requires
        partition_fits(p, g, e),
        p.0 >= 0 && p.1 >= 0 && p.2 >= 0,
        g.0 >= 0 && g.1 >= 0 && g.2 >= 0,
        e.0 >= 0 && e.1 >= 0 && e.2 >= 0,
    ensures
        lattice_cells(spec_total_partition(p, g, e)).filter(
            fluid_pred(spec_total_partition(p, g, e), g, e),
        ) == box_cells(
            g.0 + e.0,
            g.0 + e.0 + p.0,
            g.1 + e.1,
            g.1 + e.1 + p.1,
            g.2 + e.2,
            g.2 + e.2 + p.2,
        ),
        lattice_cells(spec_total_partition(p, g, e)).filter(
            fluid_pred(spec_total_partition(p, g, e), g, e),
        ).len() == p.0 * p.1 * p.2,
{
    reveal(partition_fits);
    let t = spec_total_partition(p, g, e);
    let fp = fluid_pred(t, g, e);
    assert(t.0 == p.0 + g.0 * 2 + e.0 * 2);
    assert(t.1 == p.1 + g.1 + e.1);
    assert(t.2 == p.2 + g.2 * 2 + e.2 * 2);
    assert forall|i: int, j: int, k: int|
        0 <= i < t.0 && 0 <= j < t.1 && 0 <= k < t.2 implies (#[trigger] fp(cell_at(i, j, k)) <==> (
    g.0 + e.0 <= i < g.0 + e.0 + p.0 && g.1 + e.1 <= j < g.1 + e.1 + p.1 && g.2 + e.2 <= k < g.2 + e.2
        + p.2)) by {
        let c = cell_at(i, j, k);
        assert(c.0 == i && c.1 == j && c.2 == k);
    }
    lemma_filter_box(
        fp,
        0,
        t.0 as int,
        0,
        t.1 as int,
        0,
        t.2 as int,
        g.0 + e.0,
        g.0 + e.0 + p.0,
        g.1 + e.1,
        g.1 + e.1 + p.1,
        g.2 + e.2,
        g.2 + e.2 + p.2,
    );
    lemma_box_len(g.0 + e.0, g.0 + e.0 + p.0, g.1 + e.1, g.1 + e.1 + p.1, g.2 + e.2, g.2 + e.2 + p.2);
}

/// A walk over cells visits fluid particle `i` exactly when one of the cells lists it,
/// and ghost particle `i` exactly when one of the cells lists it as a ghost.
pub proof fn lemma_neighbors_in_contains(
    cells: Seq<Cell>,
    fluid: Map<Cell, Seq<usize>>,
    ghost: Map<Cell, Seq<usize>>,
    i: usize,
)
    ensures
        neighbors_in(cells, fluid, ghost).contains(Neighbor::Fluid(i)) <==> exists|n: int|
            0 <= n < cells.len() && #[trigger] lookup(fluid, cells[n]).contains(i),
        neighbors_in(cells, fluid, ghost).contains(Neighbor::GhostParticle(i)) <==> exists|n: int|
            0 <= n < cells.len() && #[trigger] lookup(ghost, cells[n]).contains(i),
    decreases cells.len(),
{
    if cells.len() > 0 {
        let s = cells.drop_last();
        let c = cells.last();
        lemma_neighbors_in_contains(s, fluid, ghost, i);
        let fl = lookup(fluid, c).map_values(|x: usize| Neighbor::Fluid(x));
        let gl = lookup(ghost, c).map_values(|x: usize| Neighbor::GhostParticle(x));
        lemma_add_contains(neighbors_in(s, fluid, ghost), fl + gl, Neighbor::Fluid(i));
        lemma_add_contains(neighbors_in(s, fluid, ghost), fl + gl, Neighbor::GhostParticle(i));
        lemma_add_contains(fl, gl, Neighbor::Fluid(i));
        lemma_add_contains(fl, gl, Neighbor::GhostParticle(i));
        if fl.contains(Neighbor::Fluid(i)) {
            let m = choose|m: int| 0 <= m < fl.len() && fl[m] == Neighbor::Fluid(i);
            assert(lookup(fluid, c)[m] == i);
            assert(lookup(fluid, cells[cells.len() - 1]).contains(i));
        }
        if lookup(fluid, c).contains(i) {
            let m = choose|m: int| 0 <= m < lookup(fluid, c).len() && lookup(fluid, c)[m] == i;
            assert(fl[m] == Neighbor::Fluid(i));
        }
        if gl.contains(Neighbor::GhostParticle(i)) {
            let m = choose|m: int| 0 <= m < gl.len() && gl[m] == Neighbor::GhostParticle(i);
            assert(lookup(ghost, c)[m] == i);
            assert(lookup(ghost, cells[cells.len() - 1]).contains(i));
        }
        if lookup(ghost, c).contains(i) {
            let m = choose|m: int| 0 <= m < lookup(ghost, c).len() && lookup(ghost, c)[m] == i;
            assert(gl[m] == Neighbor::GhostParticle(i));
        }
        if gl.contains(Neighbor::Fluid(i)) {
            let m = choose|m: int| 0 <= m < gl.len() && gl[m] == Neighbor::Fluid(i);
        }
        if fl.contains(Neighbor::GhostParticle(i)) {
            let m = choose|m: int| 0 <= m < fl.len() && fl[m] == Neighbor::GhostParticle(i);
        }
        if exists|n: int| 0 <= n < cells.len() && #[trigger] lookup(fluid, cells[n]).contains(i) {
            let n = choose|n: int| 0 <= n < cells.len() && #[trigger] lookup(fluid, cells[n]).contains(i);
            if n < s.len() {
                assert(s[n] == cells[n]);
                assert(lookup(fluid, s[n]).contains(i));
            }
        }
        if exists|n: int| 0 <= n < s.len() && #[trigger] lookup(fluid, s[n]).contains(i) {
            let n = choose|n: int| 0 <= n < s.len() && #[trigger] lookup(fluid, s[n]).contains(i);
            assert(s[n] == cells[n]);
            assert(lookup(fluid, cells[n]).contains(i));
        }
        if exists|n: int| 0 <= n < cells.len() && #[trigger] lookup(ghost, cells[n]).contains(i) {
            let n = choose|n: int| 0 <= n < cells.len() && #[trigger] lookup(ghost, cells[n]).contains(i);
            if n < s.len() {
                assert(s[n] == cells[n]);
                assert(lookup(ghost, s[n]).contains(i));
            }
        }
        if exists|n: int| 0 <= n < s.len() && #[trigger] lookup(ghost, s[n]).contains(i) {
            let n = choose|n: int| 0 <= n < s.len() && #[trigger] lookup(ghost, s[n]).contains(i);
            assert(s[n] == cells[n]);
            assert(lookup(ghost, cells[n]).contains(i));
        }
    }
}

/// Whether cell `d` lies within `l` cells of cell `c` along every axis.
pub open spec fn within(c: Cell, d: Cell, l: int) -> bool {
    &&& c.0 - l <= d.0 <= c.0 + l
    &&& c.1 - l <= d.1 <= c.1 + l
    &&& c.2 - l <= d.2 <= c.2 + l
}

/// With the fluid grid built from the particles' cells (`Water::load_grid`), the walk
/// around cell `c` visits fluid particle `i` exactly when particle `i` exists and lies
/// within `l` cells of `c` along every axis; and likewise for ghost particles and the
/// ghost grid.
pub proof fn lemma_neighborhood_complete(
    fluid_cells: Seq<Cell>,
    ghost_cells: Seq<Cell>,
    c: Cell,
    l: int,
    i: usize,
)
    requires
        fluid_cells.len() <= usize::MAX,
        ghost_cells.len() <= usize::MAX,
        l >= 0,
        fits_i32(c.0 - l) && fits_i32(c.0 + l),
        fits_i32(c.1 - l) && fits_i32(c.1 + l),
        fits_i32(c.2 - l) && fits_i32(c.2 + l),
    ensures
        neighbors_in(neighborhood(c, l), grid_of(fluid_cells), grid_of(ghost_cells)).contains(
            Neighbor::Fluid(i),
        ) <==> (i < fluid_cells.len() && within(c, fluid_cells[i as int], l)),
        neighbors_in(neighborhood(c, l), grid_of(fluid_cells), grid_of(ghost_cells)).contains(
            Neighbor::GhostParticle(i),
        ) <==> (i < ghost_cells.len() && within(c, ghost_cells[i as int], l)),
{
    lemma_one_grid_near(fluid_cells, grid_of(ghost_cells), c, l, i, true);
    lemma_one_grid_near(ghost_cells, grid_of(fluid_cells), c, l, i, false);
}

proof fn lemma_one_grid_near(
    cells: Seq<Cell>,
    other: Map<Cell, Seq<usize>>,
    c: Cell,
    l: int,
    i: usize,
    is_fluid: bool,
)
    requires
        cells.len() <= usize::MAX,
        l >= 0,
        fits_i32(c.0 - l) && fits_i32(c.0 + l),
        fits_i32(c.1 - l) && fits_i32(c.1 + l),
        fits_i32(c.2 - l) && fits_i32(c.2 + l),
    ensures
        is_fluid ==> (neighbors_in(neighborhood(c, l), grid_of(cells), other).contains(
            Neighbor::Fluid(i),
        ) <==> (i < cells.len() && within(c, cells[i as int], l))),
        !is_fluid ==> (neighbors_in(neighborhood(c, l), other, grid_of(cells)).contains(
            Neighbor::GhostParticle(i),
        ) <==> (i < cells.len() && within(c, cells[i as int], l))),
{
    let b = neighborhood(c, l);
    let g = grid_of(cells);
    lemma_neighbors_in_contains(b, g, other, i);
    lemma_neighbors_in_contains(b, other, g, i);
    if exists|n: int| 0 <= n < b.len() && #[trigger] lookup(g, b[n]).contains(i) {
        let n = choose|n: int| 0 <= n < b.len() && #[trigger] lookup(g, b[n]).contains(i);
        let d = b[n];
        lemma_grid_of(cells, d);
        lemma_positions_of(cells, d);
        let m = choose|m: int| 0 <= m < positions_of(cells, d).len() && positions_of(cells, d)[m] == i;
        assert(positions_of(cells, d)[m] == i);
        lemma_box_contains(c.0 - l, c.0 + l + 1, c.1 - l, c.1 + l + 1, c.2 - l, c.2 + l + 1, d);
        assert(b.contains(d));
    }
    if i < cells.len() && within(c, cells[i as int], l) {
        let d = cells[i as int];
        lemma_box_contains(c.0 - l, c.0 + l + 1, c.1 - l, c.1 + l + 1, c.2 - l, c.2 + l + 1, d);
        let n = choose|n: int| 0 <= n < b.len() && b[n] == d;
        lemma_grid_of(cells, d);
        lemma_positions_of(cells, d);
        assert(positions_of(cells, d).contains((i as int) as usize));
        assert(lookup(g, b[n]).contains(i));
    }
}


/// The flattened grid addresses every cell exactly: where the grid holds cell
/// `cells[n]`, record `n` gives the first and last position of that cell's particles in
/// the flat index array, and those positions hold exactly its list; every other record is
/// `(u32::MAX, u32::MAX)`. (Positions are exact while the flat array has at most
/// `u32::MAX` entries.)
pub proof fn lemma_gpu_cells(cells: Seq<Cell>, g: Map<Cell, Seq<usize>>)
    requires
        forall|c: Cell| #[trigger] g.contains_key(c) ==> g[c].len() > 0,
        flat_indices(cells, g).len() <= u32::MAX,
    ensures
        gpu_cells(cells, g).len() == cells.len(),
        forall|n: int|
            #![trigger gpu_cells(cells, g)[n]]
            0 <= n < cells.len() ==> if g.contains_key(cells[n]) {
                let r = gpu_cells(cells, g)[n];
                &&& r.0 <= r.1 < flat_indices(cells, g).len()
                &&& flat_indices(cells, g).subrange(r.0 as int, r.1 + 1) == g[cells[n]]
            } else {
                gpu_cells(cells, g)[n] == (u32::MAX, u32::MAX)
            },
    decreases cells.len(),
{
    if cells.len() > 0 {
        let s = cells.drop_last();
        let c = cells.last();
        let f = flat_indices(s, g);
        assert(flat_indices(cells, g) == f + lookup(g, c));
        lemma_gpu_cells(s, g);
        assert forall|n: int|
            #![trigger gpu_cells(cells, g)[n]]
            0 <= n < cells.len() implies if g.contains_key(cells[n]) {
                let r = gpu_cells(cells, g)[n];
                &&& r.0 <= r.1 < flat_indices(cells, g).len()
                &&& flat_indices(cells, g).subrange(r.0 as int, r.1 + 1) == g[cells[n]]
            } else {
                gpu_cells(cells, g)[n] == (u32::MAX, u32::MAX)
            } by {
            if n < s.len() {
                assert(cells[n] == s[n]);
                assert(gpu_cells(cells, g)[n] == gpu_cells(s, g)[n]);
                if g.contains_key(cells[n]) {
                    let r = gpu_cells(s, g)[n];
                    assert(flat_indices(cells, g).subrange(r.0 as int, r.1 + 1) =~= f.subrange(r.0 as int, r.1 + 1));
                }
            } else {
                assert(cells[n] == c);
                if g.contains_key(c) {
                    assert(flat_indices(cells, g).subrange(f.len() as int, (f.len() + g[c].len()) as int) =~= g[c]);
                }
            }
        }
    }
}

/// A lattice of `t.0 x t.1 x t.2` cells (all positive) gets one GPU record per cell.
pub proof fn lemma_gpu_cells_count(t: Triple, g: Map<Cell, Seq<usize>>)
    requires
        t.0 >= 0 && t.1 >= 0 && t.2 >= 0,
    ensures
        gpu_cells(lattice_cells(t), g).len() == t.0 * t.1 * t.2,
{
    lemma_gpu_cells_len(lattice_cells(t), g);
    lemma_box_len(0, t.0 as int, 0, t.1 as int, 0, t.2 as int);
}

proof fn lemma_gpu_cells_len(cells: Seq<Cell>, g: Map<Cell, Seq<usize>>)
    ensures
        gpu_cells(cells, g).len() == cells.len(),
    decreases cells.len(),
{
    if cells.len() > 0 {
        lemma_gpu_cells_len(cells.drop_last(), g);
    }
}


/// A freshly laid out `Water` counts exactly its fluid particles: `particle_count` is the
/// number of fluid cells of the initial lattice (for margins and block sizes that are not
/// negative).
pub proof fn lemma_fresh_particle_count(w: Water, p: Triple, g: Triple, e: Triple)
    requires
        w.is_fresh(p, g, e),
        p.0 >= 0 && p.1 >= 0 && p.2 >= 0,
        g.0 >= 0 && g.1 >= 0 && g.2 >= 0,
        e.0 >= 0 && e.1 >= 0 && e.2 >= 0,
    ensures
        lattice_cells(w.total_partition).filter(
            fluid_pred(w.total_partition, w.ghost_margin, w.empty_cells_margin),
        ).len() == w.particle_count,
{
    lemma_fluid_block(p, g, e);
}


/// After `load_ghost_grid(cells)` (ghost particle `g` lying in `cells[g]`), every ghost
/// particle is listed under its own cell and under no other, the grid holds exactly the
/// occupied cells, and every list is non-empty and strictly increasing. `load_grid` leaves
/// the ghost grid as it is, and no other method of `Water` takes it mutably, so this holds
/// until the next `load_ghost_grid`.
pub proof fn lemma_ghost_grid_lists(w: Water, cells: Seq<Cell>)
    requires
        w.ghost_grid@ == grid_of(cells),
        cells.len() <= usize::MAX,
    ensures
        forall|g: int|
            0 <= g < cells.len() ==> #[trigger] w.ghost_grid@.contains_key(cells[g]) && w.ghost_grid@[cells[g]].contains(
                g as usize,
            ),
        forall|c: Cell, g: usize|
            w.ghost_grid@.contains_key(c) && #[trigger] w.ghost_grid@[c].contains(g) ==> g < cells.len()
                && cells[g as int] == c,
        forall|c: Cell| #[trigger] w.ghost_grid@.contains_key(c) <==> cells.contains(c),
        forall|c: Cell|
            #[trigger] w.ghost_grid@.contains_key(c) ==> w.ghost_grid@[c].len() > 0 && forall|a: int, b: int|
                0 <= a < b < w.ghost_grid@[c].len() ==> w.ghost_grid@[c][a] < w.ghost_grid@[c][b],
{
    lemma_grid_lists(cells);
}


/// The ghost particles of the initial lattice are exactly the lattice cells that lie in
/// the floor (the lowest `g.1` layers) or within `g.0` (along `x`) or `g.2` (along `z`)
/// cells of a side wall.
pub proof fn lemma_ghost_cells(p: Triple, g: Triple, e: Triple, c: Cell)
    requires
        partition_fits(p, g, e),
    ensures
        ({
            let t = spec_total_partition(p, g, e);
            lattice_cells(t).filter(ghost_pred(t, g, e)).contains(c) <==> (0 <= c.0 < t.0 && 0 <= c.1 < t.1
                && 0 <= c.2 < t.2 && (c.1 < g.1 || c.0 < g.0 || c.0 >= t.0 - g.0 || c.2 < g.2 || c.2 >= t.2
                - g.2))
        }),
{
    reveal(partition_fits);
    let t = spec_total_partition(p, g, e);
    let gp = ghost_pred(t, g, e);
    lemma_lattice_filter_contains(t, gp, c);
}

/// The fluid particles of the initial lattice are exactly the lattice cells outside both
/// the ghost and the empty margins.
pub proof fn lemma_fluid_cells(p: Triple, g: Triple, e: Triple, c: Cell)
    requires
        partition_fits(p, g, e),
    ensures
        ({
            let t = spec_total_partition(p, g, e);
            lattice_cells(t).filter(fluid_pred(t, g, e)).contains(c) <==> (0 <= c.0 < t.0 && 0 <= c.1 < t.1
                && 0 <= c.2 < t.2 && g.1 + e.1 <= c.1 && g.1 <= c.1 && g.0 <= c.0 < t.0 - g.0 && g.0
                + e.0 <= c.0 < t.0 - g.0 - e.0 && g.2 <= c.2 < t.2 - g.2 && g.2 + e.2 <= c.2 < t.2 - g.2
                - e.2)
        }),
{
    reveal(partition_fits);
    let t = spec_total_partition(p, g, e);
    let fp = fluid_pred(t, g, e);
    lemma_lattice_filter_contains(t, fp, c);
}

proof fn lemma_lattice_filter_contains(t: Triple, pr: spec_fn(Cell) -> bool, c: Cell)
    ensures
        lattice_cells(t).filter(pr).contains(c) <==> (0 <= c.0 < t.0 && 0 <= c.1 < t.1 && 0 <= c.2 < t.2
            && pr(c)),
{
    let l = lattice_cells(t);
    lemma_box_contains(0, t.0 as int, 0, t.1 as int, 0, t.2 as int, c);
    if l.filter(pr).contains(c) {
        l.lemma_filter_contains_rev(pr, c);
        let n = choose|n: int| 0 <= n < l.filter(pr).len() && l.filter(pr)[n] == c;
        l.lemma_filter_pred(pr, n);
    }
    if l.contains(c) && pr(c) {
        let n = choose|n: int| 0 <= n < l.len() && l[n] == c;
        l.lemma_filter_contains(pr, n);
    }
}


/// The initial lattice lists its ghost cells and its fluid cells in strictly increasing
/// lexicographic order (`x`, then `y`, then `z`), so each cell once.
pub proof fn lemma_lattice_order(p: Triple, g: Triple, e: Triple)
    requires
        partition_fits(p, g, e),
    ensures
        ({
            let t = spec_total_partition(p, g, e);
            &&& cells_increasing(lattice_cells(t))
            &&& cells_increasing(lattice_cells(t).filter(ghost_pred(t, g, e)))
            &&& cells_increasing(lattice_cells(t).filter(fluid_pred(t, g, e)))
        }),
{
    let t = spec_total_partition(p, g, e);
    lemma_box_increasing(0, t.0 as int, 0, t.1 as int, 0, t.2 as int);
    lemma_filter_increasing(lattice_cells(t), ghost_pred(t, g, e));
    lemma_filter_increasing(lattice_cells(t), fluid_pred(t, g, e));
}

/// The cells around `c` are walked in strictly increasing lexicographic order.
pub proof fn lemma_neighborhood_order(c: Cell, l: int)
    requires
        l >= 0 ==> fits_i32(c.0 - l) && fits_i32(c.0 + l) && fits_i32(c.1 - l) && fits_i32(c.1 + l)
            && fits_i32(c.2 - l) && fits_i32(c.2 + l),
    ensures
        cells_increasing(neighborhood(c, l)),
{
    lemma_box_increasing(c.0 - l, c.0 + l + 1, c.1 - l, c.1 + l + 1, c.2 - l, c.2 + l + 1);
}


/// Around a single cell (reach `0`), the walk lists that cell's fluid particles, in the
/// order of its list, and then its ghost particles, in the order of theirs.
pub proof fn lemma_single_cell_neighbors(
    c: Cell,
    fluid: Map<Cell, Seq<usize>>,
    ghost: Map<Cell, Seq<usize>>,
)
    ensures
        ({
            let r = neighbors_in(neighborhood(c, 0), fluid, ghost);
            let f = lookup(fluid, c);
            let g = lookup(ghost, c);
            &&& r.len() == f.len() + g.len()
            &&& forall|n: int| 0 <= n < f.len() ==> #[trigger] r[n] == Neighbor::Fluid(f[n])
            &&& forall|n: int| 0 <= n < g.len() ==> #[trigger] r[f.len() + n] == Neighbor::GhostParticle(g[n])
        }),
{
    let b = neighborhood(c, 0);
    assert(b =~= seq![c]) by {
        assert(box_cells(c.0 as int, c.0 + 1, c.1 as int, c.1 + 1, c.2 as int, c.2 + 1) =~= seq![c]) by {
            assert(row_cells(c.0 as int, c.1 as int, c.2 as int, c.2 + 1) =~= seq![c]) by {
                assert(row_cells(c.0 as int, c.1 as int, c.2 as int, c.2 as int) =~= Seq::<Cell>::empty());
            }
            assert(slab_cells(c.0 as int, c.1 as int, c.1 as int, c.2 as int, c.2 + 1) =~= Seq::<Cell>::empty());
            assert(box_cells(c.0 as int, c.0 as int, c.1 as int, c.1 + 1, c.2 as int, c.2 + 1) =~= Seq::<Cell>::empty());
        }
    }
    assert(b.drop_last() =~= Seq::<Cell>::empty());
    assert(neighbors_in(Seq::<Cell>::empty(), fluid, ghost) =~= Seq::<Neighbor>::empty());
}

} // verus!
