//! Integer lattice cells and the order in which the simulation walks boxes of them.
use vstd::prelude::*;

verus! {

/// A cell of the uniform grid (and of the particle lattice), by its three integer coordinates.
pub type Cell = (i32, i32, i32);

/// The cell with coordinates `(i, j, k)`.
pub open spec fn cell_at(i: int, j: int, k: int) -> Cell {
    (i as i32, j as i32, k as i32)
}

/// Whether a mathematical integer fits in an `i32`.
pub open spec fn fits_i32(x: int) -> bool {
    i32::MIN <= x <= i32::MAX
}

/// The cells `(i, j, k)` for `k` in `[klo, khi)`, in increasing `k`.
pub open spec fn row_cells(i: int, j: int, klo: int, khi: int) -> Seq<Cell>
    decreases khi - klo,
{
    if khi <= klo {
        Seq::empty()
    } else {
        row_cells(i, j, klo, khi - 1).push(cell_at(i, j, khi - 1))
    }
}

/// The cells `(i, j, k)` for `j` in `[jlo, jhi)` and `k` in `[klo, khi)`, `j` major.
pub open spec fn slab_cells(i: int, jlo: int, jhi: int, klo: int, khi: int) -> Seq<Cell>
    decreases jhi - jlo,
{
    if jhi <= jlo {
        Seq::empty()
    } else {
        slab_cells(i, jlo, jhi - 1, klo, khi) + row_cells(i, jhi - 1, klo, khi)
    }
}

/// The cells of the box `[ilo, ihi) x [jlo, jhi) x [klo, khi)` in lexicographic order:
/// `i` outermost, then `j`, then `k`. Every walk of the simulation over cells
/// (the particle lattice, the neighbourhood of a cell, the grid sent to the GPU) goes
/// in this order.
pub open spec fn box_cells(ilo: int, ihi: int, jlo: int, jhi: int, klo: int, khi: int) -> Seq<Cell>
    decreases ihi - ilo,
{
    if ihi <= ilo {
        Seq::empty()
    } else {
        box_cells(ilo, ihi - 1, jlo, jhi, klo, khi) + slab_cells(ihi - 1, jlo, jhi, klo, khi)
    }
}

pub proof fn lemma_row_len(i: int, j: int, klo: int, khi: int)
    ensures
        row_cells(i, j, klo, khi).len() == if khi <= klo { 0 } else { khi - klo },
    decreases khi - klo,
{
    if khi > klo {
        lemma_row_len(i, j, klo, khi - 1);
    }
}

/// A row holds exactly the cells of its range.
pub proof fn lemma_row_contains(i: int, j: int, klo: int, khi: int, c: Cell)
    requires
        fits_i32(i),
        fits_i32(j),
        khi <= klo || (fits_i32(klo) && fits_i32(khi - 1)),
    ensures
        row_cells(i, j, klo, khi).contains(c) <==> (c.0 == i && c.1 == j && klo <= c.2 < khi),
    decreases khi - klo,
{
    if khi > klo {
        let r = row_cells(i, j, klo, khi - 1);
        if khi - 1 > klo {
            lemma_row_contains(i, j, klo, khi - 1, c);
        }
        assert(r.push(cell_at(i, j, khi - 1)).last() == cell_at(i, j, khi - 1));
        if row_cells(i, j, klo, khi).contains(c) {
            let n = choose|n: int| 0 <= n < r.len() + 1 && #[trigger] r.push(cell_at(i, j, khi - 1))[n] == c;
            if n < r.len() {
                assert(r.contains(c));
            }
        }
        if c.0 == i && c.1 == j && klo <= c.2 < khi {
            if c.2 == khi - 1 {
                assert(row_cells(i, j, klo, khi)[r.len() as int] == c);
            } else {
                assert(r.contains(c));
                let n = choose|n: int| 0 <= n < r.len() && r[n] == c;
                assert(row_cells(i, j, klo, khi)[n] == c);
            }
        }
    }
}

/// Membership in a concatenation.
pub proof fn lemma_add_contains<A>(a: Seq<A>, b: Seq<A>, x: A)
    ensures
        (a + b).contains(x) <==> a.contains(x) || b.contains(x),
{
    if (a + b).contains(x) {
        let n = choose|n: int| 0 <= n < (a + b).len() && (a + b)[n] == x;
        if n < a.len() {
            assert(a[n] == x);
        } else {
            assert(b[n - a.len()] == x);
        }
    }
    if a.contains(x) {
        let n = choose|n: int| 0 <= n < a.len() && a[n] == x;
        assert((a + b)[n] == x);
    }
    if b.contains(x) {
        let n = choose|n: int| 0 <= n < b.len() && b[n] == x;
        assert((a + b)[n + a.len()] == x);
    }
}

/// Membership after a push.
pub proof fn lemma_push_contains<A>(a: Seq<A>, x: A, y: A)
    ensures
        a.push(x).contains(y) <==> a.contains(y) || x == y,
{
    lemma_add_contains(a, seq![x], y);
    assert(a.push(x) =~= a + seq![x]);
    if seq![x].contains(y) {
        assert(seq![x][0] == x);
    }
    if x == y {
        assert(seq![x][0] == y);
    }
}

/// Membership in a non-empty sequence.
pub proof fn lemma_drop_last_contains<A>(a: Seq<A>, y: A)
    requires
        a.len() > 0,
    ensures
        a.contains(y) <==> a.drop_last().contains(y) || a.last() == y,
{
    lemma_push_contains(a.drop_last(), a.last(), y);
    assert(a.drop_last().push(a.last()) =~= a);
}

pub proof fn lemma_slab_contains(i: int, jlo: int, jhi: int, klo: int, khi: int, c: Cell)
    requires
        fits_i32(i),
        jhi <= jlo || (fits_i32(jlo) && fits_i32(jhi - 1)),
        khi <= klo || (fits_i32(klo) && fits_i32(khi - 1)),
    ensures
        slab_cells(i, jlo, jhi, klo, khi).contains(c) <==> (c.0 == i && jlo <= c.1 < jhi && klo
            <= c.2 < khi),
    decreases jhi - jlo,
{
    if jhi > jlo {
        if jhi - 1 > jlo {
            lemma_slab_contains(i, jlo, jhi - 1, klo, khi, c);
        }
        lemma_row_contains(i, jhi - 1, klo, khi, c);
        lemma_add_contains(slab_cells(i, jlo, jhi - 1, klo, khi), row_cells(i, jhi - 1, klo, khi), c);
    }
}

/// A box holds exactly the cells whose coordinates lie in its three ranges.
pub proof fn lemma_box_contains(ilo: int, ihi: int, jlo: int, jhi: int, klo: int, khi: int, c: Cell)
    requires
        ihi <= ilo || (fits_i32(ilo) && fits_i32(ihi - 1)),
        jhi <= jlo || (fits_i32(jlo) && fits_i32(jhi - 1)),
        khi <= klo || (fits_i32(klo) && fits_i32(khi - 1)),
    ensures
        box_cells(ilo, ihi, jlo, jhi, klo, khi).contains(c) <==> (ilo <= c.0 < ihi && jlo <= c.1
            < jhi && klo <= c.2 < khi),
    decreases ihi - ilo,
{
    if ihi > ilo {
        if ihi - 1 > ilo {
            lemma_box_contains(ilo, ihi - 1, jlo, jhi, klo, khi, c);
        }
        lemma_slab_contains(ihi - 1, jlo, jhi, klo, khi, c);
        lemma_add_contains(
            box_cells(ilo, ihi - 1, jlo, jhi, klo, khi),
            slab_cells(ihi - 1, jlo, jhi, klo, khi),
            c,
        );
    }
}

/// The cells that a walk of the box `[ilo, ihi) x [jlo, jhi) x [klo, khi)` has visited when
/// it stands at `(i, j, k)`: all earlier planes, the earlier rows of plane `i`, and the
/// earlier cells of row `(i, j)`.
pub open spec fn walk_cells(
    ilo: int,
    ihi: int,
    jlo: int,
    jhi: int,
    klo: int,
    khi: int,
    i: int,
    j: int,
    k: int,
) -> Seq<Cell> {
    box_cells(ilo, i, jlo, jhi, klo, khi) + slab_cells(i, jlo, j, klo, khi) + row_cells(i, j, klo, k)
}

/// One step along a row.
pub proof fn lemma_walk_step(ilo: int, ihi: int, jlo: int, jhi: int, klo: int, khi: int, i: int, j: int, k: int)
    requires
        klo <= k,
    ensures
        walk_cells(ilo, ihi, jlo, jhi, klo, khi, i, j, k + 1) == walk_cells(
            ilo,
            ihi,
            jlo,
            jhi,
            klo,
            khi,
            i,
            j,
            k,
        ).push(cell_at(i, j, k)),
{
    let a = box_cells(ilo, i, jlo, jhi, klo, khi) + slab_cells(i, jlo, j, klo, khi);
    let r = row_cells(i, j, klo, k);
    assert(row_cells(i, j, klo, k + 1) == r.push(cell_at(i, j, k)));
    assert(a + r.push(cell_at(i, j, k)) =~= (a + r).push(cell_at(i, j, k)));
}

/// The end of a row is the start of the next row.
pub proof fn lemma_walk_next_row(ilo: int, ihi: int, jlo: int, jhi: int, klo: int, khi: int, i: int, j: int, k: int)
    requires
        jlo <= j,
        k == if khi <= klo { klo } else { khi },
    ensures
        walk_cells(ilo, ihi, jlo, jhi, klo, khi, i, j, k) == walk_cells(
            ilo,
            ihi,
            jlo,
            jhi,
            klo,
            khi,
            i,
            j + 1,
            klo,
        ),
{
    let b = box_cells(ilo, i, jlo, jhi, klo, khi);
    let s = slab_cells(i, jlo, j, klo, khi);
    if k != khi {
        assert(row_cells(i, j, klo, k) =~= Seq::<Cell>::empty());
        assert(row_cells(i, j, klo, khi) =~= Seq::<Cell>::empty());
    }
    assert(slab_cells(i, jlo, j + 1, klo, khi) == s + row_cells(i, j, klo, khi));
    assert(row_cells(i, j + 1, klo, klo) =~= Seq::<Cell>::empty());
    assert(b + s + row_cells(i, j, klo, k) =~= b + (s + row_cells(i, j, klo, khi)) + row_cells(i, j + 1, klo, klo));
}

/// The end of a plane is the start of the next plane.
pub proof fn lemma_walk_next_plane(ilo: int, ihi: int, jlo: int, jhi: int, klo: int, khi: int, i: int, j: int)
    requires
        ilo <= i,
        j == if jhi <= jlo { jlo } else { jhi },
    ensures
        walk_cells(ilo, ihi, jlo, jhi, klo, khi, i, j, klo) == walk_cells(
            ilo,
            ihi,
            jlo,
            jhi,
            klo,
            khi,
            i + 1,
            jlo,
            klo,
        ),
{
    let b = box_cells(ilo, i, jlo, jhi, klo, khi);
    if j != jhi {
        assert(slab_cells(i, jlo, j, klo, khi) =~= Seq::<Cell>::empty());
        assert(slab_cells(i, jlo, jhi, klo, khi) =~= Seq::<Cell>::empty());
    }
    assert(box_cells(ilo, i + 1, jlo, jhi, klo, khi) == b + slab_cells(i, jlo, jhi, klo, khi));
    assert(row_cells(i, j, klo, klo) =~= Seq::<Cell>::empty());
    assert(slab_cells(i + 1, jlo, jlo, klo, khi) =~= Seq::<Cell>::empty());
    assert(row_cells(i + 1, jlo, klo, klo) =~= Seq::<Cell>::empty());
    assert(b + slab_cells(i, jlo, j, klo, khi) + row_cells(i, j, klo, klo) =~= b + slab_cells(
        i,
        jlo,
        jhi,
        klo,
        khi,
    ) + slab_cells(i + 1, jlo, jlo, klo, khi) + row_cells(i + 1, jlo, klo, klo));
}

/// A walk starts with nothing visited and ends having visited the whole box.
pub proof fn lemma_walk_ends(ilo: int, ihi: int, jlo: int, jhi: int, klo: int, khi: int, i: int)
    requires
        i == if ihi <= ilo { ilo } else { ihi },
    ensures
        walk_cells(ilo, ihi, jlo, jhi, klo, khi, ilo, jlo, klo) == Seq::<Cell>::empty(),
        walk_cells(ilo, ihi, jlo, jhi, klo, khi, i, jlo, klo) == box_cells(ilo, ihi, jlo, jhi, klo, khi),
{
    assert(box_cells(ilo, ilo, jlo, jhi, klo, khi) =~= Seq::<Cell>::empty());
    assert(slab_cells(ilo, jlo, jlo, klo, khi) =~= Seq::<Cell>::empty());
    assert(row_cells(ilo, jlo, klo, klo) =~= Seq::<Cell>::empty());
    assert(slab_cells(i, jlo, jlo, klo, khi) =~= Seq::<Cell>::empty());
    assert(row_cells(i, jlo, klo, klo) =~= Seq::<Cell>::empty());
    if i != ihi {
        assert(box_cells(ilo, ihi, jlo, jhi, klo, khi) =~= Seq::<Cell>::empty());
    }
    assert(walk_cells(ilo, ihi, jlo, jhi, klo, khi, ilo, jlo, klo) =~= Seq::<Cell>::empty());
    assert(walk_cells(ilo, ihi, jlo, jhi, klo, khi, i, jlo, klo) =~= box_cells(ilo, ihi, jlo, jhi, klo, khi));
}


/// The cells of a box that lie in a sub-box, in walk order, are the walk of the sub-box.
/// `p` is any test that, on the cells of the outer box, holds exactly on the sub-box
/// `[a0, b0) x [a1, b1) x [a2, b2)`.
pub proof fn lemma_filter_box(
    p: spec_fn(Cell) -> bool,
    ilo: int,
    ihi: int,
    jlo: int,
    jhi: int,
    klo: int,
    khi: int,
    a0: int,
    b0: int,
    a1: int,
    b1: int,
    a2: int,
    b2: int,
)
    requires
        ilo <= a0 <= b0 <= ihi,
        jlo <= a1 <= b1 <= jhi,
        klo <= a2 <= b2 <= khi,
        ilo < ihi ==> fits_i32(ilo) && fits_i32(ihi - 1),
        jlo < jhi ==> fits_i32(jlo) && fits_i32(jhi - 1),
        klo < khi ==> fits_i32(klo) && fits_i32(khi - 1),
        forall|i: int, j: int, k: int|
            ilo <= i < ihi && jlo <= j < jhi && klo <= k < khi ==> (#[trigger] p(cell_at(i, j, k))
                <==> (a0 <= i < b0 && a1 <= j < b1 && a2 <= k < b2)),
    ensures
        box_cells(ilo, ihi, jlo, jhi, klo, khi).filter(p) == box_cells(a0, b0, a1, b1, a2, b2),
{
    lemma_filter_box_upto(p, ilo, ihi, jlo, jhi, klo, khi, a0, b0, a1, b1, a2, b2, ihi);
    assert(min(ihi, b0) == b0);
}

pub open spec fn min(x: int, y: int) -> int {
    if x <= y {
        x
    } else {
        y
    }
}

proof fn lemma_filter_row_upto(
    p: spec_fn(Cell) -> bool,
    ilo: int,
    ihi: int,
    jlo: int,
    jhi: int,
    klo: int,
    khi: int,
    a0: int,
    b0: int,
    a1: int,
    b1: int,
    a2: int,
    b2: int,
    i: int,
    j: int,
    k: int,
)
    requires
        ilo <= a0 <= b0 <= ihi,
        jlo <= a1 <= b1 <= jhi,
        klo <= a2 <= b2 <= khi,
        ilo <= i < ihi,
        jlo <= j < jhi,
        klo <= k <= khi,
        forall|i: int, j: int, k: int|
            ilo <= i < ihi && jlo <= j < jhi && klo <= k < khi ==> (#[trigger] p(cell_at(i, j, k))
                <==> (a0 <= i < b0 && a1 <= j < b1 && a2 <= k < b2)),
    ensures
        row_cells(i, j, klo, k).filter(p) == if a0 <= i < b0 && a1 <= j < b1 {
            row_cells(i, j, a2, min(k, b2))
        } else {
            Seq::<Cell>::empty()
        },
    decreases k - klo,
{
    reveal(Seq::filter);
    if k == klo {
        assert(row_cells(i, j, klo, k) =~= Seq::<Cell>::empty());
        assert(row_cells(i, j, a2, min(k, b2)) =~= Seq::<Cell>::empty());
    } else {
        lemma_filter_row_upto(p, ilo, ihi, jlo, jhi, klo, khi, a0, b0, a1, b1, a2, b2, i, j, k - 1);
        let r = row_cells(i, j, klo, k - 1);
        let c = cell_at(i, j, k - 1);
        r.lemma_filter_push(c, p);
        assert(p(c) <==> (a0 <= i < b0 && a1 <= j < b1 && a2 <= k - 1 < b2));
        if a0 <= i < b0 && a1 <= j < b1 {
            if k - 1 < a2 {
                assert(row_cells(i, j, a2, min(k - 1, b2)) =~= Seq::<Cell>::empty());
                assert(row_cells(i, j, a2, min(k, b2)) =~= Seq::<Cell>::empty());
            }
        }
    }
}

proof fn lemma_filter_slab_upto(
    p: spec_fn(Cell) -> bool,
    ilo: int,
    ihi: int,
    jlo: int,
    jhi: int,
    klo: int,
    khi: int,
    a0: int,
    b0: int,
    a1: int,
    b1: int,
    a2: int,
    b2: int,
    i: int,
    j: int,
)
    requires
        ilo <= a0 <= b0 <= ihi,
        jlo <= a1 <= b1 <= jhi,
        klo <= a2 <= b2 <= khi,
        ilo <= i < ihi,
        jlo <= j <= jhi,
        forall|i: int, j: int, k: int|
            ilo <= i < ihi && jlo <= j < jhi && klo <= k < khi ==> (#[trigger] p(cell_at(i, j, k))
                <==> (a0 <= i < b0 && a1 <= j < b1 && a2 <= k < b2)),
    ensures
        slab_cells(i, jlo, j, klo, khi).filter(p) == if a0 <= i < b0 {
            slab_cells(i, a1, min(j, b1), a2, b2)
        } else {
            Seq::<Cell>::empty()
        },
    decreases j - jlo,
{
    reveal(Seq::filter);
    if j == jlo {
        assert(slab_cells(i, jlo, j, klo, khi) =~= Seq::<Cell>::empty());
        assert(slab_cells(i, a1, min(j, b1), a2, b2) =~= Seq::<Cell>::empty());
    } else {
        lemma_filter_slab_upto(p, ilo, ihi, jlo, jhi, klo, khi, a0, b0, a1, b1, a2, b2, i, j - 1);
        lemma_filter_row_upto(p, ilo, ihi, jlo, jhi, klo, khi, a0, b0, a1, b1, a2, b2, i, j - 1, khi);
        Seq::filter_distributes_over_add(slab_cells(i, jlo, j - 1, klo, khi), row_cells(i, j - 1, klo, khi), p);
        assert(min(khi, b2) == b2);
        if a0 <= i < b0 {
            if j - 1 < a1 {
                assert(slab_cells(i, a1, min(j - 1, b1), a2, b2) =~= Seq::<Cell>::empty());
                assert(slab_cells(i, a1, min(j, b1), a2, b2) =~= Seq::<Cell>::empty());
                assert(Seq::<Cell>::empty() + Seq::<Cell>::empty() =~= Seq::<Cell>::empty());
            } else if j - 1 < b1 {
                assert(slab_cells(i, a1, j, a2, b2) == slab_cells(i, a1, j - 1, a2, b2) + row_cells(i, j - 1, a2, b2));
            } else {
                assert(slab_cells(i, a1, min(j - 1, b1), a2, b2) + Seq::<Cell>::empty() =~= slab_cells(i, a1, min(j - 1, b1), a2, b2));
            }
        } else {
            assert(Seq::<Cell>::empty() + Seq::<Cell>::empty() =~= Seq::<Cell>::empty());
        }
    }
}

proof fn lemma_filter_box_upto(
    p: spec_fn(Cell) -> bool,
    ilo: int,
    ihi: int,
    jlo: int,
    jhi: int,
    klo: int,
    khi: int,
    a0: int,
    b0: int,
    a1: int,
    b1: int,
    a2: int,
    b2: int,
    i: int,
)
    requires
        ilo <= a0 <= b0 <= ihi,
        jlo <= a1 <= b1 <= jhi,
        klo <= a2 <= b2 <= khi,
        ilo <= i <= ihi,
        forall|i: int, j: int, k: int|
            ilo <= i < ihi && jlo <= j < jhi && klo <= k < khi ==> (#[trigger] p(cell_at(i, j, k))
                <==> (a0 <= i < b0 && a1 <= j < b1 && a2 <= k < b2)),
    ensures
        box_cells(ilo, i, jlo, jhi, klo, khi).filter(p) == box_cells(a0, min(i, b0), a1, b1, a2, b2),
    decreases i - ilo,
{
    reveal(Seq::filter);
    if i == ilo {
        assert(box_cells(ilo, i, jlo, jhi, klo, khi) =~= Seq::<Cell>::empty());
        assert(box_cells(a0, min(i, b0), a1, b1, a2, b2) =~= Seq::<Cell>::empty());
    } else {
        lemma_filter_box_upto(p, ilo, ihi, jlo, jhi, klo, khi, a0, b0, a1, b1, a2, b2, i - 1);
        lemma_filter_slab_upto(p, ilo, ihi, jlo, jhi, klo, khi, a0, b0, a1, b1, a2, b2, i - 1, jhi);
        Seq::filter_distributes_over_add(box_cells(ilo, i - 1, jlo, jhi, klo, khi), slab_cells(i - 1, jlo, jhi, klo, khi), p);
        assert(min(jhi, b1) == b1);
        if i - 1 < a0 {
            assert(box_cells(a0, min(i - 1, b0), a1, b1, a2, b2) =~= Seq::<Cell>::empty());
            assert(box_cells(a0, min(i, b0), a1, b1, a2, b2) =~= Seq::<Cell>::empty());
            assert(Seq::<Cell>::empty() + Seq::<Cell>::empty() =~= Seq::<Cell>::empty());
        } else if i - 1 < b0 {
            assert(box_cells(a0, i, a1, b1, a2, b2) == box_cells(a0, i - 1, a1, b1, a2, b2) + slab_cells(i - 1, a1, b1, a2, b2));
        } else {
            assert(box_cells(a0, min(i - 1, b0), a1, b1, a2, b2) + Seq::<Cell>::empty() =~= box_cells(a0, min(i - 1, b0), a1, b1, a2, b2));
        }
    }
}

pub proof fn lemma_slab_len(i: int, jlo: int, jhi: int, klo: int, khi: int)
    requires
        jlo <= jhi,
        klo <= khi,
    ensures
        slab_cells(i, jlo, jhi, klo, khi).len() == (jhi - jlo) * (khi - klo),
    decreases jhi - jlo,
{
    if jhi > jlo {
        lemma_slab_len(i, jlo, jhi - 1, klo, khi);
        lemma_row_len(i, jhi - 1, klo, khi);
        assert((jhi - 1 - jlo) * (khi - klo) + (khi - klo) == (jhi - jlo) * (khi - klo)) by (nonlinear_arith);
        assert(slab_cells(i, jlo, jhi, klo, khi).len() == slab_cells(i, jlo, jhi - 1, klo, khi).len() + row_cells(i, jhi - 1, klo, khi).len());
    } else {
        assert(slab_cells(i, jlo, jhi, klo, khi).len() == 0);
        assert((jhi - jlo) * (khi - klo) == 0) by (nonlinear_arith)
            requires
                jhi == jlo,
        ;
    }
}

/// A box of `n0 x n1 x n2` cells walks `n0 * n1 * n2` cells.
pub proof fn lemma_box_len(ilo: int, ihi: int, jlo: int, jhi: int, klo: int, khi: int)
    requires
        ilo <= ihi,
        jlo <= jhi,
        klo <= khi,
    ensures
        box_cells(ilo, ihi, jlo, jhi, klo, khi).len() == (ihi - ilo) * (jhi - jlo) * (khi - klo),
    decreases ihi - ilo,
{
    if ihi > ilo {
        lemma_box_len(ilo, ihi - 1, jlo, jhi, klo, khi);
        lemma_slab_len(ihi - 1, jlo, jhi, klo, khi);
        let a = jhi - jlo;
        let b = khi - klo;
        assert((ihi - 1 - ilo) * a * b + a * b == (ihi - ilo) * a * b) by (nonlinear_arith);
        assert(box_cells(ilo, ihi, jlo, jhi, klo, khi).len() == box_cells(ilo, ihi - 1, jlo, jhi, klo, khi).len() + slab_cells(ihi - 1, jlo, jhi, klo, khi).len());
    } else {
        assert(box_cells(ilo, ihi, jlo, jhi, klo, khi).len() == 0);
        assert((ihi - ilo) * (jhi - jlo) * (khi - klo) == 0) by (nonlinear_arith)
            requires
                ihi == ilo,
        ;
    }
}


/// Lexicographic order of cells: by `x`, then `y`, then `z`.
pub open spec fn cell_before(c: Cell, d: Cell) -> bool {
    ||| c.0 < d.0
    ||| c.0 == d.0 && c.1 < d.1
    ||| c.0 == d.0 && c.1 == d.1 && c.2 < d.2
}

/// Whether the cells strictly increase in lexicographic order.
pub open spec fn cells_increasing(s: Seq<Cell>) -> bool {
    forall|a: int, b: int| 0 <= a < b < s.len() ==> cell_before(#[trigger] s[a], #[trigger] s[b])
}

proof fn lemma_increasing_concat(a: Seq<Cell>, b: Seq<Cell>)
    requires
        cells_increasing(a),
        cells_increasing(b),
        forall|x: int, y: int| 0 <= x < a.len() && 0 <= y < b.len() ==> cell_before(#[trigger] a[x], #[trigger] b[y]),
    ensures
        cells_increasing(a + b),
{
    let s = a + b;
    assert forall|x: int, y: int| 0 <= x < y < s.len() implies cell_before(#[trigger] s[x], #[trigger] s[y]) by {
        if y < a.len() {
            assert(s[x] == a[x] && s[y] == a[y]);
        } else if x >= a.len() {
            assert(s[x] == b[x - a.len()] && s[y] == b[y - a.len()]);
        } else {
            assert(s[x] == a[x] && s[y] == b[y - a.len()]);
        }
    }
}

proof fn lemma_row_increasing(i: int, j: int, klo: int, khi: int)
    requires
        fits_i32(i),
        fits_i32(j),
        khi <= klo || (fits_i32(klo) && fits_i32(khi - 1)),
    ensures
        cells_increasing(row_cells(i, j, klo, khi)),
    decreases khi - klo,
{
    if khi > klo {
        let r = row_cells(i, j, klo, khi - 1);
        if khi - 1 > klo {
            lemma_row_increasing(i, j, klo, khi - 1);
        }
        let c = cell_at(i, j, khi - 1);
        assert forall|x: int, y: int| 0 <= x < r.len() && 0 <= y < 1 implies cell_before(#[trigger] r[x], #[trigger] seq![c][y]) by {
            lemma_row_contains(i, j, klo, khi - 1, r[x]);
            assert(r.contains(r[x]));
        }
        lemma_increasing_concat(r, seq![c]);
        assert(r.push(c) =~= r + seq![c]);
    }
}

proof fn lemma_slab_increasing(i: int, jlo: int, jhi: int, klo: int, khi: int)
    requires
        fits_i32(i),
        jhi <= jlo || (fits_i32(jlo) && fits_i32(jhi - 1)),
        khi <= klo || (fits_i32(klo) && fits_i32(khi - 1)),
    ensures
        cells_increasing(slab_cells(i, jlo, jhi, klo, khi)),
    decreases jhi - jlo,
{
    if jhi > jlo {
        let a = slab_cells(i, jlo, jhi - 1, klo, khi);
        let b = row_cells(i, jhi - 1, klo, khi);
        if jhi - 1 > jlo {
            lemma_slab_increasing(i, jlo, jhi - 1, klo, khi);
        } else {
            assert(a =~= Seq::<Cell>::empty());
        }
        lemma_row_increasing(i, jhi - 1, klo, khi);
        assert forall|x: int, y: int| 0 <= x < a.len() && 0 <= y < b.len() implies cell_before(#[trigger] a[x], #[trigger] b[y]) by {
            lemma_slab_contains(i, jlo, jhi - 1, klo, khi, a[x]);
            lemma_row_contains(i, jhi - 1, klo, khi, b[y]);
            assert(a.contains(a[x]));
            assert(b.contains(b[y]));
        }
        lemma_increasing_concat(a, b);
    }
}

/// A box is walked in strictly increasing lexicographic order (`x`, then `y`, then `z`).
pub proof fn lemma_box_increasing(ilo: int, ihi: int, jlo: int, jhi: int, klo: int, khi: int)
    requires
        ihi <= ilo || (fits_i32(ilo) && fits_i32(ihi - 1)),
        jhi <= jlo || (fits_i32(jlo) && fits_i32(jhi - 1)),
        khi <= klo || (fits_i32(klo) && fits_i32(khi - 1)),
    ensures
        cells_increasing(box_cells(ilo, ihi, jlo, jhi, klo, khi)),
    decreases ihi - ilo,
{
    if ihi > ilo {
        let a = box_cells(ilo, ihi - 1, jlo, jhi, klo, khi);
        let b = slab_cells(ihi - 1, jlo, jhi, klo, khi);
        if ihi - 1 > ilo {
            lemma_box_increasing(ilo, ihi - 1, jlo, jhi, klo, khi);
        } else {
            assert(a =~= Seq::<Cell>::empty());
        }
        lemma_slab_increasing(ihi - 1, jlo, jhi, klo, khi);
        assert forall|x: int, y: int| 0 <= x < a.len() && 0 <= y < b.len() implies cell_before(#[trigger] a[x], #[trigger] b[y]) by {
            lemma_box_contains(ilo, ihi - 1, jlo, jhi, klo, khi, a[x]);
            lemma_slab_contains(ihi - 1, jlo, jhi, klo, khi, b[y]);
            assert(a.contains(a[x]));
            assert(b.contains(b[y]));
        }
        lemma_increasing_concat(a, b);
    }
}


/// Keeping some cells of an increasing walk keeps it increasing.
pub proof fn lemma_filter_increasing(s: Seq<Cell>, p: spec_fn(Cell) -> bool)
    requires
        cells_increasing(s),
    ensures
        cells_increasing(s.filter(p)),
    decreases s.len(),
{
    reveal(Seq::filter);
    if s.len() > 0 {
        let d = s.drop_last();
        assert(cells_increasing(d)) by {
            assert forall|a: int, b: int| 0 <= a < b < d.len() implies cell_before(#[trigger] d[a], #[trigger] d[b]) by {
                assert(d[a] == s[a] && d[b] == s[b]);
            }
        }
        lemma_filter_increasing(d, p);
        let f = d.filter(p);
        if p(s.last()) {
            assert forall|x: int, y: int| 0 <= x < f.len() && 0 <= y < 1 implies cell_before(#[trigger] f[x], #[trigger] seq![s.last()][y]) by {
                d.lemma_filter_contains_rev(p, f[x]);
                assert(f.contains(f[x]));
                d.lemma_filter_contains_rev(p, f[x]);
                let n = choose|n: int| 0 <= n < d.len() && d[n] == f[x];
                assert(s[n] == f[x]);
                assert(s[s.len() - 1] == s.last());
            }
            lemma_increasing_concat(f, seq![s.last()]);
            assert(f.push(s.last()) =~= f + seq![s.last()]);
        }
    }
}

} // verus!
