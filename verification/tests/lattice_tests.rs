use water::cells::Cell;
use water::grid::CellGrid;
use water::water::{CellKind, Neighbor, Water};

fn small_water() -> Water {
    // fluid 2 x 1 x 2, ghost margin 1, empty margin 1 -> lattice 6 x 3 x 6
    Water::new((2, 1, 2), (1, 1, 1), (1, 1, 1))
}

#[test]
fn new_lays_out_total_partition() {
    let w = Water::new((10, 1, 10), (2, 2, 2), (15, 25, 15));
    assert_eq!(w.total_partition, (44, 28, 44));
    assert_eq!(w.particle_count, 100);
    assert_eq!(w.lbox, 2);
    assert_eq!(w.ghost_partition, (2, 2, 2));
    assert_eq!(w.empty_partition, (15, 25, 15));
}

#[test]
fn classify_small_lattice() {
    let w = small_water();
    assert_eq!(w.total_partition, (6, 3, 6));
    // the bottom layer is ghost
    assert_eq!(w.classify((3, 0, 3)), CellKind::GhostParticle);
    // side walls are ghost
    assert_eq!(w.classify((0, 2, 3)), CellKind::GhostParticle);
    assert_eq!(w.classify((5, 2, 3)), CellKind::GhostParticle);
    assert_eq!(w.classify((3, 2, 0)), CellKind::GhostParticle);
    assert_eq!(w.classify((3, 2, 5)), CellKind::GhostParticle);
    // the empty gap
    assert_eq!(w.classify((3, 1, 3)), CellKind::Empty);
    assert_eq!(w.classify((1, 2, 3)), CellKind::Empty);
    assert_eq!(w.classify((4, 2, 3)), CellKind::Empty);
    // fluid
    assert_eq!(w.classify((2, 2, 2)), CellKind::Fluid);
    assert_eq!(w.classify((3, 2, 3)), CellKind::Fluid);
}

#[test]
fn initial_lattice_small() {
    let w = small_water();
    let (ghosts, fluids) = w.initial_lattice();
    assert_eq!(fluids, vec![(2, 2, 2), (2, 2, 3), (3, 2, 2), (3, 2, 3)]);
    // every lattice cell is ghost, empty or fluid; count the ghosts by hand
    let mut expected_ghosts: Vec<Cell> = Vec::new();
    for i in 0..6 {
        for j in 0..3 {
            for k in 0..6 {
                if j == 0 || i == 0 || i == 5 || k == 0 || k == 5 {
                    expected_ghosts.push((i, j, k));
                }
            }
        }
    }
    assert_eq!(ghosts, expected_ghosts);
    assert_eq!(ghosts[0], (0, 0, 0));
}

#[test]
fn initial_lattice_fluid_count_matches_particle_count() {
    let w = Water::new((10, 1, 10), (2, 2, 2), (15, 25, 15));
    let (ghosts, fluids) = w.initial_lattice();
    assert_eq!(fluids.len() as i32, w.particle_count);
    assert_eq!(fluids[0], (17, 27, 17));
    assert_eq!(fluids[99], (26, 27, 26));
    assert!(ghosts.len() > 0);
    for c in ghosts.iter() {
        assert_eq!(w.classify(*c), CellKind::GhostParticle);
    }
}

#[test]
fn empty_fluid_block() {
    let w = Water::new((0, 0, 0), (0, 0, 0), (0, 0, 0));
    let (ghosts, fluids) = w.initial_lattice();
    assert!(ghosts.is_empty());
    assert!(fluids.is_empty());
    assert_eq!(w.particle_count, 0);
}

#[test]
fn new_particle_cells_top_row() {
    let w = small_water();
    let cells = w.new_particle_cells().unwrap();
    assert_eq!(cells, vec![(2, 2, 2), (2, 2, 3), (3, 2, 2), (3, 2, 3)]);
    let big = Water::new((10, 1, 10), (2, 2, 2), (15, 25, 15));
    let cells = big.new_particle_cells().unwrap();
    assert_eq!(cells.len(), 100);
    assert!(cells.iter().all(|c| c.1 == 27));
}

#[test]
fn grid_lists_particles_by_cell() {
    let cells: Vec<Cell> = vec![(0, 0, 0), (1, 0, 0), (0, 0, 0), (-3, 7, 2), (1, 0, 0)];
    let g = CellGrid::from_cells(&cells);
    assert_eq!(g.get((0, 0, 0)), Some(&vec![0, 2]));
    assert_eq!(g.get((1, 0, 0)), Some(&vec![1, 4]));
    assert_eq!(g.get((-3, 7, 2)), Some(&vec![3]));
    assert_eq!(g.get((0, 0, 1)), None);
}

#[test]
fn grid_push_and_clear() {
    let mut g = CellGrid::new();
    assert_eq!(g.get((i32::MIN, i32::MAX, -1)), None);
    g.push((i32::MIN, i32::MAX, -1), 5);
    g.push((i32::MIN, i32::MAX, -1), 9);
    g.push((i32::MAX, i32::MIN, -1), 1);
    assert_eq!(g.get((i32::MIN, i32::MAX, -1)), Some(&vec![5, 9]));
    assert_eq!(g.get((i32::MAX, i32::MIN, -1)), Some(&vec![1]));
    g.clear();
    assert_eq!(g.get((i32::MIN, i32::MAX, -1)), None);
}

#[test]
fn load_grid_replaces_grid() {
    let mut w = small_water();
    w.load_grid(&vec![(2, 2, 2), (2, 2, 2)]);
    assert_eq!(w.grid.get((2, 2, 2)), Some(&vec![0, 1]));
    w.load_grid(&vec![(3, 2, 2)]);
    assert_eq!(w.grid.get((2, 2, 2)), None);
    assert_eq!(w.grid.get((3, 2, 2)), Some(&vec![0]));
}

#[test]
fn transform_flattens_grid_in_walk_order() {
    // lattice 1 x 1 x 3 (no fluid, one ghost layer below)
    let w = Water::new((1, 0, 1), (0, 1, 1), (0, 0, 0));
    assert_eq!(w.total_partition, (1, 1, 3));
    let grid = CellGrid::from_cells(&vec![(0, 0, 2), (0, 0, 0), (0, 0, 2), (5, 5, 5)]);
    let (indices, cells) = w.transform_hashmap_gpu_grid(&grid);
    assert_eq!(indices, vec![1, 0, 2]);
    assert_eq!(cells, vec![(0, 0), (u32::MAX, u32::MAX), (1, 2)]);
}

#[test]
fn transform_empty_grid() {
    let w = small_water();
    let grid = CellGrid::new();
    let (indices, cells) = w.transform_hashmap_gpu_grid(&grid);
    assert!(indices.is_empty());
    assert_eq!(cells.len(), 6 * 3 * 6);
    assert!(cells.iter().all(|c| *c == (u32::MAX, u32::MAX)));
}

#[test]
fn transform_ranges_cover_their_cells() {
    let w = small_water();
    let (ghosts, fluids) = w.initial_lattice();
    let grid = CellGrid::from_cells(&ghosts);
    let (indices, cells) = w.transform_hashmap_gpu_grid(&grid);
    assert_eq!(indices.len(), ghosts.len());
    let mut n = 0;
    for i in 0..6 {
        for j in 0..3 {
            for k in 0..6 {
                let (x, y) = cells[n];
                match grid.get((i, j, k)) {
                    Some(list) => {
                        let got: Vec<usize> = indices[x as usize..=y as usize].iter().map(|v| *v as usize).collect();
                        assert_eq!(&got, list);
                    }
                    None => assert_eq!((x, y), (u32::MAX, u32::MAX)),
                }
                n += 1;
            }
        }
    }
    assert!(!fluids.is_empty());
}

#[test]
fn neighbors_in_walk_order() {
    let mut w = small_water();
    w.lbox = 1;
    w.load_grid(&vec![(2, 2, 2), (3, 2, 2), (9, 9, 9)]);
    w.load_ghost_grid(&vec![(1, 1, 1), (2, 2, 2)]);
    let n = w.neighbor_particles((2, 2, 2));
    assert_eq!(
        n,
        vec![Neighbor::GhostParticle(0), Neighbor::Fluid(0), Neighbor::GhostParticle(1), Neighbor::Fluid(1)]
    );
}

#[test]
fn neighbors_reach_lbox_cells() {
    let mut w = small_water();
    w.load_grid(&vec![(0, 0, 0), (2, 2, 2), (4, 4, 4), (5, 0, 0)]);
    // lbox is 2: (0,0,0), (2,2,2), (4,4,4) lie within 2 cells of (2,2,2); (5,0,0) does not
    let n = w.neighbor_particles((2, 2, 2));
    assert_eq!(n, vec![Neighbor::Fluid(0), Neighbor::Fluid(1), Neighbor::Fluid(2)]);
    w.lbox = 0;
    let n = w.neighbor_particles((2, 2, 2));
    assert_eq!(n, vec![Neighbor::Fluid(1)]);
    w.lbox = -1;
    assert!(w.neighbor_particles((2, 2, 2)).is_empty());
}

#[test]
fn neighbors_at_coordinate_limits() {
    let mut w = small_water();
    w.lbox = 1;
    w.load_grid(&vec![(i32::MAX - 1, 0, 0), (i32::MAX, 0, 0)]);
    let n = w.neighbor_particles((i32::MAX - 1, 0, 0));
    assert_eq!(n, vec![Neighbor::Fluid(0), Neighbor::Fluid(1)]);
}

#[test]
fn last_lattice_cell_is_last_walked() {
    assert_eq!(small_water().last_lattice_cell(), (5, 2, 5));
    let w = Water::new((0, 0, 0), (0, 0, 0), (0, 0, 0));
    assert_eq!(w.last_lattice_cell(), (0, 0, 0));
    let w = Water::new((3, 0, 2), (0, 0, 0), (0, 0, 0));
    assert_eq!(w.last_lattice_cell(), (2, 0, 0));
}

#[test]
fn try_new_refuses_overflow() {
    assert!(Water::try_new((i32::MAX, 1, 1), (1, 1, 1), (0, 0, 0)).is_none());
    assert!(Water::try_new((70000, 70000, 1), (0, 0, 0), (0, 0, 0)).is_none());
    let w = Water::try_new((2, 1, 2), (1, 1, 1), (1, 1, 1)).unwrap();
    assert_eq!(w.total_partition, (6, 3, 6));
    assert_eq!(w.particle_count, 4);
}

#[test]
fn neighborhood_fits_at_limits() {
    let mut w = small_water();
    assert!(w.neighborhood_fits((0, 0, 0)));
    assert!(!w.neighborhood_fits((i32::MAX, 0, 0)));
    assert!(!w.neighborhood_fits((0, i32::MIN + 1, 0)));
    w.lbox = -5;
    assert!(w.neighborhood_fits((i32::MAX, 0, 0)));
    w.lbox = i32::MIN;
    assert!(!w.neighborhood_fits((0, 0, 0)));
}

#[test]
fn try_new_accepts_what_layout_computes() {
    // laying out the lattice never subtracts one from the total height
    let w = Water::try_new((1, i32::MIN, 1), (0, 0, 0), (0, 0, 0)).unwrap();
    assert_eq!(w.total_partition, (1, i32::MIN, 1));
    assert_eq!(w.particle_count, i32::MIN);
    let (ghosts, fluids) = w.initial_lattice();
    assert!(ghosts.is_empty() && fluids.is_empty());
    assert_eq!(w.last_lattice_cell(), (0, 0, 0));
    // placing a new top layer does, and overflows here
    assert!(w.new_particle_cells().is_none());
}

#[test]
fn load_grid_keeps_other_fields() {
    let mut w = small_water();
    w.ghost_rate = 7;
    w.load_ghost_grid(&vec![(1, 1, 1)]);
    w.load_grid(&vec![(2, 2, 2)]);
    assert_eq!(w.ghost_rate, 7);
    assert_eq!(w.ghost_grid.get((1, 1, 1)), Some(&vec![0]));
    assert_eq!(w.total_partition, (6, 3, 6));
}
