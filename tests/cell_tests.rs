use cloudscape::boxes::{box_edges, corner_axes, CornerAxes};
use cloudscape::cells::{neighbor, neighbor_offsets, neighborhood, Cell, NEIGHBORHOOD_SIZE};
use cloudscape::commands::ObjectCommand;
use cloudscape::blue_noise::BlueNoiseBuilder;

#[test]
fn offsets_start_at_the_centre() {
    let offs = neighbor_offsets();
    assert_eq!(offs.len(), NEIGHBORHOOD_SIZE);
    assert_eq!(offs[0], Cell { x: 0, y: 0, z: 0 });
    assert_eq!(offs[1], Cell { x: 0, y: 0, z: 1 });
    assert_eq!(offs[26], Cell { x: 1, y: -1, z: 0 });
    for i in 0..offs.len() {
        for j in i + 1..offs.len() {
            assert_ne!(offs[i], offs[j]);
        }
    }
}

#[test]
fn neighbor_wraps_across_the_edge() {
    let n = neighbor(Cell { x: 0, y: 0, z: 0 }, Cell { x: -1, y: 0, z: 0 }, 4);
    assert!(n.wrapped);
    assert_eq!(n.index, 3);
    let n = neighbor(Cell { x: 3, y: 3, z: 3 }, Cell { x: 1, y: 1, z: 1 }, 4);
    assert!(n.wrapped);
    assert_eq!(n.index, 0);
    let n = neighbor(Cell { x: 1, y: 2, z: 1 }, Cell { x: 1, y: -1, z: 0 }, 4);
    assert!(!n.wrapped);
    assert_eq!(n.index, 2 + 4 * (1 + 4 * 1));
}

#[test]
fn neighborhood_counts_wrapped_cells() {
    let inner = neighborhood(Cell { x: 1, y: 1, z: 1 }, 3);
    assert_eq!(inner.len(), 27);
    assert!(inner.iter().all(|c| !c.wrapped));
    let corner = neighborhood(Cell { x: 0, y: 0, z: 0 }, 3);
    assert_eq!(corner.iter().filter(|c| c.wrapped).count(), 19);
    assert_eq!(corner[0].index, 0);
    let single = neighborhood(Cell { x: 0, y: 0, z: 0 }, 1);
    assert!(single.iter().all(|c| c.index == 0));
    assert_eq!(single.iter().filter(|c| c.wrapped).count(), 26);
}

#[test]
fn box_edges_join_adjacent_corners() {
    let edges = box_edges();
    assert_eq!(edges.len(), 12);
    assert_eq!(edges[0], (0, 1));
    assert_eq!(edges[11], (5, 7));
    for (a, b) in edges {
        let ca = corner_axes(a);
        let cb = corner_axes(b);
        let diff = (ca.x != cb.x) as u32 + (ca.y != cb.y) as u32 + (ca.z != cb.z) as u32;
        assert_eq!(diff, 1);
    }
    assert_eq!(corner_axes(5), CornerAxes { x: true, y: false, z: true });
}

#[test]
fn object_command_and_blue_noise_parameters() {
    assert_eq!(ObjectCommand::new(), ObjectCommand);
    let b = BlueNoiseBuilder { seed: 3, ..Default::default() };
    assert_eq!(b.seed, 3);
    assert_eq!(b.num_samples, 0);
}

#[test]
fn neighborhood_visits_distinct_cells() {
    for cell in [Cell { x: 0, y: 0, z: 0 }, Cell { x: 2, y: 1, z: 0 }, Cell { x: 1, y: 1, z: 1 }] {
        let mut seen: Vec<usize> = neighborhood(cell, 3).iter().map(|c| c.index).collect();
        seen.sort();
        seen.dedup();
        assert_eq!(seen.len(), 27);
    }
}
