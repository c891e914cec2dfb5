use wyrmas::dir::Dir;
use wyrmas::genome::{mix_genome, random_genome, Gene};
use wyrmas::grid::Grid;
use wyrmas::neuron::{
    a_move, a_resp, a_turn, count_set_forward, find_nearest, first_set_toward,
    occupied_neighbors, selection_neighbors, ActionKind,
};
use wyrmas::simulation::{Simulation, SimulationState};
use wyrmas::wyrm::{Wyrm, WyrmState};

fn weight_of(g: &Gene) -> f32 {
    g.get_weight_scaled() as f32 / 8192.0
}

#[test]
fn test_weights() {
    assert_eq!(weight_of(&Gene(65535)), 4.0);
    assert!(weight_of(&Gene(0)) < -3.99);
}

#[test]
fn weight_always_in_range() {
    let samples = [
        0u32,
        1,
        65535,
        65536,
        0x8000_0000,
        0xFFFF_FFFF,
        0x1234_5678,
        0xDEAD_BEEF,
        0x0000_8000,
        0x7FFF_FFFF,
    ];
    for &bits in samples.iter() {
        let w = Gene(bits).get_weight_scaled();
        assert!(w > -32768, "weight above -4.0 exclusive");
        assert!(w <= 32768, "weight at most 4.0 inclusive");
        let f = w as f32 / 8192.0;
        assert!(f > -4.0 && f <= 4.0);
    }
}

#[test]
fn gene_decoding() {
    // src-is-inner bit, src id 5, sink-is-inner bit, sink id 3
    let g = Gene((1 << 31) | (5 << 24) | (1 << 23) | (3 << 16));
    let (src_inner, src_id) = g.get_src();
    let (sink_inner, sink_id) = g.get_sink();
    assert!(src_inner);
    assert_eq!(src_id, 5);
    assert!(sink_inner);
    assert_eq!(sink_id, 3);
    let g2 = Gene((9 << 24) | (2 << 16) | 77);
    let (src_inner2, src_id2) = g2.get_src();
    let (sink_inner2, sink_id2) = g2.get_sink();
    assert!(!src_inner2);
    assert_eq!(src_id2, 9);
    assert!(!sink_inner2);
    assert_eq!(sink_id2, 2);
}

#[test]
fn mutate_flips_one_to_three_bits() {
    for round in 0..200u32 {
        let before = Gene(round.wrapping_mul(0x9E37_79B9));
        let mut after = before;
        after.mutate();
        let flipped = (before.0 ^ after.0).count_ones();
        assert!(flipped >= 1, "mutation must change the gene");
        assert!(flipped <= 3, "mutation flips at most three bits");
    }
}

#[test]
fn crossover_length_and_gene_origin() {
    let a: Vec<Gene> = (0..10).map(|i| Gene(1000 + i)).collect();
    let b: Vec<Gene> = (0..10).map(|i| Gene(2000 + i)).collect();
    for _ in 0..20 {
        let child = mix_genome(&a, &b);
        assert_eq!(child.len(), 10);
        // even slots come from the first parent, odd slots from the second,
        // and the supplying positions form a permutation, so no position is
        // used twice
        let mut positions = Vec::new();
        for (i, gene) in child.iter().enumerate() {
            let parent = if i % 2 == 0 { &a } else { &b };
            let pos = parent.iter().position(|g| g.0 == gene.0);
            assert!(pos.is_some(), "every child gene is copied from its slot's parent");
            let pos = pos.unwrap();
            assert!(!positions.contains(&pos), "each parent position supplies one slot");
            positions.push(pos);
        }
    }
}

#[test]
fn random_genome_has_requested_length() {
    assert_eq!(random_genome(0).len(), 0);
    assert_eq!(random_genome(17).len(), 17);
}

#[test]
fn wiring_drops_self_loops() {
    // With one inner neuron, an inner-to-inner gene always resolves to the
    // same neuron on both ends and must be dropped.
    let self_loop = Gene((1 << 31) | (1 << 23));
    // A sensor-0 to action-0 link stays.
    let plain = Gene(0);
    let w = Wyrm::new(0, 0, 1, 50, vec![self_loop, plain]);
    let edges = w.dump_genome();
    assert_eq!(edges.len(), 1);
    for e in &edges {
        assert!(
            !(e.src_inner && e.sink_inner && e.src == e.sink),
            "no neuron may list itself as an input source"
        );
    }
}

#[test]
fn wiring_never_self_loops_on_random_genomes() {
    for _ in 0..10 {
        let w = Wyrm::new(0, 0, 3, 50, random_genome(32));
        for e in w.dump_genome() {
            assert!(!(e.src_inner && e.sink_inner && e.src == e.sink));
        }
    }
}

#[test]
fn new_wyrm_faces_a_compass_direction() {
    for _ in 0..50 {
        let w = Wyrm::new(1, 1, 2, 50, random_genome(4));
        assert!(w.state.dir < 8);
        assert!(!w.state.dead);
        assert_eq!(w.state.age, 0);
        assert_eq!(w.state.responsiveness, 20);
    }
}

#[test]
fn breed_keeps_length_and_stays_near_parents() {
    let a = Wyrm::new(0, 0, 2, 50, (0..8).map(|i| Gene(10 + i)).collect());
    let b = Wyrm::new(1, 0, 2, 50, (0..8).map(|i| Gene(90 + i)).collect());
    let child = a.breed(&b, 1000);  // always mutate
    assert_eq!(child.len(), 8);
    for gene in &child {
        let near = a
            .state
            .genome
            .iter()
            .chain(b.state.genome.iter())
            .any(|p| (p.0 ^ gene.0).count_ones() <= 3);
        assert!(near, "every child gene is within three flips of a parent gene");
    }
}

#[test]
fn breed_crosses_through_a_slot_permutation() {
    // parent genes pairwise at least 8 bit flips apart, so a child gene
    // (at most 3 flips from its source) identifies its source uniquely
    let a_genes = [0x0000_0000u32, 0x0000_FFFF, 0xFFFF_0000, 0xFFFF_FFFF];
    let b_genes = [0x0F0F_0F0Fu32, 0x0F0F_F0F0, 0xF0F0_0F0F, 0xF0F0_F0F0];
    let a = Wyrm::new(0, 0, 2, 50, a_genes.iter().map(|&v| Gene(v)).collect());
    let b = Wyrm::new(1, 0, 2, 50, b_genes.iter().map(|&v| Gene(v)).collect());
    for _ in 0..20 {
        let child = a.breed(&b, 500);
        assert_eq!(child.len(), 4);
        let mut positions = Vec::new();
        for (i, gene) in child.iter().enumerate() {
            // even slots descend from the first parent, odd from the second
            let parent = if i % 2 == 0 { &a_genes } else { &b_genes };
            let near: Vec<usize> = (0..4)
                .filter(|&j| (parent[j] ^ gene.0).count_ones() <= 3)
                .collect();
            assert_eq!(near.len(), 1, "exactly one source gene within three flips");
            // the supplying positions form a permutation of the slots
            assert!(!positions.contains(&near[0]), "each position supplies one slot");
            positions.push(near[0]);
        }
    }
}

#[test]
fn dir_table_round_trip() {
    for i in 0..8 {
        let d = Dir::from_index(i);
        assert_eq!(d.dir_index(), Some(i));
        assert!(d.0.abs() <= 1 && d.1.abs() <= 1);
        assert!(d.0 != 0 || d.1 != 0);
    }
    assert_eq!(Dir(2, 2).dir_index(), None);
    assert_eq!(Dir(1, 0).dir_index(), Some(0)); // East is first
}

fn empty_state(size: i32) -> SimulationState {
    SimulationState {
        size_x: size,
        size_y: size,
        max_age: 100,
        osc_period: 100,
        mutation_permille: 50,
        tick: 0,
        world: Grid::new(size, size),
        selection_area: Grid::new(size, size),
    }
}

fn wyrm_state_at(x: i32, y: i32, dir: usize) -> WyrmState {
    WyrmState {
        dead: false,
        x,
        y,
        dir,
        age: 0,
        max_dist: 5,
        genome: Vec::new(),
        responsiveness: 20,
    }
}

#[test]
fn move_east_commits_and_keeps_grid_consistent() {
    // Agent at (0, 0) facing East, effect commits with sign +1: new position
    // (1, 0); the grid shows (0, 0) cleared and (1, 0) set.
    let mut s = empty_state(8);
    s.world.set(0, 0, true);
    let mut w = wyrm_state_at(0, 0, 0);
    a_move(&mut w, &mut s, 1);
    assert_eq!((w.x, w.y), (1, 0));
    assert!(s.world.get(1, 0));
    assert!(!s.world.get(0, 0));
}

#[test]
fn move_clamps_at_the_border() {
    // Facing West at the west border: the clamped target is the origin, and
    // the agent's cell must still be marked afterwards.
    let mut s = empty_state(8);
    s.world.set(0, 3, true);
    let mut w = wyrm_state_at(0, 3, 4);
    a_move(&mut w, &mut s, 1);
    assert_eq!((w.x, w.y), (0, 3));
    assert!(s.world.get(0, 3), "the no-op move may not unmark the agent's cell");
}

#[test]
fn turn_wraps_around() {
    let mut w = wyrm_state_at(0, 0, 0);
    a_turn(&mut w, -1);
    assert_eq!(w.dir, 7);
    a_turn(&mut w, 1);
    assert_eq!(w.dir, 0);
    for _ in 0..8 {
        a_turn(&mut w, 1);
    }
    assert_eq!(w.dir, 0);
}

#[test]
fn responsiveness_moves_by_twentieths() {
    let mut w = wyrm_state_at(0, 0, 0);
    a_resp(&mut w, 1);
    assert_eq!(w.responsiveness, 21);
    a_resp(&mut w, -1);
    a_resp(&mut w, -1);
    assert_eq!(w.responsiveness, 19);
}

#[test]
fn neighborhood_counts() {
    let mut s = empty_state(8);
    s.world.set(0, 1, true);
    s.world.set(1, 1, true);
    s.world.set(2, 2, true);
    // neighbors of (1, 2): (0, 1), (1, 1), (2, 2) are set
    assert_eq!(occupied_neighbors(&s, 1, 2), 3);
    // the agent's own cell is not a neighbor
    s.world.set(1, 2, true);
    assert_eq!(occupied_neighbors(&s, 1, 2), 3);
    // selection count includes the center of the 3x3 block
    s.selection_area.set(1, 2, true);
    s.selection_area.set(0, 2, true);
    assert_eq!(selection_neighbors(&s, 1, 2), 2);
    // at the corner, outside cells count as empty
    assert_eq!(occupied_neighbors(&s, 0, 0), 2); // (0,1) and (1,1)
}

#[test]
fn nearest_search_scans_rings_in_direction_order() {
    let mut s = empty_state(16);
    let w = wyrm_state_at(8, 8, 0);
    assert_eq!(find_nearest(&w, &s), None);
    s.world.set(8, 8, true); // the agent's own cell is skipped
    assert_eq!(find_nearest(&w, &s), None);
    s.world.set(6, 8, true); // West of the agent, distance 2
    assert_eq!(find_nearest(&w, &s), Some((4, 2)));
    s.world.set(9, 7, true); // NE, distance 1 wins over the farther hit
    assert_eq!(find_nearest(&w, &s), Some((1, 1)));
    s.world.set(9, 8, true); // E, same ring, earlier direction index
    assert_eq!(find_nearest(&w, &s), Some((0, 1)));
}

#[test]
fn forward_scans_respect_range_and_border() {
    let mut s = empty_state(16);
    s.world.set(8, 8, true);
    s.world.set(11, 8, true);
    // looking East from (8, 8): the hit 3 cells ahead, own cell excluded
    assert_eq!(first_set_toward(&s.world, 8, 8, 0, 1, 5), Some(3));
    // out of sensing range
    assert_eq!(first_set_toward(&s.world, 8, 8, 0, 1, 2), None);
    // selection searches start at the agent's own cell
    s.selection_area.set(8, 8, true);
    assert_eq!(first_set_toward(&s.selection_area, 8, 8, 0, 0, 5), Some(0));
    // a wall stops the scan
    assert_eq!(first_set_toward(&s.world, 15, 8, 0, 1, 5), None);
}

#[test]
fn forward_selection_count_scans_from_the_own_cell() {
    let mut s = empty_state(8);
    s.selection_area.set(2, 3, true);
    s.selection_area.set(4, 3, true);
    s.selection_area.set(7, 3, true);
    // looking East from (2, 3), range 3 covers x = 2..=5: hits at 2 and 4
    assert_eq!(count_set_forward(&s.selection_area, 2, 3, 0, 3), 2);
    // range 5 also reaches the cell at the border
    assert_eq!(count_set_forward(&s.selection_area, 2, 3, 0, 5), 3);
    // looking North from (2, 3) only the own cell is in the region
    assert_eq!(count_set_forward(&s.selection_area, 2, 3, 2, 5), 1);
    // looking North from (3, 3) there is nothing
    assert_eq!(count_set_forward(&s.selection_area, 3, 3, 2, 5), 0);
}

#[test]
fn grid_claim_free_fills_distinct_cells() {
    let mut g = Grid::new(2, 2);
    let mut seen = Vec::new();
    for _ in 0..4 {
        let (x, y) = g.claim_free();
        assert!(!seen.contains(&(x, y)));
        seen.push((x, y));
    }
    assert_eq!(g.count_set(), 4);
}

#[test]
fn selection_area_is_a_union_of_ten_small_rectangles() {
    // every outcome, from construction on, is at most ten clipped
    // rectangles of sides below 30
    for _ in 0..5 {
        let mut sim = Simulation::new(128, 128, 100, 1, 100, 5, 2, 4, 50);
        assert!(sim.state.selection_area.count_set() <= 10 * 29 * 29);
        sim.create_selection_area();
        assert!(sim.state.selection_area.count_set() <= 10 * 29 * 29);
    }
}

#[test]
fn pick_free_cell_claims_an_unoccupied_cell() {
    let mut sim = Simulation::new(4, 4, 100, 1, 100, 5, 2, 4, 50);
    let before = sim.state.world.count_set();
    let (x, y) = sim.pick_free_cell();
    assert!(x >= 0 && x < 4 && y >= 0 && y < 4);
    assert!(sim.state.world.get(x, y));
    assert_eq!(sim.state.world.count_set(), before + 1);
}

#[test]
fn selection_is_idempotent() {
    let mut sim = Simulation::new(16, 16, 100, 2, 100, 5, 8, 12, 50);
    let survivors1 = sim.apply_selection();
    let dead1: Vec<bool> = sim.wyrmas.iter().map(|w| w.state.dead).collect();
    let survivors2 = sim.apply_selection();
    let dead2: Vec<bool> = sim.wyrmas.iter().map(|w| w.state.dead).collect();
    assert_eq!(dead1, dead2, "a second pass marks nobody else dead");
    assert_eq!(survivors1, survivors2);
}

#[test]
fn repopulate_fills_population_on_distinct_cells() {
    let mut sim = Simulation::new(16, 16, 100, 2, 100, 5, 8, 12, 50);
    for _ in 0..7 {
        sim.simulation_step();
    }
    sim.apply_selection();
    sim.repopulate();
    assert_eq!(sim.state.tick, 0);
    assert_eq!(sim.wyrmas.len(), 12);
    let mut cells = Vec::new();
    for w in &sim.wyrmas {
        assert!(!w.state.dead);
        assert_eq!(w.state.age, 0);
        assert_eq!(w.state.responsiveness, 20);
        assert_eq!(w.state.genome.len(), 8);
        let pos = (w.state.x, w.state.y);
        assert!(!cells.contains(&pos), "each agent gets its own cell");
        assert!(sim.state.world.get(w.state.x, w.state.y));
        cells.push(pos);
    }
    assert_eq!(sim.state.world.count_set(), 12);
}

fn clear_selection(sim: &mut Simulation) {
    for x in 0..sim.state.size_x {
        for y in 0..sim.state.size_y {
            sim.set_selection_cell(x, y, false);
        }
    }
}

#[test]
fn extinct_population_restarts_from_random_genomes() {
    let mut sim = Simulation::new(16, 16, 100, 2, 100, 5, 8, 10, 50);
    clear_selection(&mut sim);
    let survivors = sim.apply_selection();
    assert_eq!(survivors, 0);
    for w in &sim.wyrmas {
        assert!(w.state.dead);
    }
    let pool = sim.breed_survivors();
    assert_eq!(pool.len(), 10, "a full pool even with no survivors");
    for genome in &pool {
        assert_eq!(genome.len(), 8);
    }
}

#[test]
fn two_survivors_of_four_breed_the_whole_pool() {
    // population 4, survivors {1, 3}: child_count = 4 / 2 = 2, remainder
    // 4 % 2 = 0, so exactly 4 genomes come out, all bred within {1, 3}.
    let mut sim = Simulation::new(16, 16, 100, 2, 100, 5, 6, 4, 0);
    clear_selection(&mut sim);
    let (x1, y1) = (sim.wyrmas[1].state.x, sim.wyrmas[1].state.y);
    let (x3, y3) = (sim.wyrmas[3].state.x, sim.wyrmas[3].state.y);
    sim.set_selection_cell(x1, y1, true);
    sim.set_selection_cell(x3, y3, true);
    let survivors = sim.apply_selection();
    assert_eq!(survivors, 2);
    assert!(!sim.wyrmas[1].state.dead && !sim.wyrmas[3].state.dead);
    assert!(sim.wyrmas[0].state.dead && sim.wyrmas[2].state.dead);
    let pool = sim.breed_survivors();
    assert_eq!(pool.len(), 4);
    // with mutation rate 0 every gene is copied verbatim from a survivor
    for genome in &pool {
        assert_eq!(genome.len(), 6);
        for gene in genome {
            let from_survivor = sim.wyrmas[1]
                .state
                .genome
                .iter()
                .chain(sim.wyrmas[3].state.genome.iter())
                .any(|g| g.0 == gene.0);
            assert!(from_survivor, "all output genes come from the two survivors");
        }
    }
}

#[test]
fn single_survivor_parents_the_whole_pool() {
    // with one survivor the cyclic pairing breeds it with itself
    let mut sim = Simulation::new(16, 16, 100, 2, 100, 5, 6, 5, 0);
    clear_selection(&mut sim);
    let (x2, y2) = (sim.wyrmas[2].state.x, sim.wyrmas[2].state.y);
    sim.set_selection_cell(x2, y2, true);
    assert_eq!(sim.apply_selection(), 1);
    let pool = sim.breed_survivors();
    assert_eq!(pool.len(), 5);
    for genome in &pool {
        for gene in genome {
            let from_survivor = sim.wyrmas[2].state.genome.iter().any(|g| g.0 == gene.0);
            assert!(from_survivor, "every gene comes from the lone survivor");
        }
    }
}

#[test]
fn oscillator_phase_follows_the_tick() {
    let mut sim = Simulation::new(16, 16, 100, 2, 100, 5, 4, 4, 50);
    for _ in 0..25 {
        sim.simulation_step();
    }
    assert_eq!(sim.state.tick, 25);
    let phase = sim.state.osc_phase();
    assert_eq!(phase, 25);
    // the runtime's oscillator value at this phase is about 0.5
    let value = 0.5 + 0.5 * (2.0 * std::f64::consts::PI * phase as f64 / 100.0).cos();
    assert!((value - 0.5).abs() < 1e-9);
}

#[test]
fn simulation_step_ages_every_agent() {
    let mut sim = Simulation::new(16, 16, 100, 2, 100, 5, 4, 6, 50);
    let t = sim.simulation_step();
    assert_eq!(t, 1);
    for w in &sim.wyrmas {
        assert_eq!(w.state.age, 1);
    }
}

#[test]
fn apply_action_dispatches_to_the_agent() {
    let mut sim = Simulation::new(16, 16, 100, 2, 100, 5, 4, 3, 50);
    let before = sim.wyrmas[0].state.responsiveness;
    sim.apply_action(0, ActionKind::Responsiveness, 1);
    assert_eq!(sim.wyrmas[0].state.responsiveness, before + 1);
    let dir_before = sim.wyrmas[1].state.dir;
    sim.apply_action(1, ActionKind::Turn, 1);
    assert_eq!(sim.wyrmas[1].state.dir, (dir_before + 1) % 8);
    let (x, y) = (sim.wyrmas[2].state.x, sim.wyrmas[2].state.y);
    sim.apply_action(2, ActionKind::MoveForward, 1);
    let (nx, ny) = (sim.wyrmas[2].state.x, sim.wyrmas[2].state.y);
    assert!((nx - x).abs() <= 1 && (ny - y).abs() <= 1);
    assert!(sim.state.world.get(nx, ny));
}

#[test]
fn network_dump_lists_every_link() {
    // two sensor-to-action genes and one sensor-to-inner gene
    let genes = vec![
        Gene(0),                       // sensor 0 -> action 0
        Gene((3 << 24) | (1 << 16)),   // sensor 3 -> action 1
        Gene((2 << 24) | (1 << 23)),   // sensor 2 -> inner 0
    ];
    let w = Wyrm::new(0, 0, 1, 50, genes);
    let edges = w.dump_genome();
    assert_eq!(edges.len(), 3);
    // inner sinks come first in the dump
    assert!(edges[0].sink_inner);
    assert_eq!(edges[0].src, 2);
    assert!(!edges[1].sink_inner);
    assert_eq!(edges[1].sink, 0);
    assert_eq!(edges[2].sink, 1);
    assert_eq!(edges[2].src, 3);
}
