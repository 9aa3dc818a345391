use nexusview::physics::{PhysicsNode, PhysicsSimulator, Vec2};

fn two_nodes_at(ax: i64, bx: i64) -> PhysicsSimulator {
    let mut sim = PhysicsSimulator::new();
    let layout = vec![Some(Vec2 { x: ax, y: 0 }), Some(Vec2 { x: bx, y: 0 })];
    sim.reset_positions(&layout);
    sim
}

fn distance(sim: &PhysicsSimulator) -> i64 {
    let a = sim.get_node_position(0).unwrap();
    let b = sim.get_node_position(1).unwrap();
    let dx = (b.x - a.x) as f64;
    let dy = (b.y - a.y) as f64;
    (dx * dx + dy * dy).sqrt() as i64
}

/// Two nodes joined by one spring, started at twice the rest length with
/// zero velocity: the distance decreases strictly every tick until it is
/// within a small epsilon of the rest length, and then the layout is
/// stable.
#[test]
fn spring_converges_to_ideal_edge_length() {
    // Default ideal edge length is 180 units = 180_000 milli-units.
    let mut sim = two_nodes_at(0, 360_000);
    let edges = vec![(0usize, 1usize)];
    let ideal = sim.ideal_edge_length;
    let epsilon = 2_000;

    let mut d_prev = distance(&sim);
    assert_eq!(d_prev, 2 * ideal);
    for _ in 0..500 {
        sim.update(&edges);
        let d = distance(&sim);
        if d_prev - ideal > epsilon {
            assert!(d < d_prev, "distance must shrink strictly: {} -> {}", d_prev, d);
        }
        d_prev = d;
    }
    assert!(
        (d_prev - ideal).abs() <= epsilon,
        "distance {} not within {} of {}",
        d_prev,
        epsilon,
        ideal
    );

    // Once settled, further ticks barely move anything.
    let before = (sim.get_node_position(0).unwrap(), sim.get_node_position(1).unwrap());
    for _ in 0..50 {
        sim.update(&edges);
    }
    let after = (sim.get_node_position(0).unwrap(), sim.get_node_position(1).unwrap());
    assert!((after.0.x - before.0.x).abs() <= 10);
    assert!((after.1.x - before.1.x).abs() <= 10);
    assert_eq!(before.0.y, after.0.y);
}

/// Two nodes at the very same position: the minimum-distance clamp makes
/// the repulsion well-defined and zero, so nothing blows up.
#[test]
fn identical_positions_produce_no_force() {
    let mut sim = two_nodes_at(5_000, 5_000);
    let edges: Vec<(usize, usize)> = Vec::new();
    sim.update(&edges);
    assert_eq!(sim.get_node_position(0), Some(Vec2 { x: 5_000, y: 0 }));
    assert_eq!(sim.get_node_position(1), Some(Vec2 { x: 5_000, y: 0 }));
}

/// Without an edge, repulsion pushes two distinct nodes further apart.
#[test]
fn repulsion_pushes_nodes_apart() {
    let mut sim = two_nodes_at(0, 10_000);
    let edges: Vec<(usize, usize)> = Vec::new();
    let d0 = distance(&sim);
    sim.update(&edges);
    assert!(distance(&sim) > d0);
}

/// Parameter setters clamp silently: 5.0 stores as 1.0, -1.0 as 0.0.
#[test]
fn parameter_setters_clamp() {
    let mut sim = PhysicsSimulator::new();
    sim.set_damping(5_000);
    assert_eq!(sim.damping, 1_000);
    sim.set_friction(-1_000);
    assert_eq!(sim.friction, 0);
    sim.set_damping(-7);
    assert_eq!(sim.damping, 0);
    sim.set_friction(250);
    assert_eq!(sim.friction, 250);
    sim.set_spring_constant(-5);
    assert_eq!(sim.spring_constant, 0);
    sim.set_repulsion_constant(-1);
    assert_eq!(sim.repulsion_constant, 0);
    sim.set_ideal_edge_length(-100);
    assert_eq!(sim.ideal_edge_length, 0);
    sim.set_time_step(-3);
    assert_eq!(sim.time_step, 0);
    sim.set_time_step(250);
    assert_eq!(sim.time_step, 250);
}

#[test]
fn default_parameters() {
    let sim = PhysicsSimulator::new();
    assert_eq!(sim.damping, 550);
    assert_eq!(sim.spring_constant, 300);
    assert_eq!(sim.repulsion_constant, 18_000_000);
    assert_eq!(sim.ideal_edge_length, 180_000);
    assert_eq!(sim.time_step, 300);
    assert_eq!(sim.friction, 400);
    assert!(!sim.frozen);
}

/// A frozen simulation is a tick no-op.
#[test]
fn frozen_tick_changes_nothing() {
    let mut sim = two_nodes_at(0, 10_000);
    sim.frozen = true;
    let edges = vec![(0usize, 1usize)];
    sim.update(&edges);
    assert_eq!(sim.get_node_position(0), Some(Vec2 { x: 0, y: 0 }));
    assert_eq!(sim.get_node_position(1), Some(Vec2 { x: 10_000, y: 0 }));
}

/// Dragging overrides the position and zeroes the velocity; an untracked
/// index changes nothing.
#[test]
fn set_node_position_overrides_and_zeroes_velocity() {
    let mut sim = two_nodes_at(0, 360_000);
    let edges = vec![(0usize, 1usize)];
    sim.update(&edges);
    sim.set_node_position(0, Vec2 { x: 77, y: -3 });
    assert_eq!(sim.get_node_position(0), Some(Vec2 { x: 77, y: -3 }));
    sim.set_node_position(9, Vec2 { x: 1, y: 1 });
    assert_eq!(sim.get_node_position(9), None);
}

#[test]
fn set_node_velocity_grows_the_slot_arrays() {
    let mut sim = PhysicsSimulator::new();
    sim.set_node_velocity(3, Vec2 { x: 4, y: 5 });
    assert_eq!(sim.node_velocities.len(), 4);
    assert_eq!(sim.node_velocities[3], Some(Vec2 { x: 4, y: 5 }));
    assert_eq!(sim.node_positions[3], None);
}

/// Resetting replaces all positions and re-zeroes all velocities.
#[test]
fn reset_positions_rezeroes_velocities() {
    let mut sim = two_nodes_at(0, 360_000);
    let edges = vec![(0usize, 1usize)];
    sim.update(&edges);
    assert_ne!(sim.node_velocities[0], Some(Vec2 { x: 0, y: 0 }));
    let layout = vec![Some(Vec2 { x: 1, y: 2 }), None, Some(Vec2 { x: 3, y: 4 })];
    sim.reset_positions(&layout);
    assert_eq!(sim.node_positions[0], Some(Vec2 { x: 1, y: 2 }));
    assert_eq!(sim.node_positions[1], None);
    assert_eq!(sim.node_positions[2], Some(Vec2 { x: 3, y: 4 }));
    assert_eq!(sim.node_velocities[0], Some(Vec2 { x: 0, y: 0 }));
    assert_eq!(sim.node_velocities[1], None);
    assert_eq!(sim.node_velocities[2], Some(Vec2 { x: 0, y: 0 }));
}

/// A missing node is seeded lazily with a position near the given center;
/// an existing node is left untouched.
#[test]
fn ensure_node_seeds_missing_positions() {
    let mut sim = PhysicsSimulator::new();
    sim.ensure_node(2, Vec2 { x: 100_000, y: 200_000 }, 50_000);
    let p = sim.get_node_position(2).unwrap();
    assert!(50_000 <= p.x && p.x <= 150_000);
    assert!(150_000 <= p.y && p.y <= 250_000);
    assert_eq!(sim.node_velocities[2], Some(Vec2 { x: 0, y: 0 }));
    assert_eq!(sim.get_node_position(0), None);

    sim.ensure_node(2, Vec2 { x: 0, y: 0 }, 1);
    assert_eq!(sim.get_node_position(2), Some(p));
}

/// While dragging, a tick runs at 0.4 of the stored time step and the
/// stored value is restored afterwards.
#[test]
fn drag_tick_uses_reduced_time_step() {
    let mut normal = two_nodes_at(0, 360_000);
    let mut dragging = two_nodes_at(0, 360_000);
    let edges = vec![(0usize, 1usize)];
    normal.update(&edges);
    dragging.update_during_drag(&edges);
    assert_eq!(dragging.time_step, 300);
    let full = normal.get_node_position(0).unwrap().x;
    let reduced = dragging.get_node_position(0).unwrap().x;
    assert!(0 < reduced && reduced < full);
    assert_eq!(reduced, 255);
}

#[test]
fn physics_node_starts_at_rest() {
    let n = PhysicsNode::new(Vec2 { x: 9, y: -4 });
    assert_eq!(n.pos, Vec2 { x: 9, y: -4 });
    assert_eq!(n.vel, Vec2 { x: 0, y: 0 });
}

#[test]
fn initialize_velocities_zeroes_tracked_nodes() {
    let mut sim = two_nodes_at(0, 360_000);
    let edges = vec![(0usize, 1usize)];
    sim.update(&edges);
    sim.initialize_velocities();
    assert_eq!(sim.node_velocities[0], Some(Vec2 { x: 0, y: 0 }));
    assert_eq!(sim.node_velocities[1], Some(Vec2 { x: 0, y: 0 }));
}

/// Exact first tick of the two-node spring fixture, fixed by the tick
/// formulas: force 54000 - 138, impulse, damping 0.55, friction 0.4.
#[test]
fn first_tick_matches_the_formulas() {
    let mut sim = two_nodes_at(0, 360_000);
    let edges = vec![(0usize, 1usize)];
    sim.update(&edges);
    assert_eq!(sim.get_node_position(0), Some(Vec2 { x: 1_599, y: 0 }));
    assert_eq!(sim.get_node_position(1), Some(Vec2 { x: 358_401, y: 0 }));
}
