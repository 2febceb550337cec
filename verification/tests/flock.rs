use boids::boid::{Boid, Vec2};
use boids::flock::{Flock, GRID_COLS, GRID_ROWS, GRID_SPACING};

fn vec2(x: f32, y: f32) -> Vec2 {
    Vec2 { x: x.to_bits(), y: y.to_bits() }
}

fn dist_sq_from(flock: &Flock, member_index: usize) -> Vec<u32> {
    let from = flock.boids()[member_index];
    let mut row = Vec::new();
    for boid in flock.boids() {
        let dx = f32::from_bits(from.position.x) - f32::from_bits(boid.position.x);
        let dy = f32::from_bits(from.position.y) - f32::from_bits(boid.position.y);
        row.push((dx * dx + dy * dy).to_bits());
    }
    row
}

#[test]
fn empty_flock() {
    let flock = Flock::empty(800.0f32.to_bits(), 600.0f32.to_bits());
    assert_eq!(flock.num_boids(), 0);
    assert!(flock.boids().is_empty());
    assert!(flock.neighbor_buffer().is_empty());
    assert_eq!(flock.bounds(), vec2(800.0, 600.0));
    assert_eq!(flock.obstacle(), None);
}

#[test]
fn test_flock_is_a_grid() {
    let flock = Flock::test_flock(800.0f32.to_bits(), 600.0f32.to_bits());
    assert_eq!(GRID_ROWS, 10);
    assert_eq!(GRID_COLS, 10);
    assert_eq!(GRID_SPACING, 10);
    assert_eq!(flock.num_boids(), 100);
    assert_eq!(flock.boids().len(), 100);
    for i in 0..10 {
        for j in 0..10 {
            let boid = flock.boids()[i * 10 + j];
            assert_eq!(f32::from_bits(boid.position.x), i as f32 * 10.0);
            assert_eq!(f32::from_bits(boid.position.y), j as f32 * 10.0);
            assert_eq!(f32::from_bits(boid.velocity.x), 1.0);
            assert_eq!(f32::from_bits(boid.velocity.y), 0.0);
        }
    }
    assert_eq!(flock.boids()[0], Boid::new(0, 0));
    assert_eq!(flock.boids()[1], Boid::new(0, 0x4120_0000));
    assert_eq!(flock.boids()[10], Boid::new(0x4120_0000, 0));
    assert_eq!(flock.boids()[99], Boid::new(0x42B4_0000, 0x42B4_0000));
    assert_eq!(flock.bounds(), vec2(800.0, 600.0));
    assert_eq!(flock.obstacle(), None);
    assert!(flock.neighbor_buffer().is_empty());
}

#[test]
fn test_flock_does_not_depend_on_the_world() {
    let small = Flock::test_flock(1.0f32.to_bits(), 1.0f32.to_bits());
    let large = Flock::test_flock(1.0e6f32.to_bits(), 2.0e6f32.to_bits());
    let odd = Flock::test_flock(f32::NAN.to_bits(), (-3.0f32).to_bits());
    assert_eq!(small.boids(), large.boids());
    assert_eq!(small.boids(), odd.boids());
    assert_eq!(large.bounds(), vec2(1.0e6, 2.0e6));
}

#[test]
fn setters_change_one_thing() {
    let mut flock = Flock::test_flock(800.0f32.to_bits(), 600.0f32.to_bits());
    let boids = flock.boids().clone();

    flock.set_width(1024.0f32.to_bits());
    assert_eq!(flock.bounds(), vec2(1024.0, 600.0));
    flock.set_height(768.0f32.to_bits());
    assert_eq!(flock.bounds(), vec2(1024.0, 768.0));
    assert_eq!(flock.obstacle(), None);

    flock.set_obstacle(12.0f32.to_bits(), 34.0f32.to_bits());
    assert_eq!(flock.obstacle(), Some(vec2(12.0, 34.0)));
    flock.set_obstacle(56.0f32.to_bits(), 78.0f32.to_bits());
    assert_eq!(flock.obstacle(), Some(vec2(56.0, 78.0)));
    assert_eq!(flock.bounds(), vec2(1024.0, 768.0));

    flock.clear_obstacle();
    assert_eq!(flock.obstacle(), None);
    flock.clear_obstacle();
    assert_eq!(flock.obstacle(), None);

    assert_eq!(flock.boids(), &boids);
    assert_eq!(flock.num_boids(), 100);
}

#[test]
fn neighbors_of_the_corner_agent() {
    let mut flock = Flock::test_flock(800.0f32.to_bits(), 600.0f32.to_bits());
    let row = dist_sq_from(&flock, 0);
    flock.set_neighbor_buffer(0, &row);
    assert_eq!(flock.neighbor_buffer().len(), 85);

    let mut expected = Vec::new();
    for i in 0..10u32 {
        for j in 0..10u32 {
            if (i, j) != (0, 0) && 100 * (i * i + j * j) < 10_000 {
                expected.push(flock.boids()[(i * 10 + j) as usize]);
            }
        }
    }
    assert_eq!(flock.neighbor_buffer(), &expected);
    assert_eq!(flock.neighbor_buffer()[0], flock.boids()[1]);
    assert_eq!(flock.neighbor_buffer()[84], flock.boids()[94]);
}

#[test]
fn neighbors_of_a_central_agent() {
    let mut flock = Flock::test_flock(800.0f32.to_bits(), 600.0f32.to_bits());
    let row = dist_sq_from(&flock, 55);
    flock.set_neighbor_buffer(55, &row);
    let mut expected = flock.boids().clone();
    expected.remove(55);
    assert_eq!(flock.neighbor_buffer(), &expected);
}

#[test]
fn neighbor_scan_leaves_the_agent_itself_out() {
    let mut flock = Flock::test_flock(800.0f32.to_bits(), 600.0f32.to_bits());
    let mut row = vec![f32::INFINITY.to_bits(); 100];
    row[7] = 0.0f32.to_bits();
    flock.set_neighbor_buffer(7, &row);
    assert!(flock.neighbor_buffer().is_empty());

    row[3] = 9_999.5f32.to_bits();
    row[8] = 10_000.0f32.to_bits();
    row[42] = 1.0f32.to_bits();
    row[99] = f32::NAN.to_bits();
    flock.set_neighbor_buffer(7, &row);
    assert_eq!(
        flock.neighbor_buffer(),
        &vec![flock.boids()[3], flock.boids()[42]]
    );
}

#[test]
fn neighbor_scan_replaces_the_buffer() {
    let mut flock = Flock::test_flock(800.0f32.to_bits(), 600.0f32.to_bits());
    let boids = flock.boids().clone();
    let row = dist_sq_from(&flock, 0);
    flock.set_neighbor_buffer(0, &row);
    assert_eq!(flock.neighbor_buffer().len(), 85);

    let mut near_one = vec![f32::MAX.to_bits(); 100];
    near_one[98] = 25.0f32.to_bits();
    flock.set_neighbor_buffer(99, &near_one);
    assert_eq!(flock.neighbor_buffer(), &vec![boids[98]]);

    assert_eq!(flock.boids(), &boids);
    assert_eq!(flock.bounds(), vec2(800.0, 600.0));
    assert_eq!(flock.obstacle(), None);
}

#[test]
fn update_velocities_keeps_positions() {
    let mut flock = Flock::test_flock(800.0f32.to_bits(), 600.0f32.to_bits());
    let before = flock.boids().clone();
    let mut velocities = Vec::new();
    for k in 0..100 {
        velocities.push(vec2(k as f32, -(k as f32) / 2.0));
    }
    flock.update_velocities(&velocities);
    for k in 0..100 {
        assert_eq!(flock.boids()[k].position, before[k].position);
        assert_eq!(flock.boids()[k].velocity, velocities[k]);
    }
    assert_eq!(flock.num_boids(), 100);
    assert_eq!(flock.bounds(), vec2(800.0, 600.0));
}

#[test]
fn update_positions_keeps_velocities() {
    let mut flock = Flock::test_flock(800.0f32.to_bits(), 600.0f32.to_bits());
    let velocities = vec![vec2(5.0, 0.0); 100];
    flock.update_velocities(&velocities);
    let before = flock.boids().clone();

    let dt = 2.0f32;
    let mut positions = Vec::new();
    for boid in flock.boids() {
        positions.push(vec2(
            f32::from_bits(boid.position.x) + dt * f32::from_bits(boid.velocity.x),
            f32::from_bits(boid.position.y) + dt * f32::from_bits(boid.velocity.y),
        ));
    }
    flock.update_positions(&positions);

    for k in 0..100 {
        let now = flock.boids()[k];
        assert_eq!(
            f32::from_bits(now.position.x),
            f32::from_bits(before[k].position.x) + 10.0
        );
        assert_eq!(f32::from_bits(now.position.y), f32::from_bits(before[k].position.y));
        assert_eq!(now.velocity, vec2(5.0, 0.0));
    }
    assert_eq!(f32::from_bits(flock.boids()[23].position.x), 30.0);
    assert_eq!(f32::from_bits(flock.boids()[23].position.y), 30.0);
}

#[test]
fn updates_on_an_empty_flock() {
    let mut flock = Flock::empty(800.0f32.to_bits(), 600.0f32.to_bits());
    flock.update_velocities(&Vec::new());
    flock.update_positions(&Vec::new());
    assert_eq!(flock.num_boids(), 0);
    assert_eq!(flock.bounds(), vec2(800.0, 600.0));
}
