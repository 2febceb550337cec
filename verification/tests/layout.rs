use boids::boid::Boid;

#[test]
fn test_size() {
    assert_eq!(std::mem::size_of::<Boid>(), 16, "Boid should be 4 bytes");
}

#[test]
fn test_data_layout() {
    let b = Boid::new(1.0f32.to_bits(), 2.0f32.to_bits());
    let vals = b.to_words().map(f32::from_bits);
    assert_eq!(vals[0], 1.0, "vals[0] value should be 1.0");
    assert_eq!(vals[1], 2.0, "vals[1] value should be 2.0");
    assert_eq!(vals[2], 1.0, "vals[2] value should be 0.0");
    assert_eq!(vals[3], 0.0, "vals[3] value should be 0.0");
}
