use lazor::{check_camera, check_ray, check_vector, validate_scene, Number, TraceError};

fn num(x: f64) -> Number {
    Number::from_bits(x.to_bits())
}

fn numbers(all: &[f64]) -> Vec<Number> {
    all.iter().map(|x| num(*x)).collect()
}

const LEAST: f64 = 0.999999999;
const MOST: f64 = 1.000000001;

#[test]
fn a_vector_with_a_length_can_be_normalized() {
    assert_eq!(check_vector(num(8.774964387392123)), Ok(()));
    assert_eq!(check_vector(num(1.0)), Ok(()));
    assert_eq!(check_vector(num(5.0e-324)), Ok(()));
    assert_eq!(check_vector(num(f64::INFINITY)), Ok(()));
}

#[test]
fn the_zero_vector_cannot_be_normalized() {
    assert_eq!(check_vector(num(0.0)), Err(TraceError::DegenerateVector));
    assert_eq!(check_vector(num(-0.0)), Err(TraceError::DegenerateVector));
    assert_eq!(check_vector(num(f64::NAN)), Err(TraceError::DegenerateVector));
    assert_eq!(check_vector(num(-1.0)), Err(TraceError::DegenerateVector));
}

#[test]
fn a_ray_needs_a_direction() {
    assert_eq!(check_ray(num(1.1180339887498950)), Ok(()));
    assert_eq!(check_ray(num(0.0)), Err(TraceError::DegenerateRay));
    assert_eq!(check_ray(num(-0.0)), Err(TraceError::DegenerateRay));
    assert_eq!(check_ray(num(f64::NAN)), Err(TraceError::DegenerateRay));
}

#[test]
fn a_camera_needs_a_right_vector() {
    assert_eq!(check_camera(num(1.0)), Ok(()));
    assert_eq!(check_camera(num(1.0e-9)), Ok(()));
    assert_eq!(check_camera(num(0.0)), Err(TraceError::DegenerateCamera));
    assert_eq!(check_camera(num(f64::NAN)), Err(TraceError::DegenerateCamera));
}

#[test]
fn a_scene_in_order() {
    let radii = numbers(&[25.0, 50.0, 25.0, 30.0]);
    let normals = numbers(&[1.0, 1.0, 1.0, 1.0, 1.0, 1.0]);
    assert_eq!(validate_scene(&radii, &normals, num(LEAST), num(MOST)), Ok(()));
    let normals = numbers(&[0.9999999999999999, 1.0000000000000002, LEAST, MOST]);
    assert_eq!(validate_scene(&radii, &normals, num(LEAST), num(MOST)), Ok(()));
}

#[test]
fn an_empty_scene_is_in_order() {
    let none: Vec<Number> = Vec::new();
    assert_eq!(validate_scene(&none, &none, num(LEAST), num(MOST)), Ok(()));
    assert_eq!(validate_scene(&none, &none, num(f64::NAN), num(f64::NAN)), Ok(()));
}

#[test]
fn a_sphere_needs_a_positive_radius() {
    let normals = numbers(&[1.0]);
    for radius in [0.0, -0.0, -25.0, f64::NAN, f64::NEG_INFINITY] {
        for place in 0..3 {
            let mut radii = numbers(&[25.0, 50.0, 30.0]);
            radii[place] = num(radius);
            assert_eq!(
                validate_scene(&radii, &normals, num(LEAST), num(MOST)),
                Err(TraceError::InvalidPrimitive)
            );
        }
    }
}

#[test]
fn a_plane_needs_a_normal_of_unit_length() {
    let radii = numbers(&[25.0]);
    for length in [0.0, 0.5, 0.99, 0.9999999989, 1.0000000011, 2.0, f64::INFINITY, f64::NAN, -1.0] {
        for place in 0..3 {
            let mut normals = numbers(&[1.0, 1.0, 1.0]);
            normals[place] = num(length);
            assert_eq!(
                validate_scene(&radii, &normals, num(LEAST), num(MOST)),
                Err(TraceError::InvalidPrimitive)
            );
        }
    }
    let none: Vec<Number> = Vec::new();
    assert_eq!(
        validate_scene(&none, &numbers(&[1.0]), num(f64::NAN), num(MOST)),
        Ok(())
    );
}

#[test]
fn faults_compare_and_print() {
    assert_ne!(TraceError::DegenerateVector, TraceError::DegenerateRay);
    assert_eq!(format!("{:?}", TraceError::InvalidPrimitive), "InvalidPrimitive");
    let fault = TraceError::DegenerateCamera;
    let copy = fault;
    assert_eq!(fault, copy);
}
