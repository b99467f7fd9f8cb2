use ulam_spiral::directions::Directions;
use ulam_spiral::square_matrix::SquareMatrix;
use ulam_spiral::ulam_spiral::{SpiralError, UlamSpiral, UlamSpiralFormat};
use ulam_spiral::utils::is_prime;

#[test]
fn rotation_cycles_counter_clockwise() {
    let d = Directions::Right;
    let d = d.rotate_counter_clockwise();
    assert_eq!(d, Directions::Up);
    let d = d.rotate_counter_clockwise();
    assert_eq!(d, Directions::Left);
    let d = d.rotate_counter_clockwise();
    assert_eq!(d, Directions::Down);
    let d = d.rotate_counter_clockwise();
    assert_eq!(d, Directions::Right);
}

#[test]
fn matrix_starts_zeroed() {
    let m = SquareMatrix::new(3);
    assert_eq!(m.len(), 9);
    assert_eq!(m.width(), 3);
    assert_eq!(m.elems().as_slice(), &[0usize; 9]);
}

#[test]
fn matrix_get_set_row_major() {
    let mut m = SquareMatrix::new(3);
    m.set(1, 2, 42);
    assert_eq!(m.get(1, 2), 42);
    assert_eq!(m.elems()[2 * 3 + 1], 42);
    assert_eq!(m.get(2, 1), 0);
}

#[test]
fn spiral_of_size_one_is_single_cell() {
    let s = UlamSpiral::new(1, UlamSpiralFormat::Square).unwrap_or_else(|_| panic!());
    assert_eq!(s.width(), 1);
    assert_eq!(s.elems().as_slice(), &[1usize]);
}

#[test]
fn spiral_of_size_three_exact_layout() {
    let s = UlamSpiral::new(3, UlamSpiralFormat::Square).unwrap_or_else(|_| panic!());
    assert_eq!(s.width(), 3);
    assert_eq!(s.elems().as_slice(), &[5, 4, 3, 6, 1, 2, 7, 8, 9]);
}

#[test]
fn spiral_of_size_five_exact_layout() {
    let s = UlamSpiral::new(5, UlamSpiralFormat::Circle).unwrap_or_else(|_| panic!());
    assert_eq!(
        s.elems().as_slice(),
        &[
            17, 16, 15, 14, 13, //
            18, 5, 4, 3, 12, //
            19, 6, 1, 2, 11, //
            20, 7, 8, 9, 10, //
            21, 22, 23, 24, 25,
        ]
    );
    assert_eq!(s.format(), UlamSpiralFormat::Circle);
}

#[test]
fn spiral_holds_each_value_exactly_once() {
    for size in [1usize, 3, 5, 7, 9, 11] {
        let s = UlamSpiral::new(size, UlamSpiralFormat::Square).unwrap_or_else(|_| panic!());
        let mut values = s.elems().clone();
        values.sort();
        let expected: Vec<usize> = (1..=size * size).collect();
        assert_eq!(values, expected);
    }
}

#[test]
fn zero_size_is_invalid() {
    assert!(matches!(
        UlamSpiral::new(0, UlamSpiralFormat::Square),
        Err(SpiralError::InvalidSize)
    ));
}

#[test]
fn even_size_is_invalid() {
    assert!(matches!(
        UlamSpiral::new(2, UlamSpiralFormat::Square),
        Err(SpiralError::InvalidSize)
    ));
    assert!(matches!(
        UlamSpiral::new(1000, UlamSpiralFormat::Circle),
        Err(SpiralError::InvalidSize)
    ));
}

#[test]
fn wrapped_negative_size_is_invalid() {
    // usize::MAX is what -1 becomes under unsigned wrap; its square overflows.
    assert!(matches!(
        UlamSpiral::new(usize::MAX, UlamSpiralFormat::Square),
        Err(SpiralError::InvalidSize)
    ));
}

#[test]
fn primality_by_trial_division() {
    for n in [0usize, 1, 4, 6, 8, 9] {
        assert!(!is_prime(n), "{n} must not be prime");
    }
    for n in [2usize, 3, 5, 7, 11, 13] {
        assert!(is_prime(n), "{n} must be prime");
    }
}
