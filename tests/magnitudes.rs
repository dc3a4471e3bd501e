use arthroprod::magnitude::Magnitude;
use std::cmp::Ordering;

fn mag(a: usize, b: usize) -> Magnitude {
    Magnitude::new(a, b)
}

#[test]
fn equality_works() {
    assert_eq!(mag(2, 4), mag(1, 2));
    assert!(mag(4, 2).eq_usize(2u32 as usize));
    assert!(mag(15, 3).eq_usize(5u32 as usize));
}

#[test]
fn new_is_in_lowest_terms() {
    for (a, b, num, den) in [(1, 2, 1, 2), (2, 4, 1, 2), (3, 9, 1, 3), (25, 5, 5, 1), (0, 7, 0, 1), (6, 6, 1, 1)] {
        let m = mag(a, b);
        assert_eq!((m.numerator, m.denominator), (num, den));
    }
}

#[test]
fn comparison() {
    assert_eq!(mag(1, 2).compare(&mag(1, 2)), Ordering::Equal);
    assert_eq!(mag(1, 2).compare(&mag(5, 10)), Ordering::Equal);
    assert_eq!(mag(1, 3).compare(&mag(2, 5)), Ordering::Less);
    assert_eq!(mag(3, 4).compare(&mag(5, 9)), Ordering::Greater);
    assert_eq!(
        Magnitude { numerator: usize::MAX, denominator: 1 }
            .compare(&Magnitude { numerator: usize::MAX - 1, denominator: 1 }),
        Ordering::Greater
    );
}

#[test]
fn arithmetic() {
    assert_eq!(mag(1, 3).add(mag(1, 3)), mag(2, 3));
    assert_eq!(mag(1, 2).add(mag(3, 4)), mag(5, 4));
    assert_eq!(mag(3, 5).add(mag(4, 3)), mag(29, 15));
    assert_eq!(mag(1, 3).sub(mag(1, 3)), mag(0, 1));
    assert_eq!(mag(3, 4).sub(mag(1, 2)), mag(1, 4));
    assert_eq!(mag(4, 3).sub(mag(3, 5)), mag(11, 15));
    assert_eq!(mag(2, 3).mul(mag(1, 2)), mag(1, 3));
    assert_eq!(mag(3, 4).mul(mag(1, 2)), mag(3, 8));
    assert_eq!(mag(1, 2).div(mag(1, 4)), mag(2, 1));
    assert_eq!(mag(3, 5).div(mag(4, 3)), mag(9, 20));
}

#[test]
fn reduced_magnitudes_are_coprime() {
    fn gcd(a: usize, b: usize) -> usize {
        if b == 0 { a } else { gcd(b, a % b) }
    }
    for a in 0..40 {
        for b in 1..40 {
            let m = mag(a, b);
            assert!(m.denominator > 0);
            assert_eq!(gcd(m.numerator, m.denominator), 1);
            assert_eq!(m.numerator * b, a * m.denominator);
            if a == 0 {
                assert_eq!(m.denominator, 1);
            }
        }
    }
}

#[test]
fn zero_is_not_non_zero() {
    assert!(!mag(0, 3).is_non_zero());
    assert!(mag(1, 3).is_non_zero());
}
