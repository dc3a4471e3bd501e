use arthroprod::basis::{AlgebraError, Alpha, Form, Grade, Index, Orientation, Sign, Zet};
use arthroprod::xi::form_name_string;
use arthroprod::basis::Index::{One, Three, Two, Zero};
use arthroprod::basis::Orientation::{e, i, j, k};
use arthroprod::basis::Zet::{A, B, E, T};

const ALLOWED_ALPHA_STRINGS: [&str; 16] = [
    "p", "23", "31", "12", "0", "023", "031", "012", "123", "1", "2", "3", "0123", "01", "02", "03",
];

#[test]
fn allowed_strings_are_correct() {
    let forms: Vec<String> = Form::iter().iter().map(form_name_string).collect();
    assert_eq!(forms, ALLOWED_ALPHA_STRINGS);
}

#[test]
fn indices_round_trip_for_all_forms() {
    for f in Form::iter() {
        assert_eq!(Form::try_from_indices(&f.as_indices()), Ok(f));
    }
}

#[test]
fn invalid_indices_are_rejected() {
    let bad = vec![Two, One];
    assert_eq!(Form::try_from_indices(&bad), Err(AlgebraError::InvalidIndices(bad.clone())));
    assert_eq!(
        Alpha::try_from_indices(Sign::Pos, &[Zero, Zero]),
        Err(AlgebraError::InvalidIndices(vec![Zero, Zero]))
    );
    assert!(Form::try_from_indices(&[Zero, One, Two, Three, Zero]).is_err());
}

#[test]
fn index_construction() {
    assert_eq!(Index::try_from_u8(2), Ok(Index::Two));
    assert_eq!(Index::try_from_u8(4), Err(AlgebraError::InvalidIndex(4)));
    assert_eq!(Index::try_from_char('3'), Ok(Index::Three));
    assert_eq!(Index::try_from_char('x'), Err(AlgebraError::InvalidIndexChar('x')));
}

#[test]
fn grade_construction() {
    assert_eq!(Grade::try_from_str("4"), Ok(Grade::Four));
    assert_eq!(Grade::try_from_str("0"), Ok(Grade::Zero));
    assert_eq!(Grade::try_from_str("12"), Err(AlgebraError::InvalidGrade("12".to_string())));
}

#[test]
fn grades_follow_the_zet_table() {
    assert_eq!(Form::new(B, e).grade(), Grade::Zero);
    assert_eq!(Form::new(B, j).grade(), Grade::Two);
    assert_eq!(Form::new(T, e).grade(), Grade::One);
    assert_eq!(Form::new(T, k).grade(), Grade::Three);
    assert_eq!(Form::new(A, e).grade(), Grade::Three);
    assert_eq!(Form::new(A, i).grade(), Grade::One);
    assert_eq!(Form::new(E, e).grade(), Grade::Four);
    assert_eq!(Form::new(E, i).grade(), Grade::Two);
    for f in Form::iter() {
        let n = f.as_indices().len();
        let g = match f.grade() {
            Grade::Zero => 0,
            Grade::One => 1,
            Grade::Two => 2,
            Grade::Three => 3,
            Grade::Four => 4,
        };
        assert_eq!(n, g);
    }
}

#[test]
fn signs_combine_by_arithmetic() {
    assert_eq!(Sign::Pos.combine(Sign::Pos), Sign::Pos);
    assert_eq!(Sign::Neg.combine(Sign::Neg), Sign::Pos);
    assert_eq!(Sign::Pos.combine(Sign::Neg), Sign::Neg);
    assert_eq!(Sign::Neg.neg(), Sign::Pos);
}

#[test]
fn forms_compare_by_zet_then_orientation() {
    let a = Form::new(Zet::T, Orientation::k);
    let b = Form::new(Zet::A, Orientation::e);
    assert_eq!(a.compare(&b), std::cmp::Ordering::Less);
    assert_eq!(b.rank(), 8);
}
