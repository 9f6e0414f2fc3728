use jr::{
    fill_promote_reshape, flip, infer_kind_from_boxes, promo, split_whitespace, string_assignment,
    ArrayKind, JError, NumKind,
};

#[test]
fn results_are_filled_to_the_longest() {
    let shapes = vec![vec![2], vec![1]];
    let data = vec![vec![1i64, 2], vec![3]];
    let (shape, out) = fill_promote_reshape(&[2], &shapes, &data, 0).unwrap();
    assert_eq!(shape, vec![2, 2]);
    assert_eq!(out, vec![1, 2, 3, 0]);
}

#[test]
fn atoms_are_rank_extended_among_lists() {
    let shapes = vec![vec![], vec![3]];
    let data = vec![vec![5i64], vec![1, 2, 3]];
    let (shape, out) = fill_promote_reshape(&[2], &shapes, &data, 0).unwrap();
    assert_eq!(shape, vec![2, 3]);
    assert_eq!(out, vec![5, 0, 0, 1, 2, 3]);
}

#[test]
fn tables_are_filled_row_by_row() {
    let shapes = vec![vec![1, 2], vec![2, 1]];
    let data = vec![vec![1i64, 2], vec![3, 4]];
    let (shape, out) = fill_promote_reshape(&[2], &shapes, &data, 9).unwrap();
    assert_eq!(shape, vec![2, 2, 2]);
    assert_eq!(out, vec![1, 2, 9, 9, 3, 9, 4, 9]);
}

#[test]
fn filling_refusals() {
    let none: Vec<Vec<usize>> = vec![];
    let nodata: Vec<Vec<i64>> = vec![];
    assert_eq!(fill_promote_reshape(&[0], &none, &nodata, 0), Err(JError::NonceError));
    let shapes = vec![vec![0]];
    let data: Vec<Vec<i64>> = vec![vec![]];
    assert_eq!(fill_promote_reshape(&[1], &shapes, &data, 0), Ok((vec![1, 0], vec![])));
    let shapes = vec![vec![1]];
    let data = vec![vec![7i64]];
    assert_eq!(fill_promote_reshape(&[3], &shapes, &data, 0), Err(JError::LengthError));
    let big = usize::MAX / 2;
    assert_eq!(fill_promote_reshape(&[big, 4], &shapes, &data, 0), Err(JError::LimitError));
}

#[test]
fn kinds_by_priority() {
    assert_eq!(infer_kind_from_boxes(&[]), ArrayKind::Bool);
    assert_eq!(infer_kind_from_boxes(&[ArrayKind::Int, ArrayKind::Bool]), ArrayKind::Int);
    assert_eq!(
        infer_kind_from_boxes(&[ArrayKind::Float, ArrayKind::Char, ArrayKind::Rational]),
        ArrayKind::Char
    );
    assert_eq!(infer_kind_from_boxes(&[ArrayKind::Box, ArrayKind::Complex]), ArrayKind::Box);
}

#[test]
fn numbers_promote_to_the_wider() {
    assert_eq!(promo(NumKind::Bool, NumKind::Bool), (NumKind::Int, NumKind::Int));
    assert_eq!(promo(NumKind::Float, NumKind::Int), (NumKind::Float, NumKind::Float));
    assert_eq!(promo(NumKind::ExtInt, NumKind::Rational), (NumKind::Rational, NumKind::Rational));
    assert_eq!(promo(NumKind::Int, NumKind::Int), (NumKind::Int, NumKind::Int));
    assert_eq!(flip((1, 2)), (2, 1));
}

#[test]
fn names_split_at_white_space() {
    let s: Vec<char> = "  ab\tc\u{3000}d ".chars().collect();
    assert_eq!(split_whitespace(&s), vec!["ab", "c", "d"]);
    let s: Vec<char> = "   ".chars().collect();
    assert!(split_whitespace(&s).is_empty());
}

#[test]
fn string_assignments() {
    let s: Vec<char> = "a b c".chars().collect();
    assert_eq!(string_assignment(Some(3), Some(&s), 1), Ok((false, vec!["a".to_string(), "b".to_string(), "c".to_string()])));
    assert_eq!(string_assignment(Some(2), Some(&s), 1), Err(JError::LengthError));
    let one: Vec<char> = " x ".chars().collect();
    assert_eq!(string_assignment(Some(7), Some(&one), 1), Ok((true, vec!["x".to_string()])));
    assert_eq!(string_assignment(None, Some(&one), 1), Err(JError::NonceError));
    assert_eq!(string_assignment(Some(1), None, 1), Err(JError::NonceError));
    assert_eq!(string_assignment(Some(1), Some(&one), 2), Err(JError::NonceError));
}

#[test]
fn promotion_ignores_the_order() {
    for &(l, r) in &[
        (NumKind::Int, NumKind::Float),
        (NumKind::Bool, NumKind::Complex),
        (NumKind::ExtInt, NumKind::Int),
        (NumKind::Bool, NumKind::Bool),
    ] {
        let (a, b) = promo(l, r);
        let (c, d) = promo(r, l);
        assert_eq!(a, b);
        assert_eq!((a, b), (d, c));
    }
}

#[test]
fn filled_arrays_hold_as_many_elements_as_their_shape() {
    let shapes = vec![vec![1, 2], vec![3], vec![]];
    let data = vec![vec![1i64, 2], vec![3, 4, 5], vec![6]];
    let (shape, out) = fill_promote_reshape(&[3], &shapes, &data, 0).unwrap();
    assert_eq!(shape, vec![3, 1, 3]);
    assert_eq!(out.len(), shape.iter().product::<usize>());
    assert_eq!(out, vec![1, 2, 0, 3, 4, 5, 6, 0, 0]);
}
