use jr::{cell_pairs, rank_split, common_dims, frame_of, generate_cells, generate_frames, macrocells, push_with_shape, rank_extend_shape, size_of_shape_checked, JError};

fn c(x: &[usize], y: &[usize]) -> usize {
    common_dims(x, y)
}

#[test]
fn cells_test_common_dims() {
    assert_eq!(1, c(&[2], &[2, 3]));
    assert_eq!(2, c(&[2, 3], &[2, 3]));
    assert_eq!(2, c(&[2, 3], &[2, 3, 4]));
    assert_eq!(0, c(&[3, 2], &[2]));
    assert_eq!(0, c(&[3, 2], &[]));

    let x = [2, 3, 4];
    let y = [2, 3];
    let split_at = c(&x, &y);
    let common_frame = &x[..split_at];
    assert_eq!(&[2, 3], common_frame);

    assert_eq!(&[4], &x[split_at..]);
    assert!(y[split_at..].is_empty());
}

#[test]
fn gen_apply_test_common_dims() {
    assert_eq!(1, c(&[2], &[2, 3]));
    assert_eq!(2, c(&[2, 3], &[2, 3]));
    assert_eq!(2, c(&[2, 3], &[2, 3, 4]));
    assert_eq!(0, c(&[3, 2], &[2]));
    assert_eq!(0, c(&[3, 2], &[]));

    let x = [2, 3, 4];
    let y = [2, 3];
    let split_at = c(&x, &y);
    let common_frame = &x[..split_at];
    assert_eq!(&[2, 3], common_frame);

    assert_eq!(&[4], &x[split_at..]);
    assert!(y[split_at..].is_empty());
}

/// Fills an array of the given shape out to `target`, as the cell
/// machinery does: rank-extended first, then padded with zeros.
fn push(target: &[usize], shape: &[usize], data: &[i64]) -> Vec<i64> {
    let mut out: Vec<i64> = Vec::new();
    let shape = rank_extend_shape(target.len(), shape);
    push_with_shape(&mut out, target, &shape, data, 0);
    out
}

#[test]
fn test_push_1d() {
    assert_eq!(vec![5], push(&[1], &[1], &[5]));
    assert_eq!(vec![5, 0], push(&[2], &[1], &[5]));
    assert_eq!(vec![5, 2, 0, 0, 0, 0], push(&[6], &[2], &[5, 2]));
}

#[test]
fn test_push_2d() {
    assert_eq!(vec![1, 2, 3, 4, 0, 0], push(&[3, 2], &[2, 2], &[1, 2, 3, 4]));
}

#[test]
fn test_push_multi_expand_2d() {
    assert_eq!(
        vec![1, 2, 0, 3, 4, 0, 0, 0, 0],
        push(&[3, 3], &[2, 2], &[1, 2, 3, 4])
    );
}

#[test]
fn push_rank_extends_an_atom() {
    assert_eq!(vec![7, 0, 0, 0], push(&[2, 2], &[], &[7]));
}

#[test]
fn frame_of_takes_the_leading_dimensions() {
    assert_eq!(vec![2, 3], frame_of(&[2, 3, 4], Some(1)));
    assert_eq!(Vec::<usize>::new(), frame_of(&[2, 3, 4], None));
    assert_eq!(Vec::<usize>::new(), frame_of(&[2, 3], Some(5)));
    assert_eq!(vec![2, 3, 4], frame_of(&[2, 3, 4], Some(0)));
}

#[test]
fn frames_agree_on_a_common_prefix() {
    // `1 2 + i. 2 3`: frames [2] and [2 3] share [2]; the longer one wins.
    assert_eq!(Ok((1, vec![2, 3])), generate_frames(&[2], &[2, 3], Some(0), Some(0)));
    // an atom agrees with anything
    assert_eq!(Ok((0, vec![3])), generate_frames(&[], &[3], Some(0), Some(0)));
    // infinite rank leaves no frame
    assert_eq!(Ok((0, vec![])), generate_frames(&[3], &[2], None, None));
}

#[test]
fn frames_that_both_go_on_are_a_length_error() {
    assert_eq!(Err(JError::LengthError), generate_frames(&[2], &[3], Some(0), Some(0)));
}

#[test]
fn rank_extension_puts_ones_in_front() {
    assert_eq!(vec![1, 1, 2, 3], rank_extend_shape(4, &[2, 3]));
    assert_eq!(vec![5], rank_extend_shape(1, &[5]));
}

#[test]
fn sizes_are_checked() {
    assert_eq!(Ok(24), size_of_shape_checked(&[2, 3, 4]));
    assert_eq!(Ok(0), size_of_shape_checked(&[2, 0, 4]));
    assert_eq!(Ok(1), size_of_shape_checked(&[]));
    assert_eq!(Err(JError::LimitError), size_of_shape_checked(&[usize::MAX, 2]));
    // a zero dimension does not excuse the others from the limit
    assert_eq!(Err(JError::LimitError), size_of_shape_checked(&[usize::MAX / 2 + 1, 0, 2]));
}

#[test]
fn cells_of_a_rank() {
    assert_eq!(rank_split(&[2, 3, 4], 1), (vec![4], 6));
    assert_eq!(rank_split(&[2, 3, 4], 2), (vec![3, 4], 2));
    assert_eq!(rank_split(&[2, 3, 4], 0), (vec![], 24));
    assert_eq!(rank_split(&[2, 3, 4], 3), (vec![2, 3, 4], 1));
    assert_eq!(rank_split(&[2, 3, 4], 9), (vec![2, 3, 4], 1));
    assert_eq!(rank_split(&[2, 3, 4], -1), (vec![3, 4], 2));
    assert_eq!(rank_split(&[2, 0, 4], 1), (vec![2, 0, 4], 1));
    assert_eq!(rank_split(&[], 0), (vec![], 1));
}

#[test]
fn lone_cells_pair_with_each() {
    assert_eq!(cell_pairs(1, 3), vec![(0, 0), (0, 1), (0, 2)]);
    assert_eq!(cell_pairs(2, 1), vec![(0, 0), (1, 0)]);
    assert_eq!(cell_pairs(1, 1), vec![(0, 0)]);
    assert_eq!(cell_pairs(1, 0), vec![]);
}

/// An array as its shape and its items in row-major order.
type Arr = (Vec<usize>, Vec<i64>);

fn arr(shape: &[usize], data: &[i64]) -> Arr {
    (shape.to_vec(), data.to_vec())
}

/// The cells of `data` for a cut into `count` cells of shape `cell`.
fn cut(data: &[i64], (cell, count): &(Vec<usize>, usize)) -> Vec<Arr> {
    let size = data.len() / count;
    (0..*count).map(|k| (cell.clone(), data[k * size..(k + 1) * size].to_vec())).collect()
}

/// The cells `generate_cells` cuts two arrays into, under ranks `(xr, yr)`.
fn gen_cells(x: &Arr, y: &Arr, xr: u8, yr: u8) -> (Vec<Arr>, Vec<Arr>) {
    let (xc, yc, _, _) = generate_cells(&x.0, &y.0, Some(xr), Some(yr)).unwrap();
    (cut(&x.1, &xc), cut(&y.1, &yc))
}

/// The pairs of macrocells a dyad of ranks `(xr, yr)` is applied to.
fn gen_pairs(x: &Arr, y: &Arr, xr: u8, yr: u8) -> Vec<(Arr, Arr)> {
    let (_, xc, yc, pairs) = macrocells(&x.0, &y.0, Some(xr), Some(yr)).unwrap();
    let xs = cut(&x.1, &xc);
    let ys = cut(&y.1, &yc);
    pairs.iter().map(|(i, j)| (xs[*i].clone(), ys[*j].clone())).collect()
}

#[test]
fn cells_test_gen_macrocells_plus_one() {
    let (x_cells, y_cells) = gen_cells(&arr(&[], &[5]), &arr(&[3], &[1, 2, 3]), 0, 0);
    assert_eq!(x_cells, vec![arr(&[], &[5])]);
    assert_eq!(y_cells, vec![arr(&[3], &[1, 2, 3])]);
}

#[test]
fn cells_test_gen_macrocells_plus_same() {
    let (x_cells, y_cells) = gen_cells(&arr(&[3], &[10, 20, 30]), &arr(&[3], &[1, 2, 3]), 0, 0);
    assert_eq!(x_cells, vec![arr(&[], &[10]), arr(&[], &[20]), arr(&[], &[30])]);
    assert_eq!(y_cells, vec![arr(&[], &[1]), arr(&[], &[2]), arr(&[], &[3])]);
}

#[test]
fn cells_test_gen_macrocells_plus_i() {
    let (x_cells, y_cells) =
        gen_cells(&arr(&[2], &[100, 200]), &arr(&[2, 3], &[0, 1, 2, 3, 4, 5]), 0, 0);
    assert_eq!(x_cells, vec![arr(&[], &[100]), arr(&[], &[200])]);
    assert_eq!(y_cells, vec![arr(&[3], &[0, 1, 2]), arr(&[3], &[3, 4, 5])]);
}

#[test]
fn cells_test_gen_macrocells_hash() {
    let (x_cells, y_cells) = gen_cells(&arr(&[3], &[24, 60, 61]), &arr(&[2], &[1800, 7200]), 1, 0);
    assert_eq!(x_cells, vec![arr(&[3], &[24, 60, 61])]);
    assert_eq!(y_cells, vec![arr(&[], &[1800]), arr(&[], &[7200])]);
}

#[test]
fn gen_apply_test_gen_macrocells_plus_one() {
    let cells = gen_pairs(&arr(&[], &[5]), &arr(&[3], &[1, 2, 3]), 0, 0);
    assert_eq!(cells, vec![(arr(&[], &[5]), arr(&[3], &[1, 2, 3]))]);
}

#[test]
fn gen_apply_test_gen_macrocells_plus_same() {
    let cells = gen_pairs(&arr(&[3], &[10, 20, 30]), &arr(&[3], &[1, 2, 3]), 0, 0);
    assert_eq!(
        cells,
        vec![
            (arr(&[], &[10]), arr(&[], &[1])),
            (arr(&[], &[20]), arr(&[], &[2])),
            (arr(&[], &[30]), arr(&[], &[3])),
        ]
    );
}

#[test]
fn test_gen_macrocells_plus_two_three() {
    let cells = gen_pairs(&arr(&[2], &[1, 2]), &arr(&[2, 3], &[10, 20, 30, 70, 80, 90]), 0, 0);
    assert_eq!(
        cells,
        vec![
            (arr(&[], &[1]), arr(&[3], &[10, 20, 30])),
            (arr(&[], &[2]), arr(&[3], &[70, 80, 90])),
        ]
    );
}

#[test]
fn gen_apply_test_gen_macrocells_plus_i() {
    let cells = gen_pairs(&arr(&[2], &[100, 200]), &arr(&[2, 3], &[0, 1, 2, 3, 4, 5]), 0, 0);
    assert_eq!(
        cells,
        vec![
            (arr(&[], &[100]), arr(&[3], &[0, 1, 2])),
            (arr(&[], &[200]), arr(&[3], &[3, 4, 5])),
        ]
    );
}

#[test]
fn gen_apply_test_gen_macrocells_hash() {
    let cells = gen_pairs(&arr(&[3], &[24, 60, 61]), &arr(&[2], &[1800, 7200]), 1, 0);
    assert_eq!(cells, vec![(arr(&[3], &[24, 60, 61]), arr(&[2], &[1800, 7200]))]);
}

#[test]
fn monadic_apply() {
    let y = arr(&[2], &[2, 3]);
    let cells = cut(&y.1, &rank_split(&y.0, 1));
    assert_eq!(cells, vec![y.clone()]);
    assert!(frame_of(&y.0, Some(1)).is_empty());
    let applied: Vec<Arr> = cells.iter().map(|c| c.clone()).collect();
    assert_eq!(applied, vec![y.clone()]);
}

#[test]
fn frames_that_disagree_make_no_macrocells() {
    assert_eq!(Err(JError::LengthError), macrocells(&[2], &[3], Some(0), Some(0)));
    assert_eq!(Err(JError::LengthError), generate_frames(&[2], &[3], Some(0), Some(0)));
}
