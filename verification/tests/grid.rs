use shapecompletion::{FilledHoleElement, FilledHoleMatrix, PointUsize};

fn numbered(width: usize, height: usize) -> FilledHoleMatrix {
    // Cell (x, y) is structure where x + y is even, texture where it is a
    // multiple of three, blank elsewhere: enough to tell columns and rows apart.
    let mut matrix = FilledHoleMatrix::new(width, height);
    for y in 0..height {
        for x in 0..width {
            let elem = if (x + 2 * y) % 3 == 0 {
                FilledHoleElement::Structure
            } else if (x + 2 * y) % 3 == 1 {
                FilledHoleElement::Texture
            } else {
                FilledHoleElement::Blank
            };
            matrix.set(PointUsize::new(x, y), elem);
        }
    }
    matrix
}

#[test]
fn new_grid_is_blank() {
    let matrix = FilledHoleMatrix::new(3, 2);
    assert_eq!(matrix.width, 3);
    assert_eq!(matrix.height, 2);
    assert_eq!(matrix.elems.len(), 6);
    assert!(matrix.elems.iter().all(|e| *e == FilledHoleElement::Blank));
}

#[test]
fn new_grid_may_be_empty() {
    let matrix = FilledHoleMatrix::new(0, 5);
    assert_eq!(matrix.elems.len(), 0);
    let matrix = FilledHoleMatrix::new(4, 0);
    assert_eq!(matrix.elems.len(), 0);
}

#[test]
fn set_and_get_address_rows_of_width() {
    let mut matrix = FilledHoleMatrix::new(3, 2);
    matrix.set(PointUsize::new(2, 1), FilledHoleElement::Structure);
    assert_eq!(matrix.elems[5], FilledHoleElement::Structure);
    assert_eq!(matrix.get(PointUsize::new(2, 1)), FilledHoleElement::Structure);
    assert_eq!(matrix.get(PointUsize::new(1, 1)), FilledHoleElement::Blank);
    assert_eq!(matrix.get(PointUsize::new(2, 0)), FilledHoleElement::Blank);
}

#[test]
fn row_is_a_slice_of_the_cells() {
    let matrix = numbered(4, 3);
    let row = matrix.row(1);
    assert_eq!(row.len(), 4);
    for x in 0..4 {
        assert_eq!(row[x], matrix.get(PointUsize::new(x, 1)));
    }
}

#[test]
fn row_mut_writes_one_row_only() {
    let mut matrix = FilledHoleMatrix::new(3, 3);
    {
        let row = matrix.row_mut(1);
        assert_eq!(row.len(), 3);
        row[0] = FilledHoleElement::Texture;
        row[2] = FilledHoleElement::Structure;
    }
    for y in 0..3 {
        for x in 0..3 {
            let expected = if y == 1 && x == 0 {
                FilledHoleElement::Texture
            } else if y == 1 && x == 2 {
                FilledHoleElement::Structure
            } else {
                FilledHoleElement::Blank
            };
            assert_eq!(matrix.get(PointUsize::new(x, y)), expected);
        }
    }
}

#[test]
fn without_column_shifts_later_columns_left() {
    let matrix = numbered(5, 3);
    for col in 0..5 {
        let narrower = matrix.new_without_column(col);
        assert_eq!(narrower.width, 4);
        assert_eq!(narrower.height, 3);
        assert_eq!(narrower.elems.len(), 12);
        for y in 0..3 {
            for x in 0..4 {
                let from = if x < col { x } else { x + 1 };
                assert_eq!(
                    narrower.get(PointUsize::new(x, y)),
                    matrix.get(PointUsize::new(from, y))
                );
            }
        }
    }
}

#[test]
fn without_column_beyond_the_grid_drops_the_last() {
    let matrix = numbered(3, 2);
    let narrower = matrix.new_without_column(7);
    assert_eq!(narrower.width, 2);
    for y in 0..2 {
        for x in 0..2 {
            assert_eq!(
                narrower.get(PointUsize::new(x, y)),
                matrix.get(PointUsize::new(x, y))
            );
        }
    }
}

#[test]
fn without_the_only_column_is_empty() {
    let matrix = numbered(1, 4);
    let narrower = matrix.new_without_column(0);
    assert_eq!(narrower.width, 0);
    assert_eq!(narrower.height, 4);
    assert_eq!(narrower.elems.len(), 0);
}

#[test]
fn without_row_shifts_later_rows_up() {
    let matrix = numbered(3, 5);
    for row in 0..5 {
        let lower = matrix.new_without_row(row);
        assert_eq!(lower.width, 3);
        assert_eq!(lower.height, 4);
        for y in 0..4 {
            for x in 0..3 {
                let from = if y < row { y } else { y + 1 };
                assert_eq!(
                    lower.get(PointUsize::new(x, y)),
                    matrix.get(PointUsize::new(x, from))
                );
            }
        }
    }
}

#[test]
fn without_row_beyond_the_grid_drops_the_last() {
    let matrix = numbered(2, 3);
    let lower = matrix.new_without_row(3);
    assert_eq!(lower.height, 2);
    assert_eq!(&lower.elems[..], &matrix.elems[..4]);
}
