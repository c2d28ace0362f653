use shapecompletion::{FilledHoleElement, FilledHoleMatrix, HoleFiller, PointI32, PointUsize};

use shapecompletion::FilledHoleElement::{Blank, Structure, Texture};

fn grid_of(rows: &[&str]) -> FilledHoleMatrix {
    let height = rows.len();
    let width = if height == 0 { 0 } else { rows[0].len() };
    let mut matrix = FilledHoleMatrix::new(width, height);
    for (y, row) in rows.iter().enumerate() {
        for (x, c) in row.chars().enumerate() {
            let elem = match c {
                '#' => Structure,
                'o' => Texture,
                _ => Blank,
            };
            matrix.set(PointUsize::new(x, y), elem);
        }
    }
    matrix
}

fn picture(matrix: &FilledHoleMatrix) -> Vec<String> {
    (0..matrix.height)
        .map(|y| {
            matrix
                .row(y)
                .iter()
                .map(|e| match e {
                    Blank => '.',
                    Structure => '#',
                    Texture => 'o',
                })
                .collect()
        })
        .collect()
}

#[test]
fn blank_grid_is_filled_whole_from_any_seed() {
    for sy in 0..3 {
        for sx in 0..4 {
            let mut matrix = FilledHoleMatrix::new(4, 3);
            HoleFiller::fill_hole_iterative(&mut matrix, PointI32::new(sx, sy));
            assert!(matrix.elems.iter().all(|e| *e == Texture));
        }
    }
}

#[test]
fn seed_on_structure_changes_nothing() {
    let rows = ["..#.", ".##.", "...."];
    let mut matrix = grid_of(&rows);
    HoleFiller::fill_hole_iterative(&mut matrix, PointI32::new(2, 0));
    assert_eq!(picture(&matrix), rows);
}

#[test]
fn seed_on_texture_changes_nothing() {
    let rows = ["o...", "...."];
    let mut matrix = grid_of(&rows);
    HoleFiller::fill_hole_iterative(&mut matrix, PointI32::new(0, 0));
    assert_eq!(picture(&matrix), rows);
}

#[test]
fn seed_outside_the_grid_changes_nothing() {
    let rows = ["....", "...."];
    for seed in [
        PointI32::new(-1, 0),
        PointI32::new(0, -1),
        PointI32::new(4, 0),
        PointI32::new(0, 2),
        PointI32::new(i32::MAX, i32::MAX),
        PointI32::new(i32::MIN, i32::MIN),
    ] {
        let mut matrix = grid_of(&rows);
        HoleFiller::fill_hole_iterative(&mut matrix, seed);
        assert_eq!(picture(&matrix), rows);
    }
}

#[test]
fn fill_stops_at_structure() {
    let mut matrix = grid_of(&["..#..", "..#..", "..#.."]);
    HoleFiller::fill_hole_iterative(&mut matrix, PointI32::new(0, 1));
    assert_eq!(picture(&matrix), ["oo#..", "oo#..", "oo#.."]);
}

#[test]
fn fill_does_not_cross_diagonals() {
    let mut matrix = grid_of(&[".#.", "#..", "..."]);
    HoleFiller::fill_hole_iterative(&mut matrix, PointI32::new(0, 0));
    assert_eq!(picture(&matrix), ["o#.", "#..", "..."]);
}

#[test]
fn fill_goes_round_corners() {
    let mut matrix = grid_of(&[".#...", ".#.#.", "...#."]);
    HoleFiller::fill_hole_iterative(&mut matrix, PointI32::new(0, 0));
    assert_eq!(picture(&matrix), ["o#ooo", "o#o#o", "ooo#o"]);
}

#[test]
fn fill_leaves_older_texture_and_other_regions() {
    let mut matrix = grid_of(&["o.#..", "###..", "....."]);
    HoleFiller::fill_hole_iterative(&mut matrix, PointI32::new(1, 0));
    assert_eq!(picture(&matrix), ["oo#..", "###..", "....."]);
}

#[test]
fn fill_on_empty_grid_does_nothing() {
    let mut matrix = FilledHoleMatrix::new(0, 0);
    HoleFiller::fill_hole_iterative(&mut matrix, PointI32::new(0, 0));
    assert_eq!(matrix.elems.len(), 0);
}

#[test]
fn second_fill_from_the_same_seed_changes_nothing() {
    let mut matrix = grid_of(&["..#.", "..#."]);
    HoleFiller::fill_hole_iterative(&mut matrix, PointI32::new(1, 1));
    let once = picture(&matrix);
    HoleFiller::fill_hole_iterative(&mut matrix, PointI32::new(1, 1));
    assert_eq!(picture(&matrix), once);
    assert_eq!(once, ["oo#.", "oo#."]);
}
