use shapecompletion::FilledHoleElement::{Blank, Structure, Texture};
use shapecompletion::{
    BoundingRect, CompoundPath, CompoundPathElement, FilledHoleMatrix, HoleFiller, PointI32,
    PointUsize,
};
use visioncortex::BinaryImage;

fn image_of(width: usize, height: usize, pixel: fn(usize, usize) -> bool) -> BinaryImage {
    let mut image = BinaryImage::new_w_h(width, height);
    for y in 0..height {
        for x in 0..width {
            image.set_pixel(x, y, pixel(x, y));
        }
    }
    image
}

fn picture(matrix: &FilledHoleMatrix) -> Vec<String> {
    (0..matrix.height)
        .map(|y| {
            matrix
                .row(y)
                .iter()
                .map(|e| match e {
                    Blank => '.',
                    Structure => '#',
                    Texture => 'o',
                })
                .collect()
        })
        .collect()
}

fn hole() -> BoundingRect {
    BoundingRect { left: 2, top: 2, right: 6, bottom: 6 }
}

fn wall() -> Vec<CompoundPath> {
    // A vertical line through column 3 of the image, column 1 of the hole.
    vec![CompoundPath {
        paths: vec![CompoundPathElement::IntegerPolyline(vec![
            PointI32::new(3, 2),
            PointI32::new(3, 3),
            PointI32::new(3, 4),
            PointI32::new(3, 5),
        ])],
    }]
}

#[test]
fn hole_in_foreground_is_filled() {
    let image = image_of(8, 8, |_, _| true);
    let filled = HoleFiller::fill(
        &image,
        hole(),
        Vec::new(),
        vec![PointI32::new(2, 2), PointI32::new(6, 6)],
        0,
    )
    .unwrap();
    assert_eq!(filled.width, 4);
    assert_eq!(filled.height, 4);
    assert_eq!(filled.elems.len(), 16);
    assert!(filled.elems.iter().any(|e| *e == Texture));
    assert!(filled.elems.iter().all(|e| *e != Structure));
    assert_eq!(picture(&filled), ["oooo", "oooo", "oooo", "oooo"]);
}

#[test]
fn hole_in_background_stays_blank() {
    let image = image_of(8, 8, |_, _| false);
    let filled = HoleFiller::fill(
        &image,
        hole(),
        Vec::new(),
        vec![PointI32::new(2, 2), PointI32::new(6, 6)],
        0,
    )
    .unwrap();
    assert_eq!(picture(&filled), ["....", "....", "....", "...."]);
}

#[test]
fn arc_must_be_longer_than_the_threshold() {
    let image = image_of(8, 8, |_, _| true);
    let endpoints = vec![PointI32::new(2, 2), PointI32::new(6, 6)];
    // The arcs hold 8 and 7 points.
    let filled = HoleFiller::fill(&image, hole(), Vec::new(), endpoints.clone(), 8).unwrap();
    assert_eq!(picture(&filled), ["....", "....", "....", "...."]);
    let filled = HoleFiller::fill(&image, hole(), Vec::new(), endpoints, 7).unwrap();
    assert_eq!(picture(&filled), ["oooo", "oooo", "oooo", "oooo"]);
}

#[test]
fn only_the_arc_that_borders_on_foreground_is_filled() {
    // Column 1 of the image, left of the hole, is background.
    let image = image_of(8, 8, |x, _| x != 1);
    let endpoints = vec![PointI32::new(2, 2), PointI32::new(6, 6)];
    let filled = HoleFiller::fill(&image, hole(), wall(), endpoints.clone(), 0).unwrap();
    assert_eq!(picture(&filled), [".#oo", ".#oo", ".#oo", ".#oo"]);
    // The arc along the bottom and the left side sees 4 background pixels.
    let filled = HoleFiller::fill(&image, hole(), wall(), endpoints.clone(), 3).unwrap();
    assert_eq!(picture(&filled), [".#oo", ".#oo", ".#oo", ".#oo"]);
    let filled = HoleFiller::fill(&image, hole(), wall(), endpoints, 4).unwrap();
    assert_eq!(picture(&filled), ["o#oo", "o#oo", "o#oo", "o#oo"]);
}

fn floor() -> Vec<CompoundPath> {
    // A horizontal line through row 3 of the image, row 1 of the hole.
    vec![CompoundPath {
        paths: vec![CompoundPathElement::IntegerPolyline(vec![
            PointI32::new(2, 3),
            PointI32::new(3, 3),
            PointI32::new(4, 3),
            PointI32::new(5, 3),
        ])],
    }]
}

#[test]
fn the_walk_runs_from_the_first_endpoint_along_the_top_side() {
    // Row 1 of the image, above the hole, is background. The arc that leaves
    // the top-left corner along the top and the right side sees 3 background
    // pixels, the arc back along the bottom and the left side sees 1, outside
    // the corner it ends at. The seeds of the second arc all lie below the
    // line.
    let image = image_of(8, 8, |_, y| y != 1);
    let endpoints = vec![PointI32::new(2, 2), PointI32::new(6, 6)];
    let filled = HoleFiller::fill(&image, hole(), floor(), endpoints.clone(), 0).unwrap();
    assert_eq!(picture(&filled), ["....", "####", "....", "...."]);
    let filled = HoleFiller::fill(&image, hole(), floor(), endpoints.clone(), 1).unwrap();
    assert_eq!(picture(&filled), ["....", "####", "oooo", "oooo"]);
    let filled = HoleFiller::fill(&image, hole(), floor(), endpoints.clone(), 2).unwrap();
    assert_eq!(picture(&filled), ["....", "####", "oooo", "oooo"]);
    let filled = HoleFiller::fill(&image, hole(), floor(), endpoints, 3).unwrap();
    assert_eq!(picture(&filled), ["oooo", "####", "oooo", "oooo"]);
}

#[test]
fn the_walk_starts_at_the_first_endpoint() {
    // The same hole with the endpoints in the other order. The second arc
    // now leaves from the point after the top-left corner and sees only 2
    // background pixels; one of its seeds lies above the line.
    let image = image_of(8, 8, |_, y| y != 1);
    let endpoints = vec![PointI32::new(6, 6), PointI32::new(2, 2)];
    let filled = HoleFiller::fill(&image, hole(), floor(), endpoints.clone(), 1).unwrap();
    assert_eq!(picture(&filled), ["....", "####", "oooo", "oooo"]);
    let filled = HoleFiller::fill(&image, hole(), floor(), endpoints, 2).unwrap();
    assert_eq!(picture(&filled), ["oooo", "####", "oooo", "oooo"]);
}

#[test]
fn seed_beside_the_right_side_lies_one_cell_inside() {
    // A vertical line through column 2 of the hole. Of the seeds of the first
    // arc one is on the line, one on the top-right corner, outside the grid,
    // and one inside the right side.
    let image = image_of(8, 8, |x, _| x != 1);
    let curves = vec![CompoundPath {
        paths: vec![CompoundPathElement::RealPolyline(vec![
            PointUsize::new(2, 0),
            PointUsize::new(2, 1),
            PointUsize::new(2, 2),
            PointUsize::new(2, 3),
        ])],
    }];
    let endpoints = vec![PointI32::new(2, 2), PointI32::new(6, 6)];
    let filled = HoleFiller::fill(&image, hole(), curves, endpoints, 0).unwrap();
    assert_eq!(picture(&filled), ["..#o", "..#o", "..#o", "..#o"]);
}

#[test]
fn pixels_beyond_the_image_count_as_background() {
    let image = image_of(5, 5, |_, _| true);
    let rect = BoundingRect { left: 0, top: 0, right: 4, bottom: 4 };
    // Both arcs pass points whose outside neighbour is off the image.
    let filled = HoleFiller::fill(
        &image,
        rect,
        Vec::new(),
        vec![PointI32::new(0, 0), PointI32::new(4, 0)],
        0,
    );
    assert!(matches!(filled, Ok(_)));
    assert_eq!(picture(&filled.unwrap()), ["....", "....", "....", "...."]);
}

#[test]
fn endpoints_off_the_boundary_are_adjusted_first() {
    let image = image_of(8, 8, |x, _| x != 1);
    let endpoints = vec![PointI32::new(0, 0), PointI32::new(7, 7)];
    let filled = HoleFiller::fill(&image, hole(), wall(), endpoints, 0).unwrap();
    assert_eq!(picture(&filled), [".#oo", ".#oo", ".#oo", ".#oo"]);
}

#[test]
fn walk_ends_when_it_is_back_at_its_start() {
    // The second endpoint is the last point of the boundary before the
    // start: the only arc ends there.
    let image = image_of(8, 8, |_, _| true);
    let endpoints = vec![PointI32::new(2, 2), PointI32::new(2, 3)];
    // Its seeds lie inside (5, 2), (6, 5) and (3, 6); the last one is on the
    // wall.
    let filled = HoleFiller::fill(&image, hole(), wall(), endpoints, 0).unwrap();
    assert_eq!(picture(&filled), [".#oo", ".#oo", ".#oo", ".#oo"]);
}

#[test]
fn a_single_endpoint_gives_one_arc_round_the_hole() {
    let image = image_of(8, 8, |_, _| true);
    let filled =
        HoleFiller::fill(&image, hole(), wall(), vec![PointI32::new(4, 2)], 15).unwrap();
    // 16 points, which is longer than 15. The arc ends where it starts, so
    // all three seeds are the cell of the endpoint itself.
    assert_eq!(picture(&filled), [".#oo", ".#oo", ".#oo", ".#oo"]);
    let filled =
        HoleFiller::fill(&image, hole(), wall(), vec![PointI32::new(4, 2)], 16).unwrap();
    assert_eq!(picture(&filled), [".#..", ".#..", ".#..", ".#.."]);
}

#[test]
fn fill_holes_keeps_structure_and_older_texture() {
    let image = image_of(8, 8, |x, _| x != 1);
    let mut matrix = FilledHoleMatrix::new(4, 4);
    for y in 0..4 {
        matrix.set(PointUsize::new(1, y), Structure);
    }
    matrix.set(PointUsize::new(0, 3), Texture);
    let filled = HoleFiller::fill_holes(
        matrix,
        &image,
        hole(),
        PointI32::new(2, 2),
        vec![PointI32::new(2, 2), PointI32::new(6, 6)],
        0,
    )
    .unwrap();
    assert_eq!(picture(&filled), [".#oo", ".#oo", ".#oo", "o#oo"]);
}

#[test]
fn rasterize_marks_vertices_cells_and_clamped_samples() {
    let curves = vec![
        CompoundPath {
            paths: vec![
                CompoundPathElement::IntegerPolyline(vec![
                    PointI32::new(10, 20),
                    PointI32::new(14, 22),
                ]),
                CompoundPathElement::RealPolyline(vec![PointUsize::new(1, 1)]),
            ],
        },
        CompoundPath {
            paths: vec![CompoundPathElement::Spline(vec![
                vec![PointUsize::new(2, 0), PointUsize::new(9, 1), PointUsize::new(3, 7)],
                Vec::new(),
                vec![PointUsize::new(usize::MAX, usize::MAX)],
            ])],
        },
    ];
    let matrix = FilledHoleMatrix::new(5, 3);
    let rasterized =
        HoleFiller::rasterize_intrapolated_curves(matrix, curves, PointI32::new(10, 20));
    assert_eq!(picture(&rasterized), ["#.#..", ".#..#", "...##"]);
}

#[test]
fn rasterize_writes_over_texture() {
    let mut matrix = FilledHoleMatrix::new(2, 1);
    matrix.set(PointUsize::new(0, 0), Texture);
    matrix.set(PointUsize::new(1, 0), Texture);
    let curves = vec![CompoundPath {
        paths: vec![CompoundPathElement::RealPolyline(vec![PointUsize::new(1, 0)])],
    }];
    let rasterized = HoleFiller::rasterize_intrapolated_curves(matrix, curves, PointI32::new(0, 0));
    assert_eq!(picture(&rasterized), ["o#"]);
}

#[test]
fn rasterize_without_curves_changes_nothing() {
    let matrix = FilledHoleMatrix::new(3, 2);
    let rasterized =
        HoleFiller::rasterize_intrapolated_curves(matrix, Vec::new(), PointI32::new(5, 5));
    assert_eq!(picture(&rasterized), ["...", "..."]);
    let rasterized = HoleFiller::rasterize_intrapolated_curves(
        rasterized,
        vec![CompoundPath { paths: Vec::new() }],
        PointI32::new(5, 5),
    );
    assert_eq!(picture(&rasterized), ["...", "..."]);
}

#[test]
fn bezier_samples_beyond_the_grid_mark_its_edge() {
    let mut matrix = FilledHoleMatrix::new(3, 3);
    HoleFiller::rasterize_bezier_curve(
        &mut matrix,
        &vec![PointUsize::new(0, 0), PointUsize::new(1, 5), PointUsize::new(5, 1)],
    );
    assert_eq!(picture(&matrix), ["#..", "..#", ".#."]);
}

#[test]
fn far_origin_does_not_overflow() {
    let matrix = FilledHoleMatrix::new(2, 2);
    let curves = vec![CompoundPath {
        paths: vec![CompoundPathElement::IntegerPolyline(vec![PointI32::new(
            i32::MIN + 1,
            i32::MIN,
        )])],
    }];
    let rasterized =
        HoleFiller::rasterize_intrapolated_curves(matrix, curves, PointI32::new(i32::MIN, i32::MIN));
    assert_eq!(picture(&rasterized), [".#", ".."]);
}

#[test]
fn four_samples_for_each_unit_of_length() {
    assert_eq!(HoleFiller::quantization_levels(0), 0);
    assert_eq!(HoleFiller::quantization_levels(1), 4);
    assert_eq!(HoleFiller::quantization_levels(25), 100);
    assert_eq!(HoleFiller::quantization_levels(usize::MAX / 4), usize::MAX - 3);
    assert_eq!(HoleFiller::quantization_levels(usize::MAX / 4 + 1), 0);
    assert_eq!(HoleFiller::quantization_levels(usize::MAX), usize::MAX - 3);
}

#[test]
fn curves_bound_the_fill() {
    // A closed box of structure in the middle of a 6 x 6 hole keeps its
    // inside blank.
    let rect = BoundingRect { left: 1, top: 1, right: 7, bottom: 7 };
    let image = image_of(9, 9, |_, _| true);
    let mut ring = Vec::new();
    for k in 0..4 {
        ring.push(PointUsize::new(1 + k, 1));
        ring.push(PointUsize::new(1 + k, 4));
        ring.push(PointUsize::new(1, 1 + k));
        ring.push(PointUsize::new(4, 1 + k));
    }
    let curves = vec![CompoundPath { paths: vec![CompoundPathElement::RealPolyline(ring)] }];
    let filled = HoleFiller::fill(
        &image,
        rect,
        curves,
        vec![PointI32::new(1, 1), PointI32::new(7, 7)],
        0,
    )
    .unwrap();
    assert_eq!(
        picture(&filled),
        ["oooooo", "o####o", "o#..#o", "o#..#o", "o####o", "oooooo"]
    );
}

#[test]
fn try_fill_fills_where_fill_does() {
    let image = image_of(8, 8, |x, _| x != 1);
    let endpoints = vec![PointI32::new(2, 2), PointI32::new(6, 6)];
    let filled = HoleFiller::try_fill(&image, hole(), wall(), endpoints, 0);
    assert!(matches!(filled, Some(Ok(_))));
    assert_eq!(picture(&filled.unwrap().unwrap()), [".#oo", ".#oo", ".#oo", ".#oo"]);
}

#[test]
fn try_fill_refuses_a_hole_without_endpoints() {
    let image = image_of(8, 8, |_, _| true);
    assert!(HoleFiller::try_fill(&image, hole(), wall(), Vec::new(), 0).is_none());
}

#[test]
fn try_fill_refuses_a_narrow_or_misplaced_hole() {
    let image = image_of(8, 8, |_, _| true);
    let endpoints = vec![PointI32::new(2, 2)];
    for rect in [
        BoundingRect { left: 2, top: 2, right: 3, bottom: 6 },
        BoundingRect { left: 2, top: 2, right: 6, bottom: 3 },
        BoundingRect { left: 6, top: 2, right: 2, bottom: 6 },
        BoundingRect { left: 2, top: 2, right: 2, bottom: 2 },
        BoundingRect { left: i32::MIN, top: 2, right: i32::MIN + 4, bottom: 6 },
        BoundingRect { left: 2, top: i32::MIN, right: 6, bottom: i32::MIN + 4 },
        BoundingRect { left: i32::MAX - 4, top: 2, right: i32::MAX, bottom: 6 },
        BoundingRect { left: 2, top: i32::MAX - 4, right: 6, bottom: i32::MAX },
        BoundingRect { left: 0, top: 0, right: 65536, bottom: 32768 },
        BoundingRect { left: i32::MIN + 1, top: 0, right: i32::MAX - 1, bottom: 2 },
    ] {
        assert!(!rect.is_well_formed());
        assert!(HoleFiller::try_fill(&image, rect, Vec::new(), endpoints.clone(), 0).is_none());
    }
    assert!(BoundingRect { left: 0, top: 0, right: 2, bottom: 2 }.is_well_formed());
    assert!(BoundingRect { left: 0, top: 0, right: 65535, bottom: 32768 }.is_well_formed());
    assert!(BoundingRect {
        left: i32::MIN + 1,
        top: i32::MIN + 1,
        right: i32::MIN + 3,
        bottom: i32::MIN + 3
    }
    .is_well_formed());
}

#[test]
fn try_fill_refuses_a_vertex_outside_the_hole() {
    let image = image_of(8, 8, |_, _| true);
    let endpoints = vec![PointI32::new(2, 2)];
    for vertex in [
        PointI32::new(1, 2),
        PointI32::new(2, 1),
        PointI32::new(6, 2),
        PointI32::new(2, 6),
        PointI32::new(i32::MAX, i32::MIN),
    ] {
        let curves = vec![CompoundPath {
            paths: vec![CompoundPathElement::IntegerPolyline(vec![PointI32::new(3, 3), vertex])],
        }];
        assert!(HoleFiller::try_fill(&image, hole(), curves, endpoints.clone(), 0).is_none());
    }
    let curves = vec![
        CompoundPath { paths: Vec::new() },
        CompoundPath {
            paths: vec![
                CompoundPathElement::Spline(vec![vec![PointUsize::new(9, 9)]]),
                CompoundPathElement::RealPolyline(vec![PointUsize::new(3, 3), PointUsize::new(4, 0)]),
            ],
        },
    ];
    assert!(HoleFiller::try_fill(&image, hole(), curves, endpoints, 0).is_none());
}

#[test]
fn curves_fit_tells_whether_every_mark_lies_in_the_grid() {
    let origin = PointI32::new(10, 20);
    let inside = vec![CompoundPath {
        paths: vec![
            CompoundPathElement::IntegerPolyline(vec![PointI32::new(10, 20), PointI32::new(12, 21)]),
            CompoundPathElement::RealPolyline(vec![PointUsize::new(2, 1)]),
            CompoundPathElement::Spline(vec![vec![PointUsize::new(100, 100)], Vec::new()]),
        ],
    }];
    assert!(HoleFiller::curves_fit(&inside, origin, 3, 2));
    assert!(!HoleFiller::curves_fit(&inside, origin, 2, 2));
    assert!(!HoleFiller::curves_fit(&inside, origin, 3, 1));
    assert!(!HoleFiller::curves_fit(&inside, PointI32::new(11, 20), 3, 2));
    assert!(HoleFiller::curves_fit(&Vec::new(), origin, 0, 0));
    let empty_spline =
        vec![CompoundPath { paths: vec![CompoundPathElement::Spline(vec![Vec::new()])] }];
    assert!(HoleFiller::curves_fit(&empty_spline, origin, 0, 0));
    let sample = vec![CompoundPath {
        paths: vec![CompoundPathElement::Spline(vec![Vec::new(), vec![PointUsize::new(0, 0)]])],
    }];
    assert!(!HoleFiller::curves_fit(&sample, origin, 0, 5));
    assert!(!HoleFiller::curves_fit(&sample, origin, 5, 0));
    assert!(HoleFiller::curves_fit(&sample, origin, 1, 1));
}

#[test]
fn try_fill_refuses_an_image_that_lacks_pixels() {
    let mut image = image_of(8, 8, |_, _| true);
    image.width = 9;
    let endpoints = vec![PointI32::new(2, 2)];
    assert!(!shapecompletion::image::image_is_well_formed(&image));
    assert!(HoleFiller::try_fill(&image, hole(), Vec::new(), endpoints.clone(), 0).is_none());
    image.width = 8;
    assert!(shapecompletion::image::image_is_well_formed(&image));
    assert!(HoleFiller::try_fill(&image, hole(), Vec::new(), endpoints, 0).is_some());
    let mut huge = image_of(2, 2, |_, _| true);
    huge.width = usize::MAX;
    huge.height = usize::MAX;
    assert!(!shapecompletion::image::image_is_well_formed(&huge));
}
