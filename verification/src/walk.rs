//! The walk along the boundary of the hole: which arcs between endpoints are
//! filled, and from which seeds.

use crate::endpoints::{adjusted_endpoints, lemma_adjusted_on_boundary};
use crate::filler::HoleFiller;
use crate::flood_all::{flood_all, lemma_flood_all_concat};
use crate::geometry::{
    get_boundary_points_from, get_closest_point_inside, get_closest_point_outside,
    lemma_boundary_from, lemma_perimeter_bound, BoundingRect, PointI32,
};
use crate::grid::{FilledHoleMatrix, Grid};
use crate::image::{get_pixel_at_safe, image_pixel, image_well_formed};
use std::collections::HashSet;
use visioncortex::BinaryImage;
use vstd::prelude::*;

verus! {

/// What the walk reads of the boundary, for each of its points in cyclic
/// order. The first point is the endpoint that the walk starts from.
pub struct Boundary {
    /// The point is one of the endpoints.
    pub is_endpoint: Seq<bool>,
    /// The pixel just outside the point is background.
    pub is_blank: Seq<bool>,
    /// The cell just inside the point, in the coordinates of the grid.
    pub seeds: Seq<(int, int)>,
    /// The most background pixels an arc may see and still be filled; an arc
    /// must also be longer than this.
    pub threshold: int,
}

impl Boundary {
    /// Number of boundary points.
    pub open spec fn len(self) -> int {
        self.is_endpoint.len() as int
    }

    /// The first endpoint at or after position `from`; the walk's own start,
    /// counted as position `len()`, where no other comes before it.
    pub open spec fn next_endpoint(self, from: int) -> int
        decreases self.len() - from,
    {
        if from >= self.len() {
            self.len()
        } else if self.is_endpoint[from] {
            from
        } else {
            self.next_endpoint(from + 1)
        }
    }

    /// Number of positions after `start`, up to `end`, whose outside pixel is
    /// background.
    pub open spec fn blank_between(self, start: int, end: int) -> int
        decreases end - start,
    {
        if end <= start {
            0
        } else {
            self.blank_between(start, end - 1) + if self.is_blank[end % self.len()] {
                1int
            } else {
                0int
            }
        }
    }

    /// The position halfway from `from` to `to` in walking direction.
    pub open spec fn midpoint(self, from: int, to: int) -> int {
        let distance = if to >= from {
            to - from
        } else {
            self.len() - (from - to)
        };
        (from + distance / 2) % self.len()
    }

    /// The arc that leaves `start` and ends at `end` is filled: it is longer
    /// than the threshold and sees no more background pixels than the
    /// threshold.
    pub open spec fn arc_fillable(self, start: int, end: int) -> bool {
        end - start > self.threshold && self.blank_between(start, end) <= self.threshold
    }

    /// The seeds of the arc that leaves `start` and ends at `end`: the cells
    /// inside its quarter, half and three-quarter points where it is filled,
    /// none where it is not.
    pub open spec fn arc_seeds(self, start: int, end: int) -> Seq<(int, int)> {
        if self.arc_fillable(start, end) {
            let to = end % self.len();
            let half = self.midpoint(start, to);
            seq![
                self.seeds[self.midpoint(start, half)],
                self.seeds[half],
                self.seeds[self.midpoint(half, to)],
            ]
        } else {
            Seq::empty()
        }
    }

    /// The seeds of all arcs from position `start` on, in the order of the
    /// walk. An arc ends at the first endpoint after its start; the next arc
    /// leaves from the position after that endpoint. The walk is over when an
    /// arc ends at the walk's own start, or when the next arc would leave from
    /// it.
    pub open spec fn walk_seeds(self, start: int) -> Seq<(int, int)>
        decreases self.len() - start,
    {
        if start < 0 || start >= self.len() {
            Seq::empty()
        } else {
            let end = self.next_endpoint(start + 1);
            if start < end < self.len() {
                self.arc_seeds(start, end) + self.walk_seeds(end + 1)
            } else {
                self.arc_seeds(start, end)
            }
        }
    }

    /// The first endpoint at or after `from` is no earlier than `from` and no
    /// later than the end of the boundary.
    pub proof fn lemma_next_endpoint_bounds(self, from: int)
        requires
            0 <= from <= self.len(),
        ensures
            from <= self.next_endpoint(from) <= self.len(),
        decreases self.len() - from,
    {
        if from < self.len() && !self.is_endpoint[from] {
            self.lemma_next_endpoint_bounds(from + 1);
        }
    }
}

/// The point whose pixel says whether the boundary point `p` borders on
/// background: `p` itself on the right and bottom sides, else the closest
/// point outside the rectangle.
pub open spec fn outside_point(rect: BoundingRect, p: PointI32) -> PointI32 {
    if p.x == rect.right || p.y == rect.bottom {
        p
    } else {
        rect.closest_outside(p)
    }
}

/// The point at which a fill starts for the boundary point `p`: `p` itself on
/// the left and top sides, else the closest point inside the rectangle.
pub open spec fn inside_point(rect: BoundingRect, p: PointI32) -> PointI32 {
    if p.x == rect.left || p.y == rect.top {
        p
    } else {
        rect.closest_inside(p)
    }
}

/// The boundary of `rect` as the walk reads it, from the first of the
/// endpoints, which all lie on the boundary.
pub open spec fn boundary_of(
    rect: BoundingRect,
    image: BinaryImage,
    offset: PointI32,
    endpoints: Seq<PointI32>,
    threshold: int,
) -> Boundary {
    let points = rect.boundary_from(endpoints[0]);
    Boundary {
        is_endpoint: Seq::new(points.len(), |i: int| endpoints.contains(points[i])),
        is_blank: Seq::new(
            points.len(),
            |i: int|
                !image_pixel(
                    image,
                    outside_point(rect, points[i]).x as int,
                    outside_point(rect, points[i]).y as int,
                ),
        ),
        seeds: Seq::new(
            points.len(),
            |i: int|
                (
                    inside_point(rect, points[i]).x - offset.x,
                    inside_point(rect, points[i]).y - offset.y,
                ),
        ),
        threshold,
    }
}

/// The grid after the walk along the boundary of `rect`: each endpoint is
/// moved onto the boundary, and every seed of the walk is flood filled in
/// turn.
pub open spec fn filled_holes(
    grid: Grid,
    image: BinaryImage,
    rect: BoundingRect,
    offset: PointI32,
    endpoints: Seq<PointI32>,
    threshold: int,
) -> Grid {
    flood_all(
        grid,
        boundary_of(rect, image, offset, adjusted_endpoints(rect, endpoints), threshold).walk_seeds(
            0,
        ),
    )
}

/// A number that stands for a point in the set of endpoints.
pub open spec fn point_key_of(p: PointI32) -> int {
    (p.x + 0x8000_0000) * 0x1_0000_0000 + (p.y + 0x8000_0000)
}

fn point_key(p: PointI32) -> (key: u64)
    ensures
        key == point_key_of(p),
{
    let x: u64 = (p.x as i64 + 0x8000_0000) as u64;
    let y: u64 = (p.y as i64 + 0x8000_0000) as u64;
    x * 0x1_0000_0000 + y
}

/// The keys of the endpoints.
fn endpoint_keys(endpoints: &Vec<PointI32>) -> (keys: HashSet<u64>)
    ensures
        forall|p: PointI32| keys@.contains(point_key_of(p) as u64) <==> endpoints@.contains(p),
{
    let mut keys: HashSet<u64> = HashSet::new();
    let mut i: usize = 0;
    while i < endpoints.len()
        invariant
            i <= endpoints@.len(),
            forall|p: PointI32|
                keys@.contains(point_key_of(p) as u64) <==> endpoints@.take(i as int).contains(p),
        decreases endpoints@.len() - i,
    {
        keys.insert(point_key(endpoints[i]));
        proof {
            let added = endpoints@[i as int];
            let longer = endpoints@.take(i + 1);
            let shorter = endpoints@.take(i as int);
            assert(longer =~= shorter.push(added));
            assert forall|p: PointI32|
                keys@.contains(point_key_of(p) as u64) <==> longer.contains(p) by {
                if longer.contains(p) {
                    let j = choose|j: int| 0 <= j < longer.len() && longer[j] == p;
                    if j < i {
                        assert(shorter[j] == p);
                    }
                }
                if shorter.contains(p) {
                    let j = choose|j: int| 0 <= j < shorter.len() && shorter[j] == p;
                    assert(longer[j] == p);
                }
                if p == added {
                    assert(longer[i as int] == p);
                }
            }
        }
        i += 1;
    }
    assert(endpoints@.take(endpoints@.len() as int) =~= endpoints@);
    keys
}

/// What the walk knows of its surroundings: `points` is the boundary of
/// `rect` from the first endpoint, and `keys` holds the keys of the endpoints.
#[verifier::opaque]
spec fn walk_ready(
    rect: BoundingRect,
    image: BinaryImage,
    offset: PointI32,
    endpoints: Seq<PointI32>,
    points: Seq<PointI32>,
    keys: Set<u64>,
) -> bool {
    &&& image_well_formed(image)
    &&& rect.well_formed()
    &&& offset.x == rect.left
    &&& offset.y == rect.top
    &&& endpoints.len() > 0
    &&& rect.on_boundary(endpoints[0])
    &&& points == rect.boundary_from(endpoints[0])
    &&& forall|p: PointI32| keys.contains(point_key_of(p) as u64) <==> endpoints.contains(p)
}

/// What follows from `walk_ready` for the boundary that the walk reads.
proof fn lemma_walk_ready(
    rect: BoundingRect,
    image: BinaryImage,
    offset: PointI32,
    endpoints: Seq<PointI32>,
    points: Seq<PointI32>,
    keys: Set<u64>,
    threshold: int,
)
    requires
        walk_ready(rect, image, offset, endpoints, points, keys),
    ensures
        points.len() == rect.perimeter(),
        8 <= points.len() <= 0x8000_0002,
        forall|i: int| 0 <= i < points.len() ==> rect.on_boundary(#[trigger] points[i]),
        boundary_of(rect, image, offset, endpoints, threshold).len() == points.len(),
        boundary_of(rect, image, offset, endpoints, threshold).is_blank.len() == points.len(),
        boundary_of(rect, image, offset, endpoints, threshold).seeds.len() == points.len(),
        boundary_of(rect, image, offset, endpoints, threshold).is_endpoint[0],
        image_well_formed(image),
        rect.well_formed(),
        offset.x == rect.left,
        offset.y == rect.top,
        points == rect.boundary_from(endpoints[0]),
        forall|p: PointI32| keys.contains(point_key_of(p) as u64) <==> endpoints.contains(p),
{
    reveal(walk_ready);
    lemma_perimeter_bound(rect);
    lemma_boundary_from(rect, endpoints[0]);
    assert(endpoints[0] == points[0]);
}

/// The position halfway from `from` to `to` among `len` positions in a circle.
fn sample_point(Ghost(boundary): Ghost<Boundary>, from: usize, to: usize, len: usize) -> (half: usize)
    requires
        len == boundary.len(),
        from < len,
        to < len,
    ensures
        half == boundary.midpoint(from as int, to as int),
        half < len,
{
    let distance: usize = if to >= from {
        to - from
    } else {
        len - (from - to)
    };
    let step: usize = distance / 2;
    if step < len - from {
        proof {
            vstd::arithmetic::div_mod::lemma_small_mod((from + step) as nat, len as nat);
        }
        from + step
    } else {
        proof {
            vstd::arithmetic::div_mod::lemma_fundamental_div_mod_converse(
                from + step,
                len as int,
                1,
                from + step - len,
            );
        }
        step - (len - from)
    }
}

impl HoleFiller {
    /// Walks once around the boundary of `hole_rect`, from the first endpoint
    /// back to it, and flood fills `matrix` from three seeds inside each arc
    /// that is longer than the threshold and borders on no more background
    /// pixels of `image` than the threshold. `offset` is the top-left corner of
    /// `hole_rect`.
    pub fn fill_holes(
        matrix: FilledHoleMatrix,
        image: &BinaryImage,
        hole_rect: BoundingRect,
        offset: PointI32,
        endpoints: Vec<PointI32>,
        blank_boundary_pixels_threshold: usize,
    ) -> (filled: Result<FilledHoleMatrix, String>)
        requires
            matrix.wf(),
            image_well_formed(*image),
            hole_rect.well_formed(),
            offset.x == hole_rect.left,
            offset.y == hole_rect.top,
            endpoints@.len() > 0,
        ensures
            filled matches Ok(result) && result.wf() && result@ == filled_holes(
                matrix@,
                *image,
                hole_rect,
                offset,
                endpoints@,
                blank_boundary_pixels_threshold as int,
            ),
    {
        let mut matrix = matrix;
        let ghost raw_endpoints = endpoints@;
        let endpoints = Self::adjust_endpoints(&hole_rect, endpoints);
        proof {
            lemma_adjusted_on_boundary(hole_rect, raw_endpoints[0]);
        }
        let bounding_points = get_boundary_points_from(&hole_rect, endpoints[0]);
        let num_points: usize = bounding_points.len();
        let keys = endpoint_keys(&endpoints);
        let threshold: usize = blank_boundary_pixels_threshold;
        let ghost boundary = boundary_of(hole_rect, *image, offset, endpoints@, threshold as int);
        let ghost target = flood_all(matrix@, boundary.walk_seeds(0));
        proof {
            assert(walk_ready(hole_rect, *image, offset, endpoints@, bounding_points@, keys@)) by {
                reveal(walk_ready);
            }
            lemma_walk_ready(
                hole_rect,
                *image,
                offset,
                endpoints@,
                bounding_points@,
                keys@,
                threshold as int,
            );
        }
        let mut current_point: usize = 0;
        loop
            invariant_except_break
                current_point < num_points,
                flood_all(matrix@, boundary.walk_seeds(current_point as int)) == target,
            invariant
                matrix.wf(),
                walk_ready(hole_rect, *image, offset, endpoints@, bounding_points@, keys@),
                num_points == bounding_points@.len(),
                boundary == boundary_of(hole_rect, *image, offset, endpoints@, threshold as int),
                boundary.len() == num_points,
            ensures
                matrix@ == target,
            decreases num_points - current_point,
        {
            let prev_endpoint: usize = current_point;
            let ghost before = matrix@;
            let ghost end = boundary.next_endpoint(prev_endpoint + 1);
            let ghost arc = boundary.arc_seeds(prev_endpoint as int, end);
            let (reached, total_outside_pixels, blank_outside_pixels) = Self::next_arc(
                image,
                &hole_rect,
                &bounding_points,
                &keys,
                prev_endpoint,
                Ghost(offset),
                Ghost(endpoints@),
                Ghost(threshold as int),
            );
            current_point = reached;
            if total_outside_pixels > threshold && blank_outside_pixels <= threshold {
                Self::fill_arc(
                    &mut matrix,
                    &hole_rect,
                    offset,
                    &bounding_points,
                    prev_endpoint,
                    current_point,
                    Ghost(image),
                    Ghost(&keys),
                    Ghost(endpoints@),
                    Ghost(threshold as int),
                    Ghost(boundary),
                    Ghost(end),
                );
            }
            assert(flood_all(before, arc) == matrix@);
            proof {
                if end < num_points {
                    lemma_flood_all_concat(before, arc, boundary.walk_seeds(end + 1));
                }
            }
            if current_point == 0 {
                break ;
            }
            current_point = (current_point + 1) % num_points;
            proof {
                if end + 1 < num_points {
                    vstd::arithmetic::div_mod::lemma_small_mod((end + 1) as nat, num_points as nat);
                } else {
                    vstd::arithmetic::div_mod::lemma_mod_self_0(num_points as int);
                }
            }
            if current_point == 0 {
                break ;
            }
        }
        Ok(matrix)
    }

    /// Advances from `start` to the next endpoint. Returns its position, the
    /// number of points passed, it included, and how many of them border on
    /// background.
    fn next_arc(
        image: &BinaryImage,
        hole_rect: &BoundingRect,
        bounding_points: &Vec<PointI32>,
        keys: &HashSet<u64>,
        start: usize,
        Ghost(offset): Ghost<PointI32>,
        Ghost(endpoints): Ghost<Seq<PointI32>>,
        Ghost(threshold): Ghost<int>,
    ) -> (arc: (usize, usize, usize))
        requires
            walk_ready(*hole_rect, *image, offset, endpoints, bounding_points@, keys@),
            start < bounding_points@.len(),
        ensures
            ({
                let boundary = boundary_of(*hole_rect, *image, offset, endpoints, threshold);
                let end = boundary.next_endpoint(start + 1);
                &&& start < end <= boundary.len()
                &&& arc.0 == if end == boundary.len() {
                    0
                } else {
                    end
                }
                &&& arc.1 == end - start
                &&& arc.2 == boundary.blank_between(start as int, end)
            }),
    {
        let ghost boundary = boundary_of(*hole_rect, *image, offset, endpoints, threshold);
        proof {
            lemma_walk_ready(
                *hole_rect,
                *image,
                offset,
                endpoints,
                bounding_points@,
                keys@,
                threshold,
            );
        }
        let num_points: usize = bounding_points.len();
        let mut current_point: usize = start;
        let mut total_outside_pixels: usize = 0;
        let mut blank_outside_pixels: usize = 0;
        let ghost mut reached: int = start as int;
        loop
            invariant_except_break
                reached < num_points,
                current_point == reached,
                boundary.next_endpoint(start + 1) == boundary.next_endpoint(reached + 1),
            invariant
                image_well_formed(*image),
                hole_rect.well_formed(),
                bounding_points@ == hole_rect.boundary_from(endpoints[0]),
                forall|p: PointI32| keys@.contains(point_key_of(p) as u64) <==> endpoints.contains(p),
                num_points == bounding_points@.len(),
                8 <= num_points <= 0x8000_0002,
                forall|i: int|
                    0 <= i < num_points ==> hole_rect.on_boundary(#[trigger] bounding_points@[i]),
                boundary == boundary_of(*hole_rect, *image, offset, endpoints, threshold),
                boundary.len() == num_points,
                boundary.is_blank.len() == num_points,
                boundary.is_endpoint[0],
                start <= reached <= num_points,
                total_outside_pixels == reached - start,
                0 <= blank_outside_pixels <= total_outside_pixels,
                blank_outside_pixels == boundary.blank_between(start as int, reached),
            ensures
                start < reached <= num_points,
                reached == boundary.next_endpoint(start + 1),
                current_point == if reached == num_points {
                    0
                } else {
                    reached
                },
            decreases num_points - reached,
        {
            current_point = (current_point + 1) % num_points;
            total_outside_pixels += 1;
            proof {
                reached = reached + 1;
                if reached < num_points {
                    vstd::arithmetic::div_mod::lemma_small_mod(reached as nat, num_points as nat);
                } else {
                    vstd::arithmetic::div_mod::lemma_mod_self_0(num_points as int);
                }
            }
            let point = bounding_points[current_point];
            let outside_point = if point.x == hole_rect.right || point.y == hole_rect.bottom {
                point
            } else {
                get_closest_point_outside(hole_rect, point)
            };
            assert(outside_point == self::outside_point(*hole_rect, point));
            let blank: bool = !get_pixel_at_safe(image, outside_point);
            assert(blank == boundary.is_blank[current_point as int]);
            if blank {
                blank_outside_pixels += 1;
            }
            assert(blank_outside_pixels == boundary.blank_between(start as int, reached));
            if keys.contains(&point_key(point)) {
                proof {
                    assert(endpoints.contains(point));
                    assert(boundary.is_endpoint[current_point as int]);
                    assert(boundary.next_endpoint(reached) == reached);
                }
                break ;
            }
            proof {
                assert(!endpoints.contains(point));
                assert(!boundary.is_endpoint[current_point as int]);
                assert(reached < num_points);
                assert(boundary.next_endpoint(reached) == boundary.next_endpoint(reached + 1));
            }
        }
        (current_point, total_outside_pixels, blank_outside_pixels)
    }

    /// Flood fills from the cells inside the quarter, half and three-quarter
    /// points of the arc that leaves `start` and ends at `current`.
    fn fill_arc(
        matrix: &mut FilledHoleMatrix,
        hole_rect: &BoundingRect,
        offset: PointI32,
        bounding_points: &Vec<PointI32>,
        start: usize,
        current: usize,
        Ghost(image): Ghost<&BinaryImage>,
        Ghost(keys): Ghost<&HashSet<u64>>,
        Ghost(endpoints): Ghost<Seq<PointI32>>,
        Ghost(threshold): Ghost<int>,
        Ghost(boundary): Ghost<Boundary>,
        Ghost(end): Ghost<int>,
    )
        requires
            old(matrix).wf(),
            walk_ready(*hole_rect, *image, offset, endpoints, bounding_points@, keys@),
            boundary == boundary_of(*hole_rect, *image, offset, endpoints, threshold),
            start < boundary.len(),
            start < end <= boundary.len(),
            current == if end == boundary.len() {
                0
            } else {
                end
            },
            boundary.arc_fillable(start as int, end),
        ensures
            final(matrix).wf(),
            final(matrix)@ == flood_all(old(matrix)@, boundary.arc_seeds(start as int, end)),
    {
        let num_points: usize = bounding_points.len();
        let ghost before = matrix@;
        let ghost arc = boundary.arc_seeds(start as int, end);
        proof {
            lemma_walk_ready(
                *hole_rect,
                *image,
                offset,
                endpoints,
                bounding_points@,
                keys@,
                threshold,
            );
            if end < num_points {
                vstd::arithmetic::div_mod::lemma_small_mod(end as nat, num_points as nat);
            } else {
                vstd::arithmetic::div_mod::lemma_mod_self_0(num_points as int);
            }
        }
        let half: usize = sample_point(Ghost(boundary), start, current, num_points);
        let quarter: usize = sample_point(Ghost(boundary), start, half, num_points);
        let three_quarters: usize = sample_point(Ghost(boundary), half, current, num_points);
        let first = Self::seed_inside(hole_rect, offset, bounding_points[quarter]);
        let second = Self::seed_inside(hole_rect, offset, bounding_points[half]);
        let third = Self::seed_inside(hole_rect, offset, bounding_points[three_quarters]);
        proof {
            assert(boundary.seeds[quarter as int] == (first.x as int, first.y as int));
            assert(boundary.seeds[half as int] == (second.x as int, second.y as int));
            assert(boundary.seeds[three_quarters as int] == (third.x as int, third.y as int));
            assert(arc =~= seq![
                (first.x as int, first.y as int),
                (second.x as int, second.y as int),
                (third.x as int, third.y as int),
            ]);
        }
        Self::fill_hole_iterative(matrix, first);
        Self::fill_hole_iterative(matrix, second);
        Self::fill_hole_iterative(matrix, third);
        proof {
            let one = before.flooded(arc[0]);
            let two = one.flooded(arc[1]);
            assert(arc.drop_first() =~= seq![arc[1], arc[2]]);
            assert(arc.drop_first().drop_first() =~= seq![arc[2]]);
            assert(arc.drop_first().drop_first().drop_first() =~= Seq::empty());
            assert(flood_all(two.flooded(arc[2]), Seq::empty()) == matrix@);
            assert(flood_all(two, arc.drop_first().drop_first()) == matrix@);
            assert(flood_all(one, arc.drop_first()) == matrix@);
            assert(flood_all(before, arc) == matrix@);
        }
    }

    /// The seed that belongs to a boundary point: the cell just inside it, in
    /// the coordinates of the grid.
    fn seed_inside(hole_rect: &BoundingRect, offset: PointI32, point: PointI32) -> (seed: PointI32)
        requires
            hole_rect.well_formed(),
            hole_rect.on_boundary(point),
            offset.x == hole_rect.left,
            offset.y == hole_rect.top,
        ensures
            seed.x == inside_point(*hole_rect, point).x - offset.x,
            seed.y == inside_point(*hole_rect, point).y - offset.y,
    {
        proof {
            lemma_perimeter_bound(*hole_rect);
        }
        let inside_point = if point.x == hole_rect.left || point.y == hole_rect.top {
            point
        } else {
            get_closest_point_inside(hole_rect, point)
        };
        PointI32::new(inside_point.x - offset.x, inside_point.y - offset.y)
    }
}

} // verus!
