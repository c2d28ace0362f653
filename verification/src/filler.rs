//! Filling a hole whose structural curves have been recovered.

use crate::geometry::{lemma_perimeter_bound, BoundingRect, PointI32};
use crate::grid::{FilledHoleMatrix, Grid};
use crate::image::{image_is_well_formed, image_well_formed};
use crate::raster::{curve_marks, fit, CompoundPath};
use crate::walk::filled_holes;
use visioncortex::BinaryImage;
use vstd::prelude::*;

verus! {

/// Fills the inside of holes whose structural information has been recovered.
pub struct HoleFiller;

/// What is inside the hole `rect` of `image` after filling: the curves are
/// stamped onto a blank grid of the size of the hole, then the boundary is
/// walked from the first endpoint and the arcs that qualify are flood filled.
pub open spec fn filled_hole(
    image: BinaryImage,
    rect: BoundingRect,
    curves: Seq<CompoundPath>,
    endpoints: Seq<PointI32>,
    threshold: int,
) -> Grid {
    let origin = PointI32 { x: rect.left, y: rect.top };
    filled_holes(
        Grid::blank(rect.spec_width(), rect.spec_height()).rasterized(curves, origin),
        image,
        rect,
        origin,
        endpoints,
        threshold,
    )
}

/// The inputs on which a hole can be filled: the image holds one bit for each
/// pixel, the hole is a well-formed rectangle with at least one endpoint, and
/// every cell that the curves mark lies in the hole.
pub open spec fn fillable(
    image: BinaryImage,
    rect: BoundingRect,
    curves: Seq<CompoundPath>,
    endpoints: Seq<PointI32>,
) -> bool {
    &&& image_well_formed(image)
    &&& rect.well_formed()
    &&& endpoints.len() > 0
    &&& fit(
        curve_marks(
            curves,
            PointI32 { x: rect.left, y: rect.top },
            rect.spec_width(),
            rect.spec_height(),
        ),
        rect.spec_width(),
        rect.spec_height(),
    )
}

impl HoleFiller {
    /// What is inside the hole after filling. The hole is a well-formed
    /// rectangle, every vertex of a polyline lies in it, and there is at least
    /// one endpoint. With such a hole the result is always `Ok`.
    pub fn fill(
        image: &BinaryImage,
        hole_rect: BoundingRect,
        intrapolated_curves: Vec<CompoundPath>,
        endpoints: Vec<PointI32>,
        blank_boundary_pixels_threshold: usize,
    ) -> (filled: Result<FilledHoleMatrix, String>)
        requires
            image_well_formed(*image),
            hole_rect.well_formed(),
            endpoints@.len() > 0,
            Grid::blank(hole_rect.spec_width(), hole_rect.spec_height()).holds(
                curve_marks(
                    intrapolated_curves@,
                    PointI32 { x: hole_rect.left, y: hole_rect.top },
                    hole_rect.spec_width(),
                    hole_rect.spec_height(),
                ),
            ),
        ensures
            filled matches Ok(result) && result.wf() && result@ == filled_hole(
                *image,
                hole_rect,
                intrapolated_curves@,
                endpoints@,
                blank_boundary_pixels_threshold as int,
            ),
    {
        proof {
            lemma_perimeter_bound(hole_rect);
        }
        let matrix = FilledHoleMatrix::new(hole_rect.width() as usize, hole_rect.height() as usize);
        let origin = PointI32::new(hole_rect.left, hole_rect.top);
        let matrix = Self::rasterize_intrapolated_curves(matrix, intrapolated_curves, origin);
        Self::fill_holes(
            matrix,
            image,
            hole_rect,
            origin,
            endpoints,
            blank_boundary_pixels_threshold,
        )
    }

    /// Tests the inputs and fills the hole where they allow it; `None` where
    /// they do not.
    pub fn try_fill(
        image: &BinaryImage,
        hole_rect: BoundingRect,
        intrapolated_curves: Vec<CompoundPath>,
        endpoints: Vec<PointI32>,
        blank_boundary_pixels_threshold: usize,
    ) -> (filled: Option<Result<FilledHoleMatrix, String>>)
        ensures
            filled is Some <==> fillable(*image, hole_rect, intrapolated_curves@, endpoints@),
            filled is Some ==> (filled->Some_0 matches Ok(result) && result.wf() && result@
                == filled_hole(
                *image,
                hole_rect,
                intrapolated_curves@,
                endpoints@,
                blank_boundary_pixels_threshold as int,
            )),
    {
        if !image_is_well_formed(image) || !hole_rect.is_well_formed() || endpoints.len() == 0 {
            return None;
        }
        proof {
            lemma_perimeter_bound(hole_rect);
        }
        let width: usize = hole_rect.width() as usize;
        let height: usize = hole_rect.height() as usize;
        let origin = PointI32::new(hole_rect.left, hole_rect.top);
        if !Self::curves_fit(&intrapolated_curves, origin, width, height) {
            return None;
        }
        Some(
            Self::fill(
                image,
                hole_rect,
                intrapolated_curves,
                endpoints,
                blank_boundary_pixels_threshold,
            ),
        )
    }

    /// Number of samples taken along a Bezier segment whose estimated length,
    /// rounded down, is `estimated_length`: four for each unit of length. A
    /// number that does not fit in `usize` wraps around.
    pub fn quantization_levels(estimated_length: usize) -> (levels: usize)
        ensures
            levels == (estimated_length * 4) % (usize::MAX + 1),
    {
        estimated_length.wrapping_mul(4)
    }
}

} // verus!
