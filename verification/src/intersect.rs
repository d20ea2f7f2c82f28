//! Output intersection: which outputs a global capture rectangle touches,
//! and where that rectangle lies in each output's local coordinates.

use vstd::prelude::*;
use vstd::string::StringSliceAdditionalSpecFns;

use crate::StreamError;
use crate::geometry::{CaptureRegion, parse_geometry_spec};

verus! {

/// One display output: a human-readable name and its rectangle in global
/// coordinates, as enumerated once per capture session.
pub struct OutputInfo {
    pub name: String,
    pub dimensions: CaptureRegion,
}

/// The part of the capture target that falls on one output, re-expressed
/// in that output's local coordinates. `output_index` points into the
/// session's output list.
#[derive(Clone, Copy, PartialEq, Eq, Structural, Debug)]
pub struct IntersectingOutput {
    pub output_index: usize,
    pub region: CaptureRegion,
}

/// Whether the axis-aligned intersection of `o` and `t` has positive
/// width and height.
pub open spec fn overlaps(o: CaptureRegion, t: CaptureRegion) -> bool {
    let x1 = vstd::math::max(o.x_coordinate as int, t.x_coordinate as int);
    let y1 = vstd::math::max(o.y_coordinate as int, t.y_coordinate as int);
    let x2 = vstd::math::min(
        o.x_coordinate + o.width as int,
        t.x_coordinate + t.width as int,
    );
    let y2 = vstd::math::min(
        o.y_coordinate + o.height as int,
        t.y_coordinate + t.height as int,
    );
    x2 - x1 > 0 && y2 - y1 > 0
}

/// The target rectangle translated into the output's local space: its
/// origin moves to `target - output`, its size stays the full target
/// size. The local region may extend beyond the output's own bounds;
/// the capture collaborator clamps it.
pub open spec fn local_region(t: CaptureRegion, o: CaptureRegion) -> CaptureRegion {
    CaptureRegion {
        x_coordinate: (t.x_coordinate - o.x_coordinate) as i32,
        y_coordinate: (t.y_coordinate - o.y_coordinate) as i32,
        width: t.width,
        height: t.height,
    }
}

/// The intersecting outputs for a target, in enumeration order.
pub open spec fn intersections_spec(outs: Seq<OutputInfo>, t: CaptureRegion) -> Seq<
    IntersectingOutput,
>
    decreases outs.len(),
{
    if outs.len() == 0 {
        Seq::empty()
    } else {
        let prefix = intersections_spec(outs.drop_last(), t);
        if overlaps(outs.last().dimensions, t) {
            prefix.push(
                IntersectingOutput {
                    output_index: (outs.len() - 1) as usize,
                    region: local_region(t, outs.last().dimensions),
                },
            )
        } else {
            prefix
        }
    }
}

/// Law: a target that overlaps no output has no intersections.
pub proof fn lemma_no_overlap_no_intersections(outs: Seq<OutputInfo>, t: CaptureRegion)
    requires
        forall|i: int| 0 <= i < outs.len() ==> !overlaps(#[trigger] outs[i].dimensions, t),
    ensures
        intersections_spec(outs, t).len() == 0,
    decreases outs.len(),
{
    if outs.len() > 0 {
        assert(outs.last() == outs[outs.len() - 1]);
        assert(forall|i: int| 0 <= i < outs.len() - 1 ==> outs.drop_last()[i] == outs[i]);
        lemma_no_overlap_no_intersections(outs.drop_last(), t);
    }
}

/// Law: every output whose rectangle overlaps the target is reported,
/// with the target translated into that output's local space.
pub proof fn lemma_intersections_complete(outs: Seq<OutputInfo>, t: CaptureRegion, j: int)
    requires
        0 <= j < outs.len(),
        overlaps(outs[j].dimensions, t),
    ensures
        exists|k: int|
            0 <= k < intersections_spec(outs, t).len()
                && #[trigger] intersections_spec(outs, t)[k] == (IntersectingOutput {
                output_index: j as usize,
                region: local_region(t, outs[j].dimensions),
            }),
    decreases outs.len(),
{
    let result = intersections_spec(outs, t);
    let prefix = intersections_spec(outs.drop_last(), t);
    let entry = IntersectingOutput { output_index: j as usize, region: local_region(t, outs[j].dimensions) };
    if j == outs.len() - 1 {
        assert(outs.last() == outs[j]);
        assert(result[result.len() - 1] == entry);
    } else {
        assert(outs.drop_last()[j] == outs[j]);
        lemma_intersections_complete(outs.drop_last(), t, j);
        let k = choose|k: int|
            0 <= k < prefix.len() && #[trigger] prefix[k] == (IntersectingOutput {
                output_index: j as usize,
                region: local_region(t, outs.drop_last()[j].dimensions),
            });
        assert(result[k] == entry);
    }
}

/// Compute the intersecting outputs for a global target rectangle.
///
/// An output is included exactly when its rectangle and the target share
/// an area of positive width and height; the reported local region is the
/// whole target translated by the output's origin, never clipped.
pub fn intersecting_outputs(outputs: &Vec<OutputInfo>, target: &CaptureRegion) -> (r: Vec<
    IntersectingOutput,
>)
    ensures
        r@ == intersections_spec(outputs@, *target),
{
    let mut r: Vec<IntersectingOutput> = Vec::new();
    let n = outputs.len();
    let tx = target.x_coordinate as i64;
    let ty = target.y_coordinate as i64;
    let tw = target.width as i64;
    let th = target.height as i64;
    let mut i: usize = 0;
    while i < n
        invariant
            0 <= i <= n,
            n == outputs@.len(),
            tx == target.x_coordinate as int,
            ty == target.y_coordinate as int,
            tw == target.width as int,
            th == target.height as int,
            r@ == intersections_spec(outputs@.take(i as int), *target),
        decreases n - i,
    {
        let o = outputs[i].dimensions;
        let ox = o.x_coordinate as i64;
        let oy = o.y_coordinate as i64;
        let x1 = if ox >= tx {
            ox
        } else {
            tx
        };
        let y1 = if oy >= ty {
            oy
        } else {
            ty
        };
        let oxw = ox + o.width as i64;
        let txw = tx + tw;
        let x2 = if oxw <= txw {
            oxw
        } else {
            txw
        };
        let oyh = oy + o.height as i64;
        let tyh = ty + th;
        let y2 = if oyh <= tyh {
            oyh
        } else {
            tyh
        };
        if x2 - x1 > 0 && y2 - y1 > 0 {
            proof {
                assert(overlaps(o, *target));
                assert(ox <= x1 < x2 <= ox + o.width as int);
                assert(tx <= x1 < x2 <= tx + tw);
                assert(oy <= y1 < y2 <= oy + o.height as int);
                assert(ty <= y1 < y2 <= ty + th);
            }
            let lx = tx - ox;
            let ly = ty - oy;
            proof {
                assert(i32::MIN <= lx <= i32::MAX);
                assert(i32::MIN <= ly <= i32::MAX);
            }
            let entry = IntersectingOutput {
                output_index: i,
                region: CaptureRegion {
                    x_coordinate: lx as i32,
                    y_coordinate: ly as i32,
                    width: target.width,
                    height: target.height,
                },
            };
            r.push(entry);
        } else {
            proof {
                assert(!overlaps(o, *target));
            }
        }
        proof {
            assert(outputs@.take(i + 1).drop_last() =~= outputs@.take(i as int));
            assert(outputs@.take(i + 1).last() == outputs@[i as int]);
        }
        i = i + 1;
    }
    proof {
        assert(outputs@.take(n as int) =~= outputs@);
    }
    r
}

/// Resolve the session's capture plan, failing fast when the target
/// rectangle misses every output: no frame could ever be produced then.
pub fn plan_capture(outputs: &Vec<OutputInfo>, target: &CaptureRegion) -> (r: Result<
    Vec<IntersectingOutput>,
    StreamError,
>)
    ensures
        match r {
            Ok(v) => v@ == intersections_spec(outputs@, *target) && v@.len() > 0,
            Err(e) => e == StreamError::NoIntersectingOutputs && intersections_spec(
                outputs@,
                *target,
            ).len() == 0,
        },
{
    let v = intersecting_outputs(outputs, target);
    if v.len() == 0 {
        Err(StreamError::NoIntersectingOutputs)
    } else {
        Ok(v)
    }
}

// ---------------------------------------------------------------------------
// Bounding box of all outputs
// ---------------------------------------------------------------------------

/// Leftmost edge over all outputs, the origin included.
pub open spec fn bbox_left(outs: Seq<OutputInfo>) -> int
    decreases outs.len(),
{
    if outs.len() == 0 {
        0
    } else {
        let p = bbox_left(outs.drop_last());
        let v = outs.last().dimensions.x_coordinate as int;
        if v < p {
            v
        } else {
            p
        }
    }
}

pub open spec fn bbox_top(outs: Seq<OutputInfo>) -> int
    decreases outs.len(),
{
    if outs.len() == 0 {
        0
    } else {
        let p = bbox_top(outs.drop_last());
        let v = outs.last().dimensions.y_coordinate as int;
        if v < p {
            v
        } else {
            p
        }
    }
}

/// Rightmost edge over all outputs, the origin included.
pub open spec fn bbox_right(outs: Seq<OutputInfo>) -> int
    decreases outs.len(),
{
    if outs.len() == 0 {
        0
    } else {
        let p = bbox_right(outs.drop_last());
        let v = outs.last().dimensions.x_coordinate + outs.last().dimensions.width as int;
        if v > p {
            v
        } else {
            p
        }
    }
}

pub open spec fn bbox_bottom(outs: Seq<OutputInfo>) -> int
    decreases outs.len(),
{
    if outs.len() == 0 {
        0
    } else {
        let p = bbox_bottom(outs.drop_last());
        let v = outs.last().dimensions.y_coordinate + outs.last().dimensions.height as int;
        if v > p {
            v
        } else {
            p
        }
    }
}

/// Law: the bounding box always reaches out from the global origin.
pub proof fn lemma_bbox_contains_origin(outs: Seq<OutputInfo>)
    ensures
        bbox_left(outs) <= 0,
        bbox_top(outs) <= 0,
        bbox_right(outs) >= 0,
        bbox_bottom(outs) >= 0,
    decreases outs.len(),
{
    if outs.len() > 0 {
        lemma_bbox_contains_origin(outs.drop_last());
    }
}

/// The union bounding box of all outputs, anchored so that it always
/// contains the global origin, as the whole-desktop capture target.
pub fn bounding_box(outputs: &Vec<OutputInfo>) -> (r: CaptureRegion)
    requires
        bbox_right(outputs@) - bbox_left(outputs@) <= i32::MAX,
        bbox_bottom(outputs@) - bbox_top(outputs@) <= i32::MAX,
    ensures
        r.x_coordinate == bbox_left(outputs@),
        r.y_coordinate == bbox_top(outputs@),
        r.x_coordinate + r.width == bbox_right(outputs@),
        r.y_coordinate + r.height == bbox_bottom(outputs@),
        r.width >= 0,
        r.height >= 0,
{
    let n = outputs.len();
    let mut left: i64 = 0;
    let mut top: i64 = 0;
    let mut right: i64 = 0;
    let mut bottom: i64 = 0;
    let mut i: usize = 0;
    while i < n
        invariant
            0 <= i <= n,
            n == outputs@.len(),
            left == bbox_left(outputs@.take(i as int)),
            top == bbox_top(outputs@.take(i as int)),
            right == bbox_right(outputs@.take(i as int)),
            bottom == bbox_bottom(outputs@.take(i as int)),
            i32::MIN <= left <= 0,
            i32::MIN <= top <= 0,
            0 <= right <= 2 * (i32::MAX as int),
            0 <= bottom <= 2 * (i32::MAX as int),
        decreases n - i,
    {
        let o = outputs[i].dimensions;
        let ox = o.x_coordinate as i64;
        let oy = o.y_coordinate as i64;
        if ox < left {
            left = ox;
        }
        if oy < top {
            top = oy;
        }
        let oxw = ox + o.width as i64;
        let oyh = oy + o.height as i64;
        if oxw > right {
            right = oxw;
        }
        if oyh > bottom {
            bottom = oyh;
        }
        proof {
            assert(outputs@.take(i + 1).drop_last() =~= outputs@.take(i as int));
            assert(outputs@.take(i + 1).last() == outputs@[i as int]);
        }
        i = i + 1;
    }
    proof {
        assert(outputs@.take(n as int) =~= outputs@);
    }
    CaptureRegion {
        x_coordinate: left as i32,
        y_coordinate: top as i32,
        width: (right - left) as i32,
        height: (bottom - top) as i32,
    }
}

/// Establish the capture target: parse the supplied region string when
/// there is one, otherwise take the bounding box of all outputs.
pub fn resolve_capture_target(geometry: Option<&str>, outputs: &Vec<OutputInfo>) -> (r: Result<
    CaptureRegion,
    StreamError,
>)
    requires
        geometry is None ==> bbox_right(outputs@) - bbox_left(outputs@) <= i32::MAX
            && bbox_bottom(outputs@) - bbox_top(outputs@) <= i32::MAX,
    ensures
        match geometry {
            Some(g) => match parse_geometry_spec(g.spec_bytes()) {
                Some(reg) => r == Ok::<CaptureRegion, StreamError>(reg),
                None => r == Err::<CaptureRegion, StreamError>(StreamError::InvalidGeometry),
            },
            None => match r {
                Ok(reg) => reg.x_coordinate == bbox_left(outputs@) && reg.y_coordinate == bbox_top(
                    outputs@,
                ) && reg.x_coordinate + reg.width == bbox_right(outputs@) && reg.y_coordinate
                    + reg.height == bbox_bottom(outputs@),
                Err(_) => false,
            },
        },
{
    match geometry {
        Some(g) => match crate::geometry::parse_geometry(g) {
            Some(reg) => Ok(reg),
            None => Err(StreamError::InvalidGeometry),
        },
        None => Ok(bounding_box(outputs)),
    }
}

} // verus!
