//! The directional selector and its geometry primitives.
//!
//! Positions carry coordinates in *half-units* of the bounding-box grid:
//! a box whose corner and extents are whole grid units has its centre at
//! whole half-units, so centres are exact and can be fed back as the next
//! current position without rounding. Distances are compared through the
//! squared Euclidean norm, which is exact in integers and orders points
//! exactly as the Euclidean distance does.

use vstd::prelude::*;

use crate::angle::{
    at_least_as_wide, check_in_cone, in_cone, lemma_in_cone_widening, lemma_mul_bound, ScopeAngle,
    VEC_COORD_MAX,
};
use crate::ui_bounding_box::UiBoundingBox;

verus! {

/// Largest magnitude allowed for a position coordinate, in half-units.
/// Every centre of a well-formed box lies within it, and differences of
/// two well-formed positions stay within [`VEC_COORD_MAX`].
pub const POS_COORD_MAX: i64 = 4_000_000;

/// A point of the plane, in half-units of the bounding-box grid.
#[derive(Clone, Copy, Debug, PartialEq, Eq, Structural)]
pub struct Position {
    pub x: i64,
    pub y: i64,
}

impl Position {
    /// A position is well formed when both coordinates stay within
    /// [`POS_COORD_MAX`].
    pub open spec fn wf(self) -> bool {
        &&& -POS_COORD_MAX <= self.x <= POS_COORD_MAX
        &&& -POS_COORD_MAX <= self.y <= POS_COORD_MAX
    }

    pub fn new(x: i64, y: i64) -> (r: Self)
        ensures
            r.x == x,
            r.y == y,
    {
        Position { x, y }
    }
}

/// The squared Euclidean distance between `(ax, ay)` and `(bx, by)`.
pub open spec fn dist2(ax: int, ay: int, bx: int, by: int) -> int {
    (bx - ax) * (bx - ax) + (by - ay) * (by - ay)
}

/// The x coordinate of the centre of `b`, in half-units: exactly
/// `b.x + b.w / 2` grid units.
pub open spec fn center_x(b: UiBoundingBox) -> int {
    2 * b.x + b.w
}

/// The y coordinate of the centre of `b`, in half-units: exactly
/// `b.y + b.h / 2` grid units.
pub open spec fn center_y(b: UiBoundingBox) -> int {
    2 * b.y + b.h
}

/// Returns the centre of a bounding box, exactly: in half-units, the
/// centre `(b.x + b.w/2, b.y + b.h/2)` is the integer point
/// `(2*b.x + b.w, 2*b.y + b.h)`, with no rounding on odd extents.
pub fn find_center_of_bounding_box(bounding_box: &UiBoundingBox) -> (r: Position)
    requires
        bounding_box.wf(),
    ensures
        r.x == center_x(*bounding_box),
        r.y == center_y(*bounding_box),
        r.wf(),
{
    Position { x: 2 * bounding_box.x + bounding_box.w, y: 2 * bounding_box.y + bounding_box.h }
}

/// Returns the squared Euclidean distance between two positions.
///
/// The squares of *both* coordinate differences enter the sum; the result
/// is a strictly monotone image of the Euclidean distance, so comparing
/// these values ranks points exactly as the true distance does.
pub fn distance_two_positions(p1: &Position, p2: &Position) -> (r: i64)
    requires
        p1.wf(),
        p2.wf(),
    ensures
        r == dist2(p1.x as int, p1.y as int, p2.x as int, p2.y as int),
        r >= 0,
{
    let dx: i64 = p2.x - p1.x;
    let dy: i64 = p2.y - p1.y;
    proof {
        lemma_mul_bound(dx as int, dx as int, VEC_COORD_MAX as int, VEC_COORD_MAX as int);
        lemma_mul_bound(dy as int, dy as int, VEC_COORD_MAX as int, VEC_COORD_MAX as int);
        assert(dx * dx >= 0) by (nonlinear_arith);
        assert(dy * dy >= 0) by (nonlinear_arith);
    }
    dx * dx + dy * dy
}

/// The ranking score of a candidate box: the squared distance from the
/// *requested* position (where the user aimed) to the box's centre.
pub open spec fn score(requested: Position, b: UiBoundingBox) -> int {
    dist2(requested.x as int, requested.y as int, center_x(b), center_y(b))
}

/// A candidate box survives the angular filter when its centre is
/// distinct from the current position (a box centred exactly on the
/// cursor has no direction and must never self-select) and the vector
/// from the current position to its centre passes the window test for
/// the direction implied by `requested`.
pub open spec fn admissible(
    current: Position,
    requested: Position,
    b: UiBoundingBox,
    scope: ScopeAngle,
) -> bool {
    let vx = center_x(b) - current.x;
    let vy = center_y(b) - current.y;
    &&& !(vx == 0 && vy == 0)
    &&& in_cone(
        requested.x - current.x,
        requested.y - current.y,
        vx,
        vy,
        scope.cos_num as int,
        scope.cos_den as int,
    )
}

/// The admissible candidates, in their input order.
pub open spec fn filtered_boxes(
    current: Position,
    requested: Position,
    boxes: Seq<UiBoundingBox>,
    scope: ScopeAngle,
) -> Seq<UiBoundingBox>
    decreases boxes.len(),
{
    if boxes.len() == 0 {
        Seq::empty()
    } else {
        let pre = filtered_boxes(current, requested, boxes.drop_last(), scope);
        if admissible(current, requested, boxes.last(), scope) {
            pre.push(boxes.last())
        } else {
            pre
        }
    }
}

/// The index of the box with the least score, ties resolved towards the
/// earlier index: a later candidate displaces the running choice only
/// when its score is strictly smaller.
pub open spec fn nearest_index(requested: Position, s: Seq<UiBoundingBox>) -> Option<int>
    decreases s.len(),
{
    if s.len() == 0 {
        None
    } else {
        let last: int = s.len() - 1;
        match nearest_index(requested, s.drop_last()) {
            None => Some(last),
            Some(j) => if score(requested, s[last]) < score(requested, s[j]) {
                Some(last)
            } else {
                Some(j)
            },
        }
    }
}

/// The selector as a mathematical function of its four inputs: no result
/// when no displacement is requested, otherwise filter, then pick the
/// nearest survivor and move to its centre.
pub open spec fn spec_maybe_new(
    current: Position,
    requested: Position,
    boxes: Seq<UiBoundingBox>,
    scope: ScopeAngle,
) -> Option<Movement> {
    if current == requested {
        None
    } else {
        let f = filtered_boxes(current, requested, boxes, scope);
        match nearest_index(requested, f) {
            None => None,
            Some(j) => Some(
                Movement {
                    current_position: current,
                    new_position: Position {
                        x: center_x(f[j]) as i64,
                        y: center_y(f[j]) as i64,
                    },
                    select_bounding_box: Some(f[j]),
                },
            ),
        }
    }
}

/// The outcome of one navigation step: where the cursor was, where it
/// lands, and the box that was selected, if any.
#[derive(Clone, Copy, Debug, PartialEq)]
pub struct Movement {
    pub current_position: Position,
    pub new_position: Position,
    pub select_bounding_box: Option<UiBoundingBox>,
}

/// A candidate together with its centre and its ranking score.
#[derive(Clone, Copy, Debug)]
pub struct NearestElementResult {
    pub p: Position,
    pub bounding_box: UiBoundingBox,
    pub distance: i64,
}

impl Movement {
    /// Runs one navigation step.
    ///
    /// The result is a function of the four arguments alone — equal to
    /// [`spec_maybe_new`] on them — so repeated calls with identical
    /// inputs yield identical results. A result is returned exactly when
    /// a displacement was requested and some candidate survives the
    /// angular filter; the two no-result causes (no direction, empty
    /// window) both yield `None`, as the callers of this selector expect
    /// a plain "nothing changed" signal.
    pub fn maybe_new(
        current_position: Position,
        new_position: Position,
        bounding_boxes: Vec<UiBoundingBox>,
        scope_angle: ScopeAngle,
    ) -> (r: Option<Movement>)
        requires
            current_position.wf(),
            new_position.wf(),
            scope_angle.wf(),
            forall|i: int|
                0 <= i < bounding_boxes@.len() ==> (#[trigger] bounding_boxes@[i]).wf(),
        ensures
            r == spec_maybe_new(current_position, new_position, bounding_boxes@, scope_angle),
            (r is Some) <==> (current_position != new_position && filtered_boxes(
                current_position,
                new_position,
                bounding_boxes@,
                scope_angle,
            ).len() > 0),
            (r is Some) <==> (current_position != new_position && exists|i: int|
                0 <= i < bounding_boxes@.len() && admissible(
                    current_position,
                    new_position,
                    #[trigger] bounding_boxes@[i],
                    scope_angle,
                )),
            bounding_boxes@.len() == 0 ==> r is None,
            current_position == new_position ==> r is None,
            r matches Some(m) ==> m.current_position == current_position
                && (m.select_bounding_box matches Some(b)
                && m.new_position.x == center_x(b) && m.new_position.y == center_y(b)
                && m.new_position.wf()),
            r matches Some(m) ==> (m.select_bounding_box matches Some(b)
                && bounding_boxes@.contains(b)
                && admissible(current_position, new_position, b, scope_angle)
                && (forall|i: int|
                    0 <= i < bounding_boxes@.len() && admissible(
                        current_position,
                        new_position,
                        #[trigger] bounding_boxes@[i],
                        scope_angle,
                    ) ==> score(new_position, b) <= score(new_position, bounding_boxes@[i]))),
    {
        let ghost boxes_view = bounding_boxes@;
        if current_position == new_position {
            return None;
        }
        let movement = Movement {
            current_position,
            new_position,
            select_bounding_box: None,
        };
        let filtered_bounding_box = movement.filter_by_angle(bounding_boxes, scope_angle);
        proof {
            lemma_filtered_nonempty(current_position, new_position, boxes_view, scope_angle);
        }
        if filtered_bounding_box.len() > 0 {
            let nearest_element_result = movement.find_nearest_ui_element(&filtered_bounding_box);
            proof {
                let f = filtered_bounding_box@;
                lemma_filtered_characterization(current_position, new_position, boxes_view, scope_angle);
                lemma_nearest_first_wins(new_position, f);
                match nearest_index(new_position, f) {
                    Some(j) => {
                        assert(f.contains(f[j]));
                        assert forall|i: int|
                            0 <= i < boxes_view.len() && admissible(
                                current_position,
                                new_position,
                                #[trigger] boxes_view[i],
                                scope_angle,
                            ) implies score(new_position, f[j]) <= score(
                            new_position,
                            boxes_view[i],
                        ) by {
                            assert(boxes_view.contains(boxes_view[i]));
                            assert(f.contains(boxes_view[i]));
                            let k = choose|k: int| 0 <= k < f.len() && f[k] == boxes_view[i];
                            assert(score(new_position, f[j]) <= score(new_position, f[k]));
                        }
                    },
                    None => {},
                }
            }
            match nearest_element_result {
                Some(nearest) => Some(
                    Movement {
                        current_position,
                        new_position: nearest.p,
                        select_bounding_box: Some(nearest.bounding_box),
                    },
                ),
                None => {
                    proof {
                        assert(false);
                    }
                    None
                },
            }
        } else {
            None
        }
    }

    /// Keeps, in input order, the candidates that pass the angular
    /// window test for the direction from `self.current_position`
    /// towards `self.new_position` (see [`admissible`]).
    pub fn filter_by_angle(
        &self,
        bounding_boxes: Vec<UiBoundingBox>,
        scope_angle: ScopeAngle,
    ) -> (r: Vec<UiBoundingBox>)
        requires
            self.current_position.wf(),
            self.new_position.wf(),
            scope_angle.wf(),
            forall|i: int|
                0 <= i < bounding_boxes@.len() ==> (#[trigger] bounding_boxes@[i]).wf(),
        ensures
            r@ == filtered_boxes(self.current_position, self.new_position, bounding_boxes@, scope_angle),
            forall|i: int| 0 <= i < r@.len() ==> (#[trigger] r@[i]).wf(),
    {
        let current = self.current_position;
        let requested = self.new_position;
        let dx: i64 = requested.x - current.x;
        let dy: i64 = requested.y - current.y;
        let n: usize = bounding_boxes.len();
        let mut out: Vec<UiBoundingBox> = Vec::new();
        let mut i: usize = 0;
        while i < n
            invariant
                n == bounding_boxes@.len(),
                i <= n,
                current == self.current_position,
                requested == self.new_position,
                current.wf(),
                requested.wf(),
                scope_angle.wf(),
                dx == requested.x - current.x,
                dy == requested.y - current.y,
                forall|k: int|
                    0 <= k < bounding_boxes@.len() ==> (#[trigger] bounding_boxes@[k]).wf(),
                out@ == filtered_boxes(
                    current,
                    requested,
                    bounding_boxes@.subrange(0, i as int),
                    scope_angle,
                ),
                forall|k: int| 0 <= k < out@.len() ==> (#[trigger] out@[k]).wf(),
            decreases n - i,
        {
            let b = bounding_boxes[i];
            let c = find_center_of_bounding_box(&b);
            let vx: i64 = c.x - current.x;
            let vy: i64 = c.y - current.y;
            let keep: bool = if vx == 0 && vy == 0 {
                false
            } else {
                check_in_cone(dx, dy, vx, vy, &scope_angle)
            };
            proof {
                let pre = bounding_boxes@.subrange(0, i as int);
                let ext = bounding_boxes@.subrange(0, i as int + 1);
                assert(ext.drop_last() =~= pre);
                assert(ext.last() == bounding_boxes@[i as int]);
                assert(keep == admissible(current, requested, b, scope_angle));
            }
            if keep {
                out.push(b);
            }
            i = i + 1;
        }
        proof {
            assert(bounding_boxes@.subrange(0, n as int) =~= bounding_boxes@);
        }
        out
    }

    /// Ranks the given candidates by their distance from
    /// `self.new_position` and returns the first-encountered minimum,
    /// together with its centre and score; `None` only on an empty list.
    pub fn find_nearest_ui_element(
        &self,
        elements: &Vec<UiBoundingBox>,
    ) -> (r: Option<NearestElementResult>)
        requires
            self.new_position.wf(),
            forall|i: int| 0 <= i < elements@.len() ==> (#[trigger] elements@[i]).wf(),
        ensures
            (r is Some) <==> elements@.len() > 0,
            r matches Some(nearest) ==> (nearest_index(self.new_position, elements@) matches Some(
                j,
            ) && 0 <= j < elements@.len()
                && nearest.bounding_box == elements@[j]
                && nearest.p.x == center_x(elements@[j])
                && nearest.p.y == center_y(elements@[j])
                && nearest.p.wf()
                && nearest.distance == score(self.new_position, elements@[j])),
    {
        let requested = self.new_position;
        let n: usize = elements.len();
        let mut best: Option<NearestElementResult> = None;
        let mut i: usize = 0;
        while i < n
            invariant
                n == elements@.len(),
                i <= n,
                requested == self.new_position,
                requested.wf(),
                forall|k: int| 0 <= k < elements@.len() ==> (#[trigger] elements@[k]).wf(),
                (best is Some) <==> nearest_index(requested, elements@.subrange(0, i as int)) is Some,
                best matches Some(bn) ==> (nearest_index(
                    requested,
                    elements@.subrange(0, i as int),
                ) matches Some(j) && 0 <= j < i
                    && bn.bounding_box == elements@[j]
                    && bn.p.x == center_x(elements@[j])
                    && bn.p.y == center_y(elements@[j])
                    && bn.p.wf()
                    && bn.distance == score(requested, elements@[j])),
            decreases n - i,
        {
            let b = elements[i];
            let c = find_center_of_bounding_box(&b);
            let d = distance_two_positions(&requested, &c);
            let replace: bool = match &best {
                None => true,
                Some(bn) => d < bn.distance,
            };
            proof {
                let pre = elements@.subrange(0, i as int);
                let ext = elements@.subrange(0, i as int + 1);
                assert(ext.drop_last() =~= pre);
                assert(ext.last() == elements@[i as int]);
            }
            if replace {
                best = Some(NearestElementResult { p: c, bounding_box: b, distance: d });
            }
            i = i + 1;
        }
        proof {
            assert(elements@.subrange(0, n as int) =~= elements@);
        }
        best
    }
}

/// The chosen index points at a least-scoring candidate, and every
/// earlier candidate scores strictly worse: among equally-scoring
/// minima, the first-encountered one is selected.
pub proof fn lemma_nearest_first_wins(requested: Position, s: Seq<UiBoundingBox>)
    ensures
        (nearest_index(requested, s) is None) <==> s.len() == 0,
        nearest_index(requested, s) matches Some(j) ==> (0 <= j < s.len()
            && (forall|i: int|
                0 <= i < s.len() ==> score(requested, s[j]) <= score(requested, #[trigger] s[i]))
            && (forall|i: int|
                0 <= i < j ==> score(requested, #[trigger] s[i]) > score(requested, s[j]))),
    decreases s.len(),
{
    if s.len() == 0 {
    } else {
        let pre = s.drop_last();
        let last: int = s.len() - 1;
        lemma_nearest_first_wins(requested, pre);
        match nearest_index(requested, pre) {
            None => {
                assert(pre.len() == 0);
            },
            Some(jp) => {
                assert(forall|i: int| 0 <= i < last ==> s[i] == #[trigger] pre[i]);
                if score(requested, s[last]) < score(requested, s[jp]) {
                    let j = last;
                    assert forall|i: int| 0 <= i < s.len() implies score(requested, s[j])
                        <= score(requested, #[trigger] s[i]) by {
                        if i < last {
                            assert(score(requested, pre[jp]) <= score(requested, pre[i]));
                        }
                    }
                    assert forall|i: int| 0 <= i < j implies score(requested, #[trigger] s[i])
                        > score(requested, s[j]) by {
                        assert(score(requested, pre[jp]) <= score(requested, pre[i]));
                    }
                } else {
                    let j = jp;
                    assert(0 <= j < last);
                    assert forall|i: int| 0 <= i < s.len() implies score(requested, s[j])
                        <= score(requested, #[trigger] s[i]) by {
                        if i < last {
                            assert(score(requested, pre[jp]) <= score(requested, pre[i]));
                        }
                    }
                    assert forall|i: int| 0 <= i < j implies score(requested, #[trigger] s[i])
                        > score(requested, s[j]) by {
                        assert(score(requested, pre[i]) > score(requested, pre[jp]));
                    }
                }
            },
        }
    }
}

/// A box is among the filtered candidates exactly when it is among the
/// input candidates and admissible.
pub proof fn lemma_filtered_characterization(
    current: Position,
    requested: Position,
    boxes: Seq<UiBoundingBox>,
    scope: ScopeAngle,
)
    ensures
        forall|b: UiBoundingBox|
            #[trigger] filtered_boxes(current, requested, boxes, scope).contains(b) <==> (
            boxes.contains(b) && admissible(current, requested, b, scope)),
    decreases boxes.len(),
{
    let f = filtered_boxes(current, requested, boxes, scope);
    if boxes.len() == 0 {
        assert(forall|b: UiBoundingBox| !(#[trigger] f.contains(b)));
        assert(forall|b: UiBoundingBox| !(#[trigger] boxes.contains(b)));
    } else {
        let pre = boxes.drop_last();
        let last = boxes.last();
        let fp = filtered_boxes(current, requested, pre, scope);
        lemma_filtered_characterization(current, requested, pre, scope);
        assert forall|b: UiBoundingBox| #[trigger] f.contains(b) implies (boxes.contains(b)
            && admissible(current, requested, b, scope)) by {
            let k = choose|k: int| 0 <= k < f.len() && f[k] == b;
            if admissible(current, requested, last, scope) {
                if k < fp.len() {
                    assert(fp[k] == b);
                    assert(fp.contains(b));
                    let m = choose|m: int| 0 <= m < pre.len() && pre[m] == b;
                    assert(boxes[m] == b);
                } else {
                    assert(b == last);
                    assert(boxes[boxes.len() - 1] == b);
                }
            } else {
                assert(fp[k] == b);
                assert(fp.contains(b));
                let m = choose|m: int| 0 <= m < pre.len() && pre[m] == b;
                assert(boxes[m] == b);
            }
        }
        assert forall|b: UiBoundingBox| boxes.contains(b) && admissible(
            current,
            requested,
            b,
            scope,
        ) implies #[trigger] f.contains(b) by {
            let m = choose|m: int| 0 <= m < boxes.len() && boxes[m] == b;
            if m < boxes.len() - 1 {
                assert(pre[m] == b);
                assert(pre.contains(b));
                assert(fp.contains(b));
                let k = choose|k: int| 0 <= k < fp.len() && fp[k] == b;
                assert(f[k] == b);
            } else {
                assert(b == last);
                assert(f[f.len() - 1] == b);
            }
        }
    }
}

/// Some candidate survives the filter exactly when some input candidate
/// is admissible.
pub proof fn lemma_filtered_nonempty(
    current: Position,
    requested: Position,
    boxes: Seq<UiBoundingBox>,
    scope: ScopeAngle,
)
    ensures
        (filtered_boxes(current, requested, boxes, scope).len() > 0) <==> (exists|i: int|
            0 <= i < boxes.len() && admissible(current, requested, #[trigger] boxes[i], scope)),
    decreases boxes.len(),
{
    if boxes.len() == 0 {
    } else {
        let pre = boxes.drop_last();
        let last = boxes.last();
        lemma_filtered_nonempty(current, requested, pre, scope);
        if admissible(current, requested, last, scope) {
            assert(boxes[boxes.len() - 1] == last);
        } else {
            if filtered_boxes(current, requested, boxes, scope).len() > 0 {
                let i = choose|i: int|
                    0 <= i < pre.len() && admissible(current, requested, #[trigger] pre[i], scope);
                assert(boxes[i] == pre[i]);
            }
            if exists|i: int|
                0 <= i < boxes.len() && admissible(current, requested, #[trigger] boxes[i], scope) {
                let i = choose|i: int|
                    0 <= i < boxes.len() && admissible(
                        current,
                        requested,
                        #[trigger] boxes[i],
                        scope,
                    );
                assert(i < boxes.len() - 1);
                assert(pre[i] == boxes[i]);
            }
        }
    }
}

/// A box admissible under a window stays admissible under any window at
/// least as wide, for the same current and requested positions.
pub proof fn lemma_admissible_widening(
    current: Position,
    requested: Position,
    b: UiBoundingBox,
    narrow: ScopeAngle,
    wide: ScopeAngle,
)
    requires
        narrow.wf(),
        wide.wf(),
        at_least_as_wide(wide, narrow),
        admissible(current, requested, b, narrow),
    ensures
        admissible(current, requested, b, wide),
{
    lemma_in_cone_widening(
        requested.x - current.x,
        requested.y - current.y,
        center_x(b) - current.x,
        center_y(b) - current.y,
        narrow,
        wide,
    );
}

/// Widening the window never removes a candidate from the filtered set.
pub proof fn lemma_filtered_widening(
    current: Position,
    requested: Position,
    boxes: Seq<UiBoundingBox>,
    narrow: ScopeAngle,
    wide: ScopeAngle,
)
    requires
        narrow.wf(),
        wide.wf(),
        at_least_as_wide(wide, narrow),
    ensures
        forall|b: UiBoundingBox|
            #[trigger] filtered_boxes(current, requested, boxes, narrow).contains(b)
                ==> filtered_boxes(current, requested, boxes, wide).contains(b),
{
    lemma_filtered_characterization(current, requested, boxes, narrow);
    lemma_filtered_characterization(current, requested, boxes, wide);
    assert forall|b: UiBoundingBox|
        #[trigger] filtered_boxes(current, requested, boxes, narrow).contains(b)
            implies filtered_boxes(current, requested, boxes, wide).contains(b) by {
        lemma_admissible_widening(current, requested, b, narrow, wide);
    }
}

/// The distance is symmetric in its two points and vanishes on a pair of
/// equal points.
pub proof fn lemma_distance_symmetric(p1: Position, p2: Position)
    ensures
        dist2(p1.x as int, p1.y as int, p2.x as int, p2.y as int) == dist2(
            p2.x as int,
            p2.y as int,
            p1.x as int,
            p1.y as int,
        ),
        dist2(p1.x as int, p1.y as int, p1.x as int, p1.y as int) == 0,
{
    let ax = p1.x as int;
    let ay = p1.y as int;
    let bx = p2.x as int;
    let by = p2.y as int;
    assert((bx - ax) * (bx - ax) == (ax - bx) * (ax - bx)) by (nonlinear_arith);
    assert((by - ay) * (by - ay) == (ay - by) * (ay - by)) by (nonlinear_arith);
}

} // verus!
