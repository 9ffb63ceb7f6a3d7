//! Curve points: the control points of the level curves.
//!
//! A coordinate is held in thousandths, so a player level of 25 is `25_000`.

use std::collections::HashMap;
use vstd::prelude::*;

verus! {

broadcast use vstd::std_specs::hash::group_hash_axioms;

/// One row of the curve point table.
#[derive(Debug)]
pub struct Db2CurvePoint {
    /// The id of the point.
    pub id: u32,
    /// The player level of the point, in thousandths.
    pub x: i32,
    /// The item level of the point, in thousandths.
    pub y: i32,
    /// The player level of the point as it was before levels were squished, in thousandths.
    pub x_pre_squish: i32,
    /// The item level of the point as it was before levels were squished, in thousandths.
    pub y_pre_squish: i32,
    /// The curve that the point lies on.
    pub curve_id: u32,
    /// The place of the row among rows of its kind.
    pub order_index: u16,
}

/// The curve point table, as the points of each curve.
pub struct Db2CurvePoints {
    /// The points of each curve, by curve id, in the order of the table.
    pub curve_ids: HashMap<u32, Vec<(i32, i32)>>,
}

/// The points that the rows give for one curve, in the order of the rows.
pub open spec fn points_of(rows: Seq<Db2CurvePoint>, curve_id: u32) -> Seq<(i32, i32)>
    decreases rows.len(),
{
    if rows.len() == 0 {
        Seq::empty()
    } else if rows.last().curve_id == curve_id {
        points_of(rows.drop_last(), curve_id).push((rows.last().x, rows.last().y))
    } else {
        points_of(rows.drop_last(), curve_id)
    }
}

/// Whether `curves` holds for `curve_id` the points that the rows give for it, and does not
/// hold the curve where the rows give none.
pub open spec fn holds_curve(
    curves: Map<u32, Vec<(i32, i32)>>,
    rows: Seq<Db2CurvePoint>,
    curve_id: u32,
) -> bool {
    if points_of(rows, curve_id).len() > 0 {
        curves.contains_key(curve_id) && curves[curve_id]@ == points_of(rows, curve_id)
    } else {
        !curves.contains_key(curve_id)
    }
}

impl Db2CurvePoints {
    /// Whether the table holds each curve that has a point among the rows, with its points in the
    /// order of the rows, and nothing else.
    pub open spec fn holds(&self, rows: Seq<Db2CurvePoint>) -> bool {
        forall|curve_id: u32| #[trigger] holds_curve(self.curve_ids@, rows, curve_id)
    }

    /// Gathers the points of each curve from the rows of the table.
    pub fn from_rows(rows: &[Db2CurvePoint]) -> (table: Db2CurvePoints)
        ensures
            table.holds(rows@),
    {
        let mut curve_ids: HashMap<u32, Vec<(i32, i32)>> = HashMap::new();
        let mut i: usize = 0;
        while i < rows.len()
            invariant
                i <= rows.len(),
                forall|curve_id: u32|
                    #[trigger] holds_curve(curve_ids@, rows@.take(i as int), curve_id),
            decreases rows.len() - i,
        {
            let ghost before = curve_ids@;
            let curve_id = rows[i].curve_id;
            let mut points = match curve_ids.remove(&curve_id) {
                Some(points) => points,
                None => Vec::new(),
            };
            points.push((rows[i].x, rows[i].y));
            curve_ids.insert(curve_id, points);
            proof {
                let next = rows@.take(i + 1);
                assert(next.drop_last() =~= rows@.take(i as int));
                assert(curve_ids@ == before.remove(curve_id).insert(curve_id, points));
                assert forall|other: u32| #[trigger]
                    holds_curve(curve_ids@, next, other) by {
                    assert(holds_curve(before, rows@.take(i as int), other));
                    if other == curve_id {
                        let earlier = points_of(rows@.take(i as int), curve_id);
                        if earlier.len() == 0 {
                            assert(earlier =~= Seq::<(i32, i32)>::empty());
                        }
                        assert(points@ =~= earlier.push((rows@[i as int].x, rows@[i as int].y)));
                    }
                }
            }
            i = i + 1;
        }
        proof {
            assert(rows@.take(rows.len() as int) =~= rows@);
        }
        Db2CurvePoints { curve_ids }
    }

    /// The points of a curve, if the table holds the curve.
    pub fn points(&self, curve_id: &u32) -> (points: Option<&Vec<(i32, i32)>>)
        ensures
            match points {
                Some(points) => self.curve_ids@.contains_key(*curve_id) && *points
                    == self.curve_ids@[*curve_id],
                None => !self.curve_ids@.contains_key(*curve_id),
            },
    {
        self.curve_ids.get(curve_id)
    }
}

} // verus!
