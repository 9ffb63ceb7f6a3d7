//! Level curves: from the level of the player for whom an item dropped to the level of the item.
//!
//! Coordinates are held in thousandths of a level, so a player level of 25 is `25_000`.

use crate::utils::sorting::{ascending_points, lemma_same_values, points_at, sort_points};
use crate::wow::data_tables::Db2CurvePoints;
use std::collections::HashMap;
use vstd::prelude::*;
use vstd::slice::slice_to_vec;

verus! {

broadcast use vstd::std_specs::hash::group_hash_axioms;

/// The number of thousandths in one level.
pub const LEVEL_SCALE: i32 = 1000;

/// A player level closer than this to a control point, in thousandths, counts as that point.
pub const ERROR_MARGIN: i32 = 10;

/// A level curve: control points of player level and item level, ascending by player level.
pub struct ItemLevelCurve {
    points: Vec<(i32, i32)>,
}

/// The level curve of each curve id.
pub type ItemLevelCurvePoints = HashMap<u32, ItemLevelCurve>;

/// Whether the player level `looted`, in thousandths, is closer than the margin to `level`.
pub open spec fn within_margin(level: i32, looted: int) -> bool {
    -ERROR_MARGIN < looted - level < ERROR_MARGIN
}

/// The whole levels in an item level given in thousandths: 0 for a negative one.
pub open spec fn whole_level(item_level: i32) -> u32 {
    if item_level <= 0 {
        0
    } else {
        (item_level / LEVEL_SCALE) as u32
    }
}

/// The whole levels of the item level at the player level `looted`, in thousandths, on the
/// straight line through `from` and `to`: `y0 + (x - x0) * (y1 - y0) / (x1 - x0)`, cut off after
/// the point, 0 where it is negative and for a line without a slope, and no more than a `u32`
/// holds.
pub open spec fn interpolated_level(from: (i32, i32), to: (i32, i32), looted: int) -> u32 {
    let run = to.0 - from.0;
    let scaled = from.1 * run + (looted - from.0) * (to.1 - from.1);
    if run <= 0 || scaled <= 0 {
        0
    } else if scaled / (LEVEL_SCALE * run) > u32::MAX {
        u32::MAX
    } else {
        (scaled / (LEVEL_SCALE * run)) as u32
    }
}

/// The index, counted from `from`, of the first control point that decides the level at
/// `looted`: one within the margin of it, or one over it. The number of points where there is
/// none.
pub open spec fn deciding_point(points: Seq<(i32, i32)>, looted: int, from: int) -> int
    decreases points.len() - from,
{
    if 0 <= from < points.len() && !within_margin(points[from].0, looted) && points[from].0
        <= looted {
        deciding_point(points, looted, from + 1)
    } else {
        from
    }
}

/// The item level that a curve with these control points gives at a looted level.
///
/// At a control point, within the margin, it is the level of that point. Between two points it
/// lies on the line through them, and under the first point on the line through the first two.
/// Over the last point it is the level of the last point.
pub open spec fn calc_ilvl_spec(points: Seq<(i32, i32)>, looted_level: u32) -> u32 {
    let looted = looted_level * LEVEL_SCALE;
    let at = deciding_point(points, looted, 0);
    if at >= points.len() {
        whole_level(points.last().1)
    } else if within_margin(points[at].0, looted) {
        whole_level(points[at].1)
    } else if at > 0 {
        interpolated_level(points[at - 1], points[at], looted)
    } else if points.len() >= 2 {
        interpolated_level(points[0], points[1], looted)
    } else {
        0
    }
}

/// Where `deciding_point` stops: no point before it is within the margin or over the looted
/// level, and the point at it, if there is one, is one of the two.
pub proof fn lemma_deciding_point(points: Seq<(i32, i32)>, looted: int, from: int)
    requires
        0 <= from <= points.len(),
    ensures
        from <= deciding_point(points, looted, from) <= points.len(),
        forall|i: int|
            from <= i < deciding_point(points, looted, from) ==> !within_margin(
                (#[trigger] points[i]).0,
                looted,
            ) && points[i].0 <= looted,
        deciding_point(points, looted, from) < points.len() ==> within_margin(
            points[deciding_point(points, looted, from)].0,
            looted,
        ) || points[deciding_point(points, looted, from)].0 > looted,
    decreases points.len() - from,
{
    if from < points.len() && !within_margin(points[from].0, looted) && points[from].0 <= looted {
        lemma_deciding_point(points, looted, from + 1);
    }
}

/// At a control point the curve gives the level of that point: for the first point within the
/// margin of a looted level, the level at that looted level is the point's own.
pub proof fn lemma_calc_ilvl_at_control_point(points: Seq<(i32, i32)>, looted_level: u32, at: int)
    requires
        ascending_points(points),
        0 <= at < points.len(),
        within_margin(points[at].0, looted_level * LEVEL_SCALE),
        forall|i: int|
            0 <= i < at ==> !within_margin((#[trigger] points[i]).0, looted_level * LEVEL_SCALE),
    ensures
        calc_ilvl_spec(points, looted_level) == whole_level(points[at].1),
{
    let looted = looted_level * LEVEL_SCALE;
    lemma_deciding_point(points, looted, 0);
    let found = deciding_point(points, looted, 0);
    if found < at {
        assert(points[found].0 <= points[at].0);
    }
    if found > at {
        assert(!within_margin(points[at].0, looted));
    }
}

/// Over the last control point the curve gives the level of the last point: for a looted level
/// over all points, and not within the margin of any point but the last, the level is the last
/// point's own.
pub proof fn lemma_calc_ilvl_beyond_last_point(points: Seq<(i32, i32)>, looted_level: u32)
    requires
        points.len() > 0,
        forall|i: int|
            0 <= i < points.len() ==> (#[trigger] points[i]).0 < looted_level * LEVEL_SCALE,
        forall|i: int|
            0 <= i < points.len() - 1 ==> !within_margin(
                (#[trigger] points[i]).0,
                looted_level * LEVEL_SCALE,
            ),
    ensures
        calc_ilvl_spec(points, looted_level) == whole_level(points.last().1),
{
    let looted = looted_level * LEVEL_SCALE;
    lemma_deciding_point(points, looted, 0);
    let found = deciding_point(points, looted, 0);
    if found < points.len() {
        assert(points[found].0 < looted);
        assert(found == points.len() - 1);
    }
}

/// Between two control points the level lies between the levels of the two points.
pub proof fn lemma_interpolated_between(from: (i32, i32), to: (i32, i32), looted: int)
    requires
        from.0 <= looted <= to.0,
        from.0 < to.0,
    ensures
        from.1 <= to.1 ==> whole_level(from.1) <= interpolated_level(from, to, looted)
            <= whole_level(to.1),
        to.1 <= from.1 ==> whole_level(to.1) <= interpolated_level(from, to, looted)
            <= whole_level(from.1),
{
    let run = to.0 - from.0;
    let reach = looted - from.0;
    let rise = to.1 - from.1;
    let scaled = from.1 * run + reach * rise;
    let lower: int = if from.1 <= to.1 {
        from.1 as int
    } else {
        to.1 as int
    };
    let upper: int = if from.1 <= to.1 {
        to.1 as int
    } else {
        from.1 as int
    };
    assert(lower * run <= scaled <= upper * run) by (nonlinear_arith)
        requires
            scaled == from.1 * run + reach * rise,
            rise == to.1 - from.1,
            0 <= reach <= run,
            lower == if from.1 <= to.1 {
                from.1 as int
            } else {
                to.1 as int
            },
            upper == if from.1 <= to.1 {
                to.1 as int
            } else {
                from.1 as int
            },
    ;
    let whole = scaled / (LEVEL_SCALE * run);
    assert(LEVEL_SCALE * run == 1000 * run);
    if scaled <= 0 {
        assert(lower <= 0) by (nonlinear_arith)
            requires
                lower * run <= scaled,
                scaled <= 0,
                run > 0,
        ;
    } else {
        assert(upper > 0) by (nonlinear_arith)
            requires
                0 < scaled <= upper * run,
                run > 0,
        ;
        assert(whole <= upper / 1000) by (nonlinear_arith)
            requires
                whole == scaled / (1000 * run),
                0 < scaled <= upper * run,
                run > 0,
        ;
        if lower > 0 {
            assert(lower / 1000 <= whole) by (nonlinear_arith)
                requires
                    whole == scaled / (1000 * run),
                    lower * run <= scaled,
                    lower > 0,
                    run > 0,
            ;
        }
    }
}

/// Decides `within_margin`.
fn is_within_margin(level: i32, looted: i64) -> (within: bool)
    requires
        0 <= looted <= u32::MAX * LEVEL_SCALE,
    ensures
        within == within_margin(level, looted as int),
{
    let distance: i64 = looted - level as i64;
    -(ERROR_MARGIN as i64) < distance && distance < ERROR_MARGIN as i64
}

/// Computes `whole_level`.
fn whole_level_of(item_level: i32) -> (level: u32)
    ensures
        level == whole_level(item_level),
{
    if item_level <= 0 {
        0
    } else {
        (item_level / LEVEL_SCALE) as u32
    }
}

/// Computes `interpolated_level`.
fn interpolate(from: (i32, i32), to: (i32, i32), looted: i64) -> (level: u32)
    requires
        0 <= looted <= u32::MAX * LEVEL_SCALE,
    ensures
        level == interpolated_level(from, to, looted as int),
{
    let run: i128 = to.0 as i128 - from.0 as i128;
    if run <= 0 {
        return 0;
    }
    let rise: i128 = to.1 as i128 - from.1 as i128;
    let reach: i128 = looted as i128 - from.0 as i128;
    assert(-0x1_0000_0000_0000_0000_0000 <= from.1 * run <= 0x1_0000_0000_0000_0000_0000)
        by (nonlinear_arith)
        requires
            -0x8000_0000 <= from.1 <= 0x8000_0000,
            0 < run <= 0x1_0000_0000,
    ;
    assert(-0x1_0000_0000_0000_0000_0000_0000 <= reach * rise <= 0x1_0000_0000_0000_0000_0000_0000)
        by (nonlinear_arith)
        requires
            -0x1_0000_0000_0000 <= reach <= 0x1_0000_0000_0000,
            -0x1_0000_0000 <= rise <= 0x1_0000_0000,
    ;
    let scaled: i128 = from.1 as i128 * run + reach * rise;
    if scaled <= 0 {
        return 0;
    }
    let whole: i128 = scaled / (LEVEL_SCALE as i128 * run);
    if whole > u32::MAX as i128 {
        u32::MAX
    } else {
        whole as u32
    }
}

impl ItemLevelCurve {
    /// The control points, ascending by player level.
    pub closed spec fn points(&self) -> Seq<(i32, i32)> {
        self.points@
    }

    #[verifier::type_invariant]
    spec fn ascends(&self) -> bool {
        ascending_points(self.points@)
    }

    /// Whether the curve is made of `points`: it holds the same points, ascending by player
    /// level, and those of one player level in the order in which `points` gives them.
    pub open spec fn made_of(&self, points: Seq<(i32, i32)>) -> bool {
        &&& ascending_points(self.points())
        &&& self.points().to_multiset() == points.to_multiset()
        &&& forall|level: i32| #[trigger]
            points_at(self.points(), level) == points_at(points, level)
    }

    /// A curve through the points, which need not be in order.
    pub fn from_points(points: &[(i32, i32)]) -> (curve: ItemLevelCurve)
        ensures
            curve.made_of(points@),
            curve.points().len() == points.len(),
    {
        let mut sorted = slice_to_vec(points);
        sort_points(sorted.as_mut_slice());
        proof {
            lemma_same_values(sorted@, points@);
        }
        ItemLevelCurve { points: sorted }
    }

    /// The curves of all curve ids of the table, each through the points that the table holds
    /// for it.
    pub fn for_whole_table(table: &Db2CurvePoints) -> (curves: HashMap<u32, ItemLevelCurve>)
        ensures
            curves@.dom() == table.curve_ids@.dom(),
            forall|curve_id: u32|
                table.curve_ids@.contains_key(curve_id) ==> (#[trigger] curves@[curve_id]).made_of(
                    table.curve_ids@[curve_id]@,
                ),
    {
        let mut curves: HashMap<u32, ItemLevelCurve> = HashMap::new();
        for (curve_id, points) in iter: table.curve_ids.iter()
            invariant
                forall|curve_id: u32| #[trigger]
                    curves@.contains_key(curve_id) ==> table.curve_ids@.contains_key(curve_id)
                        && curves@[curve_id].made_of(table.curve_ids@[curve_id]@),
                forall|i: int|
                    0 <= i < iter.index() ==> curves@.contains_key(*(#[trigger] iter.seq()[i]).0),
        {
            let curve = ItemLevelCurve::from_points(points.as_slice());
            curves.insert(*curve_id, curve);
        }
        assert(curves@.dom() =~= table.curve_ids@.dom());
        curves
    }

    /// The curve of a curve id, through the points that the table holds for it.
    pub fn from_table(curve_id: &u32, table: &Db2CurvePoints) -> (curve: Option<ItemLevelCurve>)
        ensures
            curve is Some <==> table.curve_ids@.contains_key(*curve_id),
            curve matches Some(curve) ==> curve.made_of(table.curve_ids@[*curve_id]@),
    {
        match table.points(curve_id) {
            Some(points) => Some(ItemLevelCurve::from_points(points.as_slice())),
            None => None,
        }
    }

    /// Whether the curve has a control point.
    pub fn has_points(&self) -> (has: bool)
        ensures
            has == (self.points().len() > 0),
    {
        self.points.len() > 0
    }

    /// The item level at the level of the player for whom the item dropped.
    pub fn calc_ilvl(&self, looted_level: &u32) -> (level: u32)
        requires
            self.points().len() > 0,
        ensures
            level == calc_ilvl_spec(self.points(), *looted_level),
    {
        proof {
            use_type_invariant(self);
        }
        let whole: i64 = *looted_level as i64;
        let scale: i64 = LEVEL_SCALE as i64;
        assert(0 <= whole * scale <= u32::MAX * LEVEL_SCALE) by (nonlinear_arith)
            requires
                0 <= whole <= u32::MAX,
                scale == LEVEL_SCALE,
                scale == 1000,
        ;
        let looted: i64 = whole * scale;
        let mut at: usize = 0;
        while at < self.points.len() && !is_within_margin(self.points[at].0, looted)
            && self.points[at].0 as i64 <= looted
            invariant
                at <= self.points.len(),
                0 <= looted <= u32::MAX * LEVEL_SCALE,
                looted == *looted_level * LEVEL_SCALE,
                deciding_point(self.points@, looted as int, 0) == deciding_point(
                    self.points@,
                    looted as int,
                    at as int,
                ),
            decreases self.points.len() - at,
        {
            at = at + 1;
        }
        if at >= self.points.len() {
            whole_level_of(self.points[self.points.len() - 1].1)
        } else if is_within_margin(self.points[at].0, looted) {
            whole_level_of(self.points[at].1)
        } else if at > 0 {
            interpolate(self.points[at - 1], self.points[at], looted)
        } else if self.points.len() >= 2 {
            interpolate(self.points[0], self.points[1], looted)
        } else {
            0
        }
    }
}

} // verus!
