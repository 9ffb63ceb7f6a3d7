use etherealpost::parse::ItemLevelCurve;

/// The points, given in whole levels, in thousandths.
fn points(whole: &[(i32, i32)]) -> Vec<(i32, i32)> {
    whole.iter().map(|(x, y)| (x * 1000, y * 1000)).collect()
}

#[test]
fn calc_ilvl_looted_level_in_curve() {
    let curve_points: Vec<(i32, i32)> = points(&[(1, 6), (25, 31), (26, 32), (27, 33)]);
    let curve = ItemLevelCurve::from_points(&curve_points);
    assert_eq!(32, curve.calc_ilvl(&26));
}

#[test]
fn calc_ilvl_curve_with_zero_level() {
    let curve_points: Vec<(i32, i32)> = points(&[(0, 99)]); // Curve ID 19995
    let curve = ItemLevelCurve::from_points(&curve_points);
    assert_eq!(99, curve.calc_ilvl(&1));
    assert_eq!(99, curve.calc_ilvl(&25));
    assert_eq!(99, curve.calc_ilvl(&50));
    assert_eq!(99, curve.calc_ilvl(&60));
}

#[test]
fn calc_ilvl_curve_looted_level_gt_max_curve() {
    let curve_points: Vec<(i32, i32)> = points(&[(1, 6), (25, 31), (26, 32), (27, 33)]);
    let curve = ItemLevelCurve::from_points(&curve_points);
    assert_eq!(33, curve.calc_ilvl(&60));
}

#[test]
fn calc_ilvl_curve_looted_level_lt_one_curve() {
    let curve_points: Vec<(i32, i32)> = points(&[(1, 6), (25, 31), (26, 32), (27, 33)]);
    let curve = ItemLevelCurve::from_points(&curve_points);
    assert_eq!(12, curve.calc_ilvl(&7));
}

#[test]
fn calc_ilvl_long_curve() {
    let curve_points: Vec<(i32, i32)> = points(&[
        (1, 6),
        (25, 31),
        (26, 32),
        (27, 33),
        (28, 34),
        (31, 38),
        (32, 39),
        (39, 46),
        (40, 47),
        (42, 50),
        (43, 50),
        (44, 50),
        (45, 50),
        (46, 51),
        (49, 57),
        (50, 57),
        (51, 98),
        (59, 146),
        (60, 146),
    ]);
    let curve = ItemLevelCurve::from_points(&curve_points);
    assert_eq!(12, curve.calc_ilvl(&7));
    assert_eq!(44, curve.calc_ilvl(&37));
    assert_eq!(104, curve.calc_ilvl(&52));
    assert_eq!(146, curve.calc_ilvl(&65));
}

#[test]
fn calc_ilvl_gives_each_control_point_its_own_level() {
    let whole = [(1, 6), (25, 31), (26, 32), (27, 33), (40, 47), (60, 146)];
    let curve = ItemLevelCurve::from_points(&points(&whole));
    for (x, y) in whole {
        assert_eq!(y as u32, curve.calc_ilvl(&(x as u32)));
    }
}

#[test]
fn calc_ilvl_points_out_of_order() {
    let curve_points: Vec<(i32, i32)> = points(&[(27, 33), (1, 6), (26, 32), (25, 31)]);
    let curve = ItemLevelCurve::from_points(&curve_points);
    assert_eq!(32, curve.calc_ilvl(&26));
    assert_eq!(12, curve.calc_ilvl(&7));
    assert_eq!(33, curve.calc_ilvl(&60));
}

#[test]
fn calc_ilvl_within_the_margin_of_a_point() {
    // 25.995 and 26.009 are closer than 0.01 to 26; 26.010 is not.
    let curve = ItemLevelCurve::from_points(&[(25_995, 40_000), (30_000, 50_000)]);
    assert_eq!(40, curve.calc_ilvl(&26));
    let curve = ItemLevelCurve::from_points(&[(20_000, 10_000), (26_009, 40_000)]);
    assert_eq!(40, curve.calc_ilvl(&26));
    let curve = ItemLevelCurve::from_points(&[(20_000, 10_000), (26_010, 40_990)]);
    // 10 + 6 * 30.99 / 6.01 = 40.938...
    assert_eq!(40, curve.calc_ilvl(&26));
    let curve = ItemLevelCurve::from_points(&[(20_000, 10_000), (26_010, 70_100)]);
    // 10 + 6 * 60.1 / 6.01 = 70
    assert_eq!(70, curve.calc_ilvl(&26));
}

#[test]
fn calc_ilvl_cuts_off_after_the_point() {
    let curve = ItemLevelCurve::from_points(&points(&[(0, 0), (10, 19)]));
    // 1.9, 3.8, 17.1
    assert_eq!(1, curve.calc_ilvl(&1));
    assert_eq!(3, curve.calc_ilvl(&2));
    assert_eq!(17, curve.calc_ilvl(&9));
    let curve = ItemLevelCurve::from_points(&[(0, 7_999), (10_000, 7_999)]);
    assert_eq!(7, curve.calc_ilvl(&0));
    assert_eq!(7, curve.calc_ilvl(&5));
}

#[test]
fn calc_ilvl_under_the_first_point() {
    // The line through the first two points: 31 at 25 and 32 at 26, so 16 at 10.
    let curve = ItemLevelCurve::from_points(&points(&[(25, 31), (26, 32), (30, 100)]));
    assert_eq!(16, curve.calc_ilvl(&10));
    // It falls under 0 at a looted level of 0 where it falls by 2 a level.
    let curve = ItemLevelCurve::from_points(&points(&[(5, 9), (6, 11)]));
    assert_eq!(0, curve.calc_ilvl(&0));
    assert_eq!(1, curve.calc_ilvl(&1));
    // A single point, and two points of one player level, give no line.
    let curve = ItemLevelCurve::from_points(&points(&[(5, 9)]));
    assert_eq!(0, curve.calc_ilvl(&1));
    let curve = ItemLevelCurve::from_points(&points(&[(5, 9), (5, 11)]));
    assert_eq!(0, curve.calc_ilvl(&1));
}

#[test]
fn calc_ilvl_points_of_one_player_level_keep_their_order() {
    let curve = ItemLevelCurve::from_points(&points(&[(9, 1), (5, 20), (5, 10), (1, 3)]));
    assert_eq!(20, curve.calc_ilvl(&5));
    let curve = ItemLevelCurve::from_points(&points(&[(9, 1), (5, 10), (5, 20), (1, 3)]));
    assert_eq!(10, curve.calc_ilvl(&5));
}

#[test]
fn calc_ilvl_negative_item_level() {
    let curve = ItemLevelCurve::from_points(&points(&[(1, -5), (10, -5)]));
    assert_eq!(0, curve.calc_ilvl(&1));
    assert_eq!(0, curve.calc_ilvl(&5));
    assert_eq!(0, curve.calc_ilvl(&20));
}
