use rust_chladni_logic::shape::{Outline, PlateShape, Acceptance, SHAPE_COUNT};

const ALL_SHAPES: [PlateShape; 5] = [
    PlateShape::Square,
    PlateShape::Circle,
    PlateShape::RectangleWide,
    PlateShape::RectangleTall,
    PlateShape::Hexagon,
];

#[test]
fn codes_follow_the_host_enumeration() {
    assert_eq!(PlateShape::Square.code(), 0);
    assert_eq!(PlateShape::Circle.code(), 1);
    assert_eq!(PlateShape::RectangleWide.code(), 2);
    assert_eq!(PlateShape::RectangleTall.code(), 3);
    assert_eq!(PlateShape::Hexagon.code(), 4);
}

#[test]
fn from_code_reads_every_code() {
    assert_eq!(PlateShape::from_code(0), Some(PlateShape::Square));
    assert_eq!(PlateShape::from_code(1), Some(PlateShape::Circle));
    assert_eq!(PlateShape::from_code(2), Some(PlateShape::RectangleWide));
    assert_eq!(PlateShape::from_code(3), Some(PlateShape::RectangleTall));
    assert_eq!(PlateShape::from_code(4), Some(PlateShape::Hexagon));
}

#[test]
fn from_code_refuses_what_names_no_shape() {
    assert_eq!(PlateShape::from_code(5), None);
    assert_eq!(PlateShape::from_code(6), None);
    assert_eq!(PlateShape::from_code(255), None);
    assert_eq!(PlateShape::from_code(u32::MAX), None);
}

#[test]
fn shape_count_is_the_first_unused_code() {
    assert_eq!(SHAPE_COUNT, 5);
    assert!(PlateShape::from_code(SHAPE_COUNT - 1).is_some());
    assert!(PlateShape::from_code(SHAPE_COUNT).is_none());
    for shape in ALL_SHAPES {
        assert!(shape.code() < SHAPE_COUNT);
    }
}

#[test]
fn code_round_trip_for_every_shape() {
    for shape in ALL_SHAPES {
        assert_eq!(PlateShape::from_code(shape.code()), Some(shape));
    }
    for code in 0..SHAPE_COUNT {
        assert_eq!(PlateShape::from_code(code).map(|s| s.code()), Some(code));
    }
}

#[test]
fn codes_are_pairwise_different() {
    for (i, a) in ALL_SHAPES.iter().enumerate() {
        for (j, b) in ALL_SHAPES.iter().enumerate() {
            assert_eq!(a.code() == b.code(), i == j);
        }
    }
}

#[test]
fn rectangular_shapes_share_the_rectangle_outline() {
    assert_eq!(PlateShape::Square.outline(), Outline::Rectangle);
    assert_eq!(PlateShape::RectangleWide.outline(), Outline::Rectangle);
    assert_eq!(PlateShape::RectangleTall.outline(), Outline::Rectangle);
}

#[test]
fn circle_and_hexagon_have_their_own_outline() {
    assert_eq!(PlateShape::Circle.outline(), Outline::Disc);
    assert_eq!(PlateShape::Hexagon.outline(), Outline::Hexagon);
}

#[test]
fn rectangular_shapes_sample_unconditionally() {
    assert_eq!(PlateShape::Square.acceptance(), Acceptance::Always);
    assert_eq!(PlateShape::RectangleWide.acceptance(), Acceptance::Always);
    assert_eq!(PlateShape::RectangleTall.acceptance(), Acceptance::Always);
}

#[test]
fn circle_samples_from_the_unit_disc_and_hexagon_from_itself() {
    assert_eq!(PlateShape::Circle.acceptance(), Acceptance::UnitDisc);
    assert_eq!(PlateShape::Hexagon.acceptance(), Acceptance::Hexagon);
}

#[test]
fn acceptance_is_unconditional_exactly_for_rectangle_outlines() {
    for shape in ALL_SHAPES {
        assert_eq!(
            shape.acceptance() == Acceptance::Always,
            shape.outline() == Outline::Rectangle
        );
    }
}

#[test]
fn unconditional_rule_admits_whatever_the_verdict() {
    assert!(Acceptance::Always.admits(true));
    assert!(Acceptance::Always.admits(false));
}

#[test]
fn testing_rules_follow_the_verdict() {
    assert!(Acceptance::UnitDisc.admits(true));
    assert!(!Acceptance::UnitDisc.admits(false));
    assert!(Acceptance::Hexagon.admits(true));
    assert!(!Acceptance::Hexagon.admits(false));
}
