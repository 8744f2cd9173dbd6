//! The closed set of plate shapes, their integer codes, and what each shape
//! selects for containment and for sampling.

use vstd::prelude::*;

verus! {

/// Geometry of the vibrating plate.
///
/// A shape is read together with two half-extents `(ax, ay)`. For
/// `Hexagon`, `ax` is the circumradius and `ay` is unused.
#[derive(Clone, Copy, Debug, PartialEq, Eq, Structural)]
pub enum PlateShape {
    Square,
    Circle,
    RectangleWide,
    RectangleTall,
    Hexagon,
}

/// The family of boundary that contains and clamps the points of a plate.
#[derive(Clone, Copy, Debug, PartialEq, Eq, Structural)]
pub enum Outline {
    /// The axis-aligned box `|x| <= ax`, `|y| <= ay`.
    Rectangle,
    /// The disc of radius `ax`.
    Disc,
    /// The flat-topped regular hexagon of circumradius `ax`.
    Hexagon,
}

/// The acceptance rule that a candidate drawn from the bounding rectangle
/// has to pass before it becomes a particle.
///
/// For `Circle` the test is against the disc of radius one whatever `ax`
/// is, whereas clamping uses the disc of radius `ax`: the two agree only
/// for `ax == 1`. The difference is deliberate: sampling fills the unit
/// disc, and it is the first update that confines the particles to the
/// plate.
#[derive(Clone, Copy, Debug, PartialEq, Eq, Structural)]
pub enum Acceptance {
    /// Every candidate is accepted.
    Always,
    /// Accepted when `x*x + y*y <= 1`.
    UnitDisc,
    /// Accepted when inside the hexagon of circumradius `ax`.
    Hexagon,
}

impl Acceptance {
    /// Whether a candidate passes, given the verdict of the rule's test on
    /// it. `Always` has no test: the verdict is not consulted.
    pub open spec fn spec_admits(self, inside: bool) -> bool {
        self == Acceptance::Always || inside
    }

    /// Whether a candidate passes, given the verdict of the rule's test on
    /// it. `Always` has no test: the verdict is not consulted.
    #[verifier::when_used_as_spec(spec_admits)]
    pub fn admits(self, inside: bool) -> (pass: bool)
        ensures
            pass == self.spec_admits(inside),
    {
        match self {
            Acceptance::Always => true,
            Acceptance::UnitDisc => inside,
            Acceptance::Hexagon => inside,
        }
    }
}

/// The number of shapes, and the least integer that is no shape's code.
pub const SHAPE_COUNT: u32 = 5;

impl PlateShape {
    /// The integer under which a host names this shape.
    pub open spec fn spec_code(self) -> u32 {
        match self {
            PlateShape::Square => 0,
            PlateShape::Circle => 1,
            PlateShape::RectangleWide => 2,
            PlateShape::RectangleTall => 3,
            PlateShape::Hexagon => 4,
        }
    }

    /// The shape that a code names, if it names one.
    pub open spec fn spec_from_code(code: u32) -> Option<PlateShape> {
        if code == 0 {
            Some(PlateShape::Square)
        } else if code == 1 {
            Some(PlateShape::Circle)
        } else if code == 2 {
            Some(PlateShape::RectangleWide)
        } else if code == 3 {
            Some(PlateShape::RectangleTall)
        } else if code == 4 {
            Some(PlateShape::Hexagon)
        } else {
            None
        }
    }

    /// The boundary family of each shape.
    pub open spec fn spec_outline(self) -> Outline {
        match self {
            PlateShape::Square => Outline::Rectangle,
            PlateShape::RectangleWide => Outline::Rectangle,
            PlateShape::RectangleTall => Outline::Rectangle,
            PlateShape::Circle => Outline::Disc,
            PlateShape::Hexagon => Outline::Hexagon,
        }
    }

    /// The acceptance rule of each shape.
    pub open spec fn spec_acceptance(self) -> Acceptance {
        match self {
            PlateShape::Square => Acceptance::Always,
            PlateShape::RectangleWide => Acceptance::Always,
            PlateShape::RectangleTall => Acceptance::Always,
            PlateShape::Circle => Acceptance::UnitDisc,
            PlateShape::Hexagon => Acceptance::Hexagon,
        }
    }

    /// The integer code of this shape, always below `SHAPE_COUNT`.
    #[verifier::when_used_as_spec(spec_code)]
    pub fn code(self) -> (c: u32)
        ensures
            c == self.spec_code(),
            c < SHAPE_COUNT,
    {
        match self {
            PlateShape::Square => 0,
            PlateShape::Circle => 1,
            PlateShape::RectangleWide => 2,
            PlateShape::RectangleTall => 3,
            PlateShape::Hexagon => 4,
        }
    }

    /// Reads a host's integer code. Codes from `SHAPE_COUNT` on name no
    /// shape and give `None`.
    #[verifier::when_used_as_spec(spec_from_code)]
    pub fn from_code(code: u32) -> (shape: Option<PlateShape>)
        ensures
            shape == PlateShape::spec_from_code(code),
            shape is Some <==> code < SHAPE_COUNT,
            shape matches Some(s) ==> s.spec_code() == code,
    {
        match code {
            0 => Some(PlateShape::Square),
            1 => Some(PlateShape::Circle),
            2 => Some(PlateShape::RectangleWide),
            3 => Some(PlateShape::RectangleTall),
            4 => Some(PlateShape::Hexagon),
            _ => None,
        }
    }

    /// The boundary family used for containment and clamping.
    #[verifier::when_used_as_spec(spec_outline)]
    pub fn outline(self) -> (o: Outline)
        ensures
            o == self.spec_outline(),
    {
        match self {
            PlateShape::Square | PlateShape::RectangleWide | PlateShape::RectangleTall => {
                Outline::Rectangle
            },
            PlateShape::Circle => Outline::Disc,
            PlateShape::Hexagon => Outline::Hexagon,
        }
    }

    /// The acceptance rule used while sampling initial positions.
    #[verifier::when_used_as_spec(spec_acceptance)]
    pub fn acceptance(self) -> (rule: Acceptance)
        ensures
            rule == self.spec_acceptance(),
    {
        match self {
            PlateShape::Square | PlateShape::RectangleWide | PlateShape::RectangleTall => {
                Acceptance::Always
            },
            PlateShape::Circle => Acceptance::UnitDisc,
            PlateShape::Hexagon => Acceptance::Hexagon,
        }
    }
}

/// Reading the code of a shape gives the shape back.
pub proof fn lemma_code_round_trip(shape: PlateShape)
    ensures
        PlateShape::spec_from_code(shape.spec_code()) == Some(shape),
{
}

/// Two shapes with the same code are the same shape.
pub proof fn lemma_code_injective(a: PlateShape, b: PlateShape)
    requires
        a.spec_code() == b.spec_code(),
    ensures
        a == b,
{
}

/// A shape samples unconditionally exactly when its outline is a rectangle.
pub proof fn lemma_always_accepts_iff_rectangle(shape: PlateShape)
    ensures
        shape.spec_acceptance() == Acceptance::Always <==> shape.spec_outline()
            == Outline::Rectangle,
{
}

} // verus!
