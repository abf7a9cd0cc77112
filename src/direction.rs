use vstd::prelude::*;

use crate::error::RenderError;
use crate::text::str_equal;

verus! {

/// One of the six faces of a cuboid.
#[allow(non_camel_case_types, clippy::upper_case_acronyms)]
#[derive(Debug, Clone, Copy, PartialEq, Eq, Hash, Structural)]
pub enum Direction {
    NORTH,
    EAST,
    SOUTH,
    WEST,
    UP,
    DOWN,
}

/// One of the three spatial axes.
#[derive(Debug, Clone, Copy, PartialEq, Eq, Hash, Structural)]
pub enum Axis {
    X,
    Y,
    Z,
}

pub open spec fn axis_of(d: Direction) -> Axis {
    match d {
        Direction::NORTH | Direction::SOUTH => Axis::Z,
        Direction::EAST | Direction::WEST => Axis::X,
        Direction::UP | Direction::DOWN => Axis::Y,
    }
}

pub open spec fn normal_of(d: Direction) -> (i32, i32, i32) {
    match d {
        Direction::NORTH => (0, 0, -1i32),
        Direction::EAST => (1, 0, 0),
        Direction::SOUTH => (0, 0, 1),
        Direction::WEST => (-1i32, 0, 0),
        Direction::UP => (0, 1, 0),
        Direction::DOWN => (0, -1i32, 0),
    }
}

pub open spec fn direction_name(d: Direction) -> Seq<char> {
    match d {
        Direction::NORTH => seq!['N', 'O', 'R', 'T', 'H'],
        Direction::EAST => seq!['E', 'A', 'S', 'T'],
        Direction::SOUTH => seq!['S', 'O', 'U', 'T', 'H'],
        Direction::WEST => seq!['W', 'E', 'S', 'T'],
        Direction::UP => seq!['U', 'P'],
        Direction::DOWN => seq!['D', 'O', 'W', 'N'],
    }
}

/// The direction whose upper-case name is `s`, if any.
pub open spec fn parse_direction(s: Seq<char>) -> Option<Direction> {
    if s == direction_name(Direction::NORTH) {
        Some(Direction::NORTH)
    } else if s == direction_name(Direction::EAST) {
        Some(Direction::EAST)
    } else if s == direction_name(Direction::SOUTH) {
        Some(Direction::SOUTH)
    } else if s == direction_name(Direction::WEST) {
        Some(Direction::WEST)
    } else if s == direction_name(Direction::UP) {
        Some(Direction::UP)
    } else if s == direction_name(Direction::DOWN) {
        Some(Direction::DOWN)
    } else {
        None
    }
}

/// The axis whose upper-case letter is `s`, if any.
pub open spec fn parse_axis(s: Seq<char>) -> Option<Axis> {
    if s == seq!['X'] {
        Some(Axis::X)
    } else if s == seq!['Y'] {
        Some(Axis::Y)
    } else if s == seq!['Z'] {
        Some(Axis::Z)
    } else {
        None
    }
}

pub open spec fn unit_of(a: Axis) -> (i32, i32, i32) {
    match a {
        Axis::X => (1, 0, 0),
        Axis::Y => (0, 1, 0),
        Axis::Z => (0, 0, 1),
    }
}

/// Position of a direction in the fixed order NORTH, EAST, SOUTH, WEST, UP, DOWN.
pub open spec fn direction_index(d: Direction) -> int {
    match d {
        Direction::NORTH => 0,
        Direction::EAST => 1,
        Direction::SOUTH => 2,
        Direction::WEST => 3,
        Direction::UP => 4,
        Direction::DOWN => 5,
    }
}

impl Direction {
    pub fn axis(&self) -> (r: Axis)
        ensures
            r == axis_of(*self),
            (*self == Direction::NORTH || *self == Direction::SOUTH) ==> r == Axis::Z,
            (*self == Direction::EAST || *self == Direction::WEST) ==> r == Axis::X,
            (*self == Direction::UP || *self == Direction::DOWN) ==> r == Axis::Y,
    {
        match self {
            Direction::NORTH => Axis::Z,
            Direction::EAST => Axis::X,
            Direction::SOUTH => Axis::Z,
            Direction::WEST => Axis::X,
            Direction::UP => Axis::Y,
            Direction::DOWN => Axis::Y,
        }
    }

    /// The outward unit normal of the face.
    pub fn normal(&self) -> (r: (i32, i32, i32))
        ensures
            r == normal_of(*self),
    {
        match self {
            Direction::NORTH => (0, 0, -1),
            Direction::EAST => (1, 0, 0),
            Direction::SOUTH => (0, 0, 1),
            Direction::WEST => (-1, 0, 0),
            Direction::UP => (0, 1, 0),
            Direction::DOWN => (0, -1, 0),
        }
    }

    /// Position in the fixed order NORTH, EAST, SOUTH, WEST, UP, DOWN.
    pub fn index(&self) -> (r: usize)
        ensures
            r == direction_index(*self),
    {
        match self {
            Direction::NORTH => 0,
            Direction::EAST => 1,
            Direction::SOUTH => 2,
            Direction::WEST => 3,
            Direction::UP => 4,
            Direction::DOWN => 5,
        }
    }

    /// Parses an upper-case direction name (`NORTH`, ..., `DOWN`).
    pub fn from_str(s: &str) -> (r: Result<Direction, RenderError>)
        ensures
            match parse_direction(s@) {
                Some(d) => r == Ok::<Direction, RenderError>(d),
                None => r == Err::<Direction, RenderError>(RenderError::InvalidDirection),
            },
    {
        proof {
            reveal_strlit("NORTH");
            reveal_strlit("EAST");
            reveal_strlit("SOUTH");
            reveal_strlit("WEST");
            reveal_strlit("UP");
            reveal_strlit("DOWN");
            assert("NORTH"@ =~= direction_name(Direction::NORTH));
            assert("EAST"@ =~= direction_name(Direction::EAST));
            assert("SOUTH"@ =~= direction_name(Direction::SOUTH));
            assert("WEST"@ =~= direction_name(Direction::WEST));
            assert("UP"@ =~= direction_name(Direction::UP));
            assert("DOWN"@ =~= direction_name(Direction::DOWN));
        }
        if str_equal(s, "NORTH") {
            Ok(Direction::NORTH)
        } else if str_equal(s, "EAST") {
            Ok(Direction::EAST)
        } else if str_equal(s, "SOUTH") {
            Ok(Direction::SOUTH)
        } else if str_equal(s, "WEST") {
            Ok(Direction::WEST)
        } else if str_equal(s, "UP") {
            Ok(Direction::UP)
        } else if str_equal(s, "DOWN") {
            Ok(Direction::DOWN)
        } else {
            Err(RenderError::InvalidDirection)
        }
    }
}

impl Axis {
    /// The unit basis vector of the axis.
    pub fn normalized(&self) -> (r: (i32, i32, i32))
        ensures
            r == unit_of(*self),
    {
        match self {
            Axis::X => (1, 0, 0),
            Axis::Y => (0, 1, 0),
            Axis::Z => (0, 0, 1),
        }
    }

    /// Parses an upper-case axis letter (`X`, `Y` or `Z`).
    pub fn from_str(s: &str) -> (r: Result<Axis, RenderError>)
        ensures
            match parse_axis(s@) {
                Some(a) => r == Ok::<Axis, RenderError>(a),
                None => r == Err::<Axis, RenderError>(RenderError::InvalidAxis),
            },
    {
        proof {
            reveal_strlit("X");
            reveal_strlit("Y");
            reveal_strlit("Z");
            assert("X"@ =~= seq!['X']);
            assert("Y"@ =~= seq!['Y']);
            assert("Z"@ =~= seq!['Z']);
        }
        if str_equal(s, "X") {
            Ok(Axis::X)
        } else if str_equal(s, "Y") {
            Ok(Axis::Y)
        } else if str_equal(s, "Z") {
            Ok(Axis::Z)
        } else {
            Err(RenderError::InvalidAxis)
        }
    }
}

} // verus!
