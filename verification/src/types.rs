use vstd::prelude::*;

verus! {

/// Trade direction of a position or signal.
#[derive(Debug, Clone, Copy, PartialEq, Eq, Structural)]
pub enum Direction {
    /// A long position: profits when the price rises.
    Long,
    /// A short position: profits when the price falls.
    Short,
}

/// The integer code of a direction: `1` for long, `-1` for short.
pub open spec fn direction_code(d: Direction) -> int {
    match d {
        Direction::Long => 1,
        Direction::Short => -1,
    }
}

impl Direction {
    /// Read a direction from its integer code; any other code names none.
    pub fn from_int(value: i32) -> (result: Option<Direction>)
        ensures
            value == 1 ==> result == Some(Direction::Long),
            value == -1 ==> result == Some(Direction::Short),
            value != 1 && value != -1 ==> result.is_none(),
    {
        if value == 1 {
            Some(Direction::Long)
        } else if value == -1 {
            Some(Direction::Short)
        } else {
            None
        }
    }

    /// The integer code of this direction.
    pub fn to_i8(self) -> (code: i8)
        ensures
            code == direction_code(self),
    {
        match self {
            Direction::Long => 1,
            Direction::Short => -1,
        }
    }
}

} // verus!

verus! {

/// When a decision taken on a bar may execute.
#[derive(Debug, Clone, Copy, PartialEq, Eq, Structural)]
pub enum FillTiming {
    /// Fill on the close of the bar that decided.
    SameBarClose,
    /// Fill on the open of the bar after the one that decided.
    NextBarOpen,
    /// Fill on the open of the deciding bar (reads the bar before it ends).
    SameBarOpenLookahead,
}

/// Nanoseconds in one day.
pub const NS_PER_DAY: i64 = 86_400_000_000_000;

} // verus!
