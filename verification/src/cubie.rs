use vstd::prelude::*;

verus! {

/// One of the six piece colors. A color is fixed once a piece is placed.
#[derive(Clone, Copy, Debug, Eq, Hash, PartialEq, Structural)]
pub enum Cubie {
    White,
    Yellow,
    Red,
    Orange,
    Blue,
    Green,
}

impl Cubie {
    /// Numeric code a grid cell stores for this color; empty cells store 0.
    /// Codes follow declaration order, so the cell order `empty < White <
    /// ... < Green` matches the order on `Option<Cubie>` values.
    pub open spec fn spec_code(self) -> u8 {
        match self {
            Cubie::White => 1,
            Cubie::Yellow => 2,
            Cubie::Red => 3,
            Cubie::Orange => 4,
            Cubie::Blue => 5,
            Cubie::Green => 6,
        }
    }

    pub fn code(self) -> (r: u8)
        ensures
            r == self.spec_code(),
    {
        match self {
            Cubie::White => 1,
            Cubie::Yellow => 2,
            Cubie::Red => 3,
            Cubie::Orange => 4,
            Cubie::Blue => 5,
            Cubie::Green => 6,
        }
    }

    pub open spec fn spec_from_code(code: u8) -> Option<Cubie> {
        if code == 1 {
            Some(Cubie::White)
        } else if code == 2 {
            Some(Cubie::Yellow)
        } else if code == 3 {
            Some(Cubie::Red)
        } else if code == 4 {
            Some(Cubie::Orange)
        } else if code == 5 {
            Some(Cubie::Blue)
        } else if code == 6 {
            Some(Cubie::Green)
        } else {
            None
        }
    }

    pub fn from_code(code: u8) -> (r: Option<Cubie>)
        ensures
            r == Self::spec_from_code(code),
    {
        match code {
            1 => Some(Cubie::White),
            2 => Some(Cubie::Yellow),
            3 => Some(Cubie::Red),
            4 => Some(Cubie::Orange),
            5 => Some(Cubie::Blue),
            6 => Some(Cubie::Green),
            _ => None,
        }
    }

    /// The color a single character names, or `None` for any other character.
    pub open spec fn spec_from_char(c: char) -> Option<Cubie> {
        if c == 'R' {
            Some(Cubie::Red)
        } else if c == 'G' {
            Some(Cubie::Green)
        } else if c == 'B' {
            Some(Cubie::Blue)
        } else if c == 'Y' {
            Some(Cubie::Yellow)
        } else if c == 'W' {
            Some(Cubie::White)
        } else if c == 'O' {
            Some(Cubie::Orange)
        } else {
            None
        }
    }

    pub fn from_char(c: char) -> (r: Result<Cubie, String>)
        ensures
            Self::spec_from_char(c) matches Some(k) ==> r == Ok::<Cubie, String>(k),
            Self::spec_from_char(c) is None <==> r is Err,
    {
        match c {
            'R' => Ok(Cubie::Red),
            'G' => Ok(Cubie::Green),
            'B' => Ok(Cubie::Blue),
            'Y' => Ok(Cubie::Yellow),
            'W' => Ok(Cubie::White),
            'O' => Ok(Cubie::Orange),
            _ => Err("invalid color char".to_owned()),
        }
    }
}

} // verus!
