use vstd::prelude::*;

verus! {

/// How a line is capped: plain, with an arrow head, or drawn as a circle.
#[derive(Clone, Copy, Debug, PartialEq, Eq, Structural)]
pub enum Style {
    Plain,
    Arrow,
    Circle,
}

/// The byte that stands for each style at the foreign boundary.
pub open spec fn style_code(s: Style) -> u8 {
    match s {
        Style::Plain => 0,
        Style::Arrow => 1,
        Style::Circle => 2,
    }
}

impl Style {
    /// The style's byte at the foreign boundary.
    pub fn code(self) -> (r: u8)
        ensures
            r == style_code(self),
    {
        match self {
            Style::Plain => 0,
            Style::Arrow => 1,
            Style::Circle => 2,
        }
    }

    /// The style that a byte stands for, if any.
    pub fn from_code(b: u8) -> (r: Option<Style>)
        ensures
            b <= 2 <==> r.is_some(),
            r matches Option::Some(s) ==> style_code(s) == b,
    {
        if b == 0 {
            Option::Some(Style::Plain)
        } else if b == 1 {
            Option::Some(Style::Arrow)
        } else if b == 2 {
            Option::Some(Style::Circle)
        } else {
            Option::None
        }
    }
}

} // verus!
