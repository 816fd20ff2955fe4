//! The looks of the two kinds of button, in whole numbers.

use vstd::prelude::*;

verus! {

/// A colour: red, green and blue, each in thousandths of full strength.
#[derive(Clone, Copy, Debug, PartialEq, Eq)]
pub struct Tint {
    pub red: u16,
    pub green: u16,
    pub blue: u16,
}

/// How a button is drawn.
#[derive(Clone, Copy, Debug, PartialEq, Eq)]
pub struct ButtonStyle {
    pub background: Tint,
    pub text: Tint,
    /// The radius of the corners, in pixels.
    pub border_radius: u16,
}

/// The kinds of button: one that acts on the files, and the plain one.
#[derive(Clone, Copy, Debug, PartialEq, Eq)]
pub enum Button {
    Action,
    Default,
}

pub open spec fn black() -> Tint {
    Tint { red: 0, green: 0, blue: 0 }
}

pub open spec fn white() -> Tint {
    Tint { red: 1000, green: 1000, blue: 1000 }
}

/// The style of a button that is not pressed: orange with black text for an
/// action, dark blue with white text otherwise, the corners rounded alike.
pub open spec fn active_style(button: Button) -> ButtonStyle {
    match button {
        Button::Action => ButtonStyle {
            background: Tint { red: 984, green: 573, blue: 235 },
            text: black(),
            border_radius: 10,
        },
        Button::Default => ButtonStyle {
            background: Tint { red: 118, green: 161, blue: 231 },
            text: white(),
            border_radius: 10,
        },
    }
}

impl Button {
    /// The style of the button while it is not pressed.
    pub fn active(&self) -> (style: ButtonStyle)
        ensures
            style == active_style(*self),
    {
        match self {
            Button::Action => ButtonStyle {
                background: Tint { red: 984, green: 573, blue: 235 },
                text: Tint { red: 0, green: 0, blue: 0 },
                border_radius: 10,
            },
            Button::Default => ButtonStyle {
                background: Tint { red: 118, green: 161, blue: 231 },
                text: Tint { red: 1000, green: 1000, blue: 1000 },
                border_radius: 10,
            },
        }
    }
}

} // verus!
