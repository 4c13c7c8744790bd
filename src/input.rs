//! Button states as the games see them, and how they move from frame to frame.
use vstd::prelude::*;

verus! {

/// The state of one button in the current frame.
#[derive(Clone, Copy, Debug, PartialEq, Eq, Structural)]
pub enum ButtonState {
    /// Went down this frame.
    PRESSED,
    /// Went up this frame.
    RELEASED,
    /// Held down since an earlier frame.
    DOWN,
    /// Up since an earlier frame.
    UP,
}

impl Default for ButtonState {
    fn default() -> (r: Self)
        ensures
            r == ButtonState::UP,
    {
        ButtonState::UP
    }
}

impl ButtonState {
    /// Already down or pressed this frame.
    pub fn down(&self) -> (r: bool)
        ensures
            r <==> (*self == ButtonState::PRESSED || *self == ButtonState::DOWN),
    {
        match self {
            ButtonState::PRESSED | ButtonState::DOWN => true,
            _ => false,
        }
    }

    /// Already up or released this frame.
    pub fn up(&self) -> (r: bool)
        ensures
            r <==> (*self == ButtonState::UP || *self == ButtonState::RELEASED),
    {
        match self {
            ButtonState::UP | ButtonState::RELEASED => true,
            _ => false,
        }
    }

    /// Pressed this frame.
    pub fn pressed(&self) -> (r: bool)
        ensures
            r <==> *self == ButtonState::PRESSED,
    {
        match self {
            ButtonState::PRESSED => true,
            _ => false,
        }
    }

    /// Released this frame.
    pub fn released(&self) -> (r: bool)
        ensures
            r <==> *self == ButtonState::RELEASED,
    {
        match self {
            ButtonState::RELEASED => true,
            _ => false,
        }
    }

    /// Starts a new frame: a press becomes a hold and a release becomes up.
    pub fn advance(&mut self)
        ensures
            *final(self) == match *old(self) {
                ButtonState::PRESSED => ButtonState::DOWN,
                ButtonState::RELEASED => ButtonState::UP,
                s => s,
            },
    {
        match self {
            ButtonState::PRESSED => *self = ButtonState::DOWN,
            ButtonState::RELEASED => *self = ButtonState::UP,
            _ => {},
        }
    }

    /// Takes in the button's level for this frame: a button that is up and
    /// now active is pressed, one that is down and now inactive is released;
    /// otherwise the state stays.
    pub fn set_button_state(&mut self, active: bool)
        ensures
            *final(self) == if active {
                match *old(self) {
                    ButtonState::RELEASED | ButtonState::UP => ButtonState::PRESSED,
                    s => s,
                }
            } else {
                match *old(self) {
                    ButtonState::DOWN | ButtonState::PRESSED => ButtonState::RELEASED,
                    s => s,
                }
            },
    {
        if active {
            match self {
                ButtonState::RELEASED | ButtonState::UP => *self = ButtonState::PRESSED,
                _ => {},
            }
        } else {
            match self {
                ButtonState::DOWN | ButtonState::PRESSED => *self = ButtonState::RELEASED,
                _ => {},
            }
        }
    }
}

/// The state of a button after a frame has started.
pub open spec fn advanced(s: ButtonState) -> ButtonState {
    match s {
        ButtonState::PRESSED => ButtonState::DOWN,
        ButtonState::RELEASED => ButtonState::UP,
        s => s,
    }
}

/// The six buttons of the console.
#[derive(Clone, Copy, Debug, PartialEq, Eq, Structural)]
pub struct FrugInputs {
    pub a: ButtonState,
    pub b: ButtonState,
    pub left: ButtonState,
    pub right: ButtonState,
    pub up: ButtonState,
    pub down: ButtonState,
}

impl Default for FrugInputs {
    fn default() -> (r: Self)
        ensures
            r.a == ButtonState::UP,
            r.b == ButtonState::UP,
            r.left == ButtonState::UP,
            r.right == ButtonState::UP,
            r.up == ButtonState::UP,
            r.down == ButtonState::UP,
    {
        FrugInputs {
            a: ButtonState::UP,
            b: ButtonState::UP,
            left: ButtonState::UP,
            right: ButtonState::UP,
            up: ButtonState::UP,
            down: ButtonState::UP,
        }
    }
}

impl FrugInputs {
    /// Starts a new frame for all six buttons.
    pub fn advance(&mut self)
        ensures
            final(self).a == advanced(old(self).a),
            final(self).b == advanced(old(self).b),
            final(self).left == advanced(old(self).left),
            final(self).right == advanced(old(self).right),
            final(self).up == advanced(old(self).up),
            final(self).down == advanced(old(self).down),
    {
        self.a.advance();
        self.b.advance();
        self.left.advance();
        self.right.advance();
        self.up.advance();
        self.down.advance();
    }
}

} // verus!
