//! The semantic events one simulation tick can emit.
use vstd::prelude::*;

use crate::components::DiplopodPosition;

verus! {

broadcast use vstd::string::to_string_from_display_ensures_for_str;

/// The round ended this tick: wall hit, self-collision, or poison without
/// immunity.
#[derive(Clone, Copy, PartialEq, Eq, Structural, Debug)]
pub struct GameOver;

/// The creature grows by this many segments at the recorded tail position.
#[derive(Clone, Copy, PartialEq, Eq, Structural, Debug)]
pub struct Growth(pub u8);

/// A request to the spawn scheduler: `regular` asks for one replacement food;
/// `new_segments` is the growth just awarded, counted by the special cadence.
#[derive(Clone, Copy, PartialEq, Eq, Structural, Debug)]
pub struct SpawnConsumables {
    pub regular: bool,
    pub new_segments: u8,
}

/// A text to flash at a fine-grid position: the growth amount a super food
/// awarded.  Display and fading are the render collaborator's business.
pub struct ShowMessage {
    pub text: String,
    pub position: DiplopodPosition,
}

/// Everything a tick reports back to the caller.  At most one event of each
/// kind is emitted per tick.
pub struct TickEvents {
    pub game_over: Option<GameOver>,
    pub growth: Option<Growth>,
    pub spawn: Option<SpawnConsumables>,
    pub message: Option<ShowMessage>,
}

impl TickEvents {
    /// A tick that emitted nothing.
    pub open spec fn is_empty(self) -> bool {
        &&& self.game_over is None
        &&& self.growth is None
        &&& self.spawn is None
        &&& self.message is None
    }

    /// The empty event set.
    pub fn none() -> (events: TickEvents)
        ensures
            events.is_empty(),
    {
        TickEvents { game_over: None, growth: None, spawn: None, message: None }
    }
}

/// The decimal text of a single-digit growth amount.
pub open spec fn spec_digit_text(g: int) -> Seq<char> {
    if g == 2 {
        "2"@
    } else if g == 3 {
        "3"@
    } else if g == 4 {
        "4"@
    } else if g == 5 {
        "5"@
    } else if g == 6 {
        "6"@
    } else if g == 7 {
        "7"@
    } else if g == 8 {
        "8"@
    } else {
        "9"@
    }
}

/// Renders a growth amount in `[2, 10)` as its decimal text.
pub fn digit_text(g: u8) -> (text: String)
    requires
        2 <= g < 10,
    ensures
        text@ == spec_digit_text(g as int),
{
    match g {
        2 => "2".to_string(),
        3 => "3".to_string(),
        4 => "4".to_string(),
        5 => "5".to_string(),
        6 => "6".to_string(),
        7 => "7".to_string(),
        8 => "8".to_string(),
        _ => "9".to_string(),
    }
}

} // verus!
