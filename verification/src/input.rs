//! The per-frame input intent: boolean flags for the six movement axes, the
//! four look axes and the warp triggers. Whatever polls the keyboard fills
//! these flags in; the camera controller only reads them.

use vstd::prelude::*;

verus! {

#[derive(Clone, Copy, PartialEq, Eq, Structural, Debug)]
pub struct InputState {
    pub move_forward: bool,
    pub move_back: bool,
    pub move_left: bool,
    pub move_right: bool,
    pub move_up: bool,
    pub move_down: bool,
    pub look_left: bool,
    pub look_right: bool,
    pub look_up: bool,
    pub look_down: bool,
    pub warp_1: bool,
    pub warp_2: bool,
    pub warp_3: bool,
    pub warp_animated: bool,
}

impl InputState {
    /// The idle intent: no movement, no look, no warp.
    pub fn new() -> (r: InputState)
        ensures
            r == (InputState {
                move_forward: false,
                move_back: false,
                move_left: false,
                move_right: false,
                move_up: false,
                move_down: false,
                look_left: false,
                look_right: false,
                look_up: false,
                look_down: false,
                warp_1: false,
                warp_2: false,
                warp_3: false,
                warp_animated: false,
            }),
    {
        InputState {
            move_forward: false,
            move_back: false,
            move_left: false,
            move_right: false,
            move_up: false,
            move_down: false,
            look_left: false,
            look_right: false,
            look_up: false,
            look_down: false,
            warp_1: false,
            warp_2: false,
            warp_3: false,
            warp_animated: false,
        }
    }
}

} // verus!
