//! The screens.

use vstd::prelude::*;

verus! {

/// Where the backend lives unless the player says otherwise.
pub const DEFAULT_BACKEND: &'static str = "http://127.0.0.1:8080";

#[derive(Debug, Clone, Copy, PartialEq, Eq, Hash, Structural)]
pub enum Screen {
    /// Nothing on screen yet; the identity file is being read.
    Boot,
    Nick,
    Menu,
    Queue,
    Playing,
    Result,
}

impl Default for Screen {
    fn default() -> (s: Screen)
        ensures
            s == Screen::Boot,
    {
        Screen::Boot
    }
}

} // verus!
