//! The two interaction modes of the surrounding application.

use vstd::prelude::*;

verus! {

/// The interaction mode: free discovery, or jam mode with fading
/// history.
#[derive(Clone, Copy, PartialEq, Eq, Debug, Structural)]
pub enum Mode {
    Discovery,
    Jam,
}

impl Mode {
    pub fn name(&self) -> (r: &'static str)
        ensures
            *self == Mode::Discovery ==> r@ == "Discovery"@,
            *self == Mode::Jam ==> r@ == "Jam"@,
    {
        match self {
            Mode::Discovery => "Discovery",
            Mode::Jam => "Jam",
        }
    }
}

} // verus!
