use vstd::prelude::*;

use crate::buffer::BoundsError;
use crate::glyph::DrawError;
use crate::greeter::LoginError;
use crate::kms::KmsError;

verus! {

/// The errors of this crate.
#[derive(Clone, Copy, Debug, PartialEq, Eq, Structural)]
pub enum Error {
    Buffer(BoundsError),
    Draw(DrawError),
    Kms(KmsError),
    Login(LoginError),
}

} // verus!
