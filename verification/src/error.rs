//! The failures that rendering reports.

use vstd::prelude::*;

verus! {

/// Why a canvas could not be prepared or a scene could not be drawn.
#[derive(Debug, Clone, Copy, PartialEq, Eq, Structural)]
pub enum CustomError {
    /// A component's footprint leaves the canvas.
    OutOfCanvas,
    /// No canvas configuration was supplied.
    NoConfigProvided,
    /// The scene holds no component.
    ThereIsNoComponent,
    /// A text component is present but no font was configured.
    NoFontProvided,
}

impl CustomError {
    /// The text of the message that describes this failure.
    pub open spec fn text(self) -> Seq<char> {
        match self {
            CustomError::OutOfCanvas => "ERROR: Out of canvas"@,
            CustomError::NoConfigProvided => "ERROR: No config provided"@,
            CustomError::ThereIsNoComponent => "ERROR: There is no component"@,
            CustomError::NoFontProvided => "ERROR: No font provided"@,
        }
    }

    /// Formats the failure as a human-readable message.
    pub fn message(&self) -> (s: String)
        ensures
            s@ == self.text(),
    {
        match self {
            CustomError::OutOfCanvas => "ERROR: Out of canvas".to_owned(),
            CustomError::NoConfigProvided => "ERROR: No config provided".to_owned(),
            CustomError::ThereIsNoComponent => "ERROR: There is no component".to_owned(),
            CustomError::NoFontProvided => "ERROR: No font provided".to_owned(),
        }
    }
}

} // verus!
