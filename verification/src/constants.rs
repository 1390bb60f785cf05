//! Values that the threads of the application exchange.

use vstd::prelude::*;

verus! {

/// The sources a pipeline can draw its frames from.
#[derive(Clone, Copy, Debug, PartialEq, Eq, Structural)]
pub enum SourceType {
    Camera,
    Display,
}

impl SourceType {
    /// The name of the source, for messages.
    pub fn get_name(&self) -> (name: &'static str)
        ensures
            name@ == match self {
                SourceType::Camera => "CameraSource"@,
                SourceType::Display => "DisplaySource"@,
            },
    {
        match self {
            SourceType::Camera => "CameraSource",
            SourceType::Display => "DisplaySource",
        }
    }
}

} // verus!
