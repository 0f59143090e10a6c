//! Error types for the rendering layers built on top of the queue.

use vstd::prelude::*;
use vstd::string::StringExecFns;

verus! {

/// An error within the GPU-backed rasteriser and its interactions with
/// OpenGL.
pub enum SkiaError {
    /// The named OpenGL target is invalid.
    InvalidTarget(String),
    /// The OpenGL context is invalid.
    InvalidContext,
}

impl SkiaError {
    /// The human-readable description of the error.
    pub fn message(&self) -> (r: String)
        ensures
            match self {
                SkiaError::InvalidTarget(target) => r@ == "the OpenGL target `"@ + target@
                    + "` is invalid"@,
                SkiaError::InvalidContext => r@ == "invalid OpenGL context"@,
            },
    {
        match self {
            SkiaError::InvalidTarget(target) => {
                let mut s = String::new();
                s.append("the OpenGL target `");
                s.append(target.as_str());
                s.append("` is invalid");
                s
            },
            SkiaError::InvalidContext => {
                let mut s = String::new();
                s.append("invalid OpenGL context");
                s
            },
        }
    }
}

} // verus!
