//! The kinds of drawing primitive a frame accepts.
use vstd::prelude::*;

verus! {

/// Which tessellator a primitive goes through.
#[derive(Debug, Clone, Copy, PartialEq, Eq, Structural)]
pub enum PrimitiveType {
    Rectangle,
    Text,
    Circle,
    Triangle,
    Line,
}

} // verus!
