use vstd::prelude::*;

verus! {

/// Why a bitmap could not be read or described.
#[derive(Clone, Copy, Debug, PartialEq, Eq, Structural)]
pub enum BmpError {
    /// The bytes end before the structure being read does.
    Truncated,
    /// The first two bytes are not `B`, `M`.
    BadSignature,
    /// The stored geometry gives no row padding: zero height, or a row
    /// stride shorter than three bytes per pixel.
    InvalidGeometry,
}

impl BmpError {
    /// The text that describes this error.
    pub open spec fn describe(self) -> Seq<char> {
        match self {
            BmpError::Truncated => "unexpected end of data"@,
            BmpError::BadSignature => "not a bitmap"@,
            BmpError::InvalidGeometry => "invalid image geometry"@,
        }
    }

    /// A short human-readable description.
    pub fn message(&self) -> (r: String)
        ensures
            r@ == self.describe(),
    {
        match self {
            BmpError::Truncated => "unexpected end of data".to_owned(),
            BmpError::BadSignature => "not a bitmap".to_owned(),
            BmpError::InvalidGeometry => "invalid image geometry".to_owned(),
        }
    }
}

} // verus!
