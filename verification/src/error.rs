use vstd::prelude::*;

verus! {

/// A configuration input that the parameter resolver rejects. All of these
/// are reported before any document processing begins.
#[derive(Copy, Clone, Debug, PartialEq, Eq, Structural)]
pub enum ValidationError {
    /// A length argument is not decimal-number syntax.
    NotANumber,
    /// A length argument denotes a negative quantity.
    NegativeNumber,
    /// A length argument exceeds the sanity bound of 1,000,000 units.
    NumberTooBig,
    /// A color string has a length other than 1, 2, 3 or 6 hex digits.
    InvalidColor,
    /// A color string holds a character that is no hexadecimal digit.
    InvalidHexDigit,
    /// The grid spacing resolves to a zero length.
    ZeroSpacing,
    /// The stroke or dot width resolves to a zero length.
    ZeroLineWidth,
}

/// The diagnostic text of each error.
pub open spec fn message_of(e: ValidationError) -> Seq<char> {
    match e {
        ValidationError::NotANumber => "Not a valid floating point number"@,
        ValidationError::NegativeNumber => "No negative numbers allowed"@,
        ValidationError::NumberTooBig => "Number too big"@,
        ValidationError::InvalidColor => "Invalid color"@,
        ValidationError::InvalidHexDigit => "Not a valid hexadecimal number"@,
        ValidationError::ZeroSpacing => "Spacing must be positive"@,
        ValidationError::ZeroLineWidth => "Line width must be positive"@,
    }
}

impl ValidationError {
    /// Diagnostic text shown to the user.
    pub fn message(&self) -> (m: &'static str)
        ensures
            m@ == message_of(*self),
    {
        match self {
            ValidationError::NotANumber => "Not a valid floating point number",
            ValidationError::NegativeNumber => "No negative numbers allowed",
            ValidationError::NumberTooBig => "Number too big",
            ValidationError::InvalidColor => "Invalid color",
            ValidationError::InvalidHexDigit => "Not a valid hexadecimal number",
            ValidationError::ZeroSpacing => "Spacing must be positive",
            ValidationError::ZeroLineWidth => "Line width must be positive",
        }
    }
}

} // verus!
