use vstd::prelude::*;

verus! {

/// The ways an input document can be rejected.  Parse errors on any document
/// abort the whole batch; matching and edit-script generation themselves
/// cannot fail.
#[derive(Debug, Clone, Copy, PartialEq, Eq, Structural)]
pub enum SvgError {
    /// The input contained no `<svg>...</svg>` substring.
    NoSvgFound,
    /// The markup inside the isolated svg section is malformed.
    XmlParse,
    /// An attribute of a typed kind (`transform`, `viewBox`, `d`, `fill`,
    /// `stroke`) failed its grammar.
    AttributeParse,
}

impl SvgError {
    /// A short human-readable description of the error.
    pub fn message(&self) -> (r: &'static str)
        ensures
            *self is NoSvgFound ==> r@ == "the input does not contain an svg"@,
            *self is XmlParse ==> r@ == "the svg markup is malformed"@,
            *self is AttributeParse ==> r@ == "an attribute value is malformed"@,
    {
        match self {
            SvgError::NoSvgFound => "the input does not contain an svg",
            SvgError::XmlParse => "the svg markup is malformed",
            SvgError::AttributeParse => "an attribute value is malformed",
        }
    }
}

} // verus!
