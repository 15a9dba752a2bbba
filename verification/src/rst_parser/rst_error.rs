use vstd::prelude::*;

verus! {

/// Error taxonomy of the markup transformer.
///
/// `PatternError` reports a malformed built-in pattern, a construction-time
/// condition: the scanner below is fixed, so no call constructs it, but it is
/// kept as a distinct, propagatable kind. `MissingField` reports an image
/// block whose mandatory path capture is absent.
#[derive(Debug)]
pub enum RSTError {
    /// A built-in pattern of the transformer is malformed.
    PatternError,
    /// A required capture, named by the payload, is missing from a match.
    MissingField(&'static str),
}

impl RSTError {
    /// What a diagnostic line for this error says.
    pub open spec fn describe_spec(self) -> Seq<char> {
        match self {
            RSTError::PatternError => "malformed built-in pattern"@,
            RSTError::MissingField(s) => "required element missing: `"@ + s@ + "`"@,
        }
    }

    /// Renders the error as a single diagnostic line.
    pub fn describe(&self) -> (r: String)
        ensures
            r@ == self.describe_spec(),
    {
        match self {
            RSTError::PatternError => String::from_str("malformed built-in pattern"),
            RSTError::MissingField(s) => {
                let mut r = String::from_str("required element missing: `");
                r.append(s);
                r.append("`");
                r
            },
        }
    }
}

} // verus!
