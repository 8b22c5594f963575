use vstd::prelude::*;

verus! {

/// The ways a decode call can fail.
#[derive(Debug, PartialEq)]
pub enum ScanError {
    /// The source of the input text failed; holds its message.
    Io(String),
    /// A token could not be read as the requested kind of value.
    De,
    /// A token was needed but none was left.
    EOF,
    /// The requested shape cannot be expressed in this format.
    NS(&'static str),
}

impl ScanError {
    /// A short description of the failure.
    pub fn message(&self) -> (r: String)
        ensures
            self is Io ==> r@ == "io: "@ + self->Io_0@,
            self is De ==> r@ == "deserialization error"@,
            self is EOF ==> r@ == "unexpected end of input"@,
            self is NS ==> r@ == "deserializing `"@ + self->NS_0@
                + "` is not supported at this time."@,
    {
        match self {
            ScanError::Io(m) => {
                let mut r = String::from_str("io: ");
                r.append(m.as_str());
                r
            },
            ScanError::De => String::from_str("deserialization error"),
            ScanError::EOF => String::from_str("unexpected end of input"),
            ScanError::NS(feature) => {
                let mut r = String::from_str("deserializing `");
                r.append(feature);
                r.append("` is not supported at this time.");
                r
            },
        }
    }
}

} // verus!
