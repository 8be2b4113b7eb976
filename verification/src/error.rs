use vstd::prelude::*;

verus! {

/// The failure kinds of this layer.  A batched call is atomic: the first
/// failure observed in any group fails the whole call and no partial
/// results are returned.
#[derive(Clone, Copy, Debug, PartialEq, Eq, Structural)]
pub enum EmbedError {
    /// A required endpoint or credential is absent.
    ConfigurationMissing,
    /// An empty required input, or mismatched lengths.
    InvalidInput,
    /// A connection or send failure.
    TransportFailure,
    /// An unparseable or unsupported payload, such as an encoding this
    /// layer does not support.
    ResponseShapeMismatch,
    /// The remote call succeeded but returned zero usable vectors.
    EmptyResult,
}

impl EmbedError {
    /// A short description of the failure, for surfacing to callers.
    pub fn describe(&self) -> (r: String)
        ensures
            r@.len() > 0,
    {
        let r = match self {
            EmbedError::ConfigurationMissing => String::from_str(
                "required endpoint or credential is absent",
            ),
            EmbedError::InvalidInput => String::from_str("empty input or mismatched lengths"),
            EmbedError::TransportFailure => String::from_str("failed to reach the remote server"),
            EmbedError::ResponseShapeMismatch => String::from_str(
                "unsupported or unparseable response payload",
            ),
            EmbedError::EmptyResult => String::from_str("the remote call returned no vectors"),
        };
        proof {
            reveal_strlit("required endpoint or credential is absent");
            reveal_strlit("empty input or mismatched lengths");
            reveal_strlit("failed to reach the remote server");
            reveal_strlit("unsupported or unparseable response payload");
            reveal_strlit("the remote call returned no vectors");
        }
        r
    }
}

} // verus!
