use vstd::prelude::*;

verus! {

/// The error taxonomy of a relay run. Every failure is fatal for the run:
/// the caller terminates and an outside scheduler retries the whole process.
#[derive(Clone, Copy, Debug, PartialEq, Eq, Structural)]
pub enum OracleError {
    /// Network or transport failure, or a non-success HTTP status.
    Fetch,
    /// Response shape mismatch: a missing field, or an empty sequence where
    /// an element was expected.
    Parse,
    /// An unparsable numeric string, or a value that the fixed-point range
    /// cannot represent.
    Numeric,
    /// The keystore file is missing or the passphrase is wrong.
    Keystore,
    /// The RPC connection could not be established.
    Transport,
    /// The transaction was rejected or the confirmation wait failed.
    Submission,
}

impl OracleError {
    /// A short human-readable name for logging.
    pub fn describe(&self) -> (r: &'static str)
        ensures
            self is Fetch ==> r@ == "fetch failed"@,
            self is Parse ==> r@ == "malformed response"@,
            self is Numeric ==> r@ == "bad numeric value"@,
            self is Keystore ==> r@ == "keystore failure"@,
            self is Transport ==> r@ == "rpc connection failure"@,
            self is Submission ==> r@ == "submission failure"@,
    {
        match self {
            OracleError::Fetch => "fetch failed",
            OracleError::Parse => "malformed response",
            OracleError::Numeric => "bad numeric value",
            OracleError::Keystore => "keystore failure",
            OracleError::Transport => "rpc connection failure",
            OracleError::Submission => "submission failure",
        }
    }
}

} // verus!
