//! The error taxonomy of the launcher.

use vstd::prelude::*;

verus! {

/// Everything that can abort an invocation, one variant per failing step.
#[derive(Clone, Copy, Debug, PartialEq, Eq, Structural)]
pub enum Fault {
    /// The auth response held no usable token, or the transport call failed.
    AuthenticationError,
    /// A manifest or blob endpoint answered with a non-success HTTP status.
    RegistryRequestError,
    /// The manifest body could not be decoded into the manifest shape.
    DecodeError,
    /// A downloaded blob's byte length differs from the declared layer size.
    IntegrityError,
    /// A layer stream is malformed at the gzip or tar level, or an entry
    /// path would escape the sandbox root.
    ArchiveError,
    /// A local filesystem create or copy failed.
    IOError,
    /// The child process output is not valid text.
    EncodingError,
}

impl Fault {
    /// A short description identifying the failing step.
    pub fn describe(&self) -> (r: &'static str)
        ensures
            r@ == self.describe_spec(),
    {
        match self {
            Fault::AuthenticationError => "auth failed, no token in response",
            Fault::RegistryRequestError => "registry request failed",
            Fault::DecodeError => "failed to decode manifest",
            Fault::IntegrityError => "layer size mismatch",
            Fault::ArchiveError => "malformed or unsafe layer archive",
            Fault::IOError => "filesystem operation failed",
            Fault::EncodingError => "child output is not valid text",
        }
    }

    pub open spec fn describe_spec(&self) -> Seq<char> {
        match self {
            Fault::AuthenticationError => "auth failed, no token in response"@,
            Fault::RegistryRequestError => "registry request failed"@,
            Fault::DecodeError => "failed to decode manifest"@,
            Fault::IntegrityError => "layer size mismatch"@,
            Fault::ArchiveError => "malformed or unsafe layer archive"@,
            Fault::IOError => "filesystem operation failed"@,
            Fault::EncodingError => "child output is not valid text"@,
        }
    }
}

} // verus!
