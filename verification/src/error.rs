//! The error taxonomy of the link lifecycle and the invocation redirector.

use vstd::prelude::*;

verus! {

/// Everything that can go wrong while managing links or redirecting an
/// invocation.
#[derive(Clone, Copy, Debug, PartialEq, Eq, Structural)]
pub enum LinkError {
    /// A link with this name already exists; `create` refuses to overwrite it.
    AlreadyLinked,
    /// No link with this name exists; `delete` has nothing to remove.
    NotLinked,
    /// A host path is not reachable from the subsystem (or the other way
    /// around), so it cannot be translated.
    UnmappablePath,
    /// The subsystem process could not be started at all.
    SubsystemUnavailable,
    /// A generic filesystem failure during create or delete.
    IoFailure,
}

impl LinkError {
    /// A short, stable description, suitable for a name-scoped diagnostic
    /// such as `<name>: already linked`.
    pub fn describe(&self) -> (r: String)
        ensures
            r@ == self.describe_spec(),
    {
        match self {
            LinkError::AlreadyLinked => String::from_str("already linked"),
            LinkError::NotLinked => String::from_str("not linked"),
            LinkError::UnmappablePath => String::from_str("path not reachable from the subsystem"),
            LinkError::SubsystemUnavailable => String::from_str("subsystem unavailable"),
            LinkError::IoFailure => String::from_str("filesystem operation failed"),
        }
    }

    /// What [`LinkError::describe`] returns for each variant.
    pub open spec fn describe_spec(&self) -> Seq<char> {
        match self {
            LinkError::AlreadyLinked => "already linked"@,
            LinkError::NotLinked => "not linked"@,
            LinkError::UnmappablePath => "path not reachable from the subsystem"@,
            LinkError::SubsystemUnavailable => "subsystem unavailable"@,
            LinkError::IoFailure => "filesystem operation failed"@,
        }
    }
}

} // verus!
