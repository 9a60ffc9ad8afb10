use vstd::prelude::*;

verus! {

/// Error code the X server reports when a request was denied because another
/// client already holds a conflicting grab or event selection.
pub const BAD_ACCESS: u8 = 10;

/// A protocol-level error reported by the server in response to one checked
/// request: the error class, the major opcode of the failed request, and the
/// resource (window) the request named.
#[derive(Clone, Copy, Debug, PartialEq, Eq, Structural)]
pub struct ProtocolError {
    pub error_code: u8,
    pub major_code: u8,
    pub resource_id: u32,
}

impl ProtocolError {
    /// An access-denied class error: the signal that a competing window
    /// manager already holds substructure-redirect on the root window.
    pub open spec fn spec_is_access_denied(self) -> bool {
        self.error_code == BAD_ACCESS
    }

    pub fn is_access_denied(&self) -> (r: bool)
        ensures
            r == self.spec_is_access_denied(),
    {
        self.error_code == BAD_ACCESS
    }
}

/// The manager's error taxonomy. `AnotherManagerActive` is startup-fatal:
/// a competing manager holds the root window. `InvariantViolation` marks a
/// dispatch bug (an operation that would corrupt the client registry), kept
/// distinct from server-reported `Protocol` failures.
#[derive(Clone, Copy, Debug, PartialEq, Eq, Structural)]
pub enum WMError {
    AnotherManagerActive,
    InvariantViolation,
    Protocol(ProtocolError),
}

impl From<ProtocolError> for WMError {
    fn from(e: ProtocolError) -> (r: WMError) {
        WMError::Protocol(e)
    }
}

impl vstd::std_specs::convert::FromSpecImpl<ProtocolError> for WMError {
    open spec fn obeys_from_spec() -> bool {
        true
    }

    open spec fn from_spec(e: ProtocolError) -> WMError {
        WMError::Protocol(e)
    }
}

} // verus!
