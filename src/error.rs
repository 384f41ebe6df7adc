use vstd::prelude::*;

verus! {

/// Why a network description was refused.
#[derive(Debug, Clone, Copy, PartialEq, Eq, Structural)]
pub enum ConfigError {
    /// The configuration text is structurally invalid.
    MalformedDocument,
    /// An ISD-AS identifier does not parse.
    InvalidIdentifier,
    /// An interface number is zero, out of range or not numeric.
    InvalidInterfaceId,
    /// A link description does not have the form `<isd-as>:<isd-as>`.
    InvalidLinkSpec,
    /// A link names an AS that the topology does not hold.
    UnknownAsInLink,
    /// An AS was declared twice.
    DuplicateAs,
    /// An entity that must listen somewhere has no listening address.
    MissingRequiredAddress,
    /// The network runtime refused to start.
    RuntimeStartError,
}

} // verus!
