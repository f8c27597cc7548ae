use vstd::prelude::*;

verus! {

/// The error surface of the library.
///
/// Variants carry structured context instead of formatted text: a key-lookup
/// failure names the symbolic key that was sought, and a format mismatch
/// carries the magic number that was expected and the one that was found.
#[derive(Debug, Clone, PartialEq, Eq)]
pub enum Error {
    /// An underlying byte source failed, or returned fewer bytes than owed.
    Io,
    /// A caller-supplied argument was outside the accepted range.
    InvalidArgument,
    /// A parsed structure held an impossible field value.
    InvalidData,
    /// An operation was attempted in a state that does not allow it.
    InvalidState,
    /// A magic number did not match, each side encoded as little-endian.
    InvalidFormat { expected_magic: u32, actual_magic: u32 },
    /// A named file or directory was absent.
    NotFound,
    /// An operation the caller may not perform.
    PermissionDenied,
    /// A deadline passed; reserved for callers that impose one.
    Timeout,
    /// A recognized but unsupported feature, such as a section encryption
    /// type outside the supported set.
    NotSupported,
    /// A cryptographic parameter had the wrong shape, such as a key of the
    /// wrong length.
    CryptoError,
    /// A symbolic key was missing from the keyset or title-key database;
    /// the field holds the name that was sought.
    KeyLookupError { key_name: Vec<u8> },
    /// A structure could not be decoded from its bytes: a short read or a
    /// field with no valid interpretation.
    BinaryParser,
    /// A name was not valid text.
    StringParser,
}

} // verus!
