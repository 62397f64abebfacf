use vstd::prelude::*;

verus! {

/// The kinds of failure a query can end in.
#[derive(Clone, Copy, Debug, PartialEq, Eq, Structural)]
pub enum ErrorKind {
    /// The target could not be parsed.
    BadFormat,
    /// No disassembler backend exists for the target's architecture.
    UnsupportedArch,
    /// A symbol or section could not be resolved from an address.
    NotFound,
    /// Two options that exclude each other were both given.
    MutuallyExclusive,
    /// A frame payload does not fit the 16-bit length prefix.
    TooLong,
    /// A system call, socket or file operation failed.
    Io,
    /// A hex number, pattern or wire record could not be decoded.
    Decode,
    /// The address-to-source library reported a failure.
    Upstream,
}

} // verus!
