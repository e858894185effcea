use vstd::prelude::*;

verus! {

/// The ways in which reading a packet can fail.
#[derive(Clone, Copy, Debug, PartialEq, Eq, Structural)]
pub enum Error {
    /// The input ended before a header field or the declared body did.
    PrematureEOF,
    /// An indefinite (old format) or partial (new format) body length, which
    /// is deliberately not supported.
    PartialLength,
    /// The first bit of a tag byte is zero.
    PacketFirstBitZero,
    /// The decoded tag is the reserved value zero.
    BadTag,
}

} // verus!
