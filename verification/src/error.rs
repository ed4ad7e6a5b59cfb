use vstd::prelude::*;

verus! {

/// Decode failures of the envelope codec.
///
/// Every failure is a local, typed decode error surfaced to the caller of the
/// envelope-to-domain conversion; the codec never recovers from one
/// automatically and never defaults to a known payload variant.
#[derive(Debug, Clone, Copy, PartialEq, Eq, Structural)]
pub enum NihilityRpcError {
    /// A text-tagged payload whose bytes are not valid UTF-8.
    InvalidUtf8,
    /// An envelope whose type tag is outside the recognized set.
    UnknownPayloadType,
    /// An audio-tagged payload whose bytes fail the structural decode.
    MalformedAudioPayload,
    /// A structurally valid audio payload carrying an unrecognized
    /// endianness discriminant.
    InvalidDiscriminant,
}

} // verus!
