//! Domain payload types and the envelope codec.
//!
//! A domain payload ([`ExecuteData`]) is lowered to a wire envelope — a type
//! tag next to opaque payload bytes — and raised back by dispatching on the
//! tag alone. Text travels as its UTF-8 bytes; audio travels through the
//! byte-level message codec of the sibling wire module. Raising is fallible:
//! every failure is one of the typed decode errors, and an envelope whose
//! tag lies outside the catalog is refused rather than coerced.

use vstd::prelude::*;

use vstd::string::StrSliceExecFns;
use vstd::utf8::{decode_utf8, encode_utf8, valid_utf8};

use crate::error::NihilityRpcError;
use crate::proto::wire::{
    chunk_bytes, decode_chunk, encode_chunk, lemma_chunk_bytes_injective, wf_chunk, AudioChunk,
    AudioChunkModel,
};

verus! {

/// Endianness of the external sample representation an audio value
/// originated from or will be serialized to.
#[derive(Debug, Clone, Copy, PartialEq, Eq, Structural)]
pub enum AudioEndiannessType {
    LittleEndian,
    BigEndian,
}

/// The wire discriminant each endianness maps to; the numeric values are a
/// fixed contract between peers.
pub open spec fn endianness_tag(e: AudioEndiannessType) -> u32 {
    match e {
        AudioEndiannessType::LittleEndian => 0,
        AudioEndiannessType::BigEndian => 1,
    }
}

/// Structured PCM-like sample data. The sample buffer holds, in interleaved
/// order, the raw 32-bit patterns of the samples' float representation, so
/// every codec step preserves it bit for bit. `sample_size` and `sign`
/// describe the original external representation and are carried through,
/// not applied to the buffer. The codec does not reframe or validate the
/// buffer length against `channels`; producers keep it a whole number of
/// frames.
#[derive(Debug, Clone, PartialEq)]
pub struct AudioData {
    pub sample_rate: u32,
    pub sample_size: u32,
    pub channels: u32,
    pub sign: bool,
    pub byte_order: AudioEndiannessType,
    pub data: Vec<u32>,
}

/// Mathematical model of an [`AudioData`].
pub struct AudioDataView {
    pub sample_rate: u32,
    pub sample_size: u32,
    pub channels: u32,
    pub sign: bool,
    pub byte_order: AudioEndiannessType,
    pub data: Seq<u32>,
}

impl View for AudioData {
    type V = AudioDataView;

    open spec fn view(&self) -> AudioDataView {
        AudioDataView {
            sample_rate: self.sample_rate,
            sample_size: self.sample_size,
            channels: self.channels,
            sign: self.sign,
            byte_order: self.byte_order,
            data: self.data@,
        }
    }
}

/// The domain-level tagged union, one variant per wire type tag.
#[derive(Debug, Clone, PartialEq)]
pub enum ExecuteData {
    String(String),
    Audio(AudioData),
}

/// Mathematical model of an [`ExecuteData`].
pub enum ExecuteDataView {
    String(Seq<char>),
    Audio(AudioDataView),
}

impl View for ExecuteData {
    type V = ExecuteDataView;

    open spec fn view(&self) -> ExecuteDataView {
        match self {
            ExecuteData::String(s) => ExecuteDataView::String(s@),
            ExecuteData::Audio(a) => ExecuteDataView::Audio(a@),
        }
    }
}

/// The closed, versioned catalog of payload kinds. The tag enumeration is
/// append-only: a tag value, once assigned, is never reinterpreted.
#[derive(Debug, Clone, Copy, PartialEq, Eq, Structural)]
pub enum ExecuteType {
    String,
    Audio,
}

/// The wire tag of each payload kind.
pub open spec fn execute_type_tag(t: ExecuteType) -> i32 {
    match t {
        ExecuteType::String => 0,
        ExecuteType::Audio => 1,
    }
}

impl ExecuteType {
    /// The numeric wire tag of this payload kind.
    pub fn tag(self) -> (r: i32)
        ensures
            r == execute_type_tag(self),
    {
        match self {
            ExecuteType::String => 0,
            ExecuteType::Audio => 1,
        }
    }

    /// The payload kind a numeric wire tag denotes, if any: dispatching on
    /// an unknown tag must fail rather than default.
    pub fn from_tag(tag: i32) -> (r: Option<ExecuteType>)
        ensures
            match r {
                Some(t) => execute_type_tag(t) == tag,
                None => tag != 0 && tag != 1,
            },
    {
        if tag == 0 {
            Some(ExecuteType::String)
        } else if tag == 1 {
            Some(ExecuteType::Audio)
        } else {
            None
        }
    }
}

/// Flattening a domain audio value to its wire message: every field is
/// copied verbatim and the endianness enum becomes its numeric discriminant.
pub open spec fn lower_audio(a: AudioDataView) -> AudioChunkModel {
    AudioChunkModel {
        sample_rate: a.sample_rate,
        sample_size: a.sample_size,
        channels: a.channels,
        sign: a.sign,
        byte_order: endianness_tag(a.byte_order),
        data: a.data,
    }
}

/// Raising a wire message back to the domain: the inverse field mapping.
/// Meaningful only for recognized endianness discriminants; the envelope
/// codec rejects the others before raising.
pub open spec fn raise_audio(c: AudioChunkModel) -> AudioDataView {
    AudioDataView {
        sample_rate: c.sample_rate,
        sample_size: c.sample_size,
        channels: c.channels,
        sign: c.sign,
        byte_order: if c.byte_order == 1 {
            AudioEndiannessType::BigEndian
        } else {
            AudioEndiannessType::LittleEndian
        },
        data: c.data,
    }
}

/// Lowering then raising an audio value reproduces it field for field, the
/// sample buffer bit-identical.
pub proof fn lemma_audio_round_trip(a: AudioDataView)
    ensures
        raise_audio(lower_audio(a)) == a,
{
}

impl AudioChunk {
    /// Lowers a domain audio value to its wire message.
    pub fn from(value: AudioData) -> (r: AudioChunk)
        ensures
            r@ == lower_audio(value@),
    {
        AudioChunk {
            sample_rate: value.sample_rate,
            sample_size: value.sample_size,
            channels: value.channels,
            sign: value.sign,
            byte_order: match value.byte_order {
                AudioEndiannessType::LittleEndian => 0,
                AudioEndiannessType::BigEndian => 1,
            },
            data: value.data,
        }
    }
}

impl AudioData {
    /// Raises a wire message whose endianness discriminant is recognized.
    pub fn from(value: AudioChunk) -> (r: AudioData)
        requires
            value@.byte_order == 0 || value@.byte_order == 1,
        ensures
            r@ == raise_audio(value@),
    {
        AudioData {
            sample_rate: value.sample_rate,
            sample_size: value.sample_size,
            channels: value.channels,
            sign: value.sign,
            byte_order: if value.byte_order == 1 {
                AudioEndiannessType::BigEndian
            } else {
                AudioEndiannessType::LittleEndian
            },
            data: value.data,
        }
    }
}

impl Default for AudioData {
    /// A freshly constructed audio value: 32000 Hz, 16 bits, mono, signed,
    /// little-endian, empty buffer.
    fn default() -> (r: AudioData)
        ensures
            r.sample_rate == 32000,
            r.sample_size == 16,
            r.channels == 1,
            r.sign == true,
            r.byte_order == AudioEndiannessType::LittleEndian,
            r.data@ == Seq::<u32>::empty(),
    {
        AudioData {
            sample_rate: 32000,
            sample_size: 16,
            channels: 1,
            sign: true,
            byte_order: AudioEndiannessType::LittleEndian,
            data: Vec::new(),
        }
    }
}

/// The wire tag an encoded domain payload carries.
pub open spec fn payload_tag(d: ExecuteDataView) -> i32 {
    match d {
        ExecuteDataView::String(_) => 0,
        ExecuteDataView::Audio(_) => 1,
    }
}

/// The payload bytes an encoded domain payload carries: UTF-8 for text, the
/// wire audio message for audio.
pub open spec fn payload_bytes(d: ExecuteDataView) -> Seq<u8> {
    match d {
        ExecuteDataView::String(s) => encode_utf8(s),
        ExecuteDataView::Audio(a) => chunk_bytes(lower_audio(a)),
    }
}

/// What decoding an envelope yields, for every tag and payload: the one
/// domain value the envelope encodes, or the one typed error describing why
/// there is none.
pub open spec fn wire_to_data(tag: i32, payload: Seq<u8>) -> Result<
    ExecuteDataView,
    NihilityRpcError,
> {
    if tag == 0 {
        if valid_utf8(payload) {
            Ok(ExecuteDataView::String(decode_utf8(payload)))
        } else {
            Err(NihilityRpcError::InvalidUtf8)
        }
    } else if tag == 1 {
        if exists|c: AudioChunkModel| wf_chunk(c) && payload == chunk_bytes(c) {
            let c = choose|c: AudioChunkModel| wf_chunk(c) && payload == chunk_bytes(c);
            if c.byte_order == 0 || c.byte_order == 1 {
                Ok(ExecuteDataView::Audio(raise_audio(c)))
            } else {
                Err(NihilityRpcError::InvalidDiscriminant)
            }
        } else {
            Err(NihilityRpcError::MalformedAudioPayload)
        }
    } else {
        Err(NihilityRpcError::UnknownPayloadType)
    }
}

/// Relies on String::from_utf8: succeeds exactly on valid UTF-8 input and
/// returns the string holding exactly the given bytes.
#[verifier::external_body]
fn string_from_utf8(bytes: Vec<u8>) -> (r: Option<String>)
    ensures
        match r {
            Some(s) => valid_utf8(bytes@) && encode_utf8(s@) == bytes@,
            None => !valid_utf8(bytes@),
        },
{
    String::from_utf8(bytes).ok()
}

/// Encodes a domain payload as its tag and payload bytes; the common core
/// of lowering to a request or a response envelope.
pub fn to_envelope_parts(value: ExecuteData) -> (r: (i32, Vec<u8>))
    ensures
        r.0 == payload_tag(value@),
        r.1@ == payload_bytes(value@),
{
    match value {
        ExecuteData::String(s) => (ExecuteType::String.tag(), s.as_str().as_bytes_vec()),
        ExecuteData::Audio(a) => (ExecuteType::Audio.tag(), encode_chunk(&AudioChunk::from(a))),
    }
}

/// Decodes an envelope's tag and payload bytes back to the domain payload;
/// the common core of raising a request or a response envelope. Returns
/// exactly what the envelope decode relation specifies, error cases
/// included.
pub fn from_envelope_parts(tag: i32, payload: Vec<u8>) -> (r: Result<
    ExecuteData,
    NihilityRpcError,
>)
    ensures
        match r {
            Ok(d) => wire_to_data(tag, payload@) == Ok::<ExecuteDataView, NihilityRpcError>(d@),
            Err(e) => wire_to_data(tag, payload@) == Err::<ExecuteDataView, NihilityRpcError>(e),
        },
{
    match ExecuteType::from_tag(tag) {
        None => Err(NihilityRpcError::UnknownPayloadType),
        Some(ExecuteType::String) => {
            match string_from_utf8(payload) {
                Some(s) => {
                    proof {
                        vstd::utf8::encode_utf8_decode_utf8(s@);
                    }
                    Ok(ExecuteData::String(s))
                },
                None => Err(NihilityRpcError::InvalidUtf8),
            }
        },
        Some(ExecuteType::Audio) => {
            match decode_chunk(&payload) {
                Err(_) => Err(NihilityRpcError::MalformedAudioPayload),
                Ok(chunk) => {
                    proof {
                        let c = choose|c: AudioChunkModel|
                            wf_chunk(c) && payload@ == chunk_bytes(c);
                        assert(wf_chunk(chunk@) && payload@ == chunk_bytes(chunk@));
                        lemma_chunk_bytes_injective(c, chunk@);
                    }
                    if chunk.byte_order == 1 || chunk.byte_order == 0 {
                        Ok(ExecuteData::Audio(AudioData::from(chunk)))
                    } else {
                        Err(NihilityRpcError::InvalidDiscriminant)
                    }
                },
            }
        },
    }
}

/// Wire request envelope: a type tag next to opaque payload bytes,
/// constructed at the call boundary and immutable once sent.
#[derive(Debug, Clone, PartialEq)]
pub struct ExecuteRequest {
    pub execute_type: i32,
    pub payload: Vec<u8>,
}

/// Wire response envelope; identical shape and codec rules as the request,
/// distinguished only by call direction.
#[derive(Debug, Clone, PartialEq)]
pub struct ExecuteResponse {
    pub execute_type: i32,
    pub payload: Vec<u8>,
}

impl ExecuteRequest {
    /// Lowers a domain payload into a request envelope; every domain
    /// variant has exactly one wire encoding.
    pub fn from(value: ExecuteData) -> (r: ExecuteRequest)
        ensures
            r.execute_type == payload_tag(value@),
            r.payload@ == payload_bytes(value@),
    {
        let (tag, payload) = to_envelope_parts(value);
        ExecuteRequest { execute_type: tag, payload }
    }
}

impl ExecuteResponse {
    /// Lowers a domain payload into a response envelope.
    pub fn from(value: ExecuteData) -> (r: ExecuteResponse)
        ensures
            r.execute_type == payload_tag(value@),
            r.payload@ == payload_bytes(value@),
    {
        let (tag, payload) = to_envelope_parts(value);
        ExecuteResponse { execute_type: tag, payload }
    }
}

impl ExecuteData {
    /// Raises a request envelope back to the domain payload it encodes.
    pub fn try_from(value: ExecuteRequest) -> (r: Result<ExecuteData, NihilityRpcError>)
        ensures
            match r {
                Ok(d) => wire_to_data(value.execute_type, value.payload@) == Ok::<
                    ExecuteDataView,
                    NihilityRpcError,
                >(d@),
                Err(e) => wire_to_data(value.execute_type, value.payload@) == Err::<
                    ExecuteDataView,
                    NihilityRpcError,
                >(e),
            },
    {
        from_envelope_parts(value.execute_type, value.payload)
    }

    /// Raises a response envelope back to the domain payload it encodes.
    pub fn try_from_response(value: ExecuteResponse) -> (r: Result<ExecuteData, NihilityRpcError>)
        ensures
            match r {
                Ok(d) => wire_to_data(value.execute_type, value.payload@) == Ok::<
                    ExecuteDataView,
                    NihilityRpcError,
                >(d@),
                Err(e) => wire_to_data(value.execute_type, value.payload@) == Err::<
                    ExecuteDataView,
                    NihilityRpcError,
                >(e),
            },
    {
        from_envelope_parts(value.execute_type, value.payload)
    }
}

/// A model whose audio sample count fits the wire length field. Every
/// payload backed by a real vector satisfies this; see
/// [`lemma_execute_data_wf`].
pub open spec fn wf_data(d: ExecuteDataView) -> bool {
    match d {
        ExecuteDataView::String(_) => true,
        ExecuteDataView::Audio(a) => a.data.len() <= u64::MAX,
    }
}

/// The view of every domain payload value is well formed.
pub proof fn lemma_execute_data_wf(x: &ExecuteData)
    ensures
        wf_data(x@),
{
    match x {
        ExecuteData::String(_) => {
        },
        ExecuteData::Audio(a) => {
            vstd::std_specs::vec::axiom_spec_len(&a.data);
        },
    }
}

/// Round-trip identity: decoding the envelope of any well-formed domain
/// payload yields that payload back.
pub proof fn lemma_round_trip(d: ExecuteDataView)
    requires
        wf_data(d),
    ensures
        wire_to_data(payload_tag(d), payload_bytes(d)) == Ok::<
            ExecuteDataView,
            NihilityRpcError,
        >(d),
{
    match d {
        ExecuteDataView::String(s) => {
            vstd::utf8::encode_utf8_valid_utf8(s);
            vstd::utf8::encode_utf8_decode_utf8(s);
        },
        ExecuteDataView::Audio(a) => {
            let p = payload_bytes(d);
            assert(wf_chunk(lower_audio(a)) && p == chunk_bytes(lower_audio(a)));
            let c = choose|c: AudioChunkModel| wf_chunk(c) && p == chunk_bytes(c);
            lemma_chunk_bytes_injective(c, lower_audio(a));
            lemma_audio_round_trip(a);
        },
    }
}

/// Tag-payload consistency: when decoding succeeds, the decoded variant is
/// exactly the one the tag selects — decoding never succeeds through a
/// decoder other than the tag's.
pub proof fn lemma_tag_payload_consistency(tag: i32, payload: Seq<u8>, d: ExecuteDataView)
    requires
        wire_to_data(tag, payload) == Ok::<ExecuteDataView, NihilityRpcError>(d),
    ensures
        d is String <==> tag == 0,
        d is Audio <==> tag == 1,
{
}

/// Unknown tag rejection: every tag outside the catalog decodes to the
/// unknown-payload-type error, for any payload bytes, never to a known
/// variant.
pub proof fn lemma_unknown_tag_rejected(tag: i32, payload: Seq<u8>)
    requires
        tag != 0,
        tag != 1,
    ensures
        wire_to_data(tag, payload) == Err::<ExecuteDataView, NihilityRpcError>(
            NihilityRpcError::UnknownPayloadType,
        ),
{
}

} // verus!
