//! Byte-level codec for the structured audio payload.
//!
//! The audio payload travels as a stable, self-describing binary message:
//! each field is introduced by a one-byte field header and integers use a
//! canonical base-128 varint encoding; the sample buffer is length-prefixed
//! and stores each sample as four little-endian bytes. Both codec directions
//! are specified against the same mathematical byte grammar, so decoding is
//! proved to succeed exactly on the encodings of well-formed messages.

use vstd::prelude::*;

use crate::error::NihilityRpcError;

verus! {

/// Canonical little-endian base-128 varint encoding of `n`: seven value bits
/// per byte, the high bit of a byte marks a continuation. Canonical means no
/// trailing zero continuation groups, so each value has exactly one encoding.
pub open spec fn varint(n: u64) -> Seq<u8>
    decreases n,
{
    if n < 0x80 {
        seq![n as u8]
    } else {
        seq![((n % 0x80) + 0x80) as u8] + varint(n / 0x80)
    }
}

/// The bytes of `s` from `i` (inclusive) to `j` (exclusive) are exactly the
/// canonical varint encoding of `v`.
pub open spec fn varint_at(s: Seq<u8>, i: int, j: int, v: u64) -> bool {
    0 <= i <= j <= s.len() && s.subrange(i, j) == varint(v)
}

/// A varint encoding is never empty.
pub proof fn lemma_varint_len(n: u64)
    ensures
        varint(n).len() >= 1,
{
}

/// Varint encodings are prefix-free: equal streams that both start with a
/// varint carry the same value and the same remainder.
pub proof fn lemma_varint_prefix_free(a: u64, b: u64, s: Seq<u8>, t: Seq<u8>)
    requires
        varint(a) + s == varint(b) + t,
    ensures
        a == b,
        s == t,
    decreases a,
{
    let xs = varint(a) + s;
    let yt = varint(b) + t;
    assert(xs[0] == varint(a)[0]);
    assert(yt[0] == varint(b)[0]);
    if a < 0x80 {
        assert(b < 0x80) by {
            if b >= 0x80 {
                assert(varint(b)[0] == ((b % 0x80) + 0x80) as u8);
                assert(varint(a)[0] == a as u8);
            }
        }
        assert(a as u8 == b as u8);
        assert(s =~= t) by {
            assert(forall|k: int| 0 <= k < s.len() ==> s[k] == xs[k + 1]);
            assert(forall|k: int| 0 <= k < t.len() ==> t[k] == yt[k + 1]);
            assert(s.len() == t.len());
        }
    } else {
        assert(b >= 0x80) by {
            if b < 0x80 {
                assert(varint(b)[0] == b as u8);
                assert(varint(a)[0] == ((a % 0x80) + 0x80) as u8);
            }
        }
        let ta = varint(a / 0x80) + s;
        let tb = varint(b / 0x80) + t;
        assert(xs =~= seq![(((a % 0x80) + 0x80) as u8)] + ta);
        assert(yt =~= seq![(((b % 0x80) + 0x80) as u8)] + tb);
        assert(ta =~= tb) by {
            assert(forall|k: int| 0 <= k < ta.len() ==> ta[k] == xs[k + 1]);
            assert(forall|k: int| 0 <= k < tb.len() ==> tb[k] == yt[k + 1]);
            assert(ta.len() == tb.len());
        }
        lemma_varint_prefix_free(a / 0x80, b / 0x80, s, t);
        assert((a % 0x80) + 0x80 == (b % 0x80) + 0x80) by {
            assert(xs[0] == ((a % 0x80) + 0x80) as u8);
            assert(yt[0] == ((b % 0x80) + 0x80) as u8);
        }
        assert(a == 0x80 * (a / 0x80) + a % 0x80);
        assert(b == 0x80 * (b / 0x80) + b % 0x80);
    }
}

/// At one start position a stream holds at most one varint: value and end
/// position agree.
pub proof fn lemma_varint_at_unique(s: Seq<u8>, i: int, j1: int, j2: int, a: u64, b: u64)
    requires
        varint_at(s, i, j1, a),
        varint_at(s, i, j2, b),
    ensures
        a == b,
        j1 == j2,
{
    let n = s.len() as int;
    assert(varint(a) + s.subrange(j1, n) =~= s.subrange(i, n));
    assert(varint(b) + s.subrange(j2, n) =~= s.subrange(i, n));
    lemma_varint_prefix_free(a, b, s.subrange(j1, n), s.subrange(j2, n));
    assert(j1 == n - s.subrange(j1, n).len());
    assert(j2 == n - s.subrange(j2, n).len());
}

/// Appends the canonical varint encoding of `n` to `out`.
pub fn push_varint(out: &mut Vec<u8>, n: u64)
    ensures
        final(out)@ == old(out)@ + varint(n),
    decreases n,
{
    if n < 0x80 {
        out.push(n as u8);
        assert(final(out)@ =~= old(out)@ + varint(n));
    } else {
        let b: u8 = ((n % 0x80) + 0x80) as u8;
        out.push(b);
        push_varint(out, n / 0x80);
        assert(final(out)@ =~= old(out)@ + varint(n));
    }
}

/// Reads one canonical varint starting at index `i`. Returns the decoded
/// value with the index one past its last byte, or `None` when no canonical
/// varint that fits in a `u64` starts at `i`.
pub fn read_varint(bytes: &Vec<u8>, i: usize) -> (r: Option<(u64, usize)>)
    requires
        i <= bytes@.len(),
    ensures
        match r {
            Some(vj) => varint_at(bytes@, i as int, vj.1 as int, vj.0) && i < vj.1,
            None => forall|v: u64, j: int| !varint_at(bytes@, i as int, j, v),
        },
    decreases bytes@.len() - i,
{
    let s = Ghost(bytes@);
    if i >= bytes.len() {
        proof {
            assert forall|v: u64, j: int| !varint_at(s@, i as int, j, v) by {
                if varint_at(s@, i as int, j, v) {
                    assert(s@.subrange(i as int, j).len() == varint(v).len());
                    lemma_varint_len(v);
                }
            }
        }
        None
    } else {
        let b = bytes[i];
        if b < 0x80 {
            proof {
                assert(s@.subrange(i as int, i + 1) =~= seq![b]);
                assert(varint(b as u64) == seq![b]);
            }
            Some((b as u64, i + 1))
        } else {
            let lo: u64 = (b - 0x80) as u64;
            match read_varint(bytes, i + 1) {
                None => {
                    proof {
                        assert forall|v: u64, j: int| !varint_at(s@, i as int, j, v) by {
                            if varint_at(s@, i as int, j, v) {
                                lemma_varint_head_cont(s@, i as int, j, v, b);
                            }
                        }
                    }
                    None
                },
                Some((hi, j0)) => {
                    if hi == 0 {
                        proof {
                            assert forall|v: u64, j: int| !varint_at(s@, i as int, j, v) by {
                                if varint_at(s@, i as int, j, v) {
                                    lemma_varint_head_cont(s@, i as int, j, v, b);
                                    lemma_varint_at_unique(
                                        s@,
                                        i + 1,
                                        j,
                                        j0 as int,
                                        v / 0x80,
                                        0u64,
                                    );
                                }
                            }
                        }
                        None
                    } else if hi > (u64::MAX - lo) / 0x80 {
                        proof {
                            assert forall|v: u64, j: int| !varint_at(s@, i as int, j, v) by {
                                if varint_at(s@, i as int, j, v) {
                                    lemma_varint_head_cont(s@, i as int, j, v, b);
                                    lemma_varint_at_unique(s@, i + 1, j, j0 as int, v / 0x80, hi);
                                    assert(v % 0x80 == lo);
                                    assert(v == 0x80 * (v / 0x80) + v % 0x80);
                                    assert(0x80 * hi > 0x80 * ((u64::MAX - lo) / 0x80));
                                    assert(0x80 * ((u64::MAX - lo) / 0x80) > (u64::MAX - lo)
                                        - 0x80);
                                }
                            }
                        }
                        None
                    } else {
                        proof {
                            assert(0x80 * hi <= 0x80 * ((u64::MAX - lo) / 0x80));
                            assert(0x80 * ((u64::MAX - lo) / 0x80) <= u64::MAX - lo);
                        }
                        let v: u64 = 0x80 * hi + lo;
                        proof {
                            assert(v / 0x80 == hi && v % 0x80 == lo) by {
                                assert(v == 0x80 * hi + lo && lo < 0x80);
                            }
                            assert(varint(v) == seq![b] + varint(hi));
                            assert(s@.subrange(i + 1, j0 as int) == varint(hi));
                            assert(s@.subrange(i as int, j0 as int) =~= seq![b] + s@.subrange(
                                i + 1,
                                j0 as int,
                            ));
                        }
                        Some((v, j0))
                    }
                },
            }
        }
    }
}

/// A varint that starts with a continuation byte `b` encodes a value of at
/// least `0x80`, and its tail is the varint of the high bits.
proof fn lemma_varint_head_cont(s: Seq<u8>, i: int, j: int, v: u64, b: u8)
    requires
        varint_at(s, i, j, v),
        s[i] == b,
        b >= 0x80,
    ensures
        v >= 0x80,
        v % 0x80 == (b - 0x80) as u64,
        varint_at(s, i + 1, j, v / 0x80),
{
    let sub = s.subrange(i, j);
    lemma_varint_len(v);
    assert(sub.len() == varint(v).len());
    assert(sub[0] == s[i]);
    if v < 0x80 {
        assert(varint(v)[0] == v as u8);
        assert(false);
    }
    assert(varint(v)[0] == ((v % 0x80) + 0x80) as u8);
    assert((v % 0x80) + 0x80 == b);
    let tail = varint(v / 0x80);
    assert(s.subrange(i + 1, j) =~= tail) by {
        assert(sub =~= seq![(((v % 0x80) + 0x80) as u8)] + tail);
        assert forall|k: int| 0 <= k < j - (i + 1) implies s.subrange(i + 1, j)[k] == tail[k] by {
            assert(s.subrange(i + 1, j)[k] == s[i + 1 + k]);
            assert(sub[k + 1] == s[i + k + 1]);
            assert(sub[k + 1] == tail[k]);
        }
    }
}

/// One field of the audio message: a one-byte field header followed by the
/// canonical varint of the field's value.
pub open spec fn field_bytes(hdr: u8, v: u64) -> Seq<u8> {
    seq![hdr] + varint(v)
}

/// Little-endian four-byte encoding of one 32-bit sample bit pattern.
pub open spec fn le4(x: u32) -> Seq<u8> {
    seq![
        (x & 0xff) as u8,
        ((x >> 8) & 0xff) as u8,
        ((x >> 16) & 0xff) as u8,
        ((x >> 24) & 0xff) as u8,
    ]
}

/// The sample buffer region: each sample as four little-endian bytes, in
/// buffer order.
pub open spec fn samples_bytes(d: Seq<u32>) -> Seq<u8>
    decreases d.len(),
{
    if d.len() == 0 {
        Seq::empty()
    } else {
        le4(d[0]) + samples_bytes(d.drop_first())
    }
}

/// The sample region is exactly four bytes per sample.
pub proof fn lemma_samples_bytes_len(d: Seq<u32>)
    ensures
        samples_bytes(d).len() == 4 * d.len(),
    decreases d.len(),
{
    if d.len() > 0 {
        lemma_samples_bytes_len(d.drop_first());
    }
}

/// Appending one sample appends its four bytes to the region.
pub proof fn lemma_samples_bytes_snoc(d: Seq<u32>, x: u32)
    ensures
        samples_bytes(d.push(x)) == samples_bytes(d) + le4(x),
    decreases d.len(),
{
    if d.len() == 0 {
        assert(d.push(x).drop_first() =~= d);
        assert(samples_bytes(d.push(x)) =~= samples_bytes(d) + le4(x));
    } else {
        assert(d.push(x).drop_first() =~= d.drop_first().push(x));
        lemma_samples_bytes_snoc(d.drop_first(), x);
        assert(samples_bytes(d.push(x)) =~= samples_bytes(d) + le4(x));
    }
}

/// The wire-level audio message, mirroring the domain audio value with the
/// endianness enum flattened to its numeric wire discriminant. Samples are
/// carried as the raw bit patterns of their 32-bit representation, so a
/// round trip is bit-identical.
#[derive(Debug, Clone, PartialEq)]
pub struct AudioChunk {
    pub sample_rate: u32,
    pub sample_size: u32,
    pub channels: u32,
    pub sign: bool,
    pub byte_order: u32,
    pub data: Vec<u32>,
}

/// Mathematical model of an [`AudioChunk`].
pub struct AudioChunkModel {
    pub sample_rate: u32,
    pub sample_size: u32,
    pub channels: u32,
    pub sign: bool,
    pub byte_order: u32,
    pub data: Seq<u32>,
}

impl View for AudioChunk {
    type V = AudioChunkModel;

    open spec fn view(&self) -> AudioChunkModel {
        AudioChunkModel {
            sample_rate: self.sample_rate,
            sample_size: self.sample_size,
            channels: self.channels,
            sign: self.sign,
            byte_order: self.byte_order,
            data: self.data@,
        }
    }
}

/// The sign flag on the wire: one varint, `1` for signed and `0` for
/// unsigned.
pub open spec fn sign_value(c: AudioChunkModel) -> u64 {
    if c.sign {
        1
    } else {
        0
    }
}

/// A model whose encoding does not truncate: the sample count fits the
/// length field. Every chunk backed by a real vector satisfies this.
pub open spec fn wf_chunk(c: AudioChunkModel) -> bool {
    c.data.len() <= u64::MAX
}

/// The one wire encoding of an audio message: six headed fields in fixed
/// order, then the sample buffer, whose element count is field six.
pub open spec fn chunk_bytes(c: AudioChunkModel) -> Seq<u8> {
    field_bytes(0x08, c.sample_rate as u64) + field_bytes(0x10, c.sample_size as u64)
        + field_bytes(0x18, c.channels as u64) + field_bytes(0x20, sign_value(c)) + field_bytes(
        0x28,
        c.byte_order as u64,
    ) + field_bytes(0x32, c.data.len() as u64) + samples_bytes(c.data)
}

/// What follows the sample-rate field in an encoded chunk.
pub open spec fn rest1(c: AudioChunkModel) -> Seq<u8> {
    field_bytes(0x10, c.sample_size as u64) + rest2(c)
}

/// What follows the sample-size field.
pub open spec fn rest2(c: AudioChunkModel) -> Seq<u8> {
    field_bytes(0x18, c.channels as u64) + rest3(c)
}

/// What follows the channels field.
pub open spec fn rest3(c: AudioChunkModel) -> Seq<u8> {
    field_bytes(0x20, sign_value(c)) + rest4(c)
}

/// What follows the sign field.
pub open spec fn rest4(c: AudioChunkModel) -> Seq<u8> {
    field_bytes(0x28, c.byte_order as u64) + rest5(c)
}

/// What follows the byte-order field.
pub open spec fn rest5(c: AudioChunkModel) -> Seq<u8> {
    field_bytes(0x32, c.data.len() as u64) + samples_bytes(c.data)
}

/// The encoding regrouped head-first, one field peeled at a time.
pub proof fn lemma_chunk_bytes_nested(c: AudioChunkModel)
    ensures
        chunk_bytes(c) == field_bytes(0x08, c.sample_rate as u64) + rest1(c),
{
    assert(chunk_bytes(c) =~= field_bytes(0x08, c.sample_rate as u64) + rest1(c));
}

/// Splitting a known concatenation of the suffix of `s` at `i` into its
/// head part and tail part, by length.
pub proof fn lemma_take_prefix(s: Seq<u8>, i: int, p: Seq<u8>, q: Seq<u8>)
    requires
        0 <= i <= s.len(),
        s.subrange(i, s.len() as int) == p + q,
    ensures
        i + p.len() + q.len() == s.len(),
        s.subrange(i, i + p.len() as int) == p,
        s.subrange(i + p.len() as int, s.len() as int) == q,
{
    let n = s.len() as int;
    assert(s.subrange(i, n).len() == n - i);
    assert(n - i == p.len() + q.len());
    assert(s.subrange(i, i + p.len() as int) =~= p) by {
        assert forall|k: int| 0 <= k < p.len() implies s.subrange(i, i + p.len() as int)[k]
            == p[k] by {
            assert(s.subrange(i, n)[k] == (p + q)[k]);
        }
    }
    assert(s.subrange(i + p.len() as int, n) =~= q) by {
        assert forall|k: int| 0 <= k < q.len() implies s.subrange(i + p.len() as int, n)[k]
            == q[k] by {
            assert(s.subrange(i, n)[p.len() + k] == (p + q)[p.len() + k]);
        }
    }
}

/// A parsed field and a known encoding of the same suffix agree on the
/// value and on where the field ends.
pub proof fn lemma_field_at_unique(s: Seq<u8>, i: int, j: int, a: u64, h: u8, b: u64, q: Seq<u8>)
    requires
        0 <= i <= j <= s.len(),
        s.subrange(i, j) == field_bytes(h, a),
        s.subrange(i, s.len() as int) == field_bytes(h, b) + q,
    ensures
        a == b,
        s.subrange(j, s.len() as int) == q,
{
    let n = s.len() as int;
    lemma_take_prefix(s, i, field_bytes(h, b), q);
    let jb = i + field_bytes(h, b).len() as int;
    lemma_varint_len(a);
    lemma_varint_len(b);
    lemma_field_tail(s, i, j, h, a);
    lemma_field_tail(s, i, jb, h, b);
    lemma_varint_at_unique(s, i + 1, j, jb, a, b);
}

/// A field at `i..j` puts its varint at `i + 1..j`.
pub proof fn lemma_field_tail(s: Seq<u8>, i: int, j: int, h: u8, a: u64)
    requires
        0 <= i <= j <= s.len(),
        s.subrange(i, j) == field_bytes(h, a),
    ensures
        s[i] == h,
        varint_at(s, i + 1, j, a),
{
    let sub = s.subrange(i, j);
    lemma_varint_len(a);
    assert(sub.len() == j - i);
    assert(sub == seq![h] + varint(a));
    assert(sub.len() == 1 + varint(a).len());
    assert(sub[0] == s[i]);
    assert(sub[0] == h);
    assert(s.subrange(i + 1, j) =~= varint(a)) by {
        assert forall|k: int| 0 <= k < j - (i + 1) implies s.subrange(i + 1, j)[k] == varint(
            a,
        )[k] by {
            assert(s.subrange(i + 1, j)[k] == s[i + 1 + k]);
            assert(sub[k + 1] == s[i + k + 1]);
            assert(sub[k + 1] == varint(a)[k]);
        }
    }
}

/// Reads one headed field starting at `i`: the expected header byte, then a
/// canonical varint. `None` exactly when no such field starts at `i`.
pub fn read_field(bytes: &Vec<u8>, i: usize, hdr: u8) -> (r: Option<(u64, usize)>)
    requires
        i <= bytes@.len(),
    ensures
        match r {
            Some(vj) => i < vj.1 <= bytes@.len() && bytes@.subrange(i as int, vj.1 as int)
                == field_bytes(hdr, vj.0),
            None => forall|v: u64, j: int|
                i <= j <= bytes@.len() ==> bytes@.subrange(i as int, j) != field_bytes(hdr, v),
        },
{
    if i >= bytes.len() {
        proof {
            assert forall|v: u64, j: int| i <= j <= bytes@.len() implies bytes@.subrange(
                i as int,
                j,
            ) != field_bytes(hdr, v) by {
                lemma_varint_len(v);
                assert(bytes@.subrange(i as int, j).len() == j - i);
            }
        }
        None
    } else if bytes[i] != hdr {
        proof {
            assert forall|v: u64, j: int| i <= j <= bytes@.len() implies bytes@.subrange(
                i as int,
                j,
            ) != field_bytes(hdr, v) by {
                if bytes@.subrange(i as int, j) == field_bytes(hdr, v) {
                    lemma_field_tail(bytes@, i as int, j, hdr, v);
                }
            }
        }
        None
    } else {
        match read_varint(bytes, i + 1) {
            None => {
                proof {
                    assert forall|v: u64, j: int| i <= j <= bytes@.len() implies bytes@.subrange(
                        i as int,
                        j,
                    ) != field_bytes(hdr, v) by {
                        if bytes@.subrange(i as int, j) == field_bytes(hdr, v) {
                            lemma_field_tail(bytes@, i as int, j, hdr, v);
                        }
                    }
                }
                None
            },
            Some((v, j)) => {
                proof {
                    assert(bytes@.subrange(i as int, j as int) =~= seq![hdr] + bytes@.subrange(
                        i + 1,
                        j as int,
                    ));
                }
                Some((v, j))
            },
        }
    }
}

/// Appends the four little-endian bytes of one sample to `out`.
pub fn push_le4(out: &mut Vec<u8>, x: u32)
    ensures
        final(out)@ == old(out)@ + le4(x),
{
    out.push(#[verifier::truncate] ((x & 0xff) as u8));
    out.push(#[verifier::truncate] (((x >> 8) & 0xff) as u8));
    out.push(#[verifier::truncate] (((x >> 16) & 0xff) as u8));
    out.push(#[verifier::truncate] (((x >> 24) & 0xff) as u8));
    assert(final(out)@ =~= old(out)@ + le4(x));
}

/// Encodes an audio message into its one wire byte string.
pub fn encode_chunk(chunk: &AudioChunk) -> (r: Vec<u8>)
    ensures
        r@ == chunk_bytes(chunk@),
{
    let mut out: Vec<u8> = Vec::new();
    out.push(0x08);
    push_varint(&mut out, chunk.sample_rate as u64);
    out.push(0x10);
    push_varint(&mut out, chunk.sample_size as u64);
    out.push(0x18);
    push_varint(&mut out, chunk.channels as u64);
    out.push(0x20);
    push_varint(&mut out, if chunk.sign { 1 } else { 0 });
    out.push(0x28);
    push_varint(&mut out, chunk.byte_order as u64);
    out.push(0x32);
    push_varint(&mut out, chunk.data.len() as u64);
    let ghost prefix = out@;
    proof {
        assert(prefix =~= field_bytes(0x08, chunk@.sample_rate as u64) + field_bytes(
            0x10,
            chunk@.sample_size as u64,
        ) + field_bytes(0x18, chunk@.channels as u64) + field_bytes(0x20, sign_value(chunk@))
            + field_bytes(0x28, chunk@.byte_order as u64) + field_bytes(
            0x32,
            chunk@.data.len() as u64,
        ));
    }
    let mut k: usize = 0;
    while k < chunk.data.len()
        invariant
            k <= chunk.data@.len(),
            out@ == prefix + samples_bytes(chunk.data@.take(k as int)),
        decreases chunk.data@.len() - k,
    {
        push_le4(&mut out, chunk.data[k]);
        proof {
            assert(chunk.data@.take(k + 1) =~= chunk.data@.take(k as int).push(chunk.data@[
                k as int
            ]));
            lemma_samples_bytes_snoc(chunk.data@.take(k as int), chunk.data@[k as int]);
            assert(out@ =~= prefix + samples_bytes(chunk.data@.take(k + 1)));
        }
        k += 1;
    }
    proof {
        assert(chunk.data@.take(chunk.data@.len() as int) =~= chunk.data@);
        assert(out@ =~= chunk_bytes(chunk@));
    }
    out
}

/// Decodes an audio message. Succeeds exactly on the wire encodings of
/// well-formed messages and returns the message encoded; any other byte
/// string is rejected as structurally malformed.
#[verifier::rlimit(100)]
pub fn decode_chunk(bytes: &Vec<u8>) -> (r: Result<AudioChunk, NihilityRpcError>)
    ensures
        match r {
            Ok(chunk) => bytes@ == chunk_bytes(chunk@) && wf_chunk(chunk@),
            Err(e) => {
                &&& e == NihilityRpcError::MalformedAudioPayload
                &&& forall|c: AudioChunkModel| wf_chunk(c) ==> bytes@ != chunk_bytes(c)
            },
        },
{
    let len = bytes.len();
    proof {
        assert(bytes@.subrange(0, bytes@.len() as int) =~= bytes@);
    }
    let (v1, p1) = match read_field(bytes, 0, 0x08) {
        Some(x) => x,
        None => {
            proof {
                assert forall|c: AudioChunkModel| wf_chunk(c) implies bytes@ != chunk_bytes(c) by {
                    if bytes@ == chunk_bytes(c) {
                        lemma_chunk_bytes_nested(c);
                        lemma_take_prefix(
                            bytes@,
                            0,
                            field_bytes(0x08, c.sample_rate as u64),
                            rest1(c),
                        );
                    }
                }
            }
            return Err(NihilityRpcError::MalformedAudioPayload);
        },
    };
    proof {
        assert forall|c: AudioChunkModel|
            wf_chunk(c) && bytes@ == chunk_bytes(c) implies c.sample_rate as u64 == v1
            && bytes@.subrange(p1 as int, bytes@.len() as int) == rest1(c) by {
            lemma_chunk_bytes_nested(c);
            lemma_field_at_unique(bytes@, 0, p1 as int, v1, 0x08, c.sample_rate as u64, rest1(c));
        }
    }
    if v1 > u32::MAX as u64 {
        proof {
            assert forall|c: AudioChunkModel| wf_chunk(c) implies bytes@ != chunk_bytes(c) by {
                if bytes@ == chunk_bytes(c) {
                    assert(c.sample_rate as u64 == v1);
                }
            }
        }
        return Err(NihilityRpcError::MalformedAudioPayload);
    }
    let (v2, p2) = match read_field(bytes, p1, 0x10) {
        Some(x) => x,
        None => {
            proof {
                assert forall|c: AudioChunkModel| wf_chunk(c) implies bytes@ != chunk_bytes(c) by {
                    if bytes@ == chunk_bytes(c) {
                        lemma_take_prefix(
                            bytes@,
                            p1 as int,
                            field_bytes(0x10, c.sample_size as u64),
                            rest2(c),
                        );
                    }
                }
            }
            return Err(NihilityRpcError::MalformedAudioPayload);
        },
    };
    proof {
        assert forall|c: AudioChunkModel|
            wf_chunk(c) && bytes@ == chunk_bytes(c) implies c.sample_size as u64 == v2
            && bytes@.subrange(p2 as int, bytes@.len() as int) == rest2(c) by {
            lemma_field_at_unique(
                bytes@,
                p1 as int,
                p2 as int,
                v2,
                0x10,
                c.sample_size as u64,
                rest2(c),
            );
        }
    }
    if v2 > u32::MAX as u64 {
        proof {
            assert forall|c: AudioChunkModel| wf_chunk(c) implies bytes@ != chunk_bytes(c) by {
                if bytes@ == chunk_bytes(c) {
                    assert(c.sample_size as u64 == v2);
                }
            }
        }
        return Err(NihilityRpcError::MalformedAudioPayload);
    }
    let (v3, p3) = match read_field(bytes, p2, 0x18) {
        Some(x) => x,
        None => {
            proof {
                assert forall|c: AudioChunkModel| wf_chunk(c) implies bytes@ != chunk_bytes(c) by {
                    if bytes@ == chunk_bytes(c) {
                        lemma_take_prefix(
                            bytes@,
                            p2 as int,
                            field_bytes(0x18, c.channels as u64),
                            rest3(c),
                        );
                    }
                }
            }
            return Err(NihilityRpcError::MalformedAudioPayload);
        },
    };
    proof {
        assert forall|c: AudioChunkModel|
            wf_chunk(c) && bytes@ == chunk_bytes(c) implies c.channels as u64 == v3
            && bytes@.subrange(p3 as int, bytes@.len() as int) == rest3(c) by {
            lemma_field_at_unique(
                bytes@,
                p2 as int,
                p3 as int,
                v3,
                0x18,
                c.channels as u64,
                rest3(c),
            );
        }
    }
    if v3 > u32::MAX as u64 {
        proof {
            assert forall|c: AudioChunkModel| wf_chunk(c) implies bytes@ != chunk_bytes(c) by {
                if bytes@ == chunk_bytes(c) {
                    assert(c.channels as u64 == v3);
                }
            }
        }
        return Err(NihilityRpcError::MalformedAudioPayload);
    }
    let (v4, p4) = match read_field(bytes, p3, 0x20) {
        Some(x) => x,
        None => {
            proof {
                assert forall|c: AudioChunkModel| wf_chunk(c) implies bytes@ != chunk_bytes(c) by {
                    if bytes@ == chunk_bytes(c) {
                        lemma_take_prefix(
                            bytes@,
                            p3 as int,
                            field_bytes(0x20, sign_value(c)),
                            rest4(c),
                        );
                    }
                }
            }
            return Err(NihilityRpcError::MalformedAudioPayload);
        },
    };
    proof {
        assert forall|c: AudioChunkModel|
            wf_chunk(c) && bytes@ == chunk_bytes(c) implies sign_value(c) == v4
            && bytes@.subrange(p4 as int, bytes@.len() as int) == rest4(c) by {
            lemma_field_at_unique(bytes@, p3 as int, p4 as int, v4, 0x20, sign_value(c), rest4(c));
        }
    }
    if v4 > 1 {
        proof {
            assert forall|c: AudioChunkModel| wf_chunk(c) implies bytes@ != chunk_bytes(c) by {
                if bytes@ == chunk_bytes(c) {
                    assert(sign_value(c) == v4);
                }
            }
        }
        return Err(NihilityRpcError::MalformedAudioPayload);
    }
    let (v5, p5) = match read_field(bytes, p4, 0x28) {
        Some(x) => x,
        None => {
            proof {
                assert forall|c: AudioChunkModel| wf_chunk(c) implies bytes@ != chunk_bytes(c) by {
                    if bytes@ == chunk_bytes(c) {
                        lemma_take_prefix(
                            bytes@,
                            p4 as int,
                            field_bytes(0x28, c.byte_order as u64),
                            rest5(c),
                        );
                    }
                }
            }
            return Err(NihilityRpcError::MalformedAudioPayload);
        },
    };
    proof {
        assert forall|c: AudioChunkModel|
            wf_chunk(c) && bytes@ == chunk_bytes(c) implies c.byte_order as u64 == v5
            && bytes@.subrange(p5 as int, bytes@.len() as int) == rest5(c) by {
            lemma_field_at_unique(
                bytes@,
                p4 as int,
                p5 as int,
                v5,
                0x28,
                c.byte_order as u64,
                rest5(c),
            );
        }
    }
    if v5 > u32::MAX as u64 {
        proof {
            assert forall|c: AudioChunkModel| wf_chunk(c) implies bytes@ != chunk_bytes(c) by {
                if bytes@ == chunk_bytes(c) {
                    assert(c.byte_order as u64 == v5);
                }
            }
        }
        return Err(NihilityRpcError::MalformedAudioPayload);
    }
    let (v6, p6) = match read_field(bytes, p5, 0x32) {
        Some(x) => x,
        None => {
            proof {
                assert forall|c: AudioChunkModel| wf_chunk(c) implies bytes@ != chunk_bytes(c) by {
                    if bytes@ == chunk_bytes(c) {
                        lemma_take_prefix(
                            bytes@,
                            p5 as int,
                            field_bytes(0x32, c.data.len() as u64),
                            samples_bytes(c.data),
                        );
                    }
                }
            }
            return Err(NihilityRpcError::MalformedAudioPayload);
        },
    };
    proof {
        assert forall|c: AudioChunkModel|
            wf_chunk(c) && bytes@ == chunk_bytes(c) implies c.data.len() == v6 && bytes@.subrange(
            p6 as int,
            bytes@.len() as int,
        ) == samples_bytes(c.data) by {
            lemma_field_at_unique(
                bytes@,
                p5 as int,
                p6 as int,
                v6,
                0x32,
                c.data.len() as u64,
                samples_bytes(c.data),
            );
        }
    }
    let remaining = len - p6;
    if remaining % 4 != 0 || (remaining / 4) as u64 != v6 {
        proof {
            assert forall|c: AudioChunkModel| wf_chunk(c) implies bytes@ != chunk_bytes(c) by {
                if bytes@ == chunk_bytes(c) {
                    lemma_samples_bytes_len(c.data);
                    assert(bytes@.subrange(p6 as int, bytes@.len() as int).len() == len - p6);
                    assert(remaining == 4 * c.data.len());
                }
            }
        }
        return Err(NihilityRpcError::MalformedAudioPayload);
    }
    let count = remaining / 4;
    let mut data: Vec<u32> = Vec::with_capacity(count);
    let mut k: usize = 0;
    while k < count
        invariant
            len == bytes@.len(),
            p6 + 4 * count == len,
            data@.len() == k,
            k <= count,
            samples_bytes(data@) == bytes@.subrange(p6 as int, p6 + 4 * k),
        decreases count - k,
    {
        let base = p6 + 4 * k;
        let b0 = bytes[base];
        let b1 = bytes[base + 1];
        let b2 = bytes[base + 2];
        let b3 = bytes[base + 3];
        let x: u32 = (b0 as u32) | ((b1 as u32) << 8) | ((b2 as u32) << 16) | ((b3 as u32) << 24);
        proof {
            assert((x & 0xff) as u8 == b0 && ((x >> 8) & 0xff) as u8 == b1 && ((x >> 16)
                & 0xff) as u8 == b2 && ((x >> 24) & 0xff) as u8 == b3) by (bit_vector)
                requires
                    x == (b0 as u32) | ((b1 as u32) << 8) | ((b2 as u32) << 16) | ((b3
                        as u32) << 24),
            ;
            assert(le4(x) =~= bytes@.subrange(base as int, base + 4));
            lemma_samples_bytes_snoc(data@, x);
            assert(bytes@.subrange(p6 as int, base + 4) =~= bytes@.subrange(p6 as int, base as int)
                + bytes@.subrange(base as int, base + 4));
        }
        data.push(x);
        k += 1;
    }
    let chunk = AudioChunk {
        sample_rate: v1 as u32,
        sample_size: v2 as u32,
        channels: v3 as u32,
        sign: v4 == 1,
        byte_order: v5 as u32,
        data,
    };
    proof {
        let m = chunk@;
        assert(bytes@.subrange(p6 as int, bytes@.len() as int) == samples_bytes(m.data));
        assert(sign_value(m) == v4);
        assert(m.data.len() == count);
        assert(bytes@.subrange(0, p2 as int) =~= bytes@.subrange(0, p1 as int) + bytes@.subrange(
            p1 as int,
            p2 as int,
        ));
        assert(bytes@.subrange(0, p3 as int) =~= bytes@.subrange(0, p2 as int) + bytes@.subrange(
            p2 as int,
            p3 as int,
        ));
        assert(bytes@.subrange(0, p4 as int) =~= bytes@.subrange(0, p3 as int) + bytes@.subrange(
            p3 as int,
            p4 as int,
        ));
        assert(bytes@.subrange(0, p5 as int) =~= bytes@.subrange(0, p4 as int) + bytes@.subrange(
            p4 as int,
            p5 as int,
        ));
        assert(bytes@.subrange(0, p6 as int) =~= bytes@.subrange(0, p5 as int) + bytes@.subrange(
            p5 as int,
            p6 as int,
        ));
        assert(bytes@ =~= bytes@.subrange(0, p6 as int) + bytes@.subrange(
            p6 as int,
            bytes@.len() as int,
        ));
        assert(bytes@ == chunk_bytes(m));
    }
    Ok(chunk)
}


/// Two encodings of headed fields with the same header that open the same
/// stream carry the same value and leave the same remainder.
pub proof fn lemma_field_prefix_free(h: u8, a: u64, b: u64, q1: Seq<u8>, q2: Seq<u8>)
    requires
        field_bytes(h, a) + q1 == field_bytes(h, b) + q2,
    ensures
        a == b,
        q1 == q2,
{
    let s1 = field_bytes(h, a) + q1;
    let s2 = field_bytes(h, b) + q2;
    lemma_varint_len(a);
    lemma_varint_len(b);
    assert(s1 =~= seq![h] + (varint(a) + q1));
    assert(s2 =~= seq![h] + (varint(b) + q2));
    let t1 = varint(a) + q1;
    let t2 = varint(b) + q2;
    assert(t1 =~= t2) by {
        assert forall|k: int| 0 <= k < t1.len() implies t1[k] == t2[k] by {
            assert(t1[k] == s1[k + 1]);
            assert(t2[k] == s2[k + 1]);
        }
        assert(t1.len() == t2.len());
    }
    lemma_varint_prefix_free(a, b, q1, q2);
}

/// Sample buffers of equal length with equal byte regions are equal.
pub proof fn lemma_samples_bytes_injective(d1: Seq<u32>, d2: Seq<u32>)
    requires
        d1.len() == d2.len(),
        samples_bytes(d1) == samples_bytes(d2),
    ensures
        d1 == d2,
    decreases d1.len(),
{
    if d1.len() == 0 {
        assert(d1 =~= d2);
    } else {
        let s1 = samples_bytes(d1);
        let s2 = samples_bytes(d2);
        let x = d1[0];
        let y = d2[0];
        lemma_samples_bytes_len(d1.drop_first());
        lemma_samples_bytes_len(d2.drop_first());
        assert(le4(x)[0] == s1[0] && le4(x)[1] == s1[1] && le4(x)[2] == s1[2] && le4(x)[3]
            == s1[3]);
        assert(le4(y)[0] == s2[0] && le4(y)[1] == s2[1] && le4(y)[2] == s2[2] && le4(y)[3]
            == s2[3]);
        assert(x == y) by (bit_vector)
            requires
                (x & 0xff) as u8 == (y & 0xff) as u8,
                ((x >> 8) & 0xff) as u8 == ((y >> 8) & 0xff) as u8,
                ((x >> 16) & 0xff) as u8 == ((y >> 16) & 0xff) as u8,
                ((x >> 24) & 0xff) as u8 == ((y >> 24) & 0xff) as u8,
        ;
        assert(samples_bytes(d1.drop_first()) =~= samples_bytes(d2.drop_first())) by {
            assert forall|k: int|
                0 <= k < samples_bytes(d1.drop_first()).len() implies samples_bytes(
                d1.drop_first(),
            )[k] == samples_bytes(d2.drop_first())[k] by {
                assert(samples_bytes(d1.drop_first())[k] == s1[k + 4]);
                assert(samples_bytes(d2.drop_first())[k] == s2[k + 4]);
            }
        }
        lemma_samples_bytes_injective(d1.drop_first(), d2.drop_first());
        assert(d1 =~= d2) by {
            assert forall|k: int| 1 <= k < d1.len() implies d1[k] == d2[k] by {
                assert(d1[k] == d1.drop_first()[k - 1]);
                assert(d2[k] == d2.drop_first()[k - 1]);
            }
        }
    }
}

/// A well-formed audio message has exactly one wire encoding: equal
/// encodings come from equal messages.
pub proof fn lemma_chunk_bytes_injective(c1: AudioChunkModel, c2: AudioChunkModel)
    requires
        wf_chunk(c1),
        wf_chunk(c2),
        chunk_bytes(c1) == chunk_bytes(c2),
    ensures
        c1 == c2,
{
    lemma_chunk_bytes_nested(c1);
    lemma_chunk_bytes_nested(c2);
    lemma_field_prefix_free(0x08, c1.sample_rate as u64, c2.sample_rate as u64, rest1(c1), rest1(c2));
    lemma_field_prefix_free(0x10, c1.sample_size as u64, c2.sample_size as u64, rest2(c1), rest2(c2));
    lemma_field_prefix_free(0x18, c1.channels as u64, c2.channels as u64, rest3(c1), rest3(c2));
    lemma_field_prefix_free(0x20, sign_value(c1), sign_value(c2), rest4(c1), rest4(c2));
    lemma_field_prefix_free(0x28, c1.byte_order as u64, c2.byte_order as u64, rest5(c1), rest5(c2));
    lemma_field_prefix_free(
        0x32,
        c1.data.len() as u64,
        c2.data.len() as u64,
        samples_bytes(c1.data),
        samples_bytes(c2.data),
    );
    lemma_samples_bytes_injective(c1.data, c2.data);
}

} // verus!\n