//! The envelope codec: a deterministic, self-describing framing for one
//! message, holding the author identity and an opaque content payload.
//!
//! The wire layout is two length-prefixed fields: an eight-byte little-endian
//! length followed by the author bytes, then the same for the content bytes.
//! Decoding accepts exactly the buffers that encoding produces.

use vstd::prelude::*;

verus! {

use vstd::bytes::spec_u64_from_le_bytes;
use vstd::bytes::spec_u64_to_le_bytes;
use vstd::bytes::u64_from_le_bytes;
use vstd::bytes::u64_to_le_bytes;
use vstd::bytes::lemma_auto_spec_u64_to_from_le_bytes;
use vstd::slice::slice_subrange;
use vstd::slice::slice_to_vec;
use vstd::string::StrSliceExecFns;
use vstd::utf8::encode_utf8;

/// A decoded envelope: the author identity and the content payload, both as
/// raw bytes. Either field may be empty and may hold arbitrary bytes.
#[derive(Debug, Clone, PartialEq, Eq)]
pub struct Envelope {
    pub author: Vec<u8>,
    pub content: Vec<u8>,
}

/// Why a buffer failed to decode.
#[derive(Debug, Clone, Copy, PartialEq, Eq, Structural)]
pub enum DecodeError {
    /// The buffer ends before the bytes its length fields announce.
    Truncated,
    /// The buffer holds bytes beyond the announced fields.
    Trailing,
}

/// The bytes that encode an author / content pair: each field is preceded by
/// its length as eight little-endian bytes.
pub open spec fn spec_encode(author: Seq<u8>, content: Seq<u8>) -> Seq<u8> {
    spec_u64_to_le_bytes(author.len() as u64) + author
        + spec_u64_to_le_bytes(content.len() as u64) + content
}

/// The author / content pair that a buffer encodes, or `None` where the
/// buffer is not an encoding of any pair.
pub open spec fn spec_decode(b: Seq<u8>) -> Option<(Seq<u8>, Seq<u8>)> {
    if b.len() < 8 {
        None
    } else {
        let la = spec_u64_from_le_bytes(b.subrange(0, 8)) as int;
        if b.len() < 16 + la {
            None
        } else {
            let lc = spec_u64_from_le_bytes(b.subrange(8 + la, 16 + la)) as int;
            if b.len() != 16 + la + lc {
                None
            } else {
                Some((b.subrange(8, 8 + la), b.subrange(16 + la, 16 + la + lc)))
            }
        }
    }
}

/// The error reported for a buffer that decodes to nothing: `Truncated` where
/// bytes are missing, `Trailing` where bytes are left over.
pub open spec fn spec_decode_err(b: Seq<u8>) -> DecodeError {
    if b.len() < 8 {
        DecodeError::Truncated
    } else {
        let la = spec_u64_from_le_bytes(b.subrange(0, 8)) as int;
        if b.len() < 16 + la {
            DecodeError::Truncated
        } else {
            let lc = spec_u64_from_le_bytes(b.subrange(8 + la, 16 + la)) as int;
            if b.len() < 16 + la + lc {
                DecodeError::Truncated
            } else {
                DecodeError::Trailing
            }
        }
    }
}

/// Encode an author / content pair into one self-describing buffer.
pub fn encode(author: &Vec<u8>, content: &Vec<u8>) -> (r: Vec<u8>)
    ensures
        r@ == spec_encode(author@, content@),
{
    let mut out = u64_to_le_bytes(author.len() as u64);
    out.extend_from_slice(author.as_slice());
    let mut content_header = u64_to_le_bytes(content.len() as u64);
    out.append(&mut content_header);
    out.extend_from_slice(content.as_slice());
    proof {
        assert(out@ =~= spec_encode(author@, content@));
    }
    out
}

/// Decode a buffer into an envelope; report exactly why a buffer that
/// encodes nothing is rejected.
pub fn decode(buf: &Vec<u8>) -> (r: Result<Envelope, DecodeError>)
    ensures
        match r {
            Ok(env) => spec_decode(buf@) == Some((env.author@, env.content@)),
            Err(e) => spec_decode(buf@) is None && e == spec_decode_err(buf@),
        },
{
    let n = buf.len();
    if n < 8 {
        return Err(DecodeError::Truncated);
    }
    let la64 = u64_from_le_bytes(slice_subrange(buf.as_slice(), 0, 8));
    if la64 > (n - 8) as u64 {
        return Err(DecodeError::Truncated);
    }
    let la = la64 as usize;
    if n - 8 - la < 8 {
        return Err(DecodeError::Truncated);
    }
    let lc64 = u64_from_le_bytes(slice_subrange(buf.as_slice(), 8 + la, 16 + la));
    if lc64 > (n - 16 - la) as u64 {
        return Err(DecodeError::Truncated);
    }
    let lc = lc64 as usize;
    if n - 16 - la - lc > 0 {
        return Err(DecodeError::Trailing);
    }
    let author = slice_to_vec(slice_subrange(buf.as_slice(), 8, 8 + la));
    let content = slice_to_vec(slice_subrange(buf.as_slice(), 16 + la, 16 + la + lc));
    Ok(Envelope { author, content })
}

/// Decoding inverts encoding: every author / content pair whose field
/// lengths a length header can carry comes back from its own encoding
/// unchanged.
pub proof fn lemma_round_trip(author: Seq<u8>, content: Seq<u8>)
    requires
        author.len() <= u64::MAX,
        content.len() <= u64::MAX,
    ensures
        spec_decode(spec_encode(author, content)) == Some((author, content)),
{
    lemma_auto_spec_u64_to_from_le_bytes();
    let b = spec_encode(author, content);
    let la = author.len() as int;
    let lc = content.len() as int;
    assert(b.subrange(0, 8) =~= spec_u64_to_le_bytes(author.len() as u64));
    assert(b.subrange(8 + la, 16 + la) =~= spec_u64_to_le_bytes(content.len() as u64));
    assert(b.subrange(8, 8 + la) =~= author);
    assert(b.subrange(16 + la, 16 + la + lc) =~= content);
}

/// Decoding is canonical: a buffer that decodes at all is exactly the
/// encoding of what it decodes to, so no two distinct buffers decode to the
/// same pair.
pub proof fn lemma_decode_canonical(b: Seq<u8>, author: Seq<u8>, content: Seq<u8>)
    requires
        spec_decode(b) == Some((author, content)),
    ensures
        b == spec_encode(author, content),
{
    lemma_auto_spec_u64_to_from_le_bytes();
    let la = spec_u64_from_le_bytes(b.subrange(0, 8)) as int;
    let lc = spec_u64_from_le_bytes(b.subrange(8 + la, 16 + la)) as int;
    assert(b.len() == 16 + la + lc);
    assert(author == b.subrange(8, 8 + la));
    assert(content == b.subrange(16 + la, 16 + la + lc));
    assert(b.subrange(0, 8).len() == 8);
    assert(spec_u64_to_le_bytes(author.len() as u64) == b.subrange(0, 8));
    assert(b.subrange(8 + la, 16 + la).len() == 8);
    assert(spec_u64_to_le_bytes(content.len() as u64) == b.subrange(8 + la, 16 + la));
    assert(spec_encode(author, content) =~= b);
}

/// The synthesized envelope handed to lifecycle events: the connection's own
/// address as author, a short note as content.
pub fn lifecycle_note(address: &String, note: &str) -> (r: Envelope)
    ensures
        r.author@ == encode_utf8(address@),
        r.content@ == encode_utf8(note@),
{
    Envelope { author: address.as_str().as_bytes_vec(), content: note.as_bytes_vec() }
}

/// An outgoing message: a textual author identity and a byte payload. Its
/// wire form carries the author as UTF-8 bytes.
pub struct BakaMessage {
    pub author: String,
    pub content: Vec<u8>,
}

impl BakaMessage {
    /// Encode this message for the wire.
    pub fn build(&self) -> (r: Vec<u8>)
        ensures
            r@ == spec_encode(encode_utf8(self.author@), self.content@),
    {
        let author_bytes = self.author.as_str().as_bytes_vec();
        encode(&author_bytes, &self.content)
    }
}

} // verus!
