//! Fixed-width frames: UTF-8 text, left-aligned and padded with zero bytes.

use vstd::prelude::*;
use vstd::utf8::*;
use vstd::string::*;

verus! {

/// Why a text could not be framed, or a frame could not be read back.
#[derive(Debug, Clone, Copy, PartialEq, Eq, Structural)]
pub enum FrameError {
    /// The text's UTF-8 encoding does not fit: it needs at least the frame width.
    FrameTooLarge,
    /// What remains of the frame once padding is removed is not UTF-8.
    InvalidEncoding,
}

/// Holds of the bytes that carry text: every byte but the zero padding.
pub open spec fn is_payload() -> spec_fn(u8) -> bool {
    |b: u8| b != 0u8
}

/// The bytes of a frame that are not padding.
pub open spec fn strip_padding(frame: Seq<u8>) -> Seq<u8> {
    frame.filter(is_payload())
}

/// `text`'s bytes followed by zero bytes up to `width`.
pub open spec fn padded(bytes: Seq<u8>, width: nat) -> Seq<u8> {
    bytes + Seq::new((width - bytes.len()) as nat, |i: int| 0u8)
}

/// Relies on `std::str::from_utf8`: it succeeds exactly on valid UTF-8, and
/// the text it gives back is what those bytes encode.
#[verifier::external_body]
pub(crate) fn utf8_text(bytes: &[u8]) -> (r: Option<String>)
    ensures
        r is Some <==> valid_utf8(bytes@),
        r is Some ==> r->0@ == decode_utf8(bytes@),
{
    std::str::from_utf8(bytes).ok().map(|s| s.to_string())
}

/// Encodes `text` into a frame of `width` bytes.
pub fn encode(text: &str, width: usize) -> (r: Result<Vec<u8>, FrameError>)
    ensures
        encode_utf8(text@).len() >= width <==> r == Err::<Vec<u8>, FrameError>(
            FrameError::FrameTooLarge,
        ),
        encode_utf8(text@).len() < width ==> r is Ok,
        r is Ok ==> r->Ok_0@ == padded(encode_utf8(text@), width as nat),
{
    let bytes = text.as_bytes();
    if bytes.len() >= width {
        return Err(FrameError::FrameTooLarge);
    }
    let mut out: Vec<u8> = Vec::with_capacity(width);
    let mut i: usize = 0;
    while i < bytes.len()
        invariant
            i <= bytes@.len(),
            bytes@ == encode_utf8(text@),
            out@ == bytes@.subrange(0, i as int),
        decreases bytes@.len() - i,
    {
        out.push(bytes[i]);
        i = i + 1;
    }
    while i < width
        invariant
            bytes@.len() <= i <= width,
            bytes@ == encode_utf8(text@),
            out@ == padded(bytes@, i as nat),
        decreases width - i,
    {
        out.push(0u8);
        i = i + 1;
        assert(out@ =~= padded(bytes@, i as nat));
    }
    assert(out@ =~= padded(bytes@, width as nat));
    Ok(out)
}

/// Decodes a frame: drops every zero byte, then reads the rest as UTF-8.
pub fn decode(frame: &[u8]) -> (r: Result<String, FrameError>)
    ensures
        r is Ok <==> valid_utf8(strip_padding(frame@)),
        r is Ok ==> r->Ok_0@ == decode_utf8(strip_padding(frame@)),
        r is Err ==> r == Err::<String, FrameError>(FrameError::InvalidEncoding),
{
    let mut kept: Vec<u8> = Vec::new();
    let mut i: usize = 0;
    while i < frame.len()
        invariant
            i <= frame@.len(),
            kept@ == strip_padding(frame@.subrange(0, i as int)),
        decreases frame@.len() - i,
    {
        assert(frame@.subrange(0, i + 1) =~= frame@.subrange(0, i as int).push(frame@[i as int]));
        proof {
            frame@.subrange(0, i as int).lemma_filter_push(frame@[i as int], is_payload());
        }
        if frame[i] != 0 {
            kept.push(frame[i]);
        }
        i = i + 1;
    }
    assert(frame@.subrange(0, frame@.len() as int) =~= frame@);
    match utf8_text(kept.as_slice()) {
        Some(s) => Ok(s),
        None => Err(FrameError::InvalidEncoding),
    }
}

proof fn lemma_strip_without_zeros(bytes: Seq<u8>)
    requires
        !bytes.contains(0u8),
    ensures
        strip_padding(bytes) == bytes,
    decreases bytes.len(),
{
    if bytes.len() > 0 {
        let init = bytes.drop_last();
        assert(!init.contains(0u8)) by {
            if init.contains(0u8) {
                let j = choose|j: int| 0 <= j < init.len() && init[j] == 0u8;
                assert(bytes[j] == 0u8);
            }
        }
        lemma_strip_without_zeros(init);
        assert(init.push(bytes.last()) =~= bytes);
        init.lemma_filter_push(bytes.last(), is_payload());
        assert(bytes[bytes.len() - 1] != 0u8);
    }
}

proof fn lemma_strip_padding_tail(bytes: Seq<u8>, k: nat)
    ensures
        strip_padding(bytes + Seq::new(k, |i: int| 0u8)) == strip_padding(bytes),
    decreases k,
{
    if k > 0 {
        let shorter = bytes + Seq::new((k - 1) as nat, |i: int| 0u8);
        lemma_strip_padding_tail(bytes, (k - 1) as nat);
        assert(shorter.push(0u8) =~= bytes + Seq::new(k, |i: int| 0u8));
        shorter.lemma_filter_push(0u8, is_payload());
    }
}

/// Decoding the frame that `encode` makes gives back the text, for every
/// text whose UTF-8 encoding is shorter than the width and holds no zero
/// byte.
pub proof fn lemma_decode_encode(text: Seq<char>, width: nat)
    ensures
        encode_utf8(text).len() < width && !encode_utf8(text).contains(0u8) ==> {
            let frame = padded(encode_utf8(text), width);
            &&& frame.len() == width
            &&& valid_utf8(strip_padding(frame))
            &&& decode_utf8(strip_padding(frame)) == text
        },
{
    let bytes = encode_utf8(text);
    if bytes.len() < width && !bytes.contains(0u8) {
        lemma_strip_padding_tail(bytes, (width - bytes.len()) as nat);
        lemma_strip_without_zeros(bytes);
        encode_utf8_valid_utf8(text);
        encode_utf8_decode_utf8(text);
    }
}

} // verus!
