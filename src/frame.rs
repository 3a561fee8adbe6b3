use vstd::prelude::*;
use flate2::read::GzDecoder;
use flate2::write::GzEncoder;
use flate2::Compression;
use std::io::Read;
use std::io::Write;
use crate::error::KvError;

verus! {

/// Bytes taken by a frame header.
pub const LEN_LEN: usize = 4;
/// The largest body, in bytes, that a header can describe.
pub const MAX_FRAME: usize = 0x7fff_ffff;
/// Bodies longer than this are compressed.
pub const COMPRESSION_LIMIT: usize = 1436;
/// The header bit that marks a compressed body.
pub const COMPRESSION_BIT: u32 = 0x8000_0000;

/// The gzip stream that the codec produces for `data`.
pub uninterp spec fn gzip_of(data: Seq<u8>) -> Seq<u8>;

/// Relies on flate2::write::GzEncoder at the default level: on success the
/// result is the gzip stream of `data`.
#[verifier::external_body]
fn gzip(data: &[u8]) -> (r: Result<Vec<u8>, String>)
    ensures
        r matches Ok(c) ==> c@ == gzip_of(data@),
{
    let mut encoder = GzEncoder::new(Vec::new(), Compression::default());
    encoder.write_all(data).map_err(|e| e.to_string())?;
    encoder.finish().map_err(|e| e.to_string())
}

/// Whether `r`, the outcome of decoding `data`, holds the bytes that `data`
/// is the gzip stream of, wherever there are such bytes.
pub open spec fn inflates_to_source(data: Seq<u8>, r: Result<Vec<u8>, String>) -> bool {
    forall|x: Seq<u8>| data == #[trigger] gzip_of(x) ==> (r matches Ok(d) && d@ == x)
}

/// What the decoder makes of `data`: the bytes it holds, or `None` where
/// the decoder rejects it.
pub uninterp spec fn gunzip_of(data: Seq<u8>) -> Option<Seq<u8>>;

/// Relies on flate2::read::GzDecoder: the outcome depends on the bytes alone,
/// and decoding the gzip stream made from `x` gives `x` back.
#[verifier::external_body]
fn gunzip(data: &[u8]) -> (r: Result<Vec<u8>, String>)
    ensures
        match r {
            Ok(d) => gunzip_of(data@) == Some(d@),
            Err(_) => gunzip_of(data@) is None,
        },
        inflates_to_source(data@, r),
{
    let mut out = Vec::new();
    GzDecoder::new(data).read_to_end(&mut out).map_err(|e| e.to_string())?;
    Ok(out)
}

/// The four big-endian bytes of a header.
pub open spec fn header_bytes(h: u32) -> Seq<u8> {
    seq![(h >> 24u32) as u8, ((h >> 16u32) & 0xffu32) as u8, ((h >> 8u32) & 0xffu32) as u8, (h & 0xffu32) as u8]
}

/// The header read from the first four bytes of `b`, big-endian.
pub open spec fn header_value(b: Seq<u8>) -> u32
    recommends
        b.len() >= 4,
{
    ((b[0] as u32) << 24u32) | ((b[1] as u32) << 16u32) | ((b[2] as u32) << 8u32) | (b[3] as u32)
}

/// The body length that a header declares.
pub open spec fn header_len(h: u32) -> u32 {
    h & 0x7fff_ffffu32
}

/// Whether a header marks its body as compressed.
pub open spec fn header_compressed(h: u32) -> bool {
    h & COMPRESSION_BIT != 0
}

/// The frame that carries `body`: raw up to the compression limit, gzip above it.
pub open spec fn frame_of(body: Seq<u8>) -> Seq<u8> {
    if body.len() <= COMPRESSION_LIMIT {
        header_bytes(body.len() as u32) + body
    } else {
        header_bytes((gzip_of(body).len() as u32) | COMPRESSION_BIT) + gzip_of(body)
    }
}

/// Whether `body` fits in a frame: its length, and that of its gzip stream
/// where it is compressed, stay within the limit.
pub open spec fn fits_frame(body: Seq<u8>) -> bool {
    &&& body.len() <= MAX_FRAME
    &&& body.len() > COMPRESSION_LIMIT ==> gzip_of(body).len() <= MAX_FRAME
}

/// Whether `buf` starts with a whole frame: header and the body it declares.
pub open spec fn frame_complete(buf: Seq<u8>) -> bool {
    buf.len() >= LEN_LEN && LEN_LEN + header_len(header_value(buf)) <= buf.len()
}

/// The bytes that the frame at the start of `buf` spans.
pub open spec fn frame_size(buf: Seq<u8>) -> nat {
    (LEN_LEN + header_len(header_value(buf))) as nat
}

/// The body bytes, as stored, of the frame at the start of `buf`.
pub open spec fn frame_payload(buf: Seq<u8>) -> Seq<u8> {
    buf.subrange(LEN_LEN as int, frame_size(buf) as int)
}

/// Whether the frame at the start of `buf` carries `body`.
pub open spec fn frame_carries(buf: Seq<u8>, body: Seq<u8>) -> bool {
    &&& frame_complete(buf)
    &&& if header_compressed(header_value(buf)) {
        frame_payload(buf) == gzip_of(body)
    } else {
        frame_payload(buf) == body
    }
}

/// Split a header into the body length it declares and its compression flag.
pub fn decode_header(header: u32) -> (r: (u32, bool))
    ensures
        r.0 == header_len(header),
        r.1 == header_compressed(header),
        r.0 <= MAX_FRAME,
{
    let len = header & 0x7fff_ffffu32;
    let compressed = header & COMPRESSION_BIT != 0;
    assert(header & 0x7fff_ffffu32 <= 0x7fff_ffffu32) by (bit_vector);
    (len, compressed)
}

/// The header held in the first four bytes of `buf`.
pub fn header_of(buf: &[u8]) -> (r: u32)
    requires
        buf@.len() >= LEN_LEN,
    ensures
        r == header_value(buf@),
{
    ((buf[0] as u32) << 24u32) | ((buf[1] as u32) << 16u32) | ((buf[2] as u32) << 8u32) | (buf[3] as u32)
}

fn push_header(out: &mut Vec<u8>, h: u32)
    ensures
        final(out)@ == old(out)@ + header_bytes(h),
{
    out.push((h >> 24u32) as u8);
    out.push(((h >> 16u32) & 0xffu32) as u8);
    out.push(((h >> 8u32) & 0xffu32) as u8);
    out.push((h & 0xffu32) as u8);
    assert(final(out)@ =~= old(out)@ + header_bytes(h));
}

fn push_bytes(out: &mut Vec<u8>, src: &[u8], start: usize, end: usize)
    requires
        start <= end <= src@.len(),
    ensures
        final(out)@ == old(out)@ + src@.subrange(start as int, end as int),
{
    let mut i: usize = start;
    while i < end
        invariant
            start <= i <= end <= src@.len(),
            out@ == old(out)@ + src@.subrange(start as int, i as int),
        decreases end - i,
    {
        out.push(src[i]);
        assert(src@.subrange(start as int, i + 1) =~= src@.subrange(start as int, i as int).push(
            src@[i as int],
        ));
        i = i + 1;
    }
}

proof fn lemma_header_round_trip(h: u32)
    ensures
        header_value(header_bytes(h)) == h,
{
    let b = header_bytes(h);
    assert(b[0] == (h >> 24u32) as u8);
    assert(b[1] == ((h >> 16u32) & 0xffu32) as u8);
    assert(b[2] == ((h >> 8u32) & 0xffu32) as u8);
    assert(b[3] == (h & 0xffu32) as u8);
    assert((((h >> 24u32) as u8 as u32) << 24u32) | ((((h >> 16u32) & 0xffu32) as u8 as u32) << 16u32)
        | ((((h >> 8u32) & 0xffu32) as u8 as u32) << 8u32) | ((h & 0xffu32) as u8 as u32) == h)
        by (bit_vector);
}

proof fn lemma_header_fields(len: u32, compressed: bool)
    requires
        len <= MAX_FRAME,
    ensures
        header_len(if compressed { len | COMPRESSION_BIT } else { len }) == len,
        header_compressed(if compressed { len | COMPRESSION_BIT } else { len }) == compressed,
{
    assert(len <= 0x7fff_ffffu32 ==> (len | 0x8000_0000u32) & 0x7fff_ffffu32 == len) by (bit_vector);
    assert(len <= 0x7fff_ffffu32 ==> (len | 0x8000_0000u32) & 0x8000_0000u32 != 0) by (bit_vector);
    assert(len <= 0x7fff_ffffu32 ==> len & 0x7fff_ffffu32 == len) by (bit_vector);
    assert(len <= 0x7fff_ffffu32 ==> len & 0x8000_0000u32 == 0) by (bit_vector);
}

/// Encode one frame around a serialized body. A body up to the compression
/// limit goes out as it is; a longer one is gzip-compressed and flagged.
/// The body length, not the frame length, is held against the limits.
pub fn encode_frame(body: &Vec<u8>) -> (r: Result<Vec<u8>, KvError>)
    ensures
        body@.len() > MAX_FRAME ==> r == Err::<Vec<u8>, KvError>(KvError::FrameTooLarge),
        body@.len() <= COMPRESSION_LIMIT ==> (r matches Ok(f) && f@ == frame_of(body@)),
        r matches Ok(f) ==> f@ == frame_of(body@) && fits_frame(body@),
        r matches Err(e) ==> (e == KvError::FrameTooLarge && !fits_frame(body@)) || (
        body@.len() > COMPRESSION_LIMIT && e is Internal),
{
    let size = body.len();
    if size > MAX_FRAME {
        return Err(KvError::FrameTooLarge);
    }
    let mut out: Vec<u8> = Vec::new();
    if size > COMPRESSION_LIMIT {
        match gzip(body.as_slice()) {
            Ok(payload) => {
                if payload.len() > MAX_FRAME {
                    return Err(KvError::FrameTooLarge);
                }
                push_header(&mut out, (payload.len() as u32) | COMPRESSION_BIT);
                push_bytes(&mut out, payload.as_slice(), 0, payload.len());
                assert(payload@.subrange(0, payload@.len() as int) =~= payload@);
                Ok(out)
            },
            Err(e) => Err(KvError::Internal(e)),
        }
    } else {
        push_header(&mut out, size as u32);
        push_bytes(&mut out, body.as_slice(), 0, size);
        assert(body@.subrange(0, size as int) =~= body@);
        Ok(out)
    }
}

/// Decode the frame at the start of `buf` into its body bytes, decompressed
/// where the header says so, and the number of bytes the frame spans.
/// Bytes after the frame are left alone.
pub fn decode_frame(buf: &Vec<u8>) -> (r: Result<(Vec<u8>, usize), KvError>)
    ensures
        !frame_complete(buf@) ==> r == Err::<(Vec<u8>, usize), KvError>(KvError::FrameTruncated),
        frame_complete(buf@) && !header_compressed(header_value(buf@)) ==> (r matches Ok(
            (b, n),
        ) && b@ == frame_payload(buf@) && n == frame_size(buf@)),
        frame_complete(buf@) && header_compressed(header_value(buf@)) ==> match gunzip_of(
            frame_payload(buf@),
        ) {
            Some(body) => r matches Ok((b, n)) && b@ == body && n == frame_size(buf@),
            None => r matches Err(e) && e is Internal,
        },
        forall|body: Seq<u8>|
            #[trigger] frame_carries(buf@, body) ==> (r matches Ok((b, n)) && b@ == body && n
                == frame_size(buf@)),
{
    if buf.len() < LEN_LEN {
        return Err(KvError::FrameTruncated);
    }
    let header = header_of(buf.as_slice());
    let (len, compressed) = decode_header(header);
    if len as usize > buf.len() - LEN_LEN {
        return Err(KvError::FrameTruncated);
    }
    let end = LEN_LEN + len as usize;
    let mut payload: Vec<u8> = Vec::new();
    push_bytes(&mut payload, buf.as_slice(), LEN_LEN, end);
    assert(payload@ =~= frame_payload(buf@));
    if compressed {
        match gunzip(payload.as_slice()) {
            Ok(body) => Ok((body, end)),
            Err(e) => Err(KvError::Internal(e)),
        }
    } else {
        Ok((payload, end))
    }
}

/// A frame made by `encode_frame`, with any bytes after it, carries the body
/// it was made from and spans exactly its own length.
pub proof fn lemma_frame_round_trip(body: Seq<u8>, rest: Seq<u8>)
    requires
        fits_frame(body),
    ensures
        frame_carries(frame_of(body) + rest, body),
        frame_size(frame_of(body) + rest) == frame_of(body).len(),
{
    let buf = frame_of(body) + rest;
    let compressed = body.len() > COMPRESSION_LIMIT;
    let payload = if compressed { gzip_of(body) } else { body };
    let h = if compressed { (payload.len() as u32) | COMPRESSION_BIT } else { payload.len() as u32 };
    lemma_header_round_trip(h);
    lemma_header_fields(payload.len() as u32, compressed);
    assert(frame_of(body) == header_bytes(h) + payload);
    assert(buf.subrange(0, 4) =~= header_bytes(h));
    assert(header_value(buf) == header_value(header_bytes(h)));
    assert(buf.subrange(4, 4 + payload.len() as int) =~= payload);
}

/// The compression flag of an encoded frame is set exactly when the body is
/// longer than the compression limit.
pub proof fn lemma_compression_threshold(body: Seq<u8>)
    requires
        fits_frame(body),
    ensures
        header_compressed(header_value(frame_of(body))) == (body.len() > COMPRESSION_LIMIT),
        header_len(header_value(frame_of(body))) == if body.len() > COMPRESSION_LIMIT {
            gzip_of(body).len()
        } else {
            body.len()
        },
{
    lemma_frame_round_trip(body, Seq::empty());
    let compressed = body.len() > COMPRESSION_LIMIT;
    let payload = if compressed { gzip_of(body) } else { body };
    let h = if compressed { (payload.len() as u32) | COMPRESSION_BIT } else { payload.len() as u32 };
    lemma_header_round_trip(h);
    lemma_header_fields(payload.len() as u32, compressed);
    assert(frame_of(body) + Seq::empty() =~= frame_of(body));
    assert(frame_of(body).subrange(0, 4) =~= header_bytes(h));
}

} // verus!
