use crate::protocol::types::{
    copy_range, read_varint, spec_encode_varint, spec_frame_bytes, spec_read_varint,
    spec_scan_frame, write_bytes, write_varint, PacketFrame, ProtocolError, ProtocolResult,
};
use vstd::prelude::*;

verus! {

/// The zlib stream that `flate2` makes of `data` at its default level, or
/// nothing where its encoder reports an error.
pub uninterp spec fn zlib_compressed(data: Seq<u8>) -> Option<Seq<u8>>;

/// The bytes that `flate2` reads out of the zlib stream `data`, up to the
/// first `limit` of them, or nothing where its decoder reports an error.
pub uninterp spec fn zlib_inflated(data: Seq<u8>, limit: u64) -> Option<Seq<u8>>;

/// Whether `r` holds the bytes that `expected` names, or nothing as it does.
pub open spec fn bytes_are(r: Option<Vec<u8>>, expected: Option<Seq<u8>>) -> bool {
    match (r, expected) {
        (Some(bytes), Some(named)) => bytes@ == named,
        (None, None) => true,
        _ => false,
    }
}

/// `flate2::write::ZlibEncoder` at the default level, given `data` in one
/// piece and finished: the zlib stream, or nothing where the encoder reports
/// an error. Both depend on `data` alone.
#[verifier::external_body]
fn zlib_compress(data: &[u8]) -> (r: Option<Vec<u8>>)
    ensures
        bytes_are(r, zlib_compressed(data@)),
{
    let mut encoder = flate2::write::ZlibEncoder::new(Vec::new(), flate2::Compression::default());
    match std::io::Write::write_all(&mut encoder, data) {
        Ok(()) => encoder.finish().ok(),
        Err(_) => None,
    }
}

/// `flate2::read::ZlibDecoder` over `data`, read to its end or until `limit`
/// bytes have come out: those bytes, or nothing where the decoder reports an
/// error, as it does on bytes that are no zlib stream. Both depend on `data`
/// and `limit` alone.
#[verifier::external_body]
fn zlib_inflate(data: &[u8], limit: u64) -> (r: Option<Vec<u8>>)
    ensures
        bytes_are(r, zlib_inflated(data@, limit)),
{
    let mut body = Vec::new();
    let mut stream = std::io::Read::take(flate2::read::ZlibDecoder::new(data), limit);
    match std::io::Read::read_to_end(&mut stream, &mut body) {
        Ok(_) => Some(body),
        Err(_) => None,
    }
}

/// What is compressed of a frame: its identifier, then its payload.
pub open spec fn spec_body(id: i32, payload: Seq<u8>) -> Seq<u8> {
    spec_encode_varint(id) + payload
}

/// The bytes of a frame under a compression threshold, where `packed` is
/// the compressed body. A payload that meets the threshold travels
/// compressed, behind the length of the body; a shorter one travels as it
/// is, behind the marker 0. In both cases the total length comes first.
pub open spec fn spec_compressed_frame(
    id: i32,
    payload: Seq<u8>,
    threshold: i32,
    packed: Seq<u8>,
) -> Seq<u8> {
    if payload.len() >= threshold {
        spec_frame_bytes(spec_body(id, payload).len() as i32, packed)
    } else {
        spec_frame_bytes(0, spec_body(id, payload))
    }
}

/// The frame that a body holds: the identifier at its front, the payload
/// behind it.
pub open spec fn spec_split_body(body: Seq<u8>) -> ProtocolResult<(i32, Seq<u8>)> {
    match spec_read_varint(body, 0) {
        Err(e) => Err(e),
        Ok((id, start)) => Ok((id, body.subrange(start, body.len() as int))),
    }
}

/// What a compressed frame with the marker `marker` and the bytes `data`
/// holds, where `inflated` is what decompression made of `data`, if it made
/// anything. Under the marker 0 `data` is the body itself. Under any other
/// marker the body is `inflated` and the marker its length; a negative
/// marker, a failed decompression and a wrong length are invalid. To tell a
/// wrong length, one byte more than the marker says is enough: see
/// `spec_inflate_limit`.
pub open spec fn spec_open_compressed(marker: i32, data: Seq<u8>, inflated: Option<Seq<u8>>)
    -> ProtocolResult<(i32, Seq<u8>)> {
    if marker == 0 {
        spec_split_body(data)
    } else if marker < 0 {
        Err(ProtocolError::InvalidPacket)
    } else {
        match inflated {
            None => Err(ProtocolError::InvalidPacket),
            Some(body) => if body.len() != marker {
                Err(ProtocolError::InvalidPacket)
            } else {
                spec_split_body(body)
            },
        }
    }
}

/// The bytes of a frame under a compression threshold. There are none where
/// the payload is too long for its length to be written. A payload below
/// the threshold travels as it is, behind the marker 0. A payload at or
/// above it travels compressed: there are bytes exactly where compression
/// gives a stream that is not too long for its length to be written.
pub open spec fn spec_encode_compressed(id: i32, payload: Seq<u8>, threshold: i32) -> Option<
    Seq<u8>,
> {
    if payload.len() + 10 > i32::MAX {
        None
    } else if payload.len() < threshold {
        Some(spec_frame_bytes(0, spec_body(id, payload)))
    } else {
        match zlib_compressed(spec_body(id, payload)) {
            Some(packed) => if packed.len() + 5 <= i32::MAX {
                Some(spec_compressed_frame(id, payload, threshold, packed))
            } else {
                None
            },
            None => None,
        }
    }
}

/// What a compressed frame holds that lies at the front of a buffer with
/// the marker `marker` and the bytes `data`: what `spec_open_compressed`
/// makes of them and of what decompression makes of `data`.
pub open spec fn spec_opened(marker: i32, data: Seq<u8>) -> ProtocolResult<(i32, Seq<u8>)> {
    spec_open_compressed(marker, data, zlib_inflated(data, spec_inflate_limit(marker)))
}

/// How many bytes are asked of decompression under the marker `marker`: one
/// more than the marker says, so that a stream that is too long shows.
pub open spec fn spec_inflate_limit(marker: i32) -> u64 {
    if marker > 0 {
        (marker + 1) as u64
    } else {
        0
    }
}

/// Whether `r` is the frame that `expected` describes, or its error.
pub open spec fn frame_is(r: ProtocolResult<PacketFrame>, expected: ProtocolResult<(i32, Seq<u8>)>)
    -> bool {
    match (r, expected) {
        (Ok(frame), Ok((id, payload))) => frame.id == id && frame.data@ == payload,
        (Err(e), Err(f)) => e == f,
        _ => false,
    }
}

impl PacketFrame {
    /// What is compressed of this frame: its identifier, then its payload.
    pub fn body(&self) -> (r: Vec<u8>)
        ensures
            r@ == spec_body(self.id, self.data@),
    {
        let mut body: Vec<u8> = Vec::new();
        write_varint(&mut body, self.id);
        write_bytes(&mut body, self.data.as_slice());
        assert(body@ =~= spec_body(self.id, self.data@));
        body
    }

    /// The frame that a body holds.
    pub fn from_body(body: &[u8]) -> (r: ProtocolResult<PacketFrame>)
        ensures
            frame_is(r, spec_split_body(body@)),
    {
        let (id, start) = read_varint(body, 0)?;
        Ok(PacketFrame { id, data: copy_range(body, start, body.len()) })
    }

    /// The frame as bytes under a compression threshold, given the
    /// compressed body.
    pub fn encode_compressed_with(&self, threshold: i32, packed: &[u8]) -> (bytes: Vec<u8>)
        requires
            self.data@.len() + 10 <= i32::MAX,
            packed@.len() + 5 <= i32::MAX,
        ensures
            bytes@ == spec_compressed_frame(self.id, self.data@, threshold, packed@),
    {
        let body = self.body();
        proof {
            crate::protocol::types::lemma_varint_round_trip(self.id, self.data@);
        }
        if threshold < 0 || self.data.len() >= threshold as usize {
            let ghost packed_seq = packed@;
            let outer = PacketFrame { id: body.len() as i32, data: copy_range(packed, 0, packed.len()) };
            assert(outer.data@ =~= packed_seq);
            outer.encode()
        } else {
            let outer = PacketFrame { id: 0, data: body };
            outer.encode()
        }
    }

    /// The frame as bytes under a compression threshold: see
    /// `spec_encode_compressed`.
    pub fn encode_compressed(&self, threshold: i32) -> (r: Option<Vec<u8>>)
        ensures
            bytes_are(r, spec_encode_compressed(self.id, self.data@, threshold)),
    {
        if self.data.len() > 0x7fff_fff5 {
            return None;
        }
        if threshold >= 0 && self.data.len() < threshold as usize {
            return Some(self.encode_compressed_with(threshold, &[]));
        }
        let body = self.body();
        match zlib_compress(body.as_slice()) {
            Some(packed) => {
                if packed.len() > 0x7fff_fffa {
                    None
                } else {
                    Some(self.encode_compressed_with(threshold, packed.as_slice()))
                }
            },
            None => None,
        }
    }

    /// The frame that a compressed frame holds, given its marker and bytes
    /// as `outer` and what decompression made of the bytes.
    pub fn open_compressed(outer: &PacketFrame, inflated: Option<&[u8]>) -> (r: ProtocolResult<
        PacketFrame,
    >)
        ensures
            frame_is(
                r,
                spec_open_compressed(
                    outer.id,
                    outer.data@,
                    match inflated {
                        Some(body) => Some(body@),
                        None => None,
                    },
                ),
            ),
    {
        if outer.id == 0 {
            return PacketFrame::from_body(outer.data.as_slice());
        }
        if outer.id < 0 {
            return Err(ProtocolError::InvalidPacket);
        }
        match inflated {
            None => Err(ProtocolError::InvalidPacket),
            Some(body) => {
                if body.len() != outer.id as usize {
                    Err(ProtocolError::InvalidPacket)
                } else {
                    PacketFrame::from_body(body)
                }
            },
        }
    }

    /// Takes one compressed frame off the front of `buf`. Where the front of
    /// `buf` is a whole frame, its bytes leave `buf`, and the frame that it
    /// holds is returned, or the error that it holds none; in every other
    /// case `buf` stays as it was.
    pub fn decode_compressed(buf: &mut Vec<u8>) -> (r: ProtocolResult<Option<PacketFrame>>)
        ensures
            match spec_scan_frame(old(buf)@) {
                Err(e) => r == Err::<Option<PacketFrame>, ProtocolError>(e) && final(buf)@ == old(
                    buf,
                )@,
                Ok(None) => r == Ok::<Option<PacketFrame>, ProtocolError>(None) && final(buf)@
                    == old(buf)@,
                Ok(Some((marker, start, end))) => {
                    &&& final(buf)@ == old(buf)@.subrange(end, old(buf)@.len() as int)
                    &&& match (r, spec_opened(marker, old(buf)@.subrange(start, end))) {
                        (Ok(Some(frame)), Ok((id, payload))) => frame.id == id && frame.data@
                            == payload,
                        (Err(e), Err(f)) => e == f,
                        _ => false,
                    }
                },
            },
    {
        let outer = match PacketFrame::decode(buf) {
            Err(e) => { return Err(e); },
            Ok(None) => { return Ok(None); },
            Ok(Some(outer)) => outer,
        };
        let opened = if outer.id > 0 {
            match zlib_inflate(outer.data.as_slice(), outer.id as u64 + 1) {
                Some(body) => PacketFrame::open_compressed(&outer, Some(body.as_slice())),
                None => PacketFrame::open_compressed(&outer, None),
            }
        } else {
            PacketFrame::open_compressed(&outer, None)
        };
        match opened {
            Ok(frame) => Ok(Some(frame)),
            Err(e) => Err(e),
        }
    }
}

/// A frame whose payload is below the threshold travels uncompressed, and
/// comes back as it was: identifier and payload are read back from its
/// bytes, whatever decompression would make of them.
pub proof fn lemma_uncompressed_round_trip(
    id: i32,
    payload: Seq<u8>,
    threshold: i32,
    packed: Seq<u8>,
    tail: Seq<u8>,
    inflated: Option<Seq<u8>>,
)
    requires
        payload.len() + 10 <= i32::MAX,
        payload.len() < threshold,
    ensures
        (spec_scan_frame(spec_compressed_frame(id, payload, threshold, packed) + tail) matches Ok(
            Some((marker, start, end)),
        ) && marker == 0 && end == spec_compressed_frame(id, payload, threshold, packed).len()
            && spec_open_compressed(
            marker,
            (spec_compressed_frame(id, payload, threshold, packed) + tail).subrange(start, end),
            inflated,
        ) == Ok::<(i32, Seq<u8>), ProtocolError>((id, payload))),
{
    let body = spec_body(id, payload);
    crate::protocol::types::lemma_varint_round_trip(id, payload);
    crate::protocol::types::lemma_frame_round_trip(0, body, tail);
    assert(body.subrange(spec_encode_varint(id).len() as int, body.len() as int) =~= payload);
}

} // verus!
