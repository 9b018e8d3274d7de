//! Query Protocol requests.

use vstd::prelude::*;

use crate::buffer::{
    be_i32_bytes, be_u16_bytes, be_u32_bytes, lemma_overwrite_concat, lemma_overwrite_empty,
    overwrite, take_i32, take_u16, take_u32, take_u8, PacketBuffer,
};
use crate::error::{CCProxyError, CCProxyResult};
use crate::foreign::random_i32;

verus! {

/// The magic number at the start of a request.
pub const QUERY_PACKET_MAGIC: u16 = 0xFEFD;

/// The bits of a session ID that a Minecraft server reads: the lower four of
/// each byte.
pub const SESSION_ID_MASK: i32 = 0x0f0f0f0f;

/// The kind of a packet.
#[derive(Debug, Clone, Copy, PartialEq, Eq, Structural)]
pub enum QueryPacketType {
    Stat,
    Handshake,
}

/// The byte that stands for a packet type.
pub open spec fn packet_type_byte(ty: QueryPacketType) -> u8 {
    match ty {
        QueryPacketType::Stat => 0,
        QueryPacketType::Handshake => 9,
    }
}

/// The outcome of reading a packet type, and what is left.
pub open spec fn take_packet_type(rest: Seq<u8>) -> (CCProxyResult<QueryPacketType>, Seq<u8>) {
    match take_u8(rest) {
        (Ok(b), left) => if b == 0 {
            (Ok(QueryPacketType::Stat), left)
        } else if b == 9 {
            (Ok(QueryPacketType::Handshake), left)
        } else {
            (Err(CCProxyError::QueryInvalid), left)
        },
        (Err(e), left) => (Err(e), left),
    }
}

impl QueryPacketType {
    /// Reads a packet type.
    pub fn decode(buf: &mut PacketBuffer) -> (res: CCProxyResult<Self>)
        ensures
            final(buf).data() == old(buf).data(),
            (res, final(buf).rest()) == take_packet_type(old(buf).rest()),
    {
        let b: u8 = buf.read_u8()?;
        if b == 0 {
            Ok(QueryPacketType::Stat)
        } else if b == 9 {
            Ok(QueryPacketType::Handshake)
        } else {
            Err(CCProxyError::QueryInvalid)
        }
    }

    /// Writes a packet type.
    pub fn encode(&self, buf: &mut PacketBuffer) -> (res: CCProxyResult<()>)
        ensures
            res is Ok,
            final(buf).data() == overwrite(
                old(buf).data(),
                old(buf).position(),
                seq![packet_type_byte(*self)],
            ),
            final(buf).position() == old(buf).position() + 1,
    {
        let ty: u8 = match self {
            QueryPacketType::Stat => 0,
            QueryPacketType::Handshake => 9,
        };
        buf.write_u8(ty);
        Ok(())
    }
}

/// What a request asks for.
#[derive(Debug, Clone, Copy, PartialEq, Eq, Structural)]
pub enum QueryRequestPacketPayload {
    /// Request a server to get challenge token to query stats.
    Handshake,
    BasicStat { challenge_token: i32 },
    FullStat { challenge_token: i32 },
}

/// The outcome of reading the payload of a request, and what is left. Four zero
/// bytes after the challenge token ask for a full stat; those bytes are used up
/// in any case.
pub open spec fn take_request_payload(rest: Seq<u8>, ty: QueryPacketType) -> (
    CCProxyResult<QueryRequestPacketPayload>,
    Seq<u8>,
) {
    match ty {
        QueryPacketType::Stat => match take_i32(rest) {
            (Ok(challenge_token), left) => {
                let (padding, end) = take_u32(left);
                if padding == Ok::<u32, CCProxyError>(0) {
                    (Ok(QueryRequestPacketPayload::FullStat { challenge_token }), end)
                } else {
                    (Ok(QueryRequestPacketPayload::BasicStat { challenge_token }), end)
                }
            },
            (Err(e), left) => (Err(e), left),
        },
        QueryPacketType::Handshake => (Ok(QueryRequestPacketPayload::Handshake), rest),
    }
}

/// The bytes of the payload of a request.
pub open spec fn request_payload_bytes(payload: QueryRequestPacketPayload) -> Seq<u8> {
    match payload {
        QueryRequestPacketPayload::Handshake => Seq::empty(),
        QueryRequestPacketPayload::BasicStat { challenge_token } => be_i32_bytes(challenge_token),
        QueryRequestPacketPayload::FullStat { challenge_token } => be_i32_bytes(challenge_token)
            + be_u32_bytes(0),
    }
}

impl QueryRequestPacketPayload {
    /// Reads the payload of a request of type `ty`.
    pub fn decode(buf: &mut PacketBuffer, ty: &QueryPacketType) -> (res: CCProxyResult<Self>)
        ensures
            final(buf).data() == old(buf).data(),
            (res, final(buf).rest()) == take_request_payload(old(buf).rest(), *ty),
    {
        match ty {
            QueryPacketType::Stat => {
                let challenge_token: i32 = buf.read_i32()?;
                match buf.read_u32() {
                    Ok(0) => Ok(QueryRequestPacketPayload::FullStat { challenge_token }),
                    _ => Ok(QueryRequestPacketPayload::BasicStat { challenge_token }),
                }
            },
            QueryPacketType::Handshake => Ok(QueryRequestPacketPayload::Handshake),
        }
    }

    /// Writes the payload of a request.
    pub fn encode(&self, buf: &mut PacketBuffer) -> (res: CCProxyResult<()>)
        ensures
            res is Ok,
            final(buf).data() == overwrite(
                old(buf).data(),
                old(buf).position(),
                request_payload_bytes(*self),
            ),
            final(buf).position() == old(buf).position() + request_payload_bytes(*self).len(),
    {
        match self {
            QueryRequestPacketPayload::Handshake => {
                proof {
                    buf.lemma_position();
                    lemma_overwrite_empty(buf.data(), buf.position());
                }
            },
            QueryRequestPacketPayload::BasicStat { challenge_token } => {
                buf.write_i32(*challenge_token);
            },
            QueryRequestPacketPayload::FullStat { challenge_token } => {
                proof {
                    buf.lemma_position();
                    lemma_overwrite_concat(
                        buf.data(),
                        buf.position(),
                        be_i32_bytes(*challenge_token),
                        be_u32_bytes(0),
                    );
                }
                buf.write_i32(*challenge_token);
                buf.write_u32(0);
            },
        }
        Ok(())
    }
}

/// A Query Protocol request.
///
/// A Minecraft server does not read the higher four bits of each byte of
/// `session_id`, so a request that was received has them cleared.
#[derive(Debug, Clone, Copy, PartialEq, Eq, Structural)]
pub struct QueryRequestPacket {
    pub ty: QueryPacketType,
    pub session_id: i32,
    pub payload: QueryRequestPacketPayload,
}

/// The outcome of reading a request, and what is left.
pub open spec fn take_request(rest: Seq<u8>) -> (CCProxyResult<QueryRequestPacket>, Seq<u8>) {
    match take_u16(rest) {
        (Err(e), left) => (Err(e), left),
        (Ok(magic), after_magic) => if magic != QUERY_PACKET_MAGIC {
            (Err(CCProxyError::QueryInvalid), after_magic)
        } else {
            match take_packet_type(after_magic) {
                (Err(e), left) => (Err(e), left),
                (Ok(ty), after_type) => match take_i32(after_type) {
                    (Err(e), left) => (Err(e), left),
                    (Ok(id), after_id) => match take_request_payload(after_id, ty) {
                        (Err(e), left) => (Err(e), left),
                        (Ok(payload), left) => (
                            Ok(
                                QueryRequestPacket {
                                    ty,
                                    session_id: id & SESSION_ID_MASK,
                                    payload,
                                },
                            ),
                            left,
                        ),
                    },
                },
            }
        },
    }
}

/// The bytes of a request.
pub open spec fn request_bytes(request: QueryRequestPacket) -> Seq<u8> {
    be_u16_bytes(QUERY_PACKET_MAGIC) + seq![packet_type_byte(request.ty)] + be_i32_bytes(
        request.session_id,
    ) + request_payload_bytes(request.payload)
}

impl QueryRequestPacket {
    /// Reads a request.
    pub fn decode(buf: &mut PacketBuffer) -> (res: CCProxyResult<Self>)
        ensures
            final(buf).data() == old(buf).data(),
            (res, final(buf).rest()) == take_request(old(buf).rest()),
    {
        if buf.read_u16()? != QUERY_PACKET_MAGIC {
            return Err(CCProxyError::QueryInvalid);
        }
        let ty: QueryPacketType = QueryPacketType::decode(buf)?;
        let session_id: i32 = buf.read_i32()? & SESSION_ID_MASK;
        let payload: QueryRequestPacketPayload = QueryRequestPacketPayload::decode(buf, &ty)?;
        Ok(QueryRequestPacket { ty, session_id, payload })
    }

    /// The bytes of a request, in a buffer positioned behind them.
    pub fn encode(&self) -> (res: CCProxyResult<PacketBuffer>)
        ensures
            match res {
                Ok(buf) => buf.data() == request_bytes(*self) && buf.position()
                    == request_bytes(*self).len(),
                Err(_) => false,
            },
    {
        let mut buf: PacketBuffer = PacketBuffer::new(Vec::new());
        buf.write_u16(QUERY_PACKET_MAGIC);
        self.ty.encode(&mut buf)?;
        buf.write_i32(self.session_id);
        self.payload.encode(&mut buf)?;
        assert(buf.data() =~= request_bytes(*self));
        Ok(buf)
    }

    /// The session ID made of a drawn number: the bits that a server reads.
    pub fn session_id_of(drawn: i32) -> (session_id: i32)
        ensures
            session_id == drawn & SESSION_ID_MASK,
            session_id == drawn & 0x0f0f0f0f,
            session_id & SESSION_ID_MASK == session_id,
    {
        proof {
            lemma_mask_twice(drawn);
        }
        drawn & SESSION_ID_MASK
    }

    /// A session ID drawn at random, free of the bits that a server does not
    /// read.
    pub fn generate_session_id() -> (session_id: i32)
        ensures
            session_id & SESSION_ID_MASK == session_id,
            session_id & 0x0f0f0f0f == session_id,
    {
        Self::session_id_of(random_i32())
    }
}

/// Masking a session ID twice is masking it once.
pub proof fn lemma_mask_twice(id: i32)
    ensures
        (id & SESSION_ID_MASK) & SESSION_ID_MASK == id & SESSION_ID_MASK,
{
    assert((id & 0x0f0f0f0fi32) & 0x0f0f0f0fi32 == id & 0x0f0f0f0fi32) by (bit_vector);
}

} // verus!
