use ccproxy::buffer::PacketBuffer;
use ccproxy::error::CCProxyError;
use ccproxy::packet::{
    QueryPacketType, QueryRequestPacket, QueryRequestPacketPayload, QUERY_PACKET_MAGIC,
    SESSION_ID_MASK,
};

fn decode(bytes: &[u8]) -> Result<QueryRequestPacket, CCProxyError> {
    QueryRequestPacket::decode(&mut PacketBuffer::new(bytes.to_vec()))
}

#[test]
fn magic_and_mask_have_their_values() {
    assert_eq!(QUERY_PACKET_MAGIC, 65277);
    assert_eq!(SESSION_ID_MASK, 252645135);
}

#[test]
fn handshake_request_has_seven_bytes() {
    let request = QueryRequestPacket {
        ty: QueryPacketType::Handshake,
        session_id: 0x01020304,
        payload: QueryRequestPacketPayload::Handshake,
    };
    let bytes = request.encode().unwrap().into_inner();
    assert_eq!(bytes, vec![0xfe, 0xfd, 0x09, 1, 2, 3, 4]);
    assert_eq!(decode(&bytes), Ok(request));
}

#[test]
fn basic_stat_request_carries_the_token() {
    let request = QueryRequestPacket {
        ty: QueryPacketType::Stat,
        session_id: 1,
        payload: QueryRequestPacketPayload::BasicStat { challenge_token: 9513307 },
    };
    let bytes = request.encode().unwrap().into_inner();
    assert_eq!(bytes, vec![0xfe, 0xfd, 0x00, 0, 0, 0, 1, 0x00, 0x91, 0x29, 0x5b]);
    assert_eq!(decode(&bytes), Ok(request));
}

#[test]
fn full_stat_request_ends_in_padding() {
    let request = QueryRequestPacket {
        ty: QueryPacketType::Stat,
        session_id: 1,
        payload: QueryRequestPacketPayload::FullStat { challenge_token: -2 },
    };
    let bytes = request.encode().unwrap().into_inner();
    assert_eq!(bytes, vec![0xfe, 0xfd, 0, 0, 0, 0, 1, 0xff, 0xff, 0xff, 0xfe, 0, 0, 0, 0]);
    assert_eq!(decode(&bytes), Ok(request));
}

#[test]
fn padding_other_than_zero_asks_for_a_basic_stat() {
    let bytes = [0xfe, 0xfd, 0, 0, 0, 0, 1, 0, 0, 0, 7, 0, 0, 0, 1];
    assert_eq!(
        decode(&bytes).unwrap().payload,
        QueryRequestPacketPayload::BasicStat { challenge_token: 7 }
    );
    let short = [0xfe, 0xfd, 0, 0, 0, 0, 1, 0, 0, 0, 7, 0, 0, 0];
    assert_eq!(
        decode(&short).unwrap().payload,
        QueryRequestPacketPayload::BasicStat { challenge_token: 7 }
    );
}

#[test]
fn received_session_id_is_masked() {
    let request = decode(&[0xfe, 0xfd, 9, 0xff, 0xff, 0xff, 0xff]).unwrap();
    assert_eq!(request.session_id, 0x0f0f0f0f);
    let sent = QueryRequestPacket {
        ty: QueryPacketType::Handshake,
        session_id: 0x12345678,
        payload: QueryRequestPacketPayload::Handshake,
    };
    let read = decode(&sent.encode().unwrap().into_inner()).unwrap();
    assert_eq!(read.session_id, 0x02040608);
}

#[test]
fn wrong_magic_is_invalid() {
    assert_eq!(decode(&[0xfe, 0xfe, 9, 0, 0, 0, 0]), Err(CCProxyError::QueryInvalid));
}

#[test]
fn unknown_packet_type_is_invalid() {
    assert_eq!(decode(&[0xfe, 0xfd, 1, 0, 0, 0, 0]), Err(CCProxyError::QueryInvalid));
}

#[test]
fn truncated_requests_end_unexpectedly() {
    let bytes = [0xfe, 0xfd, 0, 0, 0, 0, 1, 0, 0, 0, 7];
    for n in 0..bytes.len() {
        assert_eq!(decode(&bytes[..n]), Err(CCProxyError::UnexpectedEof));
    }
    assert!(decode(&bytes).is_ok());
}

#[test]
fn packet_types_have_their_bytes() {
    let mut buf = PacketBuffer::new(Vec::new());
    QueryPacketType::Handshake.encode(&mut buf).unwrap();
    QueryPacketType::Stat.encode(&mut buf).unwrap();
    let bytes = buf.into_inner();
    assert_eq!(bytes, vec![9, 0]);
    let mut buf = PacketBuffer::new(bytes);
    assert_eq!(QueryPacketType::decode(&mut buf), Ok(QueryPacketType::Handshake));
    assert_eq!(QueryPacketType::decode(&mut buf), Ok(QueryPacketType::Stat));
    assert_eq!(QueryPacketType::decode(&mut buf), Err(CCProxyError::UnexpectedEof));
}

#[test]
fn payload_codec_stands_alone() {
    let payload = QueryRequestPacketPayload::FullStat { challenge_token: 258 };
    let mut buf = PacketBuffer::new(Vec::new());
    payload.encode(&mut buf).unwrap();
    let bytes = buf.into_inner();
    assert_eq!(bytes, vec![0, 0, 1, 2, 0, 0, 0, 0]);
    let mut buf = PacketBuffer::new(bytes);
    assert_eq!(
        QueryRequestPacketPayload::decode(&mut buf, &QueryPacketType::Stat),
        Ok(payload)
    );
    assert_eq!(
        QueryRequestPacketPayload::decode(&mut buf, &QueryPacketType::Handshake),
        Ok(QueryRequestPacketPayload::Handshake)
    );
}

#[test]
fn generated_session_ids_are_masked() {
    for _ in 0..100 {
        let id = QueryRequestPacket::generate_session_id();
        assert_eq!(id & 0x0f0f0f0f, id);
    }
    assert_eq!(QueryRequestPacket::session_id_of(-1), 0x0f0f0f0f);
    assert_eq!(QueryRequestPacket::session_id_of(0x7f3a_00ff), 0x0f0a_000f);
}

#[test]
fn generated_session_ids_vary() {
    let first = QueryRequestPacket::generate_session_id();
    assert!((0..100).any(|_| QueryRequestPacket::generate_session_id() != first));
}
