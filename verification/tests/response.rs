use ccproxy::buffer::PacketBuffer;
use ccproxy::config::ProxyQueryConfig;
use ccproxy::error::CCProxyError;
use ccproxy::ip::IpAddr;
use ccproxy::kv::KvSection;
use ccproxy::packet::QueryPacketType;
use ccproxy::response::{QueryResponsePacket, QueryResponsePacketPayload};

fn decode(bytes: &[u8], is_full: bool) -> Result<QueryResponsePacket, CCProxyError> {
    QueryResponsePacket::decode(&mut PacketBuffer::new(bytes.to_vec()), is_full)
}

fn handshake(challenge_token: i32) -> QueryResponsePacket {
    QueryResponsePacket {
        ty: QueryPacketType::Handshake,
        session_id: 1,
        payload: QueryResponsePacketPayload::Handshake { challenge_token },
    }
}

fn basic(motd: &str, num_players: u64, host_ip: IpAddr) -> QueryResponsePacket {
    QueryResponsePacket {
        ty: QueryPacketType::Stat,
        session_id: 1,
        payload: QueryResponsePacketPayload::BasicStat {
            motd: motd.to_string(),
            game_type: "SMP".to_string(),
            map: "world".to_string(),
            num_players,
            max_players: 20,
            host_port: 25565,
            host_ip,
        },
    }
}

fn full(pairs: &[(&str, &str)], players: &[&str]) -> QueryResponsePacket {
    let mut k_v_section = KvSection::new();
    for (k, v) in pairs {
        k_v_section.insert(k.to_string(), v.to_string());
    }
    QueryResponsePacket {
        ty: QueryPacketType::Stat,
        session_id: 1,
        payload: QueryResponsePacketPayload::FullStat {
            k_v_section,
            players: players.iter().map(|p| p.to_string()).collect(),
        },
    }
}

fn encode(packet: &QueryResponsePacket) -> Vec<u8> {
    packet.encode().unwrap().into_inner()
}

fn pairs_of(section: &KvSection) -> Vec<(String, String)> {
    (0..section.len()).map(|i| (section.key(i).clone(), section.value(i).clone())).collect()
}

#[test]
fn handshake_response_writes_the_token_as_text() {
    assert_eq!(encode(&handshake(9513307)), b"\x09\x00\x00\x00\x019513307\x00".to_vec());
    assert_eq!(encode(&handshake(-40)), b"\x09\x00\x00\x00\x01-40\x00".to_vec());
}

#[test]
fn handshake_response_reads_back() {
    for token in [0, 1, -1, 9513307, i32::MAX, i32::MIN] {
        let packet = decode(&encode(&handshake(token)), true).unwrap();
        assert_eq!(packet.ty, QueryPacketType::Handshake);
        assert_eq!(packet.session_id, 1);
        match packet.payload {
            QueryResponsePacketPayload::Handshake { challenge_token } => {
                assert_eq!(challenge_token, token)
            }
            other => panic!("not a handshake: {:?}", other),
        }
    }
}

#[test]
fn handshake_token_has_to_be_a_number() {
    for text in ["", "x", "12a", " 1", "2147483648", "-2147483649", "+", "-"] {
        let bytes = [b"\x09\x00\x00\x00\x01", text.as_bytes(), b"\x00"].concat();
        assert!(matches!(decode(&bytes, true), Err(CCProxyError::QueryInvalid)), "{}", text);
    }
    let plus = decode(b"\x09\x00\x00\x00\x01+007\x00", true).unwrap();
    assert!(matches!(
        plus.payload,
        QueryResponsePacketPayload::Handshake { challenge_token: 7 }
    ));
}

#[test]
fn unterminated_string_loses_its_last_byte() {
    let packet = decode(b"\x09\x00\x00\x00\x01123", true).unwrap();
    assert!(matches!(
        packet.payload,
        QueryResponsePacketPayload::Handshake { challenge_token: 12 }
    ));
}

#[test]
fn basic_stat_has_its_layout() {
    let bytes = encode(&basic("A Minecraft Server", 2, IpAddr::V4([127, 0, 0, 1])));
    assert_eq!(
        bytes,
        b"\x00\x00\x00\x00\x01A Minecraft Server\x00SMP\x00world\x002\x0020\x00\xdd\x63127.0.0.1\x00"
            .to_vec()
    );
}

#[test]
fn basic_stat_reads_back() {
    let ip = IpAddr::V6([0x2001, 0xdb8, 0, 0, 0, 0, 0, 1]);
    let packet = decode(&encode(&basic("caf\u{e9} \u{1f600}", u64::MAX, ip)), false).unwrap();
    match packet.payload {
        QueryResponsePacketPayload::BasicStat {
            motd,
            game_type,
            map,
            num_players,
            max_players,
            host_port,
            host_ip,
        } => {
            assert_eq!(motd, "caf\u{e9} \u{1f600}");
            assert_eq!(game_type, "SMP");
            assert_eq!(map, "world");
            assert_eq!(num_players, 18446744073709551615);
            assert_eq!(max_players, 20);
            assert_eq!(host_port, 25565);
            assert_eq!(host_ip, ip);
        }
        other => panic!("not a basic stat: {:?}", other),
    }
}

#[test]
fn basic_stat_fields_have_to_be_well_formed() {
    let cases: [&[u8]; 5] = [
        b"\xffx\x00SMP\x00world\x002\x0020\x00\xdd\x63127.0.0.1\x00",
        b"m\x00SMP\x00world\x00-2\x0020\x00\xdd\x63127.0.0.1\x00",
        b"m\x00SMP\x00world\x002\x00\x00\xdd\x63127.0.0.1\x00",
        b"m\x00SMP\x00world\x0018446744073709551616\x0020\x00\xdd\x63127.0.0.1\x00",
        b"m\x00SMP\x00world\x002\x0020\x00\xdd\x63127.0.0\x00",
    ];
    for case in cases {
        let bytes = [b"\x00\x00\x00\x00\x01", case].concat();
        assert!(matches!(decode(&bytes, false), Err(CCProxyError::QueryInvalid)));
    }
    let short = b"\x00\x00\x00\x00\x01m\x00SMP\x00world\x002\x0020\x00\xdd";
    assert!(matches!(decode(short, false), Err(CCProxyError::UnexpectedEof)));
}

#[test]
fn text_with_a_zero_cannot_be_written() {
    let packet = basic("a\0b", 1, IpAddr::V4([0, 0, 0, 0]));
    assert!(matches!(packet.encode(), Err(CCProxyError::QueryInvalid)));
    assert!(matches!(full(&[("k", "a\0")], &[]).encode(), Err(CCProxyError::QueryInvalid)));
    assert!(matches!(full(&[("k\0", "a")], &[]).encode(), Err(CCProxyError::QueryInvalid)));
    assert!(matches!(full(&[("k", "a")], &["\0"]).encode(), Err(CCProxyError::QueryInvalid)));
}

#[test]
fn payload_with_a_zero_is_written_up_to_it() {
    let packet = full(&[("k", "a\0")], &[]);
    let mut buf = PacketBuffer::new(Vec::new());
    assert!(packet.payload.encode(&mut buf).is_err());
    assert_eq!(buf.into_inner(), b"splitnum\x00\x80\x00k\x00".to_vec());
}

#[test]
fn full_stat_has_its_layout() {
    let bytes = encode(&full(&[("hostname", "hi"), ("map", "")], &["Alice", "Bob"]));
    assert_eq!(
        bytes,
        b"\x00\x00\x00\x00\x01splitnum\x00\x80\x00hostname\x00hi\x00map\x00\x00\x00\x01player_\x00\x00Alice\x00Bob\x00\x00"
            .to_vec()
    );
}

#[test]
fn full_stat_gives_back_its_pairs() {
    let mut bytes = encode(&full(&[("hostname", "hi"), ("map", "world")], &[]));
    bytes.resize(1024, 0);
    match decode(&bytes, true).unwrap().payload {
        QueryResponsePacketPayload::FullStat { k_v_section, players } => {
            assert_eq!(
                pairs_of(&k_v_section),
                vec![
                    ("hostname".to_string(), "hi".to_string()),
                    ("map".to_string(), "world".to_string())
                ]
            );
            assert!(players.is_empty());
        }
        other => panic!("not a full stat: {:?}", other),
    }
}

#[test]
fn full_stat_gives_back_its_names() {
    for players in [vec!["Alice", "Bob12345", "Carol"], vec!["Steve", "Alex"], vec![]] {
        for pairs in [vec![("map", "world")], vec![]] {
            let bytes = encode(&full(&pairs, &players));
            match decode(&bytes, true).unwrap().payload {
                QueryResponsePacketPayload::FullStat { k_v_section, players: read } => {
                    assert_eq!(k_v_section.len(), pairs.len());
                    assert_eq!(read, players);
                }
                other => panic!("not a full stat: {:?}", other),
            }
        }
    }
}

#[test]
fn full_stat_leaves_what_follows_it() {
    let mut bytes = encode(&full(&[("map", "world")], &["Steve", "Alex"]));
    bytes.extend_from_slice(&[1, 2]);
    let mut buf = PacketBuffer::new(bytes);
    assert!(QueryResponsePacket::decode(&mut buf, true).is_ok());
    assert_eq!(buf.read_u16(), Ok(0x0102));
}

#[test]
fn full_stat_that_ends_early_is_an_error() {
    let bytes = encode(&full(&[("map", "world")], &[]));
    assert!(decode(&bytes, true).is_ok());
    // The names and part of what announces them are cut off.
    let short = &bytes[..bytes.len() - 2];
    assert!(matches!(decode(short, true), Err(CCProxyError::UnexpectedEof)));
    assert!(matches!(
        decode(b"\x00\x00\x00\x00\x01splitnum", true),
        Err(CCProxyError::UnexpectedEof)
    ));
}

#[test]
fn full_stat_pairs_end_at_text_that_is_none() {
    let bytes = b"\x00\x00\x00\x00\x01splitnum\x00\x80\x00a\x001\x00b\x00\xff\x00..........x\x00\x00";
    match decode(bytes, true).unwrap().payload {
        QueryResponsePacketPayload::FullStat { k_v_section, players } => {
            assert_eq!(pairs_of(&k_v_section), vec![("a".to_string(), "1".to_string())]);
            assert_eq!(players, vec!["x".to_string()]);
        }
        other => panic!("not a full stat: {:?}", other),
    }
}

#[test]
fn full_stat_pairs_end_behind_the_value_of_a_key_that_is_no_text() {
    let bytes = b"\x00\x00\x00\x00\x01splitnum\x00\x80\x00a\x001\x00\xff\x00v\x00..........x\x00\x00";
    match decode(bytes, true).unwrap().payload {
        QueryResponsePacketPayload::FullStat { k_v_section, players } => {
            assert_eq!(pairs_of(&k_v_section), vec![("a".to_string(), "1".to_string())]);
            assert_eq!(players, vec!["x".to_string()]);
        }
        other => panic!("not a full stat: {:?}", other),
    }
    let short = b"\x00\x00\x00\x00\x01splitnum\x00\x80\x00\xff\x00v\x00.........";
    assert!(matches!(decode(short, true), Err(CCProxyError::UnexpectedEof)));
}

#[test]
fn later_pairs_replace_earlier_ones() {
    let bytes = b"\x00\x00\x00\x00\x01splitnum\x00\x80\x00a\x001\x00b\x002\x00a\x003\x00\x00..........\x00";
    match decode(bytes, true).unwrap().payload {
        QueryResponsePacketPayload::FullStat { k_v_section, .. } => {
            assert_eq!(k_v_section.len(), 2);
            assert_eq!(k_v_section.get("a"), Some(&"3".to_string()));
            assert_eq!(k_v_section.get("b"), Some(&"2".to_string()));
            assert_eq!(k_v_section.get("c"), None);
        }
        other => panic!("not a full stat: {:?}", other),
    }
}

#[test]
fn config_reports_ten_pairs() {
    let config = ProxyQueryConfig {
        motd: "CCProxy".to_string(),
        game_type: "SMP".to_string(),
        map: "lobby".to_string(),
        num_players: 3,
        max_players: 100,
        host_port: 19132,
        host_ip: IpAddr::V4([0, 0, 0, 0]),
        version: "1.21.101".to_string(),
        plugins: None,
        players: vec!["Alice".to_string()],
    };
    let with_plugins = ProxyQueryConfig { plugins: Some("one; two".to_string()), ..config.clone() };
    let section = QueryResponsePacketPayload::query_config_to_k_v_section(config);
    let expected = [
        ("hostname", "CCProxy"),
        ("gametype", "SMP"),
        ("game_id", "MINECRAFT"),
        ("version", "1.21.101"),
        ("plugins", ""),
        ("map", "lobby"),
        ("numplayers", "3"),
        ("maxplayers", "100"),
        ("hostport", "19132"),
        ("hostip", "0.0.0.0"),
    ];
    assert_eq!(section.len(), expected.len());
    for (k, v) in expected {
        assert_eq!(section.get(k), Some(&v.to_string()), "{}", k);
    }
    let section = QueryResponsePacketPayload::query_config_to_k_v_section(with_plugins);
    assert_eq!(section.get("plugins"), Some(&"one; two".to_string()));
}
