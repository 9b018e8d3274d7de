use ccproxy::buffer::PacketBuffer;
use ccproxy::error::CCProxyError;
use ccproxy::ip::IpAddr;
use ccproxy::socket::SocketAddr;
use ccproxy::text::{read_string_to_null, to_cstring};

fn ip(text: &str) -> Option<IpAddr> {
    IpAddr::parse(text.as_bytes())
}

fn shown(groups: [u16; 8]) -> String {
    String::from_utf8(IpAddr::V6(groups).to_text()).unwrap()
}

#[test]
fn strings_end_at_the_zero_byte() {
    let mut buf = PacketBuffer::new(b"one\x00\x00tw\xc3\xb6\x00\xff\x00last".to_vec());
    assert_eq!(read_string_to_null(&mut buf), Ok("one".to_string()));
    assert_eq!(read_string_to_null(&mut buf), Ok(String::new()));
    assert_eq!(read_string_to_null(&mut buf), Ok("tw\u{f6}".to_string()));
    assert_eq!(read_string_to_null(&mut buf), Err(CCProxyError::QueryInvalid));
    assert_eq!(read_string_to_null(&mut buf), Ok("las".to_string()));
    assert_eq!(read_string_to_null(&mut buf), Ok(String::new()));
}

#[test]
fn cstrings_are_terminated() {
    assert_eq!(to_cstring("a\u{e9}"), Ok(vec![0x61, 0xc3, 0xa9, 0]));
    assert_eq!(to_cstring(""), Ok(vec![0]));
    assert_eq!(to_cstring("a\0b"), Err(CCProxyError::QueryInvalid));
}

#[test]
fn buffer_reads_and_writes_numbers() {
    let mut buf = PacketBuffer::new(vec![1, 2, 3, 4, 0xff, 0xff, 0xff, 0x85, 0x34, 0x12]);
    assert_eq!(buf.read_u32(), Ok(0x01020304));
    assert_eq!(buf.read_i32(), Ok(-123));
    assert_eq!(buf.read_u16_le(), Ok(0x1234));
    assert_eq!(buf.read_u8(), Err(CCProxyError::UnexpectedEof));
    let mut buf = PacketBuffer::new(vec![9, 9, 9]);
    buf.write_u16(0xfefd);
    assert_eq!(buf.read_exact(1), Ok(vec![9]));
    buf.write_i32(-123);
    assert_eq!(buf.into_inner(), vec![0xfe, 0xfd, 9, 0xff, 0xff, 0xff, 0x85]);
}

#[test]
fn short_read_uses_up_the_buffer() {
    let mut buf = PacketBuffer::new(vec![1, 2, 3]);
    assert_eq!(buf.read_u32(), Err(CCProxyError::UnexpectedEof));
    assert_eq!(buf.read_u8(), Err(CCProxyError::UnexpectedEof));
}

#[test]
fn ipv4_addresses_are_read() {
    assert_eq!(ip("127.0.0.1"), Some(IpAddr::V4([127, 0, 0, 1])));
    assert_eq!(ip("255.255.255.255"), Some(IpAddr::V4([255; 4])));
    for text in ["", "1.2.3", "1.2.3.4.5", "256.0.0.1", "01.2.3.4", "1..2.3", "1.2.3.4 ", "a.b.c.d"] {
        assert_eq!(ip(text), None, "{}", text);
    }
}

#[test]
fn ipv6_addresses_are_read() {
    assert_eq!(ip("::"), Some(IpAddr::V6([0; 8])));
    assert_eq!(ip("::1"), Some(IpAddr::V6([0, 0, 0, 0, 0, 0, 0, 1])));
    assert_eq!(ip("1::"), Some(IpAddr::V6([1, 0, 0, 0, 0, 0, 0, 0])));
    assert_eq!(ip("2001:DB8::a:0:1"), Some(IpAddr::V6([0x2001, 0xdb8, 0, 0, 0, 0xa, 0, 1])));
    assert_eq!(ip("1:2:3:4:5:6:7:8"), Some(IpAddr::V6([1, 2, 3, 4, 5, 6, 7, 8])));
    assert_eq!(ip("::ffff:1.2.3.4"), Some(IpAddr::V6([0, 0, 0, 0, 0, 0xffff, 0x102, 0x304])));
    assert_eq!(ip("1:2:3:4:5:6:1.2.3.4"), Some(IpAddr::V6([1, 2, 3, 4, 5, 6, 0x102, 0x304])));
    for text in [":", ":::", "1::2::3", "1:2:3:4:5:6:7", "1:2:3:4:5:6:7:8:9", "12345::", "g::", "::1%2", "1.2.3.4::"] {
        assert_eq!(ip(text), None, "{}", text);
    }
}

#[test]
fn ipv6_addresses_are_shown_in_canonical_form() {
    assert_eq!(shown([0; 8]), "::");
    assert_eq!(shown([0, 0, 0, 0, 0, 0, 0, 1]), "::1");
    assert_eq!(shown([0x2001, 0xdb8, 0, 0, 1, 0, 0, 1]), "2001:db8::1:0:0:1");
    assert_eq!(shown([0x2001, 0xdb8, 0, 1, 1, 1, 1, 1]), "2001:db8:0:1:1:1:1:1");
    assert_eq!(shown([1, 0, 0, 2, 0, 0, 0, 3]), "1:0:0:2::3");
    assert_eq!(shown([0, 0, 0, 0, 0, 0xffff, 0xc0a8, 0x0102]), "::ffff:192.168.1.2");
    assert_eq!(shown([0, 0, 0, 0, 0, 0, 0x102, 0x304]), "::102:304");
}

#[test]
fn addresses_read_back() {
    for address in [
        IpAddr::V4([0, 10, 200, 255]),
        IpAddr::V6([0xfe80, 0, 0, 0, 0xabcd, 0, 0, 0]),
        IpAddr::V6([0, 0, 0, 0, 0, 0xffff, 0, 1]),
        IpAddr::V6([0xffff; 8]),
    ] {
        assert_eq!(IpAddr::parse(&address.to_text()), Some(address));
    }
}

#[test]
fn peers_are_known_by_address_and_port() {
    let v4 = SocketAddr::V4 { octets: [127, 0, 0, 1], port: 19132 };
    assert_eq!(v4.to_key(), "127.0.0.1:19132");
    let v6 = SocketAddr::V6 { groups: [0xfe80, 0, 0, 0, 0, 0, 0, 1], port: 80, flowinfo: 7, scope_id: 0 };
    assert_eq!(v6.to_key(), "[fe80::1]:80");
    let scoped = SocketAddr::V6 { groups: [0xfe80, 0, 0, 0, 0, 0, 0, 1], port: 80, flowinfo: 0, scope_id: 3 };
    assert_eq!(scoped.to_key(), "[fe80::1%3]:80");
}
