//! Query Protocol responses.

use vstd::prelude::*;
use vstd::utf8::{decode_utf8, encode_utf8, encode_utf8_decode_utf8};

use crate::buffer::{
    be_i32_bytes, le_u16_bytes, lemma_first_index, lemma_overwrite_concat, lemma_overwrite_empty,
    overwrite, take_bytes, take_i32, take_u16_le, PacketBuffer,
};
use crate::config::{texts, ProxyQueryConfig, ProxyQueryConfigView};
use crate::error::{CCProxyError, CCProxyResult};
use crate::foreign::{i32_to_string, string_from_utf8, string_to_i32, string_to_u64, u64_to_string};
use crate::ip::{ip_text, parse_ip, IpAddr, IpAddrView};
use crate::ip_lemmas::lemma_ip_round_trip;
use crate::kv::{distinct_keys, lemma_put_new, put, KvSection};
use crate::packet::{packet_type_byte, take_packet_type, QueryPacketType};
use crate::text::{
    decimal, lemma_ascii_valid, nul_terminated, parse_i32, parse_u64, read_string_to_null,
    signed_decimal, string_bytes, take_string, to_cstring,
};

verus! {

/// What a response reports.
#[derive(Debug)]
pub enum QueryResponsePacketPayload {
    /// Response a challenge token to query stats.
    ///
    /// All challenge tokens expire every 30 seconds, so one can expire
    /// immediately after it was received.
    Handshake { challenge_token: i32 },
    BasicStat {
        motd: String,
        game_type: String,
        map: String,
        num_players: u64,
        max_players: u64,
        host_port: u16,
        host_ip: IpAddr,
    },
    FullStat { k_v_section: KvSection, players: Vec<String> },
}

/// A [`QueryResponsePacketPayload`] over texts.
#[verifier::ext_equal]
pub enum QueryResponsePacketPayloadView {
    Handshake { challenge_token: i32 },
    BasicStat {
        motd: Seq<char>,
        game_type: Seq<char>,
        map: Seq<char>,
        num_players: u64,
        max_players: u64,
        host_port: u16,
        host_ip: IpAddrView,
    },
    FullStat { k_v_section: Seq<(Seq<char>, Seq<char>)>, players: Seq<Seq<char>> },
}

impl View for QueryResponsePacketPayload {
    type V = QueryResponsePacketPayloadView;

    open spec fn view(&self) -> QueryResponsePacketPayloadView {
        match self {
            QueryResponsePacketPayload::Handshake { challenge_token } =>
                QueryResponsePacketPayloadView::Handshake { challenge_token: *challenge_token },
            QueryResponsePacketPayload::BasicStat {
                motd,
                game_type,
                map,
                num_players,
                max_players,
                host_port,
                host_ip,
            } => QueryResponsePacketPayloadView::BasicStat {
                motd: motd@,
                game_type: game_type@,
                map: map@,
                num_players: *num_players,
                max_players: *max_players,
                host_port: *host_port,
                host_ip: host_ip@,
            },
            QueryResponsePacketPayload::FullStat { k_v_section, players } =>
                QueryResponsePacketPayloadView::FullStat {
                k_v_section: k_v_section@,
                players: texts(players@),
            },
        }
    }
}

/// The outcome of reading an unsigned number in text, and what is left.
pub open spec fn take_u64_text(rest: Seq<u8>) -> (CCProxyResult<u64>, Seq<u8>) {
    match take_string(rest) {
        (Err(e), left) => (Err(e), left),
        (Ok(text), left) => match parse_u64(encode_utf8(text)) {
            Some(n) => (Ok(n), left),
            None => (Err(CCProxyError::QueryInvalid), left),
        },
    }
}

/// The outcome of reading a signed number in text, and what is left.
pub open spec fn take_i32_text(rest: Seq<u8>) -> (CCProxyResult<i32>, Seq<u8>) {
    match take_string(rest) {
        (Err(e), left) => (Err(e), left),
        (Ok(text), left) => match parse_i32(encode_utf8(text)) {
            Some(n) => (Ok(n), left),
            None => (Err(CCProxyError::QueryInvalid), left),
        },
    }
}

/// The outcome of reading an IP address in text, and what is left.
pub open spec fn take_ip_text(rest: Seq<u8>) -> (CCProxyResult<IpAddrView>, Seq<u8>) {
    match take_string(rest) {
        (Err(e), left) => (Err(e), left),
        (Ok(text), left) => match parse_ip(encode_utf8(text)) {
            Some(ip) => (Ok(ip), left),
            None => (Err(CCProxyError::QueryInvalid), left),
        },
    }
}

/// A string uses up at least a byte where there is one, and only a string that
/// does so is not empty.
pub proof fn lemma_take_string_shrinks(rest: Seq<u8>)
    ensures
        take_string(rest).1.len() <= rest.len(),
        rest.len() > 0 ==> take_string(rest).1.len() < rest.len(),
        rest.len() == 0 ==> take_string(rest).0 == Ok::<Seq<char>, CCProxyError>(Seq::empty()),
{
    lemma_first_index(rest, 0);
    if rest.len() == 0 {
        assert(string_bytes(rest).len() == 0);
        assert(decode_utf8(string_bytes(rest)) =~= Seq::<char>::empty());
    }
}

/// The pairs read from `rest` on top of `acc`, and what is left. An empty key ends
/// the section right behind it. A pair whose key or value is not text is dropped
/// and ends the section right behind its value.
pub open spec fn take_pairs(rest: Seq<u8>, acc: Seq<(Seq<char>, Seq<char>)>) -> (
    Seq<(Seq<char>, Seq<char>)>,
    Seq<u8>,
)
    decreases rest.len(),
{
    match take_string(rest) {
        (Err(_), after_key) => (acc, take_string(after_key).1),
        (Ok(k), after_key) => if k.len() == 0 {
            (acc, after_key)
        } else {
            match take_string(after_key) {
                (Err(_), after_value) => (acc, after_value),
                (Ok(v), after_value) => {
                    proof {
                        lemma_take_string_shrinks(rest);
                        lemma_take_string_shrinks(after_key);
                    }
                    take_pairs(after_value, put(acc, k, v))
                },
            }
        },
    }
}

/// The names read from `rest` on top of `acc`, and what is left. An empty name,
/// or one that is not text, ends the list.
pub open spec fn take_names(rest: Seq<u8>, acc: Seq<Seq<char>>) -> (Seq<Seq<char>>, Seq<u8>)
    decreases rest.len(),
{
    match take_string(rest) {
        (Ok(name), left) => if name.len() == 0 {
            (acc, left)
        } else {
            proof {
                lemma_take_string_shrinks(rest);
            }
            take_names(left, acc.push(name))
        },
        (Err(_), left) => (acc, left),
    }
}

/// The outcome of reading a basic stat, and what is left.
pub open spec fn take_basic_stat(rest: Seq<u8>) -> (
    CCProxyResult<QueryResponsePacketPayloadView>,
    Seq<u8>,
) {
    match take_string(rest) {
        (Err(e), left) => (Err(e), left),
        (Ok(motd), left) => match take_string(left) {
            (Err(e), left) => (Err(e), left),
            (Ok(game_type), left) => match take_string(left) {
                (Err(e), left) => (Err(e), left),
                (Ok(map), left) => match take_u64_text(left) {
                    (Err(e), left) => (Err(e), left),
                    (Ok(num_players), left) => match take_u64_text(left) {
                        (Err(e), left) => (Err(e), left),
                        (Ok(max_players), left) => match take_u16_le(left) {
                            (Err(e), left) => (Err(e), left),
                            (Ok(host_port), left) => match take_ip_text(left) {
                                (Err(e), left) => (Err(e), left),
                                (Ok(host_ip), left) => (
                                    Ok(
                                        QueryResponsePacketPayloadView::BasicStat {
                                            motd,
                                            game_type,
                                            map,
                                            num_players,
                                            max_players,
                                            host_port,
                                            host_ip,
                                        },
                                    ),
                                    left,
                                ),
                            },
                        },
                    },
                },
            },
        },
    }
}

/// The outcome of reading a full stat, and what is left: eleven bytes are
/// skipped, then come the pairs up to their end; the ten bytes that announce the
/// names are skipped, then come the names.
pub open spec fn take_full_stat(rest: Seq<u8>) -> (
    CCProxyResult<QueryResponsePacketPayloadView>,
    Seq<u8>,
) {
    match take_bytes(rest, 11) {
        (Err(e), left) => (Err(e), left),
        (Ok(_), left) => {
            let (k_v_section, after_pairs) = take_pairs(left, Seq::empty());
            match take_bytes(after_pairs, 10) {
                (Err(e), left) => (Err(e), left),
                (Ok(_), left) => {
                    let (players, end) = take_names(left, Seq::empty());
                    (Ok(QueryResponsePacketPayloadView::FullStat { k_v_section, players }), end)
                },
            }
        },
    }
}

/// The outcome of reading the payload of a response, and what is left.
pub open spec fn take_response_payload(rest: Seq<u8>, ty: QueryPacketType, is_full: bool) -> (
    CCProxyResult<QueryResponsePacketPayloadView>,
    Seq<u8>,
) {
    match ty {
        QueryPacketType::Stat => if is_full {
            take_full_stat(rest)
        } else {
            take_basic_stat(rest)
        },
        QueryPacketType::Handshake => match take_i32_text(rest) {
            (Err(e), left) => (Err(e), left),
            (Ok(challenge_token), left) => (
                Ok(QueryResponsePacketPayloadView::Handshake { challenge_token }),
                left,
            ),
        },
    }
}

/// The outcome of reading a payload, as a result over texts.
pub open spec fn payload_result(res: CCProxyResult<QueryResponsePacketPayload>) -> CCProxyResult<
    QueryResponsePacketPayloadView,
> {
    match res {
        Ok(p) => Ok(p@),
        Err(e) => Err(e),
    }
}

fn read_u64_text(buf: &mut PacketBuffer) -> (res: CCProxyResult<u64>)
    ensures
        final(buf).data() == old(buf).data(),
        (res, final(buf).rest()) == take_u64_text(old(buf).rest()),
{
    let text: String = read_string_to_null(buf)?;
    match string_to_u64(text.as_str()) {
        Some(n) => Ok(n),
        None => Err(CCProxyError::QueryInvalid),
    }
}

fn read_i32_text(buf: &mut PacketBuffer) -> (res: CCProxyResult<i32>)
    ensures
        final(buf).data() == old(buf).data(),
        (res, final(buf).rest()) == take_i32_text(old(buf).rest()),
{
    let text: String = read_string_to_null(buf)?;
    match string_to_i32(text.as_str()) {
        Some(n) => Ok(n),
        None => Err(CCProxyError::QueryInvalid),
    }
}

fn read_ip_text(buf: &mut PacketBuffer) -> (res: CCProxyResult<IpAddr>)
    ensures
        final(buf).data() == old(buf).data(),
        final(buf).rest() == take_ip_text(old(buf).rest()).1,
        match res {
            Ok(ip) => take_ip_text(old(buf).rest()).0 == Ok::<_, CCProxyError>(ip@),
            Err(e) => take_ip_text(old(buf).rest()).0 == Err::<IpAddrView, _>(e),
        },
{
    let text: String = read_string_to_null(buf)?;
    match IpAddr::parse(text.as_str().as_bytes()) {
        Some(ip) => Ok(ip),
        None => Err(CCProxyError::QueryInvalid),
    }
}

fn read_pairs(buf: &mut PacketBuffer) -> (kv: KvSection)
    ensures
        final(buf).data() == old(buf).data(),
        (kv@, final(buf).rest()) == take_pairs(old(buf).rest(), Seq::empty()),
{
    let mut kv: KvSection = KvSection::new();
    loop
        invariant
            buf.data() == old(buf).data(),
            take_pairs(old(buf).rest(), Seq::empty()) == take_pairs(buf.rest(), kv@),
        decreases buf.rest().len(),
    {
        proof {
            lemma_take_string_shrinks(buf.rest());
            lemma_take_string_shrinks(take_string(buf.rest()).1);
        }
        let k: String = match read_string_to_null(buf) {
            Ok(k) => k,
            Err(_) => {
                let _ = read_string_to_null(buf);
                return kv;
            },
        };
        if k.as_str().is_empty() {
            return kv;
        }
        match read_string_to_null(buf) {
            Ok(v) => {
                kv.insert(k, v);
            },
            Err(_) => {
                return kv;
            },
        }
    }
}

fn read_names(buf: &mut PacketBuffer) -> (names: Vec<String>)
    ensures
        final(buf).data() == old(buf).data(),
        (texts(names@), final(buf).rest()) == take_names(old(buf).rest(), Seq::empty()),
{
    let mut names: Vec<String> = Vec::new();
    assert(texts(names@) =~= Seq::<Seq<char>>::empty());
    loop
        invariant
            buf.data() == old(buf).data(),
            take_names(old(buf).rest(), Seq::empty()) == take_names(buf.rest(), texts(names@)),
        decreases buf.rest().len(),
    {
        proof {
            lemma_take_string_shrinks(buf.rest());
        }
        match read_string_to_null(buf) {
            Ok(name) => {
                if name.as_str().is_empty() {
                    return names;
                }
                let ghost before = names@;
                let ghost text = name@;
                names.push(name);
                assert(texts(names@) =~= texts(before).push(text));
            },
            Err(_) => {
                return names;
            },
        }
    }
}

/// A piece of a packet.
#[verifier::ext_equal]
pub enum FieldView {
    /// A zero-terminated text, which has to be free of the character zero.
    Text(Seq<char>),
    /// Bytes as they are.
    Raw(Seq<u8>),
}

/// True for a field that can be written.
pub open spec fn is_writable(f: FieldView) -> bool {
    f matches FieldView::Text(t) ==> !t.contains('\0')
}

/// The bytes of a field.
pub open spec fn field_bytes(f: FieldView) -> Seq<u8> {
    match f {
        FieldView::Text(t) => nul_terminated(t),
        FieldView::Raw(b) => b,
    }
}

/// True where all fields can be written.
pub open spec fn all_writable(fs: Seq<FieldView>) -> bool {
    forall|i: int| 0 <= i < fs.len() ==> is_writable(#[trigger] fs[i])
}

/// The bytes of the fields up to the first one that cannot be written.
pub open spec fn written(fs: Seq<FieldView>) -> Seq<u8>
    decreases fs.len(),
{
    if fs.len() == 0 || !is_writable(fs[0]) {
        Seq::empty()
    } else {
        field_bytes(fs[0]) + written(fs.drop_first())
    }
}

/// Writing fields of which the first can all be written is writing those and
/// then the others.
pub proof fn lemma_written_concat(a: Seq<FieldView>, b: Seq<FieldView>)
    requires
        all_writable(a),
    ensures
        written(a + b) == written(a) + written(b),
    decreases a.len(),
{
    if a.len() == 0 {
        assert(a + b =~= b);
        assert(written(a) + written(b) =~= written(b));
    } else {
        assert((a + b).drop_first() =~= a.drop_first() + b);
        lemma_written_concat(a.drop_first(), b);
        assert(written(a + b) =~= written(a) + written(b));
    }
}

/// A field that cannot be written ends the writing.
pub proof fn lemma_written_stops(a: Seq<FieldView>, f: FieldView, b: Seq<FieldView>)
    requires
        all_writable(a),
        !is_writable(f),
    ensures
        written(a + seq![f] + b) == written(a),
        !all_writable(a + seq![f] + b),
{
    let rest = seq![f] + b;
    assert(a + seq![f] + b =~= a + rest);
    lemma_written_concat(a, rest);
    assert(written(a) + Seq::<u8>::empty() =~= written(a));
    assert((a + seq![f] + b)[a.len() as int] == f);
}

/// The text `splitnum`, a zero, the byte 128 and a zero: the start of a full
/// stat.
pub open spec fn full_stat_prefix() -> Seq<u8> {
    seq![0x73u8, 0x70, 0x6c, 0x69, 0x74, 0x6e, 0x75, 0x6d, 0x00, 0x80, 0x00]
}

/// A one, the text `player_` and two zeros: the start of the names in a full
/// stat.
pub open spec fn player_prefix() -> Seq<u8> {
    seq![0x01u8, 0x70, 0x6c, 0x61, 0x79, 0x65, 0x72, 0x5f, 0x00, 0x00]
}

/// The keys and values of pairs, in turn.
pub open spec fn pair_fields(p: Seq<(Seq<char>, Seq<char>)>) -> Seq<FieldView> {
    Seq::new(
        2 * p.len(),
        |i: int|
            if i % 2 == 0 {
                FieldView::Text(p[i / 2].0)
            } else {
                FieldView::Text(p[i / 2].1)
            },
    )
}

/// Texts, one each.
pub open spec fn text_fields(t: Seq<Seq<char>>) -> Seq<FieldView> {
    t.map_values(|s: Seq<char>| FieldView::Text(s))
}

/// The fields of the payload of a response.
pub open spec fn response_fields(payload: QueryResponsePacketPayloadView) -> Seq<FieldView> {
    match payload {
        QueryResponsePacketPayloadView::Handshake { challenge_token } => seq![
            FieldView::Raw(signed_decimal(challenge_token as int).push(0)),
        ],
        QueryResponsePacketPayloadView::BasicStat {
            motd,
            game_type,
            map,
            num_players,
            max_players,
            host_port,
            host_ip,
        } => seq![
            FieldView::Text(motd),
            FieldView::Text(game_type),
            FieldView::Text(map),
            FieldView::Raw(decimal(num_players as nat).push(0)),
            FieldView::Raw(decimal(max_players as nat).push(0)),
            FieldView::Raw(le_u16_bytes(host_port)),
            FieldView::Raw(ip_text(host_ip).push(0)),
        ],
        QueryResponsePacketPayloadView::FullStat { k_v_section, players } => seq![
            FieldView::Raw(full_stat_prefix()),
        ] + pair_fields(k_v_section) + seq![
            FieldView::Raw(seq![0u8]),
            FieldView::Raw(player_prefix()),
        ] + text_fields(players) + seq![FieldView::Raw(seq![0u8])],
    }
}

enum Field<'a> {
    Text(&'a str),
    Raw(Vec<u8>),
}

impl<'a> View for Field<'a> {
    type V = FieldView;

    closed spec fn view(&self) -> FieldView {
        match self {
            Field::Text(t) => FieldView::Text(t@),
            Field::Raw(b) => FieldView::Raw(b@),
        }
    }
}

spec fn field_views(fs: Seq<Field>) -> Seq<FieldView> {
    fs.map_values(|f: Field| f@)
}

fn push_field<'a>(fs: &mut Vec<Field<'a>>, f: Field<'a>)
    ensures
        field_views(final(fs)@) == field_views(old(fs)@).push(f@),
{
    fs.push(f);
    assert(field_views(fs@) =~= field_views(old(fs)@).push(f@));
}

fn write_fields(buf: &mut PacketBuffer, fs: &Vec<Field>) -> (res: CCProxyResult<()>)
    ensures
        final(buf).data() == overwrite(
            old(buf).data(),
            old(buf).position(),
            written(field_views(fs@)),
        ),
        final(buf).position() == old(buf).position() + written(field_views(fs@)).len(),
        match res {
            Ok(_) => all_writable(field_views(fs@)),
            Err(e) => !all_writable(field_views(fs@)) && e == CCProxyError::QueryInvalid,
        },
{
    let mut i: usize = 0;
    let ghost all = field_views(fs@);
    proof {
        buf.lemma_position();
        lemma_overwrite_empty(buf.data(), buf.position());
        assert(all.take(0) =~= Seq::<FieldView>::empty());
    }
    while i < fs.len()
        invariant
            i <= fs@.len(),
            all == field_views(fs@),
            all_writable(all.take(i as int)),
            old(buf).position() <= old(buf).data().len(),
            buf.data() == overwrite(
                old(buf).data(),
                old(buf).position(),
                written(all.take(i as int)),
            ),
            buf.position() == old(buf).position() + written(all.take(i as int)).len(),
        decreases fs@.len() - i,
    {
        let ghost done = all.take(i as int);
        let ghost f = all[i as int];
        proof {
            assert(f == fs@[i as int]@);
            assert(all =~= done + seq![f] + all.skip(i + 1));
        }
        match &fs[i] {
            Field::Text(t) => match to_cstring(t) {
                Ok(bytes) => {
                    buf.write_all(bytes.as_slice());
                },
                Err(e) => {
                    proof {
                        lemma_written_stops(done, f, all.skip(i + 1));
                    }
                    return Err(e);
                },
            },
            Field::Raw(bytes) => {
                buf.write_all(bytes.as_slice());
            },
        }
        i = i + 1;
        proof {
            assert(all.take(i as int) =~= done + seq![f]);
            lemma_written_concat(done, seq![f]);
            assert(written(seq![f]) =~= field_bytes(f)) by {
                reveal_with_fuel(written, 2);
            }
            lemma_overwrite_concat(
                old(buf).data(),
                old(buf).position(),
                written(done),
                field_bytes(f),
            );
        }
    }
    assert(all.take(all.len() as int) =~= all);
    Ok(())
}

/// The zero-terminated decimal digits of a number.
fn decimal_field<'a>(n: u64) -> (f: Field<'a>)
    ensures
        f@ == FieldView::Raw(decimal(n as nat).push(0)),
{
    let digits: String = u64_to_string(n);
    let mut bytes: Vec<u8> = Vec::new();
    bytes.extend_from_slice(digits.as_str().as_bytes());
    assert(bytes@ =~= decimal(n as nat));
    bytes.push(0);
    Field::Raw(bytes)
}

fn signed_decimal_field<'a>(n: i32) -> (f: Field<'a>)
    ensures
        f@ == FieldView::Raw(signed_decimal(n as int).push(0)),
{
    let digits: String = i32_to_string(n);
    let mut bytes: Vec<u8> = Vec::new();
    bytes.extend_from_slice(digits.as_str().as_bytes());
    assert(bytes@ =~= signed_decimal(n as int));
    bytes.push(0);
    Field::Raw(bytes)
}

fn push_pair_fields<'a>(fs: &mut Vec<Field<'a>>, kv: &'a KvSection)
    ensures
        field_views(final(fs)@) == field_views(old(fs)@) + pair_fields(kv@),
{
    let mut i: usize = 0;
    assert(field_views(fs@) =~= field_views(old(fs)@) + pair_fields(kv@.take(0)));
    while i < kv.len()
        invariant
            i <= kv@.len(),
            field_views(fs@) == field_views(old(fs)@) + pair_fields(kv@.take(i as int)),
        decreases kv@.len() - i,
    {
        push_field(fs, Field::Text(kv.key(i).as_str()));
        push_field(fs, Field::Text(kv.value(i).as_str()));
        i = i + 1;
        assert(pair_fields(kv@.take(i as int)) =~= pair_fields(kv@.take(i - 1)) + seq![
            FieldView::Text(kv@[i - 1].0),
            FieldView::Text(kv@[i - 1].1),
        ]);
        assert(field_views(fs@) =~= field_views(old(fs)@) + pair_fields(kv@.take(i as int)));
    }
    assert(kv@.take(kv@.len() as int) =~= kv@);
}

fn push_text_fields<'a>(fs: &mut Vec<Field<'a>>, names: &'a Vec<String>)
    ensures
        field_views(final(fs)@) == field_views(old(fs)@) + text_fields(texts(names@)),
{
    let mut i: usize = 0;
    let ghost all = texts(names@);
    assert(field_views(fs@) =~= field_views(old(fs)@) + text_fields(all.take(0)));
    while i < names.len()
        invariant
            i <= names@.len(),
            all == texts(names@),
            field_views(fs@) == field_views(old(fs)@) + text_fields(all.take(i as int)),
        decreases names@.len() - i,
    {
        push_field(fs, Field::Text(names[i].as_str()));
        i = i + 1;
        assert(all[i - 1] == names@[i - 1]@);
        assert(text_fields(all.take(i as int)) =~= text_fields(all.take(i - 1)).push(
            FieldView::Text(all[i - 1]),
        ));
        assert(field_views(fs@) =~= field_views(old(fs)@) + text_fields(all.take(i as int)));
    }
    assert(all.take(all.len() as int) =~= all);
}

/// The pairs that a full stat reports for a configuration.
pub open spec fn config_pairs(c: ProxyQueryConfigView) -> Seq<(Seq<char>, Seq<char>)> {
    seq![
        ("hostname"@, c.motd),
        ("gametype"@, c.game_type),
        ("game_id"@, "MINECRAFT"@),
        ("version"@, c.version),
        (
            "plugins"@,
            match c.plugins {
                Some(p) => p,
                None => Seq::empty(),
            },
        ),
        ("map"@, c.map),
        ("numplayers"@, decode_utf8(decimal(c.num_players as nat))),
        ("maxplayers"@, decode_utf8(decimal(c.max_players as nat))),
        ("hostport"@, decode_utf8(decimal(c.host_port as nat))),
        ("hostip"@, decode_utf8(ip_text(c.host_ip))),
    ]
}

/// The place among `config_pairs` of one of its keys.
spec fn key_number(k: Seq<char>) -> int {
    if k.len() == 8 {
        if k[0] == 'g' {
            1
        } else if k[4] == 'n' {
            0
        } else {
            8
        }
    } else if k.len() == 7 {
        if k[0] == 'g' {
            2
        } else if k[0] == 'v' {
            3
        } else {
            4
        }
    } else if k.len() == 10 {
        if k[0] == 'n' {
            6
        } else {
            7
        }
    } else if k.len() == 3 {
        5
    } else {
        9
    }
}

/// The keys that are reported for a configuration differ, and none is empty.
pub proof fn lemma_keys_differ(c: ProxyQueryConfigView)
    ensures
        distinct_keys(config_pairs(c)),
        forall|i: int| 0 <= i < 10 ==> (#[trigger] config_pairs(c)[i]).0.len() > 0,
{
    reveal_strlit("hostname");
    reveal_strlit("gametype");
    reveal_strlit("game_id");
    reveal_strlit("version");
    reveal_strlit("plugins");
    reveal_strlit("map");
    reveal_strlit("numplayers");
    reveal_strlit("maxplayers");
    reveal_strlit("hostport");
    reveal_strlit("hostip");
    let p = config_pairs(c);
    assert(key_number(p[0].0) == 0);
    assert(key_number(p[1].0) == 1);
    assert(key_number(p[2].0) == 2);
    assert(key_number(p[3].0) == 3);
    assert(key_number(p[4].0) == 4);
    assert(key_number(p[5].0) == 5);
    assert(key_number(p[6].0) == 6);
    assert(key_number(p[7].0) == 7);
    assert(key_number(p[8].0) == 8);
    assert(key_number(p[9].0) == 9);
    assert forall|i: int| 0 <= i < 10 implies key_number((#[trigger] p[i]).0) == i
        && p[i].0.len() > 0 by {
        if i < 5 {
            assert(i == 0 || i == 1 || i == 2 || i == 3 || i == 4);
        } else {
            assert(i == 5 || i == 6 || i == 7 || i == 8 || i == 9);
        }
    }
}

fn decimal_string(n: u64) -> (s: String)
    ensures
        s@ == decode_utf8(decimal(n as nat)),
{
    let s: String = u64_to_string(n);
    proof {
        encode_utf8_decode_utf8(s@);
    }
    s
}

fn ip_string(ip: &IpAddr) -> (s: String)
    ensures
        s@ == decode_utf8(ip_text(ip@)),
{
    proof {
        lemma_ip_round_trip(ip@);
        lemma_ascii_valid(ip_text(ip@));
    }
    match string_from_utf8(ip.to_text()) {
        Some(s) => {
            proof {
                encode_utf8_decode_utf8(s@);
            }
            s
        },
        None => String::new(),
    }
}

impl QueryResponsePacketPayload {
    /// Reads the payload of a response of type `ty`; `is_full` tells a full stat
    /// from a basic one.
    pub fn decode(buf: &mut PacketBuffer, ty: &QueryPacketType, is_full: bool) -> (res:
        CCProxyResult<Self>)
        ensures
            final(buf).data() == old(buf).data(),
            (payload_result(res), final(buf).rest()) == take_response_payload(
                old(buf).rest(),
                *ty,
                is_full,
            ),
    {
        match ty {
            QueryPacketType::Stat => {
                if !is_full {
                    let motd: String = read_string_to_null(buf)?;
                    let game_type: String = read_string_to_null(buf)?;
                    let map: String = read_string_to_null(buf)?;
                    let num_players: u64 = read_u64_text(buf)?;
                    let max_players: u64 = read_u64_text(buf)?;
                    let host_port: u16 = buf.read_u16_le()?;
                    let host_ip: IpAddr = read_ip_text(buf)?;
                    Ok(
                        QueryResponsePacketPayload::BasicStat {
                            motd,
                            game_type,
                            map,
                            num_players,
                            max_players,
                            host_port,
                            host_ip,
                        },
                    )
                } else {
                    buf.read_exact(11)?;
                    let k_v_section: KvSection = read_pairs(buf);
                    buf.read_exact(10)?;
                    let players: Vec<String> = read_names(buf);
                    Ok(QueryResponsePacketPayload::FullStat { k_v_section, players })
                }
            },
            QueryPacketType::Handshake => {
                let challenge_token: i32 = read_i32_text(buf)?;
                Ok(QueryResponsePacketPayload::Handshake { challenge_token })
            },
        }
    }

    fn fields(&self) -> (fs: Vec<Field<'_>>)
        ensures
            field_views(fs@) == response_fields(self@),
    {
        let mut fs: Vec<Field<'_>> = Vec::new();
        assert(field_views(fs@) =~= Seq::<FieldView>::empty());
        match self {
            QueryResponsePacketPayload::Handshake { challenge_token } => {
                push_field(&mut fs, signed_decimal_field(*challenge_token));
            },
            QueryResponsePacketPayload::BasicStat {
                motd,
                game_type,
                map,
                num_players,
                max_players,
                host_port,
                host_ip,
            } => {
                push_field(&mut fs, Field::Text(motd.as_str()));
                push_field(&mut fs, Field::Text(game_type.as_str()));
                push_field(&mut fs, Field::Text(map.as_str()));
                push_field(&mut fs, decimal_field(*num_players));
                push_field(&mut fs, decimal_field(*max_players));
                let port: Vec<u8> = vec![(*host_port % 256) as u8, (*host_port / 256) as u8];
                assert(port@ =~= le_u16_bytes(*host_port));
                push_field(&mut fs, Field::Raw(port));
                let mut address: Vec<u8> = host_ip.to_text();
                address.push(0);
                push_field(&mut fs, Field::Raw(address));
            },
            QueryResponsePacketPayload::FullStat { k_v_section, players } => {
                let prefix: Vec<u8> =
                    vec![0x73, 0x70, 0x6c, 0x69, 0x74, 0x6e, 0x75, 0x6d, 0x00, 0x80, 0x00];
                assert(prefix@ =~= full_stat_prefix());
                push_field(&mut fs, Field::Raw(prefix));
                push_pair_fields(&mut fs, k_v_section);
                let end_of_pairs: Vec<u8> = vec![0x00];
                assert(end_of_pairs@ =~= seq![0u8]);
                push_field(&mut fs, Field::Raw(end_of_pairs));
                let names_prefix: Vec<u8> =
                    vec![0x01, 0x70, 0x6c, 0x61, 0x79, 0x65, 0x72, 0x5f, 0x00, 0x00];
                assert(names_prefix@ =~= player_prefix());
                push_field(&mut fs, Field::Raw(names_prefix));
                push_text_fields(&mut fs, players);
                let end_of_names: Vec<u8> = vec![0x00];
                assert(end_of_names@ =~= seq![0u8]);
                push_field(&mut fs, Field::Raw(end_of_names));
            },
        }
        assert(field_views(fs@) =~= response_fields(self@));
        fs
    }

    /// Writes the payload of a response, up to the first text with the character
    /// zero in it, which is an error.
    pub fn encode(&self, buf: &mut PacketBuffer) -> (res: CCProxyResult<()>)
        ensures
            final(buf).data() == overwrite(
                old(buf).data(),
                old(buf).position(),
                written(response_fields(self@)),
            ),
            final(buf).position() == old(buf).position() + written(response_fields(self@)).len(),
            match res {
                Ok(_) => all_writable(response_fields(self@)),
                Err(e) => !all_writable(response_fields(self@)) && e == CCProxyError::QueryInvalid,
            },
    {
        let fs: Vec<Field<'_>> = self.fields();
        write_fields(buf, &fs)
    }

    /// The pairs that a full stat reports for `query`.
    pub fn query_config_to_k_v_section(query: ProxyQueryConfig) -> (kv: KvSection)
        ensures
            kv@ == config_pairs(query@),
            distinct_keys(kv@),
    {
        let ghost all = config_pairs(query@);
        let ProxyQueryConfig {
            motd,
            game_type,
            map,
            num_players,
            max_players,
            host_port,
            host_ip,
            version,
            plugins,
            players: _,
        } = query;
        proof {
            lemma_keys_differ(query@);
        }
        let plugins: String = match plugins {
            Some(p) => p,
            None => String::new(),
        };
        let mut kv: KvSection = KvSection::new();
        assert(kv@ =~= all.take(0));
        put_next(&mut kv, "hostname", motd, Ghost(all));
        put_next(&mut kv, "gametype", game_type, Ghost(all));
        put_next(&mut kv, "game_id", "MINECRAFT".to_owned(), Ghost(all));
        put_next(&mut kv, "version", version, Ghost(all));
        put_next(&mut kv, "plugins", plugins, Ghost(all));
        put_next(&mut kv, "map", map, Ghost(all));
        put_next(&mut kv, "numplayers", decimal_string(num_players), Ghost(all));
        put_next(&mut kv, "maxplayers", decimal_string(max_players), Ghost(all));
        put_next(&mut kv, "hostport", decimal_string(host_port as u64), Ghost(all));
        put_next(&mut kv, "hostip", ip_string(&host_ip), Ghost(all));
        assert(kv@ =~= all);
        kv
    }
}

/// Puts the next of the pairs `all` behind those already there.
fn put_next(kv: &mut KvSection, k: &str, v: String, Ghost(all): Ghost<Seq<(Seq<char>, Seq<char>)>>)
    requires
        distinct_keys(all),
        old(kv)@.len() < all.len(),
        old(kv)@ == all.take(old(kv)@.len() as int),
        all[old(kv)@.len() as int] == (k@, v@),
    ensures
        final(kv)@ == all.take((old(kv)@.len() + 1) as int),
        final(kv)@.len() == old(kv)@.len() + 1,
{
    proof {
        let n = kv@.len() as int;
        assert forall|i: int| 0 <= i < n implies (#[trigger] kv@[i]).0 != k@ by {
            assert(kv@[i] == all[i]);
            assert(all[i].0 != all[n].0);
        }
        lemma_put_new(kv@, k@, v@);
        assert(kv@.push((k@, v@)) =~= all.take(n + 1));
    }
    kv.insert(k.to_owned(), v);
}

/// A Query Protocol response.
#[derive(Debug)]
pub struct QueryResponsePacket {
    pub ty: QueryPacketType,
    pub session_id: i32,
    pub payload: QueryResponsePacketPayload,
}

/// A [`QueryResponsePacket`] over texts.
#[verifier::ext_equal]
pub struct QueryResponsePacketView {
    pub ty: QueryPacketType,
    pub session_id: i32,
    pub payload: QueryResponsePacketPayloadView,
}

impl View for QueryResponsePacket {
    type V = QueryResponsePacketView;

    open spec fn view(&self) -> QueryResponsePacketView {
        QueryResponsePacketView {
            ty: self.ty,
            session_id: self.session_id,
            payload: self.payload@,
        }
    }
}

/// The outcome of reading a response, and what is left.
pub open spec fn take_response(rest: Seq<u8>, is_full: bool) -> (
    CCProxyResult<QueryResponsePacketView>,
    Seq<u8>,
) {
    match take_packet_type(rest) {
        (Err(e), left) => (Err(e), left),
        (Ok(ty), after_type) => match take_i32(after_type) {
            (Err(e), left) => (Err(e), left),
            (Ok(session_id), after_id) => match take_response_payload(after_id, ty, is_full) {
                (Err(e), left) => (Err(e), left),
                (Ok(payload), left) => (
                    Ok(QueryResponsePacketView { ty, session_id, payload }),
                    left,
                ),
            },
        },
    }
}

/// The outcome of reading a response, as a result over texts.
pub open spec fn response_result(res: CCProxyResult<QueryResponsePacket>) -> CCProxyResult<
    QueryResponsePacketView,
> {
    match res {
        Ok(r) => Ok(r@),
        Err(e) => Err(e),
    }
}

/// The bytes of a response, where all its texts can be written.
pub open spec fn response_bytes(r: QueryResponsePacketView) -> Seq<u8> {
    seq![packet_type_byte(r.ty)] + be_i32_bytes(r.session_id) + written(
        response_fields(r.payload),
    )
}

impl QueryResponsePacket {
    /// Reads a response; `is_full` tells a full stat from a basic one.
    pub fn decode(buf: &mut PacketBuffer, is_full: bool) -> (res: CCProxyResult<Self>)
        ensures
            final(buf).data() == old(buf).data(),
            (response_result(res), final(buf).rest()) == take_response(old(buf).rest(), is_full),
    {
        let ty: QueryPacketType = QueryPacketType::decode(buf)?;
        let session_id: i32 = buf.read_i32()?;
        let payload: QueryResponsePacketPayload = QueryResponsePacketPayload::decode(
            buf,
            &ty,
            is_full,
        )?;
        Ok(QueryResponsePacket { ty, session_id, payload })
    }

    /// The bytes of a response, in a buffer positioned behind them. A text with
    /// the character zero in it is an error.
    pub fn encode(&self) -> (res: CCProxyResult<PacketBuffer>)
        ensures
            match res {
                Ok(buf) => {
                    &&& all_writable(response_fields(self@.payload))
                    &&& buf.data() == response_bytes(self@)
                    &&& buf.position() == response_bytes(self@).len()
                },
                Err(e) => {
                    &&& !all_writable(response_fields(self@.payload))
                    &&& e == CCProxyError::QueryInvalid
                },
            },
    {
        let mut buf: PacketBuffer = PacketBuffer::new(Vec::new());
        self.ty.encode(&mut buf)?;
        buf.write_i32(self.session_id);
        self.payload.encode(&mut buf)?;
        assert(buf.data() =~= response_bytes(self@));
        Ok(buf)
    }
}

} // verus!
