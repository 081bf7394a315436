//! The outer frame of Bedrock ("RakNet") packets: the unconnected ping and
//! pong, the offline connection handshake, and the online connection
//! request, written into a `BytesMut` and read from a cursor over `Bytes`.

use vstd::prelude::*;
use vstd::string::StringExecFns;
use vstd::utf8::{decode_utf8, encode_utf8, valid_utf8};
use bytes::{Bytes, BytesMut};
use std::io::Cursor;
use crate::bufs::{
    extend_from_slice, freeze, get_i16_be, get_u16_be, get_u64_be, get_u8, into_buf,
    put_i16_be, put_slice, put_u16_be, put_u64_be, put_u8, remaining, reserve, room,
    unread, unread_slice, written, bytes_mut_new, frozen, frozen_slice,
};
use crate::wire::{
    be16, be64, law_be16_bytes, law_be64_bytes, law_read_be16_value, law_read_be64_value,
    lemma_be16_roundtrip, lemma_be64_roundtrip, lemma_i16_cast_roundtrip, read_be16,
    read_be64,
};
use crate::text::{
    decimal, decimal_nat, is_digit, law_parse_decimal, push_decimal, lemma_decimal_chars, lemma_split_sep, lemma_split_single,
    parse_i32, push_char, push_i32, split_on, split_string, str_to_i32, utf8_str,
};

verus! {

type PkId = u8;

type GUID = u64;

type MTU = i16;

type PlayerCount = i32;

type BedrockNetVer = i32;

type PingPongTime = u64;

type BedrockGameVer = String;

/// A socket address as a packet carries it: the IP address and the port.
/// An IPv6 address is held as its eight 16-bit segments.
#[allow(inconsistent_fields)]
#[derive(Debug, Eq, PartialEq, Clone, Copy)]
pub enum SocketAddress {
    V4 { ip: [u8; 4], port: u16 },
    V6 { ip: [u16; 8], port: u16 },
}

/// A packet of the outer frame.
#[derive(Debug, Eq, PartialEq, Clone)]
pub enum Pk {
    UnconnectedPing { ping_time: PingPongTime },
    OfflineConnectionRequest1 { protocol_version: u8 },
    OfflineConnectionResponse1 { server_id: GUID, mtu: MTU },
    OfflineConnectionRequest2 { server_address: SocketAddress, mtu: MTU, client_id: GUID },
    OfflineConnectionResponse2 { server_id: GUID, client_address: SocketAddress, mtu: MTU },
    OnlineConnectionRequest { client_id: GUID, ping_time: PingPongTime },
    UnconnectedPong {
        ping_time: PingPongTime,
        server_id: GUID,
        msg_of_today: String,
        online_count: PlayerCount,
        max_count: PlayerCount,
        bedrock_net_ver: BedrockNetVer,
        bedrock_game_ver: BedrockGameVer,
    },
}

/// A packet with its strings taken as sequences of `char`.
pub enum PkSpec {
    UnconnectedPing { ping_time: u64 },
    OfflineConnectionRequest1 { protocol_version: u8 },
    OfflineConnectionResponse1 { server_id: u64, mtu: i16 },
    OfflineConnectionRequest2 { server_address: SocketAddress, mtu: i16, client_id: u64 },
    OfflineConnectionResponse2 { server_id: u64, client_address: SocketAddress, mtu: i16 },
    OnlineConnectionRequest { client_id: u64, ping_time: u64 },
    UnconnectedPong {
        ping_time: u64,
        server_id: u64,
        msg_of_today: Seq<char>,
        online_count: i32,
        max_count: i32,
        bedrock_net_ver: i32,
        bedrock_game_ver: Seq<char>,
    },
}

impl View for Pk {
    type V = PkSpec;

    open spec fn view(&self) -> PkSpec {
        match self {
            Pk::UnconnectedPing { ping_time } => PkSpec::UnconnectedPing { ping_time: *ping_time },
            Pk::OfflineConnectionRequest1 { protocol_version } => PkSpec::OfflineConnectionRequest1 {
                protocol_version: *protocol_version,
            },
            Pk::OfflineConnectionResponse1 { server_id, mtu } => PkSpec::OfflineConnectionResponse1 {
                server_id: *server_id,
                mtu: *mtu,
            },
            Pk::OfflineConnectionRequest2 { server_address, mtu, client_id } =>
                PkSpec::OfflineConnectionRequest2 {
                server_address: *server_address,
                mtu: *mtu,
                client_id: *client_id,
            },
            Pk::OfflineConnectionResponse2 { server_id, client_address, mtu } =>
                PkSpec::OfflineConnectionResponse2 {
                server_id: *server_id,
                client_address: *client_address,
                mtu: *mtu,
            },
            Pk::OnlineConnectionRequest { client_id, ping_time } =>
                PkSpec::OnlineConnectionRequest { client_id: *client_id, ping_time: *ping_time },
            Pk::UnconnectedPong {
                ping_time,
                server_id,
                msg_of_today,
                online_count,
                max_count,
                bedrock_net_ver,
                bedrock_game_ver,
            } => PkSpec::UnconnectedPong {
                ping_time: *ping_time,
                server_id: *server_id,
                msg_of_today: msg_of_today@,
                online_count: *online_count,
                max_count: *max_count,
                bedrock_net_ver: *bedrock_net_ver,
                bedrock_game_ver: bedrock_game_ver@,
            },
        }
    }
}

const ID_UNCONNECTED_PING: PkId = 0x01;

const ID_OFFLINE_CONNECTION_REQUEST_1: PkId = 0x05;

const ID_OFFLINE_CONNECTION_RESPONSE_1: PkId = 0x06;

const ID_OFFLINE_CONNECTION_REQUEST_2: PkId = 0x07;

const ID_OFFLINE_CONNECTION_RESPONSE_2: PkId = 0x08;

const ID_ONLINE_CONNECTION_REQUEST: PkId = 0x09;

const ID_UNCONNECTED_PONG: PkId = 0x1c;

/// The sixteen bytes that mark an offline message.
pub const MAGIC: [u8; 16] = [
    0x00, 0xff, 0xff, 0x00, 0xfe, 0xfe, 0xfe, 0xfe, 0xfd, 0xfd, 0xfd, 0xfd, 0x12, 0x34, 0x56, 0x78,
];

/// `n` zero bytes.
pub open spec fn zeros(n: nat) -> Seq<u8> {
    Seq::new(n, |i: int| 0u8)
}

/// The sixteen bytes of an IPv6 address, segment by segment, most
/// significant byte first.
pub open spec fn segment_bytes(seg: Seq<u16>) -> Seq<u8> {
    Seq::new(
        2 * seg.len(),
        |i: int|
            if i % 2 == 0 {
                (seg[i / 2] >> 8u16) as u8
            } else {
                seg[i / 2] as u8
            },
    )
}

/// An address on the wire: a version byte (4 or 6), the IP address, the
/// port.
pub open spec fn address_bytes(a: SocketAddress) -> Seq<u8> {
    match a {
        SocketAddress::V4 { ip, port } => seq![4u8] + ip@ + be16(port),
        SocketAddress::V6 { ip, port } => seq![6u8] + segment_bytes(ip@) + be16(port),
    }
}

/// A string on the wire: its UTF-8 length as a big-endian `u16` (the length
/// taken modulo 2^16), then its UTF-8 bytes.
pub open spec fn string_bytes(s: Seq<char>) -> Seq<u8> {
    be16((encode_utf8(s).len() % 65536) as u16) + encode_utf8(s)
}

/// The text of an unconnected pong:
/// `MCPE;<motd>;<net version>;<game version>;<online>;<max>`.
pub open spec fn pong_text(
    msg_of_today: Seq<char>,
    net_ver: i32,
    game_ver: Seq<char>,
    online: i32,
    max: i32,
) -> Seq<char> {
    seq!['M', 'C', 'P', 'E', ';'] + msg_of_today + seq![';'] + decimal(net_ver as int) + seq![';']
        + game_ver + seq![';'] + decimal(online as int) + seq![';'] + decimal(max as int)
}

/// The bytes of a packet: its id, then its fields.
pub open spec fn encode_pk(p: PkSpec) -> Seq<u8> {
    match p {
        PkSpec::UnconnectedPing { ping_time } => seq![0x01u8] + be64(ping_time) + MAGIC@,
        PkSpec::UnconnectedPong {
            ping_time,
            server_id,
            msg_of_today,
            online_count,
            max_count,
            bedrock_net_ver,
            bedrock_game_ver,
        } => seq![0x1cu8] + be64(ping_time) + be64(server_id) + MAGIC@ + string_bytes(
            pong_text(msg_of_today, bedrock_net_ver, bedrock_game_ver, online_count, max_count),
        ),
        PkSpec::OfflineConnectionRequest1 { protocol_version } => seq![0x05u8] + MAGIC@ + seq![
            protocol_version,
        ] + zeros(46),
        PkSpec::OfflineConnectionResponse1 { server_id, mtu } => seq![0x06u8] + MAGIC@ + be64(
            server_id,
        ) + seq![0u8] + be16(mtu as u16),
        PkSpec::OfflineConnectionRequest2 { server_address, mtu, client_id } => seq![0x07u8]
            + MAGIC@ + address_bytes(server_address) + be16(mtu as u16) + be64(client_id),
        PkSpec::OfflineConnectionResponse2 { server_id, client_address, mtu } => seq![0x08u8]
            + MAGIC@ + be64(server_id) + address_bytes(client_address) + be16(mtu as u16) + seq![
            0u8,
        ],
        PkSpec::OnlineConnectionRequest { client_id, ping_time } => seq![0x09u8] + be64(client_id)
            + be64(ping_time),
    }
}

/// Writing the fields of a packet into a buffer.
pub trait PkPut {
    /// The bytes written so far.
    spec fn pk_data(&self) -> Seq<u8>;

    /// How many more bytes the fixed-size `put_pk_*` methods may write
    /// before the buffer must be reserved again.
    spec fn pk_room(&self) -> nat;

    fn reserve_pk_size(&mut self, size: usize)
        requires
            old(self).pk_data().len() + size <= usize::MAX,
        ensures
            final(self).pk_data() == old(self).pk_data(),
            final(self).pk_room() >= size,
    ;

    fn put_pk_id(&mut self, pk_id: PkId)
        requires
            old(self).pk_room() >= 1,
        ensures
            final(self).pk_data() == old(self).pk_data().push(pk_id),
            final(self).pk_room() == old(self).pk_room() - 1,
    ;

    fn put_pk_ping_pong_time(&mut self, time: PingPongTime)
        requires
            old(self).pk_room() >= 8,
        ensures
            final(self).pk_data() == old(self).pk_data() + be64(time),
            final(self).pk_room() == old(self).pk_room() - 8,
    ;

    fn put_pk_guid(&mut self, guid: GUID)
        requires
            old(self).pk_room() >= 8,
        ensures
            final(self).pk_data() == old(self).pk_data() + be64(guid),
            final(self).pk_room() == old(self).pk_room() - 8,
    ;

    fn put_pk_mtu(&mut self, mtu: MTU)
        requires
            old(self).pk_room() >= 2,
        ensures
            final(self).pk_data() == old(self).pk_data() + be16(mtu as u16),
            final(self).pk_room() == old(self).pk_room() - 2,
    ;

    /// Reserves room for the address itself, so it needs none beforehand.
    fn put_pk_address(&mut self, address: SocketAddress)
        requires
            old(self).pk_data().len() + address_bytes(address).len() <= usize::MAX,
        ensures
            final(self).pk_data() == old(self).pk_data() + address_bytes(address),
    ;

    /// Reserves room for the string itself, so it needs none beforehand.
    fn put_pk_string(&mut self, string: String)
        requires
            old(self).pk_data().len() + 2 + encode_utf8(string@).len() <= usize::MAX,
        ensures
            final(self).pk_data() == old(self).pk_data() + string_bytes(string@),
    ;

    /// Grows the buffer as needed, so it needs no room beforehand.
    fn put_pk_magic(&mut self)
        requires
            old(self).pk_data().len() + 16 <= usize::MAX,
        ensures
            final(self).pk_data() == old(self).pk_data() + MAGIC@,
    ;
}

/// The sixteen bytes of eight segments, most significant first.
fn segments_to_octets(seg: [u16; 8]) -> (out: [u8; 16])
    ensures
        out@ == segment_bytes(seg@),
{
    let mut out = [0u8; 16];
    let mut i: usize = 0;
    while i < 8
        invariant
            i <= 8,
            forall|j: int| 0 <= j < 2 * i ==> out@[j] == segment_bytes(seg@)[j],
        decreases 8 - i,
    {
        out[2 * i] = (seg[i] >> 8u16) as u8;
        out[2 * i + 1] = seg[i] as u8;
        i = i + 1;
    }
    assert(out@ =~= segment_bytes(seg@));
    out
}

impl PkPut for BytesMut {
    open spec fn pk_data(&self) -> Seq<u8> {
        written(*self)
    }

    open spec fn pk_room(&self) -> nat {
        room(*self)
    }

    fn reserve_pk_size(&mut self, size: usize) {
        reserve(self, size);
    }

    fn put_pk_id(&mut self, pk_id: PkId) {
        put_u8(self, pk_id);
    }

    fn put_pk_ping_pong_time(&mut self, time: PingPongTime) {
        put_u64_be(self, time);
    }

    fn put_pk_guid(&mut self, guid: GUID) {
        put_u64_be(self, guid);
    }

    fn put_pk_mtu(&mut self, mtu: MTU) {
        put_i16_be(self, mtu);
    }

    fn put_pk_address(&mut self, address: SocketAddress) {
        match address {
            SocketAddress::V4 { ip, port } => {
                self.reserve_pk_size(1 + 4 + 2);
                put_u8(self, 0x04);
                put_slice(self, ip.as_slice());
                put_u16_be(self, port);
            },
            SocketAddress::V6 { ip, port } => {
                self.reserve_pk_size(1 + 16 + 2);
                put_u8(self, 0x06);
                let octets = segments_to_octets(ip);
                put_slice(self, octets.as_slice());
                put_u16_be(self, port);
            },
        }
        assert(self.pk_data() =~= old(self).pk_data() + address_bytes(address));
    }

    fn put_pk_string(&mut self, string: String) {
        let len = string.as_str().len();
        reserve(self, 2 + len);
        put_u16_be(self, (len % 65536) as u16);
        put_slice(self, string.as_str().as_bytes());
        assert(self.pk_data() =~= old(self).pk_data() + string_bytes(string@));
    }

    fn put_pk_magic(&mut self) {
        extend_from_slice(self, MAGIC.as_slice());
    }
}

/// The text of an unconnected pong, as `format!` writes it.
fn pong_string(
    msg_of_today: &String,
    bedrock_net_ver: i32,
    bedrock_game_ver: &String,
    online_count: i32,
    max_count: i32,
) -> (s: String)
    ensures
        s@ == pong_text(
            msg_of_today@,
            bedrock_net_ver,
            bedrock_game_ver@,
            online_count,
            max_count,
        ),
{
    let mut s = String::new();
    push_char(&mut s, 'M');
    push_char(&mut s, 'C');
    push_char(&mut s, 'P');
    push_char(&mut s, 'E');
    push_char(&mut s, ';');
    s.append(msg_of_today.as_str());
    push_char(&mut s, ';');
    push_i32(&mut s, bedrock_net_ver);
    push_char(&mut s, ';');
    s.append(bedrock_game_ver.as_str());
    push_char(&mut s, ';');
    push_i32(&mut s, online_count);
    push_char(&mut s, ';');
    push_i32(&mut s, max_count);
    assert(s@ =~= pong_text(
        msg_of_today@,
        bedrock_net_ver,
        bedrock_game_ver@,
        online_count,
        max_count,
    ));
    s
}

/// Writes `pk` after what `ans` holds.
pub fn serialize(pk: Pk, ans: &mut BytesMut)
    requires
        written(*old(ans)).len() + encode_pk(pk@).len() <= usize::MAX,
    ensures
        written(*final(ans)) == written(*old(ans)) + encode_pk(pk@),
{
    let ghost start = written(*ans);
    match pk {
        Pk::UnconnectedPing { ping_time } => {
            ans.reserve_pk_size(1 + 8);
            ans.put_pk_id(ID_UNCONNECTED_PING);
            ans.put_pk_ping_pong_time(ping_time);
            ans.put_pk_magic();
        },
        Pk::UnconnectedPong {
            ping_time,
            server_id,
            msg_of_today,
            online_count,
            max_count,
            bedrock_net_ver,
            bedrock_game_ver,
        } => {
            ans.reserve_pk_size(1 + 8 + 8);
            ans.put_pk_id(ID_UNCONNECTED_PONG);
            ans.put_pk_ping_pong_time(ping_time);
            ans.put_pk_guid(server_id);
            ans.put_pk_magic();
            let text = pong_string(
                &msg_of_today,
                bedrock_net_ver,
                &bedrock_game_ver,
                online_count,
                max_count,
            );
            ans.put_pk_string(text);
        },
        Pk::OfflineConnectionRequest1 { protocol_version } => {
            ans.reserve_pk_size(1);
            ans.put_pk_id(ID_OFFLINE_CONNECTION_REQUEST_1);
            ans.put_pk_magic();
            ans.reserve_pk_size(1 + 46);
            put_u8(ans, protocol_version);
            let pad = [0u8; 46];
            assert(pad@ =~= zeros(46));
            put_slice(ans, pad.as_slice());
        },
        Pk::OfflineConnectionResponse1 { server_id, mtu } => {
            ans.reserve_pk_size(1);
            ans.put_pk_id(ID_OFFLINE_CONNECTION_RESPONSE_1);
            ans.put_pk_magic();
            ans.reserve_pk_size(8 + 1 + 2);
            ans.put_pk_guid(server_id);
            put_u8(ans, 0);  // security is never used
            ans.put_pk_mtu(mtu);
        },
        Pk::OfflineConnectionRequest2 { server_address, mtu, client_id } => {
            ans.reserve_pk_size(1);
            ans.put_pk_id(ID_OFFLINE_CONNECTION_REQUEST_2);
            ans.put_pk_magic();
            ans.put_pk_address(server_address);
            ans.reserve_pk_size(2 + 8);
            ans.put_pk_mtu(mtu);
            ans.put_pk_guid(client_id);
        },
        Pk::OfflineConnectionResponse2 { server_id, client_address, mtu } => {
            ans.reserve_pk_size(1);
            ans.put_pk_id(ID_OFFLINE_CONNECTION_RESPONSE_2);
            ans.put_pk_magic();
            ans.reserve_pk_size(8);
            ans.put_pk_guid(server_id);
            ans.put_pk_address(client_address);
            ans.reserve_pk_size(2 + 1);
            ans.put_pk_mtu(mtu);
            put_u8(ans, 0);  // encryption is never enabled
        },
        Pk::OnlineConnectionRequest { client_id, ping_time } => {
            ans.reserve_pk_size(1 + 8 + 8);
            ans.put_pk_id(ID_ONLINE_CONNECTION_REQUEST);
            ans.put_pk_guid(client_id);
            ans.put_pk_ping_pong_time(ping_time);
        },
    }
    assert(written(*ans) =~= start + encode_pk(pk@));
}

/// Why a packet could not be read.
#[derive(Debug, PartialEq, Eq, Clone, Copy)]
pub enum DeserializeError {
    Header,
    Id(PkId),
    Length { required: usize, actual: usize },
    Magic,
    IpProto { proto: u8 },
}

/// The text of an error, as its `Display` writes it.
pub open spec fn error_text(e: DeserializeError) -> Seq<char> {
    match e {
        DeserializeError::Header => "no header found"@,
        DeserializeError::Id(id) => "unsupported packet id: "@ + decimal_nat(id as nat),
        DeserializeError::Length { required, actual } => "packet length: required "@
            + decimal_nat(required as nat) + ", got "@ + decimal_nat(actual as nat),
        DeserializeError::Magic => "incorrect magic"@,
        DeserializeError::IpProto { proto } => "ip version: "@ + decimal_nat(proto as nat),
    }
}

impl DeserializeError {
    /// The text of the error, in place of `Display`.
    pub fn message(&self) -> (s: String)
        ensures
            s@ == error_text(*self),
    {
        let mut s = String::new();
        match *self {
            DeserializeError::Header => s.append("no header found"),
            DeserializeError::Id(id) => {
                s.append("unsupported packet id: ");
                push_decimal(&mut s, id as u64);
            },
            DeserializeError::Length { required, actual } => {
                s.append("packet length: required ");
                push_decimal(&mut s, required as u64);
                s.append(", got ");
                push_decimal(&mut s, actual as u64);
            },
            DeserializeError::Magic => s.append("incorrect magic"),
            DeserializeError::IpProto { proto } => {
                s.append("ip version: ");
                push_decimal(&mut s, proto as u64);
            },
        }
        assert(s@ =~= error_text(*self));
        s
    }
}

/// The input opens with the magic bytes.
pub open spec fn magic_ok(s: Seq<u8>) -> bool {
    s.len() >= 16 && s.take(16) == MAGIC@
}

/// How many bytes a magic check reads, from index `i` on: up to and with
/// the first byte that differs, or all sixteen.
pub open spec fn magic_scan(s: Seq<u8>, i: int) -> int
    decreases 16 - i,
{
    if i < 0 || i >= 16 {
        16
    } else if s[i] != MAGIC@[i] {
        i + 1
    } else {
        magic_scan(s, i + 1)
    }
}

/// How many bytes a magic check reads: none when fewer than sixteen are
/// left.
pub open spec fn magic_read(s: Seq<u8>) -> int {
    if s.len() < 16 {
        0
    } else {
        magic_scan(s, 0)
    }
}

/// Reading an address panics here: an IPv6 address is followed by at least
/// ten bytes, which the length check accepts, but by fewer than the
/// eighteen that it reads.
pub open spec fn address_panics(s: Seq<u8>) -> bool {
    s.len() >= 1 && s[0] == 6 && 10 <= s.len() - 1 < 18
}

/// The address read from the front of `s`.
pub open spec fn read_address(s: Seq<u8>) -> Result<SocketAddress, DeserializeError> {
    if s.len() < 1 {
        Err(DeserializeError::Length { required: 1, actual: 0 })
    } else {
        let r = s.skip(1);
        if s[0] == 4 {
            if r.len() < 6 {
                Err(DeserializeError::Length { required: 6, actual: r.len() as usize })
            } else {
                Ok(SocketAddress::V4 { ip: [r[0], r[1], r[2], r[3]], port: read_be16(r.skip(4)) })
            }
        } else if s[0] == 6 {
            if r.len() < 10 {
                Err(DeserializeError::Length { required: 10, actual: r.len() as usize })
            } else {
                Ok(
                    SocketAddress::V6 {
                        ip: [
                            read_be16(r),
                            read_be16(r.skip(2)),
                            read_be16(r.skip(4)),
                            read_be16(r.skip(6)),
                            read_be16(r.skip(8)),
                            read_be16(r.skip(10)),
                            read_be16(r.skip(12)),
                            read_be16(r.skip(14)),
                        ],
                        port: read_be16(r.skip(16)),
                    },
                )
            }
        } else {
            Err(DeserializeError::IpProto { proto: s[0] })
        }
    }
}

/// How many bytes reading an address takes, whether or not it succeeds.
pub open spec fn address_read(s: Seq<u8>) -> int {
    if s.len() < 1 {
        0
    } else if s[0] == 4 && s.len() - 1 >= 6 {
        7
    } else if s[0] == 6 && s.len() - 1 >= 10 {
        19
    } else {
        1
    }
}

/// Reading the fields of a packet from a buffer.
pub trait PkGet {
    /// The bytes not yet read.
    spec fn pk_unread(&self) -> Seq<u8>;

    fn pk_remaining(&mut self) -> (n: usize)
        ensures
            n == old(self).pk_unread().len(),
            final(self).pk_unread() == old(self).pk_unread(),
    ;

    fn get_pk_id(&mut self) -> (id: PkId)
        requires
            old(self).pk_unread().len() >= 1,
        ensures
            id == old(self).pk_unread()[0],
            final(self).pk_unread() == old(self).pk_unread().skip(1),
    ;

    fn get_pk_ping_pong_time(&mut self) -> (t: PingPongTime)
        requires
            old(self).pk_unread().len() >= 8,
        ensures
            t == read_be64(old(self).pk_unread()),
            final(self).pk_unread() == old(self).pk_unread().skip(8),
    ;

    fn get_pk_guid(&mut self) -> (g: GUID)
        requires
            old(self).pk_unread().len() >= 8,
        ensures
            g == read_be64(old(self).pk_unread()),
            final(self).pk_unread() == old(self).pk_unread().skip(8),
    ;

    fn get_pk_mtu(&mut self) -> (m: MTU)
        requires
            old(self).pk_unread().len() >= 2,
        ensures
            m == read_be16(old(self).pk_unread()) as i16,
            final(self).pk_unread() == old(self).pk_unread().skip(2),
    ;

    fn try_get_pk_address(&mut self) -> (r: Result<SocketAddress, DeserializeError>)
        requires
            !address_panics(old(self).pk_unread()),
        ensures
            r == read_address(old(self).pk_unread()),
            final(self).pk_unread() == old(self).pk_unread().skip(
                address_read(old(self).pk_unread()),
            ),
    ;

    fn validate_pk_magic(&mut self) -> (ok: bool)
        ensures
            ok == magic_ok(old(self).pk_unread()),
            final(self).pk_unread() == old(self).pk_unread().skip(
                magic_read(old(self).pk_unread()),
            ),
    ;
}

proof fn lemma_magic_scan_full(s: Seq<u8>, k: int)
    requires
        magic_ok(s),
        0 <= k <= 16,
    ensures
        magic_scan(s, k) == 16,
    decreases 16 - k,
{
    if k < 16 {
        assert(s[k] == s.take(16)[k]);
        lemma_magic_scan_full(s, k + 1);
    }
}

/// A magic check that passes reads all sixteen bytes.
pub proof fn lemma_magic_read_ok(s: Seq<u8>)
    requires
        magic_ok(s),
    ensures
        magic_read(s) == 16,
{
    lemma_magic_scan_full(s, 0);
}

proof fn lemma_magic_scan_stops(s: Seq<u8>, k: int, i: int)
    requires
        0 <= k <= i < 16,
        s.len() >= 16,
        forall|j: int| 0 <= j < i ==> s[j] == MAGIC@[j],
        s[i] != MAGIC@[i],
    ensures
        magic_scan(s, k) == i + 1,
    decreases i - k,
{
    if k < i {
        lemma_magic_scan_stops(s, k + 1, i);
    }
}

impl PkGet for Cursor<Bytes> {
    open spec fn pk_unread(&self) -> Seq<u8> {
        unread(*self)
    }

    fn pk_remaining(&mut self) -> (n: usize) {
        remaining(self)
    }

    fn get_pk_id(&mut self) -> (id: PkId) {
        get_u8(self)
    }

    fn get_pk_ping_pong_time(&mut self) -> (t: PingPongTime) {
        get_u64_be(self)
    }

    fn get_pk_guid(&mut self) -> (g: GUID) {
        get_u64_be(self)
    }

    fn get_pk_mtu(&mut self) -> (m: MTU) {
        get_i16_be(self)
    }

    fn try_get_pk_address(&mut self) -> (r: Result<SocketAddress, DeserializeError>) {
        let ghost s = unread(*self);
        if self.pk_remaining() < 1 {
            return Err(DeserializeError::Length { required: 1, actual: self.pk_remaining() });
        }
        let ghost r = s.skip(1);
        let ip_addr: SocketAddress;
        let proto = get_u8(self);
        if proto == 0x04 {
            if self.pk_remaining() < 4 + 2 {
                return Err(DeserializeError::Length { required: 4 + 2, actual: self.pk_remaining() });
            }
            let a = get_u8(self);
            let b = get_u8(self);
            let c = get_u8(self);
            let d = get_u8(self);
            assert(unread(*self) == r.skip(4));
            let port = get_u16_be(self);
            assert(unread(*self) =~= s.skip(7));
            return Ok(SocketAddress::V4 { ip: [a, b, c, d], port });
        } else if proto == 0x06 {
            if self.pk_remaining() < 8 + 2 {
                return Err(DeserializeError::Length { required: 8 + 2, actual: self.pk_remaining() });
            }
            let s0 = get_u16_be(self);
            let s1 = get_u16_be(self);
            let s2 = get_u16_be(self);
            let s3 = get_u16_be(self);
            let s4 = get_u16_be(self);
            let s5 = get_u16_be(self);
            let s6 = get_u16_be(self);
            let s7 = get_u16_be(self);
            let port = get_u16_be(self);
            assert(unread(*self) =~= s.skip(19));
            return Ok(SocketAddress::V6 { ip: [s0, s1, s2, s3, s4, s5, s6, s7], port });
        } else {
            return Err(DeserializeError::IpProto { proto });
        }
    }

    fn validate_pk_magic(&mut self) -> (ok: bool) {
        let ghost s = unread(*self);
        if remaining(self) < 16 {
            return false;
        }
        let mut i: usize = 0;
        while i < 16
            invariant
                0 <= i <= 16,
                s.len() >= 16,
                s == unread(*old(self)),
                unread(*self) == s.skip(i as int),
                forall|j: int| 0 <= j < i ==> s[j] == MAGIC@[j],
            decreases 16 - i,
        {
            let b = get_u8(self);
            assert(b == s[i as int]);
            if b != MAGIC[i] {
                proof {
                    lemma_magic_scan_stops(s, 0, i as int);
                    assert(s.take(16)[i as int] != MAGIC@[i as int]);
                }
                assert(unread(*self) =~= s.skip(i + 1));
                return false;
            }
            i = i + 1;
            assert(unread(*self) =~= s.skip(i as int));
        }
        proof {
            assert(s.take(16) =~= MAGIC@);
            lemma_magic_read_ok(s);
        }
        return true;
    }
}

/// Field `i` of a split pong text, or `"0"` where the text has fewer fields.
pub open spec fn field_or_zero(parts: Seq<Seq<char>>, i: int) -> Seq<char> {
    if i < parts.len() {
        parts[i]
    } else {
        seq!['0']
    }
}

/// Field `i` of a split pong text read as an `i32`, or 0 where it is missing
/// or is no `i32`.
pub open spec fn number_or_zero(parts: Seq<Seq<char>>, i: int) -> i32 {
    match parse_i32(field_or_zero(parts, i)) {
        Some(v) => v,
        None => 0,
    }
}

/// The pong that a text carries: the fields between its `;` separators,
/// the first being the `MCPE` tag, which is not checked.
pub open spec fn pong_from_text(ping_time: u64, server_id: u64, text: Seq<char>) -> PkSpec {
    let parts = split_on(text, ';');
    PkSpec::UnconnectedPong {
        ping_time,
        server_id,
        msg_of_today: field_or_zero(parts, 1),
        online_count: number_or_zero(parts, 4),
        max_count: number_or_zero(parts, 5),
        bedrock_net_ver: number_or_zero(parts, 2),
        bedrock_game_ver: field_or_zero(parts, 3),
    }
}

/// An unconnected pong read from the bytes after its id. Its string is the
/// rest of the input: where that rest is no valid UTF-8 it counts as an
/// empty string of zero bytes, and the announced length must equal the
/// number of bytes of the string.
pub open spec fn decode_pong(r: Seq<u8>) -> Result<PkSpec, DeserializeError> {
    if r.len() < 34 {
        Err(DeserializeError::Length { required: 34, actual: r.len() as usize })
    } else if !magic_ok(r.skip(8).skip(8)) {
        Err(DeserializeError::Magic)
    } else {
        let t = r.skip(8).skip(8).skip(16);
        let len = read_be16(t);
        let rest = t.skip(2);
        let got: int = if valid_utf8(rest) {
            rest.len() as int
        } else {
            0
        };
        if got != len {
            Err(DeserializeError::Length { required: len as usize, actual: got as usize })
        } else {
            Ok(
                pong_from_text(
                    read_be64(r),
                    read_be64(r.skip(8)),
                    if valid_utf8(rest) {
                        decode_utf8(rest)
                    } else {
                        Seq::<char>::empty()
                    },
                ),
            )
        }
    }
}

/// An offline connection request of the first step, read from the bytes
/// after its magic.
pub open spec fn decode_request1(t: Seq<u8>) -> Result<PkSpec, DeserializeError> {
    if t.len() < 1 {
        Err(DeserializeError::Length { required: 1, actual: t.len() as usize })
    } else {
        Ok(PkSpec::OfflineConnectionRequest1 { protocol_version: t[0] })
    }
}

/// An offline connection response of the first step, read from the bytes
/// after its magic.
pub open spec fn decode_response1(t: Seq<u8>) -> Result<PkSpec, DeserializeError> {
    if t.len() < 10 {
        Err(DeserializeError::Length { required: 10, actual: t.len() as usize })
    } else {
        Ok(
            PkSpec::OfflineConnectionResponse1 {
                server_id: read_be64(t),
                mtu: read_be16(t.skip(8).skip(1)) as i16,
            },
        )
    }
}

/// An offline connection request of the second step, read from the bytes
/// after its magic.
pub open spec fn decode_request2(t: Seq<u8>) -> Result<PkSpec, DeserializeError> {
    match read_address(t) {
        Err(e) => Err(e),
        Ok(a) => {
            let u = t.skip(address_read(t));
            if u.len() < 10 {
                Err(DeserializeError::Length { required: 10, actual: u.len() as usize })
            } else {
                Ok(
                    PkSpec::OfflineConnectionRequest2 {
                        server_address: a,
                        mtu: read_be16(u) as i16,
                        client_id: read_be64(u.skip(2)),
                    },
                )
            }
        },
    }
}

/// An offline connection response of the second step, read from the bytes
/// after its magic.
pub open spec fn decode_response2(t: Seq<u8>) -> Result<PkSpec, DeserializeError> {
    if t.len() < 8 {
        Err(DeserializeError::Length { required: 8, actual: t.len() as usize })
    } else {
        let u = t.skip(8);
        match read_address(u) {
            Err(e) => Err(e),
            Ok(a) => {
                let w = u.skip(address_read(u));
                if w.len() < 2 {
                    Err(DeserializeError::Length { required: 2, actual: w.len() as usize })
                } else {
                    Ok(
                        PkSpec::OfflineConnectionResponse2 {
                            server_id: read_be64(t),
                            client_address: a,
                            mtu: read_be16(w) as i16,
                        },
                    )
                }
            },
        }
    }
}

/// The packet read from `s`, or the reason it cannot be read.
pub open spec fn decode_pk(s: Seq<u8>) -> Result<PkSpec, DeserializeError> {
    if s.len() < 1 {
        Err(DeserializeError::Header)
    } else {
        let id = s[0];
        let r = s.skip(1);
        if id == 0x01 {
            if r.len() < 8 {
                Err(DeserializeError::Length { required: 8, actual: r.len() as usize })
            } else if !magic_ok(r.skip(8)) {
                Err(DeserializeError::Magic)
            } else {
                Ok(PkSpec::UnconnectedPing { ping_time: read_be64(r) })
            }
        } else if id == 0x1c {
            decode_pong(r)
        } else if id == 0x05 || id == 0x06 || id == 0x07 || id == 0x08 {
            if !magic_ok(r) {
                Err(DeserializeError::Magic)
            } else if id == 0x05 {
                decode_request1(r.skip(16))
            } else if id == 0x06 {
                decode_response1(r.skip(16))
            } else if id == 0x07 {
                decode_request2(r.skip(16))
            } else {
                decode_response2(r.skip(16))
            }
        } else {
            Err(DeserializeError::Id(id))
        }
    }
}

/// Reading `s` as a packet panics: where an offline connection response of
/// the first step has exactly ten bytes after its magic (the length check
/// asks for ten, the fields take eleven), or where the address of an
/// offline connection request or response of the second step is an IPv6
/// address cut short.
pub open spec fn decode_panics(s: Seq<u8>) -> bool {
    &&& s.len() >= 1
    &&& magic_ok(s.skip(1))
    &&& {
        ||| s[0] == 0x06 && s.skip(1).skip(16).len() == 10
        ||| s[0] == 0x07 && address_panics(s.skip(1).skip(16))
        ||| s[0] == 0x08 && s.skip(1).skip(16).len() >= 8 && address_panics(
            s.skip(1).skip(16).skip(8),
        )
    }
}

pub open spec fn pk_result_view(r: Result<Pk, DeserializeError>) -> Result<PkSpec, DeserializeError> {
    match r {
        Ok(p) => Ok(p@),
        Err(e) => Err(e),
    }
}

/// Field `i` of the split pong text, or `"0"`.
fn field_at(parts: &Vec<String>, i: usize) -> (f: String)
    ensures
        f@ == field_or_zero(parts@.map_values(|p: String| p@), i as int),
{
    if i < parts.len() {
        parts[i].clone()
    } else {
        let mut z = String::new();
        push_char(&mut z, '0');
        assert(z@ =~= seq!['0']);
        z
    }
}

/// Field `i` of the split pong text as an `i32`, or 0.
fn number_at(parts: &Vec<String>, i: usize) -> (v: i32)
    ensures
        v == number_or_zero(parts@.map_values(|p: String| p@), i as int),
{
    let f = field_at(parts, i);
    match str_to_i32(f.as_str()) {
        Some(v) => v,
        None => 0,
    }
}

fn deserialize_pong(cur: &mut Cursor<Bytes>) -> (res: Result<Pk, DeserializeError>)
    ensures
        pk_result_view(res) == decode_pong(unread(*old(cur))),
{
    let ghost r = unread(*cur);
    if cur.pk_remaining() < 8 + 8 + 16 + 2 {
        return Err(DeserializeError::Length { required: 8 + 8 + 16 + 2, actual: cur.pk_remaining() });
    }
    let ping_time = cur.get_pk_ping_pong_time();
    let server_id = cur.get_pk_guid();
    if !cur.validate_pk_magic() {
        return Err(DeserializeError::Magic);
    }
    let ghost t = r.skip(8).skip(8).skip(16);
    proof {
        lemma_magic_read_ok(r.skip(8).skip(8));
    }
    assert(unread(*cur) == t);
    if cur.pk_remaining() < 2 {
        return Err(DeserializeError::Length { required: 2, actual: cur.pk_remaining() });
    }
    let len = get_u16_be(cur) as usize;
    let rest = unread_slice(cur);
    let text: String;
    let got: usize;
    match utf8_str(rest) {
        Some(s) => {
            proof {
                vstd::utf8::encode_utf8_decode_utf8(s@);
            }
            text = s.to_owned();
            got = rest.len();
        },
        None => {
            text = String::new();
            got = 0;
        },
    }
    if got != len {
        return Err(DeserializeError::Length { required: len, actual: got });
    }
    let parts = split_string(text.as_str(), ';');
    let msg_of_today = field_at(&parts, 1);
    let bedrock_net_ver = number_at(&parts, 2);
    let bedrock_game_ver = field_at(&parts, 3);
    let online_count = number_at(&parts, 4);
    let max_count = number_at(&parts, 5);
    Ok(
        Pk::UnconnectedPong {
            ping_time,
            server_id,
            msg_of_today,
            online_count,
            max_count,
            bedrock_net_ver,
            bedrock_game_ver,
        },
    )
}

/// Reads a packet from the cursor.
fn deserialize(cur: &mut Cursor<Bytes>) -> (res: Result<Pk, DeserializeError>)
    requires
        !decode_panics(unread(*old(cur))),
    ensures
        pk_result_view(res) == decode_pk(unread(*old(cur))),
{
    let ghost s = unread(*cur);
    if cur.pk_remaining() < 1 {
        return Err(DeserializeError::Header);
    }
    let pk_id: PkId = get_u8(cur);
    let ghost r = s.skip(1);
    if pk_id == ID_UNCONNECTED_PING {
        if cur.pk_remaining() < 8 {
            return Err(DeserializeError::Length { required: 8, actual: cur.pk_remaining() });
        }
        let ping_time = cur.get_pk_ping_pong_time();
        if !cur.validate_pk_magic() {
            return Err(DeserializeError::Magic);
        }
        Ok(Pk::UnconnectedPing { ping_time })
    } else if pk_id == ID_UNCONNECTED_PONG {
        deserialize_pong(cur)
    } else if pk_id == ID_OFFLINE_CONNECTION_REQUEST_1 {
        if !cur.validate_pk_magic() {
            return Err(DeserializeError::Magic);
        }
        proof {
            lemma_magic_read_ok(r);
        }
        if cur.pk_remaining() < 1 {
            return Err(DeserializeError::Length { required: 1, actual: cur.pk_remaining() });
        }
        let protocol_version = get_u8(cur);
        Ok(Pk::OfflineConnectionRequest1 { protocol_version })
    } else if pk_id == ID_OFFLINE_CONNECTION_RESPONSE_1 {
        if !cur.validate_pk_magic() {
            return Err(DeserializeError::Magic);
        }
        proof {
            lemma_magic_read_ok(r);
        }
        if cur.pk_remaining() < 8 + 1 + 1 {
            return Err(DeserializeError::Length { required: 8 + 1 + 1, actual: cur.pk_remaining() });
        }
        let server_id = cur.get_pk_guid();
        get_u8(cur);  // the security flag is ignored
        let mtu = cur.get_pk_mtu();
        Ok(Pk::OfflineConnectionResponse1 { server_id, mtu })
    } else if pk_id == ID_OFFLINE_CONNECTION_REQUEST_2 {
        if !cur.validate_pk_magic() {
            return Err(DeserializeError::Magic);
        }
        proof {
            lemma_magic_read_ok(r);
        }
        let server_address: SocketAddress;
        match cur.try_get_pk_address() {
            Ok(a) => server_address = a,
            Err(e) => return Err(e),
        }
        if cur.pk_remaining() < 2 + 8 {
            return Err(DeserializeError::Length { required: 2 + 8, actual: cur.pk_remaining() });
        }
        let mtu = cur.get_pk_mtu();
        let client_id = cur.get_pk_guid();
        Ok(Pk::OfflineConnectionRequest2 { server_address, mtu, client_id })
    } else if pk_id == ID_OFFLINE_CONNECTION_RESPONSE_2 {
        if !cur.validate_pk_magic() {
            return Err(DeserializeError::Magic);
        }
        proof {
            lemma_magic_read_ok(r);
        }
        if cur.pk_remaining() < 8 {
            return Err(DeserializeError::Length { required: 8, actual: cur.pk_remaining() });
        }
        let server_id = cur.get_pk_guid();
        let client_address: SocketAddress;
        match cur.try_get_pk_address() {
            Ok(a) => client_address = a,
            Err(e) => return Err(e),
        }
        if cur.pk_remaining() < 2 {
            return Err(DeserializeError::Length { required: 2, actual: cur.pk_remaining() });
        }
        let mtu = cur.get_pk_mtu();
        Ok(Pk::OfflineConnectionResponse2 { server_id, client_address, mtu })
    } else {
        Err(DeserializeError::Id(pk_id))
    }
}

/// Reading a packet out of a buffer.
pub trait IntoPk: Sized {
    /// The bytes that the packet is read from.
    spec fn pk_source(&self) -> Seq<u8>;

    fn try_into_pk(self) -> (r: Result<Pk, DeserializeError>)
        requires
            !decode_panics(self.pk_source()),
        ensures
            pk_result_view(r) == decode_pk(self.pk_source()),
    ;
}

impl IntoPk for Bytes {
    open spec fn pk_source(&self) -> Seq<u8> {
        frozen(*self)
    }

    fn try_into_pk(self) -> (r: Result<Pk, DeserializeError>) {
        let mut cur = into_buf(self);
        deserialize(&mut cur)
    }
}

/// The bytes of a packet, frozen. The length bound is a machine limit: it
/// fails only where a string of the packet fills the address space.
pub fn bytes_from_pk(pk: Pk) -> (b: Bytes)
    requires
        encode_pk(pk@).len() <= usize::MAX,
    ensures
        frozen(b) == encode_pk(pk@),
{
    let mut ans = bytes_mut_new();
    serialize(pk, &mut ans);
    freeze(ans)
}

/// Whether `s` opens with the magic bytes from index `at` on.
fn has_magic_at(s: &[u8], at: usize) -> (ok: bool)
    requires
        at <= s@.len(),
    ensures
        ok == magic_ok(s@.skip(at as int)),
{
    let ghost t = s@.skip(at as int);
    if s.len() - at < 16 {
        return false;
    }
    let n = s.len();
    let mut i: usize = 0;
    while i < 16
        invariant
            i <= 16,
            n == s@.len(),
            at + 16 <= n,
            t == s@.skip(at as int),
            forall|j: int| 0 <= j < i ==> t[j] == MAGIC@[j],
        decreases 16 - i,
    {
        assert(at + i < s@.len());
        assert(s@[at + i] == t[i as int]);
        if s[at + i] != MAGIC[i] {
            assert(t.take(16)[i as int] != MAGIC@[i as int]);
            return false;
        }
        i = i + 1;
    }
    assert(t.take(16) =~= MAGIC@);
    true
}

/// Whether reading an address from `s` at index `at` would panic.
fn address_would_panic(s: &[u8], at: usize) -> (p: bool)
    requires
        at <= s@.len(),
    ensures
        p == address_panics(s@.skip(at as int)),
{
    let n = s.len() - at;
    n >= 1 && s[at] == 6 && 10 <= n - 1 && n - 1 < 18
}

/// Whether reading `s` as a packet would panic.
pub fn decode_would_panic(s: &[u8]) -> (p: bool)
    ensures
        p == decode_panics(s@),
{
    if s.len() < 1 + 16 || !has_magic_at(s, 1) {
        proof {
            if s@.len() >= 1 {
                assert(s@.skip(1).len() < 16 ==> !magic_ok(s@.skip(1)));
            }
        }
        return false;
    }
    assert(s@.skip(1).skip(16) =~= s@.skip(17));
    let id = s[0];
    if id == 0x06 {
        s.len() - 17 == 10
    } else if id == 0x07 {
        address_would_panic(s, 17)
    } else if id == 0x08 {
        if s.len() - 17 >= 8 {
            assert(s@.skip(17).skip(8) =~= s@.skip(25));
            address_would_panic(s, 25)
        } else {
            false
        }
    } else {
        false
    }
}

/// Reads a packet out of `b`, or gives `None` where reading it would panic
/// (see `decode_panics`).
pub fn try_into_pk_checked(b: Bytes) -> (r: Option<Result<Pk, DeserializeError>>)
    ensures
        r is None <==> decode_panics(frozen(b)),
        r matches Some(x) ==> pk_result_view(x) == decode_pk(frozen(b)),
{
    if decode_would_panic(frozen_slice(&b)) {
        None
    } else {
        Some(b.try_into_pk())
    }
}

/// The magic bytes pass the magic check, whatever follows them.
pub proof fn law_magic_check(rest: Seq<u8>)
    ensures
        magic_ok(MAGIC@ + rest),
        magic_read(MAGIC@ + rest) == 16,
{
    assert((MAGIC@ + rest).take(16) =~= MAGIC@);
    lemma_magic_read_ok(MAGIC@ + rest);
}

/// An address written is read back, whatever follows it: the read takes
/// exactly its bytes and does not panic.
pub proof fn law_address_roundtrip(a: SocketAddress, rest: Seq<u8>)
    ensures
        !address_panics(address_bytes(a) + rest),
        read_address(address_bytes(a) + rest) == Ok::<SocketAddress, DeserializeError>(a),
        address_read(address_bytes(a) + rest) == address_bytes(a).len(),
        (address_bytes(a) + rest).skip(address_bytes(a).len() as int) == rest,
{
    let s = address_bytes(a) + rest;
    let r = s.skip(1);
    assert(s.skip(address_bytes(a).len() as int) =~= rest);
    match a {
        SocketAddress::V4 { ip, port } => {
            assert(r.skip(4).take(2) =~= be16(port));
            lemma_be16_roundtrip(port, r.skip(4));
            let got: [u8; 4] = [r[0], r[1], r[2], r[3]];
            assert(got =~= ip);
        },
        SocketAddress::V6 { ip, port } => {
            let seg = ip@;
            assert forall|k: int| 0 <= k < 8 implies read_be16(#[trigger] r.skip(2 * k)) == ip[k] by {
                assert(r.skip(2 * k).take(2) =~= be16(ip[k]));
                lemma_be16_roundtrip(ip[k], r.skip(2 * k));
            }
            assert(r.skip(16).take(2) =~= be16(port));
            lemma_be16_roundtrip(port, r.skip(16));
            let got: [u16; 8] = [
                read_be16(r),
                read_be16(r.skip(2)),
                read_be16(r.skip(4)),
                read_be16(r.skip(6)),
                read_be16(r.skip(8)),
                read_be16(r.skip(10)),
                read_be16(r.skip(12)),
                read_be16(r.skip(14)),
            ];
            assert(r.skip(0) == r);
            assert(read_be16(r.skip(2 * 0int)) == ip[0]);
            assert(read_be16(r.skip(2 * 1int)) == ip[1]);
            assert(read_be16(r.skip(2 * 2int)) == ip[2]);
            assert(read_be16(r.skip(2 * 3int)) == ip[3]);
            assert(read_be16(r.skip(2 * 4int)) == ip[4]);
            assert(read_be16(r.skip(2 * 5int)) == ip[5]);
            assert(read_be16(r.skip(2 * 6int)) == ip[6]);
            assert(read_be16(r.skip(2 * 7int)) == ip[7]);
            assert(got =~= ip);
        },
    }
}

/// The packets that read back as written: all but the online connection
/// request, which has no reading; and a pong only where neither of its
/// strings holds a `;` and its text fits the 16-bit length.
pub open spec fn roundtrips(p: PkSpec) -> bool {
    match p {
        PkSpec::OnlineConnectionRequest { .. } => false,
        PkSpec::UnconnectedPong {
            msg_of_today,
            online_count,
            max_count,
            bedrock_net_ver,
            bedrock_game_ver,
            ..
        } => {
            &&& !msg_of_today.contains(';')
            &&& !bedrock_game_ver.contains(';')
            &&& encode_utf8(
                pong_text(msg_of_today, bedrock_net_ver, bedrock_game_ver, online_count, max_count),
            ).len() < 65536
        },
        _ => true,
    }
}

proof fn lemma_pong_parts(msg: Seq<char>, net: i32, game: Seq<char>, online: i32, max: i32)
    requires
        !msg.contains(';'),
        !game.contains(';'),
    ensures
        split_on(pong_text(msg, net, game, online, max), ';') == seq![
            seq!['M', 'C', 'P', 'E'],
            msg,
            decimal(net as int),
            game,
            decimal(online as int),
            decimal(max as int),
        ],
{
    let tag = seq!['M', 'C', 'P', 'E'];
    assert(!is_digit(';'));
    lemma_decimal_chars(net as int, ';');
    lemma_decimal_chars(online as int, ';');
    lemma_decimal_chars(max as int, ';');
    assert(!tag.contains(';')) by {
        if tag.contains(';') {
            let i = choose|i: int| 0 <= i < tag.len() && tag[i] == ';';
        }
    }
    let sc = seq![';'];
    let p0 = tag;
    let p1 = p0 + sc + msg;
    let p2 = p1 + sc + decimal(net as int);
    let p3 = p2 + sc + game;
    let p4 = p3 + sc + decimal(online as int);
    let p5 = p4 + sc + decimal(max as int);
    assert(p5 =~= pong_text(msg, net, game, online, max));
    lemma_split_single(p0, ';');
    lemma_split_sep(p0, msg, ';');
    lemma_split_sep(p1, decimal(net as int), ';');
    lemma_split_sep(p2, game, ';');
    lemma_split_sep(p3, decimal(online as int), ';');
    lemma_split_sep(p4, decimal(max as int), ';');
    assert(split_on(p5, ';') =~= seq![
        tag,
        msg,
        decimal(net as int),
        game,
        decimal(online as int),
        decimal(max as int),
    ]);
}

#[verifier::spinoff_prover]
proof fn lemma_pong_roundtrip(
    ping_time: u64,
    server_id: u64,
    msg_of_today: Seq<char>,
    online_count: i32,
    max_count: i32,
    bedrock_net_ver: i32,
    bedrock_game_ver: Seq<char>,
)
    requires
        !msg_of_today.contains(';'),
        !bedrock_game_ver.contains(';'),
        encode_utf8(
            pong_text(msg_of_today, bedrock_net_ver, bedrock_game_ver, online_count, max_count),
        ).len() < 65536,
    ensures
        decode_pong(
            be64(ping_time) + be64(server_id) + MAGIC@ + string_bytes(
                pong_text(msg_of_today, bedrock_net_ver, bedrock_game_ver, online_count, max_count),
            ),
        ) == Ok::<PkSpec, DeserializeError>(
            PkSpec::UnconnectedPong {
                ping_time,
                server_id,
                msg_of_today,
                online_count,
                max_count,
                bedrock_net_ver,
                bedrock_game_ver,
            },
        ),
{
    let text = pong_text(msg_of_today, bedrock_net_ver, bedrock_game_ver, online_count, max_count);
    let enc = encode_utf8(text);
    let sb = string_bytes(text);
    let r = be64(ping_time) + be64(server_id) + MAGIC@ + sb;
    assert(r.take(8) =~= be64(ping_time));
    lemma_be64_roundtrip(ping_time, r);
    assert(r.skip(8).take(8) =~= be64(server_id));
    lemma_be64_roundtrip(server_id, r.skip(8));
    assert(r.skip(8).skip(8) =~= MAGIC@ + sb);
    law_magic_check(sb);
    let t = r.skip(8).skip(8).skip(16);
    assert(t =~= sb);
    assert((enc.len() % 65536) as u16 == enc.len());
    assert(t.take(2) =~= be16(enc.len() as u16));
    lemma_be16_roundtrip(enc.len() as u16, t);
    let rest = t.skip(2);
    assert(rest =~= enc);
    vstd::utf8::encode_utf8_valid_utf8(text);
    vstd::utf8::encode_utf8_decode_utf8(text);
    lemma_pong_parts(msg_of_today, bedrock_net_ver, bedrock_game_ver, online_count, max_count);
    law_parse_decimal(bedrock_net_ver);
    law_parse_decimal(online_count);
    law_parse_decimal(max_count);
}

#[verifier::spinoff_prover]
proof fn lemma_roundtrip_ping(p: PkSpec, rest: Seq<u8>)
    requires
        p is UnconnectedPing,
    ensures
        !decode_panics(encode_pk(p) + rest),
        decode_pk(encode_pk(p) + rest) == Ok::<PkSpec, DeserializeError>(p),
{
    if let PkSpec::UnconnectedPing { ping_time } = p {
        let r = (encode_pk(p) + rest).skip(1);
        assert(r =~= be64(ping_time) + MAGIC@ + rest);
        assert(r.take(8) =~= be64(ping_time));
        lemma_be64_roundtrip(ping_time, r);
        assert(r.skip(8) =~= MAGIC@ + rest);
        law_magic_check(rest);
    }
}

#[verifier::spinoff_prover]
#[verifier::rlimit(20)]
proof fn lemma_roundtrip_pong(p: PkSpec)
    requires
        p is UnconnectedPong,
        roundtrips(p),
    ensures
        !decode_panics(encode_pk(p)),
        decode_pk(encode_pk(p)) == Ok::<PkSpec, DeserializeError>(p),
{
    if let PkSpec::UnconnectedPong {
        ping_time,
        server_id,
        msg_of_today,
        online_count,
        max_count,
        bedrock_net_ver,
        bedrock_game_ver,
    } = p {
        let text = pong_text(msg_of_today, bedrock_net_ver, bedrock_game_ver, online_count, max_count);
        let r = encode_pk(p).skip(1);
        assert(r =~= be64(ping_time) + be64(server_id) + MAGIC@ + string_bytes(text));
        lemma_pong_roundtrip(
            ping_time,
            server_id,
            msg_of_today,
            online_count,
            max_count,
            bedrock_net_ver,
            bedrock_game_ver,
        );
    }
}

#[verifier::spinoff_prover]
proof fn lemma_roundtrip_request1(p: PkSpec, rest: Seq<u8>)
    requires
        p is OfflineConnectionRequest1,
    ensures
        !decode_panics(encode_pk(p) + rest),
        decode_pk(encode_pk(p) + rest) == Ok::<PkSpec, DeserializeError>(p),
{
    if let PkSpec::OfflineConnectionRequest1 { protocol_version } = p {
        let r = (encode_pk(p) + rest).skip(1);
        let tail = seq![protocol_version] + zeros(46) + rest;
        assert(r =~= MAGIC@ + tail);
        law_magic_check(tail);
        assert(r.skip(16) =~= tail);
    }
}

#[verifier::spinoff_prover]
proof fn lemma_roundtrip_response1(p: PkSpec, rest: Seq<u8>)
    requires
        p is OfflineConnectionResponse1,
    ensures
        !decode_panics(encode_pk(p) + rest),
        decode_pk(encode_pk(p) + rest) == Ok::<PkSpec, DeserializeError>(p),
{
    if let PkSpec::OfflineConnectionResponse1 { server_id, mtu } = p {
        let r = (encode_pk(p) + rest).skip(1);
        let tail = be64(server_id) + seq![0u8] + be16(mtu as u16) + rest;
        assert(r =~= MAGIC@ + tail);
        law_magic_check(tail);
        let t = r.skip(16);
        assert(t =~= tail);
        assert(t.take(8) =~= be64(server_id));
        lemma_be64_roundtrip(server_id, t);
        assert(t.skip(8).skip(1).take(2) =~= be16(mtu as u16));
        lemma_be16_roundtrip(mtu as u16, t.skip(8).skip(1));
        lemma_i16_cast_roundtrip(mtu);
    }
}

#[verifier::spinoff_prover]
proof fn lemma_roundtrip_request2(p: PkSpec, rest: Seq<u8>)
    requires
        p is OfflineConnectionRequest2,
    ensures
        !decode_panics(encode_pk(p) + rest),
        decode_pk(encode_pk(p) + rest) == Ok::<PkSpec, DeserializeError>(p),
{
    if let PkSpec::OfflineConnectionRequest2 { server_address, mtu, client_id } = p {
        let r = (encode_pk(p) + rest).skip(1);
        let after = be16(mtu as u16) + be64(client_id) + rest;
        let tail = address_bytes(server_address) + after;
        assert(r =~= MAGIC@ + tail);
        law_magic_check(tail);
        let t = r.skip(16);
        assert(t =~= tail);
        law_address_roundtrip(server_address, after);
        let u = t.skip(address_read(t));
        assert(u =~= after);
        assert(u.take(2) =~= be16(mtu as u16));
        lemma_be16_roundtrip(mtu as u16, u);
        lemma_i16_cast_roundtrip(mtu);
        assert(u.skip(2).take(8) =~= be64(client_id));
        lemma_be64_roundtrip(client_id, u.skip(2));
    }
}

#[verifier::spinoff_prover]
#[verifier::rlimit(20)]
proof fn lemma_roundtrip_response2(p: PkSpec, rest: Seq<u8>)
    requires
        p is OfflineConnectionResponse2,
    ensures
        !decode_panics(encode_pk(p) + rest),
        decode_pk(encode_pk(p) + rest) == Ok::<PkSpec, DeserializeError>(p),
{
    if let PkSpec::OfflineConnectionResponse2 { server_id, client_address, mtu } = p {
        let r = (encode_pk(p) + rest).skip(1);
        let after = be16(mtu as u16) + seq![0u8] + rest;
        let tail = be64(server_id) + address_bytes(client_address) + after;
        assert(r =~= MAGIC@ + tail);
        law_magic_check(tail);
        let t = r.skip(16);
        assert(t =~= tail);
        assert(t.take(8) =~= be64(server_id));
        lemma_be64_roundtrip(server_id, t);
        let u = t.skip(8);
        assert(u =~= address_bytes(client_address) + after);
        law_address_roundtrip(client_address, after);
        let w = u.skip(address_read(u));
        assert(w =~= after);
        assert(w.take(2) =~= be16(mtu as u16));
        lemma_be16_roundtrip(mtu as u16, w);
        lemma_i16_cast_roundtrip(mtu);
    }
}

/// A packet written is read back as the same packet, without a panic, for
/// every packet that `roundtrips` admits.
pub proof fn law_pk_roundtrip(p: PkSpec)
    requires
        roundtrips(p),
    ensures
        !decode_panics(encode_pk(p)),
        decode_pk(encode_pk(p)) == Ok::<PkSpec, DeserializeError>(p),
{
    let empty = Seq::<u8>::empty();
    assert(encode_pk(p) + empty =~= encode_pk(p));
    match p {
        PkSpec::UnconnectedPing { .. } => lemma_roundtrip_ping(p, empty),
        PkSpec::UnconnectedPong { .. } => lemma_roundtrip_pong(p),
        PkSpec::OfflineConnectionRequest1 { .. } => lemma_roundtrip_request1(p, empty),
        PkSpec::OfflineConnectionResponse1 { .. } => lemma_roundtrip_response1(p, empty),
        PkSpec::OfflineConnectionRequest2 { .. } => lemma_roundtrip_request2(p, empty),
        PkSpec::OfflineConnectionResponse2 { .. } => lemma_roundtrip_response2(p, empty),
        PkSpec::OnlineConnectionRequest { .. } => {},
    }
}

/// Bytes after a packet other than a pong are left unread: the packet
/// followed by anything reads back as the packet, without a panic. (A pong
/// takes the rest of the input as its text.)
pub proof fn law_pk_roundtrip_trailing(p: PkSpec, rest: Seq<u8>)
    requires
        roundtrips(p),
        !(p is UnconnectedPong),
    ensures
        !decode_panics(encode_pk(p) + rest),
        decode_pk(encode_pk(p) + rest) == Ok::<PkSpec, DeserializeError>(p),
{
    match p {
        PkSpec::UnconnectedPing { .. } => lemma_roundtrip_ping(p, rest),
        PkSpec::OfflineConnectionRequest1 { .. } => lemma_roundtrip_request1(p, rest),
        PkSpec::OfflineConnectionResponse1 { .. } => lemma_roundtrip_response1(p, rest),
        PkSpec::OfflineConnectionRequest2 { .. } => lemma_roundtrip_request2(p, rest),
        PkSpec::OfflineConnectionResponse2 { .. } => lemma_roundtrip_response2(p, rest),
        _ => {},
    }
}

/// The fixed-size fields read back as written, whatever follows them: an
/// MTU, and a time or id of eight bytes.
pub proof fn law_field_roundtrip(mtu: i16, v: u64, rest: Seq<u8>)
    ensures
        read_be16(be16(mtu as u16) + rest) as i16 == mtu,
        read_be64(be64(v) + rest) == v,
{
    assert((be16(mtu as u16) + rest).take(2) =~= be16(mtu as u16));
    lemma_be16_roundtrip(mtu as u16, be16(mtu as u16) + rest);
    lemma_i16_cast_roundtrip(mtu);
    assert((be64(v) + rest).take(8) =~= be64(v));
    lemma_be64_roundtrip(v, be64(v) + rest);
}

/// How an address is written: the version byte 4 and the four octets in
/// order, or the version byte 6 and each of the eight segments high byte
/// first, in order; then the port, high byte first.
pub proof fn law_address_layout(a: SocketAddress)
    ensures
        match a {
            SocketAddress::V4 { ip, port } => {
                &&& address_bytes(a).len() == 7
                &&& address_bytes(a)[0] == 4
                &&& forall|k: int| 0 <= k < 4 ==> address_bytes(a)[1 + k] == ip[k]
                &&& address_bytes(a)[5] as int == port as int / 256
                &&& address_bytes(a)[6] as int == port as int % 256
            },
            SocketAddress::V6 { ip, port } => {
                &&& address_bytes(a).len() == 19
                &&& address_bytes(a)[0] == 6
                &&& forall|k: int|
                    0 <= k < 8 ==> address_bytes(a)[1 + 2 * k] as int == ip[k] as int / 256
                        && address_bytes(a)[2 + 2 * k] as int == ip[k] as int % 256
                &&& address_bytes(a)[17] as int == port as int / 256
                &&& address_bytes(a)[18] as int == port as int % 256
            },
        },
{
    match a {
        SocketAddress::V4 { ip, port } => {
            law_be16_bytes(port);
        },
        SocketAddress::V6 { ip, port } => {
            law_be16_bytes(port);
            let b = address_bytes(a);
            assert forall|k: int| 0 <= k < 8 implies b[1 + 2 * k] as int == ip[k] as int / 256
                && b[2 + 2 * k] as int == ip[k] as int % 256 by {
                let v = ip[k];
                assert(b[1 + 2 * k] == segment_bytes(ip@)[2 * k]);
                assert(b[2 + 2 * k] == segment_bytes(ip@)[2 * k + 1]);
                assert((2 * k) % 2 == 0 && (2 * k) / 2 == k);
                assert((2 * k + 1) % 2 == 1 && (2 * k + 1) / 2 == k);
                assert((v >> 8u16) as u8 as int == v as int / 256) by (bit_vector);
                assert(v as u8 as int == v as int % 256) by (bit_vector);
            }
        },
    }
}

/// How an address is read: after the version byte 4, the four octets in
/// order; after the version byte 6, eight segments of two bytes each, high
/// byte first, in order; then the port, high byte first.
pub proof fn law_address_read(s: Seq<u8>)
    ensures
        s.len() >= 7 && s[0] == 4 ==> {
            &&& read_address(s) matches Ok(SocketAddress::V4 { ip, port }) && (forall|k: int|
                0 <= k < 4 ==> ip[k] == s[1 + k]) && port as int == s[5] as int * 256
                + s[6] as int
            &&& address_read(s) == 7
        },
        s.len() >= 19 && s[0] == 6 ==> {
            &&& read_address(s) matches Ok(SocketAddress::V6 { ip, port }) && (forall|k: int|
                0 <= k < 8 ==> ip[k] as int == s[1 + 2 * k] as int * 256 + s[2 + 2 * k] as int)
                && port as int == s[17] as int * 256 + s[18] as int
            &&& address_read(s) == 19
        },
{
    let r = s.skip(1);
    if s.len() >= 7 && s[0] == 4 {
        law_read_be16_value(r.skip(4));
    }
    if s.len() >= 19 && s[0] == 6 {
        law_read_be16_value(r.skip(16));
        assert forall|k: int| 0 <= k < 8 implies read_be16(#[trigger] r.skip(2 * k)) as int
            == s[1 + 2 * k] as int * 256 + s[2 + 2 * k] as int by {
            law_read_be16_value(r.skip(2 * k));
        }
        assert(r.skip(2 * 0int) == r);
        assert(read_be16(r.skip(2 * 1int)) == read_be16(r.skip(2)));
        assert(read_be16(r.skip(2 * 2int)) == read_be16(r.skip(4)));
        assert(read_be16(r.skip(2 * 3int)) == read_be16(r.skip(6)));
        assert(read_be16(r.skip(2 * 4int)) == read_be16(r.skip(8)));
        assert(read_be16(r.skip(2 * 5int)) == read_be16(r.skip(10)));
        assert(read_be16(r.skip(2 * 6int)) == read_be16(r.skip(12)));
        assert(read_be16(r.skip(2 * 7int)) == read_be16(r.skip(14)));
    }
}

/// The magic bytes are 00 ff ff 00 fe fe fe fe fd fd fd fd 12 34 56 78,
/// and the magic check passes exactly when the input opens with them.
pub proof fn law_magic_bytes(s: Seq<u8>)
    ensures
        MAGIC@ == seq![
            0x00u8, 0xff, 0xff, 0x00, 0xfe, 0xfe, 0xfe, 0xfe, 0xfd, 0xfd, 0xfd, 0xfd, 0x12, 0x34,
            0x56, 0x78,
        ],
        magic_ok(s) <==> s.len() >= 16 && forall|i: int| 0 <= i < 16 ==> s[i] == MAGIC@[i],
{
    assert(MAGIC@ =~= seq![
        0x00u8, 0xff, 0xff, 0x00, 0xfe, 0xfe, 0xfe, 0xfe, 0xfd, 0xfd, 0xfd, 0xfd, 0x12, 0x34,
        0x56, 0x78,
    ]);
    if s.len() >= 16 && forall|i: int| 0 <= i < 16 ==> s[i] == MAGIC@[i] {
        assert(s.take(16) =~= MAGIC@);
    }
    if magic_ok(s) {
        assert forall|i: int| 0 <= i < 16 implies s[i] == MAGIC@[i] by {
            assert(s.take(16)[i] == s[i]);
        }
    }
}

/// Where each kind of packet puts its id, its magic, and the bytes that no
/// reader looks at: the 46 zero bytes after the protocol version, the zero
/// security byte, and the zero encryption byte that closes the second-step
/// response; and the online connection request's two fields.
pub proof fn law_pk_fixed_bytes(p: PkSpec)
    ensures
        match p {
            PkSpec::UnconnectedPing { .. } => encode_pk(p)[0] == 0x01 && encode_pk(p).len() == 25
                && encode_pk(p).subrange(9, 25) == MAGIC@,
            PkSpec::UnconnectedPong { .. } => encode_pk(p)[0] == 0x1c && encode_pk(p).subrange(
                17,
                33,
            ) == MAGIC@,
            PkSpec::OfflineConnectionRequest1 { protocol_version } => {
                &&& encode_pk(p).len() == 64
                &&& encode_pk(p)[0] == 0x05
                &&& encode_pk(p).subrange(1, 17) == MAGIC@
                &&& encode_pk(p)[17] == protocol_version
                &&& forall|i: int| 18 <= i < 64 ==> encode_pk(p)[i] == 0
            },
            PkSpec::OfflineConnectionResponse1 { .. } => {
                &&& encode_pk(p).len() == 28
                &&& encode_pk(p)[0] == 0x06
                &&& encode_pk(p).subrange(1, 17) == MAGIC@
                &&& encode_pk(p)[25] == 0
            },
            PkSpec::OfflineConnectionRequest2 { .. } => encode_pk(p)[0] == 0x07 && encode_pk(
                p,
            ).subrange(1, 17) == MAGIC@,
            PkSpec::OfflineConnectionResponse2 { client_address, .. } => {
                &&& encode_pk(p).len() == 28 + address_bytes(client_address).len()
                &&& encode_pk(p)[0] == 0x08
                &&& encode_pk(p).subrange(1, 17) == MAGIC@
                &&& encode_pk(p).last() == 0
            },
            PkSpec::OnlineConnectionRequest { client_id, ping_time } => {
                &&& encode_pk(p).len() == 17
                &&& encode_pk(p)[0] == 0x09
                &&& read_be64(encode_pk(p).skip(1)) == client_id
                &&& read_be64(encode_pk(p).skip(9)) == ping_time
            },
        },
{
    let e = encode_pk(p);
    match p {
        PkSpec::UnconnectedPing { .. } => {
            assert(e.subrange(9, 25) =~= MAGIC@);
        },
        PkSpec::UnconnectedPong { .. } => {
            assert(e.subrange(17, 33) =~= MAGIC@);
        },
        PkSpec::OfflineConnectionRequest1 { .. } => {
            assert(e.subrange(1, 17) =~= MAGIC@);
        },
        PkSpec::OfflineConnectionResponse1 { .. } => {
            assert(e.subrange(1, 17) =~= MAGIC@);
        },
        PkSpec::OfflineConnectionRequest2 { .. } => {
            assert(e.subrange(1, 17) =~= MAGIC@);
        },
        PkSpec::OfflineConnectionResponse2 { .. } => {
            assert(e.subrange(1, 17) =~= MAGIC@);
        },
        PkSpec::OnlineConnectionRequest { client_id, ping_time } => {
            assert(e.skip(1).take(8) =~= be64(client_id));
            lemma_be64_roundtrip(client_id, e.skip(1));
            assert(e.skip(9).take(8) =~= be64(ping_time));
            lemma_be64_roundtrip(ping_time, e.skip(9));
        },
    }
}

/// Where each field of a packet stands on the wire, byte offset by byte
/// offset: the times and ids as eight big-endian bytes, the MTU as two, the
/// address as `address_bytes` lays it out.
pub proof fn law_pk_field_offsets(p: PkSpec)
    ensures
        match p {
            PkSpec::UnconnectedPing { ping_time } => encode_pk(p).subrange(1, 9) == be64(ping_time),
            PkSpec::UnconnectedPong { ping_time, server_id, .. } => {
                &&& encode_pk(p).subrange(1, 9) == be64(ping_time)
                &&& encode_pk(p).subrange(9, 17) == be64(server_id)
            },
            PkSpec::OfflineConnectionRequest1 { .. } => true,
            PkSpec::OfflineConnectionResponse1 { server_id, mtu } => {
                &&& encode_pk(p).subrange(17, 25) == be64(server_id)
                &&& encode_pk(p).subrange(26, 28) == be16(mtu as u16)
            },
            PkSpec::OfflineConnectionRequest2 { server_address, mtu, client_id } => {
                let n = address_bytes(server_address).len() as int;
                &&& encode_pk(p).len() == 27 + n
                &&& encode_pk(p).subrange(17, 17 + n) == address_bytes(server_address)
                &&& encode_pk(p).subrange(17 + n, 19 + n) == be16(mtu as u16)
                &&& encode_pk(p).subrange(19 + n, 27 + n) == be64(client_id)
            },
            PkSpec::OfflineConnectionResponse2 { server_id, client_address, mtu } => {
                let n = address_bytes(client_address).len() as int;
                &&& encode_pk(p).subrange(17, 25) == be64(server_id)
                &&& encode_pk(p).subrange(25, 25 + n) == address_bytes(client_address)
                &&& encode_pk(p).subrange(25 + n, 27 + n) == be16(mtu as u16)
            },
            PkSpec::OnlineConnectionRequest { client_id, ping_time } => {
                &&& encode_pk(p).subrange(1, 9) == be64(client_id)
                &&& encode_pk(p).subrange(9, 17) == be64(ping_time)
            },
        },
{
    let e = encode_pk(p);
    match p {
        PkSpec::UnconnectedPing { ping_time } => {
            assert(e.subrange(1, 9) =~= be64(ping_time));
        },
        PkSpec::UnconnectedPong { ping_time, server_id, .. } => {
            assert(e.subrange(1, 9) =~= be64(ping_time));
            assert(e.subrange(9, 17) =~= be64(server_id));
        },
        PkSpec::OfflineConnectionRequest1 { .. } => {},
        PkSpec::OfflineConnectionResponse1 { server_id, mtu } => {
            assert(e.subrange(17, 25) =~= be64(server_id));
            assert(e.subrange(26, 28) =~= be16(mtu as u16));
        },
        PkSpec::OfflineConnectionRequest2 { server_address, mtu, client_id } => {
            let n = address_bytes(server_address).len() as int;
            assert(e.subrange(17, 17 + n) =~= address_bytes(server_address));
            assert(e.subrange(17 + n, 19 + n) =~= be16(mtu as u16));
            assert(e.subrange(19 + n, 27 + n) =~= be64(client_id));
        },
        PkSpec::OfflineConnectionResponse2 { server_id, client_address, mtu } => {
            let n = address_bytes(client_address).len() as int;
            assert(e.subrange(17, 25) =~= be64(server_id));
            assert(e.subrange(25, 25 + n) =~= address_bytes(client_address));
            assert(e.subrange(25 + n, 27 + n) =~= be16(mtu as u16));
        },
        PkSpec::OnlineConnectionRequest { client_id, ping_time } => {
            assert(e.subrange(1, 9) =~= be64(client_id));
            assert(e.subrange(9, 17) =~= be64(ping_time));
        },
    }
}

/// The text of a pong splits on `;` into the tag `MCPE`, the message of the
/// day, the network version, the game version, the online count and the
/// maximum count, in that order, each number in decimal; wherever the two
/// strings hold no `;`.
pub proof fn law_pong_text_fields(
    msg: Seq<char>,
    net: i32,
    game: Seq<char>,
    online: i32,
    max: i32,
)
    requires
        !msg.contains(';'),
        !game.contains(';'),
    ensures
        split_on(pong_text(msg, net, game, online, max), ';') == seq![
            seq!['M', 'C', 'P', 'E'],
            msg,
            decimal(net as int),
            game,
            decimal(online as int),
            decimal(max as int),
        ],
{
    lemma_pong_parts(msg, net, game, online, max);
}

/// A string goes on the wire as the number of its UTF-8 bytes (high byte
/// first, modulo 2^16) followed by those bytes.
pub proof fn law_string_layout(t: Seq<char>)
    ensures
        string_bytes(t).len() == 2 + encode_utf8(t).len(),
        string_bytes(t)[0] as int * 256 + string_bytes(t)[1] as int == encode_utf8(t).len() % 65536,
        string_bytes(t).skip(2) == encode_utf8(t),
{
    law_be16_bytes((encode_utf8(t).len() % 65536) as u16);
    assert(string_bytes(t).skip(2) =~= encode_utf8(t));
}

/// A pong's text length is checked against the number of bytes that follow
/// it (not characters): where they differ and the bytes are valid UTF-8, the
/// pong is refused with the announced length and the byte count.
pub proof fn law_pong_length_in_bytes(r: Seq<u8>)
    requires
        r.len() >= 34,
        magic_ok(r.skip(16)),
        valid_utf8(r.skip(34)),
        r[32] as int * 256 + r[33] as int != r.len() - 34,
    ensures
        decode_pong(r) == Err::<PkSpec, DeserializeError>(
            DeserializeError::Length {
                required: (r[32] as int * 256 + r[33] as int) as usize,
                actual: (r.len() - 34) as usize,
            },
        ),
{
    assert(r.skip(8).skip(8) =~= r.skip(16));
    let t = r.skip(8).skip(8).skip(16);
    assert(t =~= r.skip(32));
    law_read_be16_value(t);
    assert(t.skip(2) =~= r.skip(34));
}

} // verus!
