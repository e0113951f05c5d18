//! The binary dialect: a header of 24 bytes, big-endian, then extras, key
//! and value.

use crate::chars::{decimal, push_decimal};
use crate::protocol::text::{other, other_about};
use crate::protocol::{
    Command, CommandView, Item, ItemView, ParseError, ParseErrorView, Response, ResponseView,
};
use crate::Error;
use byteorder::{BigEndian, ByteOrder, WriteBytesExt};
use vstd::prelude::*;
use vstd::slice::slice_subrange;
use vstd::string::*;
use vstd::utf8::{decode_utf8, encode_utf8, valid_utf8};

verus! {

pub const MAGIC_REQUEST: u8 = 0x80;

pub const MAGIC_RESPONSE: u8 = 0x81;

pub const OPCODE_GET: u8 = 0x00;

pub const OPCODE_SET: u8 = 0x01;

pub const OPCODE_ADD: u8 = 0x02;

pub const OPCODE_REPLACE: u8 = 0x03;

pub const OPCODE_DELETE: u8 = 0x04;

pub const OPCODE_INCREMENT: u8 = 0x05;

pub const OPCODE_DECREMENT: u8 = 0x06;

pub const OPCODE_QUIT: u8 = 0x07;

pub const OPCODE_FLUSH: u8 = 0x08;

pub const OPCODE_GETQ: u8 = 0x09;

pub const OPCODE_NOOP: u8 = 0x0a;

pub const OPCODE_VERSION: u8 = 0x0b;

pub const OPCODE_GETK: u8 = 0x0c;

pub const OPCODE_GETKQ: u8 = 0x0d;

pub const OPCODE_APPEND: u8 = 0x0e;

pub const OPCODE_PREPEND: u8 = 0x0f;

pub const OPCODE_STAT: u8 = 0x10;

pub const STATUS_SUCCESS: u16 = 0x0000;

pub const STATUS_KEY_NOT_FOUND: u16 = 0x0001;

pub const STATUS_KEY_EXISTS: u16 = 0x0002;

pub const STATUS_VALUE_TOO_LARGE: u16 = 0x0003;

pub const STATUS_INVALID_ARGUMENTS: u16 = 0x0004;

pub const STATUS_ITEM_NOT_STORED: u16 = 0x0005;

pub const STATUS_INCR_DECR_NON_NUMERIC: u16 = 0x0006;

pub const STATUS_UNKNOWN_COMMAND: u16 = 0x0081;

pub const STATUS_OUT_OF_MEMORY: u16 = 0x0082;

/// The header of a binary packet.
#[derive(Debug, Clone, Copy)]
pub struct BinaryHeader {
    pub magic: u8,
    pub opcode: u8,
    pub key_length: u16,
    pub extras_length: u8,
    pub data_type: u8,
    pub status_or_reserved: u16,
    pub total_body_length: u32,
    pub opaque: u32,
    pub cas: u64,
}

/// The number that `bytes` denote, most significant byte first.
pub open spec fn be_value(bytes: Seq<u8>) -> nat
    decreases bytes.len(),
{
    if bytes.len() == 0 {
        0
    } else {
        be_value(bytes.drop_last()) * 256 + bytes.last() as nat
    }
}

/// The `width` least significant bytes of `v`, most significant first.
pub open spec fn be_bytes(v: nat, width: nat) -> Seq<u8>
    decreases width,
{
    if width == 0 {
        Seq::empty()
    } else {
        be_bytes(v / 256, (width - 1) as nat).push((v % 256) as u8)
    }
}

/// `256` to the power of `width`.
pub open spec fn radix(width: nat) -> nat
    decreases width,
{
    if width == 0 {
        1
    } else {
        256 * radix((width - 1) as nat)
    }
}

/// Bytes written most significant first have the width asked for and are
/// read back as the number they were written from.
pub proof fn lemma_be_round_trip(v: nat, width: nat)
    requires
        v < radix(width),
    ensures
        be_bytes(v, width).len() == width,
        be_value(be_bytes(v, width)) == v,
    decreases width,
{
    if width > 0 {
        assert(v / 256 < radix((width - 1) as nat)) by (nonlinear_arith)
            requires
                v < 256 * radix((width - 1) as nat),
        ;
        lemma_be_round_trip(v / 256, (width - 1) as nat);
        let s = be_bytes(v, width);
        assert(s.drop_last() == be_bytes(v / 256, (width - 1) as nat));
        assert(s.last() == (v % 256) as u8);
    }
}

pub proof fn lemma_be_bytes_len(v: nat, width: nat)
    ensures
        be_bytes(v, width).len() == width,
    decreases width,
{
    if width > 0 {
        lemma_be_bytes_len(v / 256, (width - 1) as nat);
    }
}

pub proof fn lemma_radix_values()
    ensures
        radix(1) == 0x100,
        radix(2) == 0x1_0000,
        radix(4) == 0x1_0000_0000,
        radix(8) == 0x1_0000_0000_0000_0000,
{
    reveal_with_fuel(radix, 9);
}

/// `<BigEndian as ByteOrder>::read_u16` decodes the first two bytes of the
/// slice, most significant first; it panics on a shorter slice.
#[verifier::external_body]
fn read_be_u16(bytes: &[u8]) -> (r: u16)
    requires
        bytes.len() >= 2,
    ensures
        r as nat == be_value(bytes@.take(2)),
{
    BigEndian::read_u16(bytes)
}

/// `<BigEndian as ByteOrder>::read_u32` decodes the first four bytes of the
/// slice, most significant first; it panics on a shorter slice.
#[verifier::external_body]
fn read_be_u32(bytes: &[u8]) -> (r: u32)
    requires
        bytes.len() >= 4,
    ensures
        r as nat == be_value(bytes@.take(4)),
{
    BigEndian::read_u32(bytes)
}

/// `<BigEndian as ByteOrder>::read_u64` decodes the first eight bytes of the
/// slice, most significant first; it panics on a shorter slice.
#[verifier::external_body]
fn read_be_u64(bytes: &[u8]) -> (r: u64)
    requires
        bytes.len() >= 8,
    ensures
        r as nat == be_value(bytes@.take(8)),
{
    BigEndian::read_u64(bytes)
}

/// `WriteBytesExt::write_u16::<BigEndian>` on a vector appends the two
/// bytes of the number, most significant first; writing to a vector does
/// not fail.
#[verifier::external_body]
fn write_be_u16(out: &mut Vec<u8>, v: u16)
    ensures
        final(out)@ == old(out)@ + be_bytes(v as nat, 2),
{
    let _ = out.write_u16::<BigEndian>(v);
}

/// `WriteBytesExt::write_u32::<BigEndian>` on a vector appends the four
/// bytes of the number, most significant first; writing to a vector does
/// not fail.
#[verifier::external_body]
fn write_be_u32(out: &mut Vec<u8>, v: u32)
    ensures
        final(out)@ == old(out)@ + be_bytes(v as nat, 4),
{
    let _ = out.write_u32::<BigEndian>(v);
}

/// `WriteBytesExt::write_u64::<BigEndian>` on a vector appends the eight
/// bytes of the number, most significant first; writing to a vector does
/// not fail.
#[verifier::external_body]
fn write_be_u64(out: &mut Vec<u8>, v: u64)
    ensures
        final(out)@ == old(out)@ + be_bytes(v as nat, 8),
{
    let _ = out.write_u64::<BigEndian>(v);
}

/// The 24 bytes that a header is sent as.
pub open spec fn header_bytes(h: BinaryHeader) -> Seq<u8> {
    seq![h.magic, h.opcode] + be_bytes(h.key_length as nat, 2) + seq![
        h.extras_length,
        h.data_type,
    ] + be_bytes(h.status_or_reserved as nat, 2) + be_bytes(h.total_body_length as nat, 4)
        + be_bytes(h.opaque as nat, 4) + be_bytes(h.cas as nat, 8)
}

/// The header that the first 24 bytes of `data` are read as.
pub open spec fn header_at(data: Seq<u8>) -> BinaryHeader
    recommends
        data.len() >= 24,
{
    BinaryHeader {
        magic: data[0],
        opcode: data[1],
        key_length: be_value(data.subrange(2, 4)) as u16,
        extras_length: data[4],
        data_type: data[5],
        status_or_reserved: be_value(data.subrange(6, 8)) as u16,
        total_body_length: be_value(data.subrange(8, 12)) as u32,
        opaque: be_value(data.subrange(12, 16)) as u32,
        cas: be_value(data.subrange(16, 24)) as u64,
    }
}

pub proof fn lemma_header_bytes_len(h: BinaryHeader)
    ensures
        header_bytes(h).len() == 24,
{
    lemma_be_bytes_len(h.key_length as nat, 2);
    lemma_be_bytes_len(h.status_or_reserved as nat, 2);
    lemma_be_bytes_len(h.total_body_length as nat, 4);
    lemma_be_bytes_len(h.opaque as nat, 4);
    lemma_be_bytes_len(h.cas as nat, 8);
}

/// A header that is written and read back is the same header, whatever
/// follows it.
pub proof fn lemma_header_round_trip(h: BinaryHeader, rest: Seq<u8>)
    ensures
        header_at(header_bytes(h) + rest) == h,
{
    lemma_radix_values();
    lemma_be_round_trip(h.key_length as nat, 2);
    lemma_be_round_trip(h.status_or_reserved as nat, 2);
    lemma_be_round_trip(h.total_body_length as nat, 4);
    lemma_be_round_trip(h.opaque as nat, 4);
    lemma_be_round_trip(h.cas as nat, 8);
    let data = header_bytes(h) + rest;
    assert(data.subrange(2, 4) == be_bytes(h.key_length as nat, 2));
    assert(data.subrange(6, 8) == be_bytes(h.status_or_reserved as nat, 2));
    assert(data.subrange(8, 12) == be_bytes(h.total_body_length as nat, 4));
    assert(data.subrange(12, 16) == be_bytes(h.opaque as nat, 4));
    assert(data.subrange(16, 24) == be_bytes(h.cas as nat, 8));
}

impl BinaryHeader {
    /// The header of a request, with opaque and CAS zero.
    pub fn new_request(opcode: u8, key_length: u16, extras_length: u8, total_body_length: u32) -> (h:
        Self)
        ensures
            h == (BinaryHeader {
                magic: MAGIC_REQUEST,
                opcode,
                key_length,
                extras_length,
                data_type: 0,
                status_or_reserved: 0,
                total_body_length,
                opaque: 0,
                cas: 0,
            }),
    {
        BinaryHeader {
            magic: MAGIC_REQUEST,
            opcode,
            key_length,
            extras_length,
            data_type: 0,
            status_or_reserved: 0,
            total_body_length,
            opaque: 0,
            cas: 0,
        }
    }

    /// The header of a response, with opaque zero.
    pub fn new_response(
        opcode: u8,
        key_length: u16,
        extras_length: u8,
        status: u16,
        total_body_length: u32,
        cas: u64,
    ) -> (h: Self)
        ensures
            h == (BinaryHeader {
                magic: MAGIC_RESPONSE,
                opcode,
                key_length,
                extras_length,
                data_type: 0,
                status_or_reserved: status,
                total_body_length,
                opaque: 0,
                cas,
            }),
    {
        BinaryHeader {
            magic: MAGIC_RESPONSE,
            opcode,
            key_length,
            extras_length,
            data_type: 0,
            status_or_reserved: status,
            total_body_length,
            opaque: 0,
            cas,
        }
    }

    /// Reads a header from the first 24 bytes of `data`.
    pub fn read_from(data: &[u8]) -> (r: Result<Self, ParseError>)
        ensures
            match r {
                Ok(h) => data.len() >= 24 && h == header_at(data@),
                Err(e) => data.len() < 24 && e@ == ParseErrorView::Other(
                    "failed to fill whole buffer"@,
                ),
            },
    {
        if data.len() < 24 {
            return Err(other("failed to fill whole buffer"));
        }
        let key_length = read_be_u16(slice_subrange(data, 2, 4));
        let status_or_reserved = read_be_u16(slice_subrange(data, 6, 8));
        let total_body_length = read_be_u32(slice_subrange(data, 8, 12));
        let opaque = read_be_u32(slice_subrange(data, 12, 16));
        let cas = read_be_u64(slice_subrange(data, 16, 24));
        proof {
            assert(data@.subrange(2, 4).take(2) == data@.subrange(2, 4));
            assert(data@.subrange(6, 8).take(2) == data@.subrange(6, 8));
            assert(data@.subrange(8, 12).take(4) == data@.subrange(8, 12));
            assert(data@.subrange(12, 16).take(4) == data@.subrange(12, 16));
            assert(data@.subrange(16, 24).take(8) == data@.subrange(16, 24));
        }
        Ok(
            BinaryHeader {
                magic: data[0],
                opcode: data[1],
                key_length,
                extras_length: data[4],
                data_type: data[5],
                status_or_reserved,
                total_body_length,
                opaque,
                cas,
            },
        )
    }

    /// Appends the 24 bytes of the header to `writer`.
    pub fn write_to(&self, writer: &mut Vec<u8>)
        ensures
            final(writer)@ == old(writer)@ + header_bytes(*self),
    {
        writer.push(self.magic);
        writer.push(self.opcode);
        write_be_u16(writer, self.key_length);
        writer.push(self.extras_length);
        writer.push(self.data_type);
        write_be_u16(writer, self.status_or_reserved);
        write_be_u32(writer, self.total_body_length);
        write_be_u32(writer, self.opaque);
        write_be_u64(writer, self.cas);
        assert(writer@ =~= old(writer)@ + header_bytes(*self));
    }
}

/// What a binary parser returns, by its contents.
pub open spec fn binary_parsed_view(r: Result<(Command, u32, usize), ParseError>) -> Result<
    (CommandView, u32, nat),
    ParseErrorView,
> {
    match r {
        Ok((command, opaque, used)) => Ok((command@, opaque, used as nat)),
        Err(e) => Err(e@),
    }
}

/// A malformed packet, with the reason in words.
pub open spec fn bad_packet(reason: Seq<char>) -> Result<CommandView, ParseErrorView> {
    Err(ParseErrorView::Other(reason))
}

/// The command that a request with the given opcode and body stands for.
pub open spec fn command_of(
    opcode: u8,
    extras_length: nat,
    key: Seq<char>,
    key_length: nat,
    value_length: nat,
) -> Result<CommandView, ParseErrorView> {
    if opcode == OPCODE_GET || opcode == OPCODE_GETK {
        if extras_length != 0 {
            bad_packet("Get command must not have extras"@)
        } else if key_length == 0 {
            bad_packet("Get command must have key"@)
        } else if value_length != 0 {
            bad_packet("Get command must not have value"@)
        } else {
            Ok(CommandView::Get(seq![key]))
        }
    } else if opcode == OPCODE_VERSION {
        if extras_length != 0 || key_length != 0 || value_length != 0 {
            bad_packet("Version command must not have extras, key, or value"@)
        } else {
            Ok(CommandView::Version)
        }
    } else if opcode == OPCODE_QUIT {
        if extras_length != 0 || key_length != 0 || value_length != 0 {
            bad_packet("Quit command must not have extras, key, or value"@)
        } else {
            Ok(CommandView::Quit)
        }
    } else if opcode == OPCODE_STAT {
        if extras_length != 0 {
            bad_packet("Stat command must not have extras"@)
        } else if value_length != 0 {
            bad_packet("Stat command must not have value"@)
        } else if key_length > 0 {
            Ok(CommandView::Stats(Some(key)))
        } else {
            Ok(CommandView::Stats(None))
        }
    } else if opcode == OPCODE_DELETE {
        if extras_length != 0 {
            bad_packet("Delete command must not have extras"@)
        } else if key_length == 0 {
            bad_packet("Delete command must have key"@)
        } else if value_length != 0 {
            bad_packet("Delete command must not have value"@)
        } else {
            Ok(CommandView::Touch(key, 0))
        }
    } else {
        bad_packet("Unsupported binary command opcode: "@ + decimal(opcode as nat))
    }
}

/// The command, the opaque number and the count of bytes used that the
/// first packet in `data` stands for, or why it stands for none.
pub open spec fn parse_binary_spec(data: Seq<u8>) -> Result<
    (CommandView, u32, nat),
    ParseErrorView,
> {
    if data.len() < 24 {
        Err(ParseErrorView::Other("Binary packet too small"@))
    } else {
        let h = header_at(data);
        let extras = h.extras_length as nat;
        let key_length = h.key_length as nat;
        let total = h.total_body_length as nat;
        if h.magic != MAGIC_REQUEST {
            Err(ParseErrorView::Other("Invalid magic byte for request"@))
        } else if total < extras + key_length {
            Err(ParseErrorView::Other("Invalid body length"@))
        } else if data.len() < 24 + total {
            Err(ParseErrorView::Other("failed to fill whole buffer"@))
        } else {
            let key = data.subrange(24 + extras as int, 24 + extras + key_length as int);
            if !valid_utf8(key) {
                Err(ParseErrorView::Other("Invalid key encoding"@))
            } else {
                match command_of(
                    h.opcode,
                    extras,
                    decode_utf8(key),
                    key_length,
                    (total - extras - key_length) as nat,
                ) {
                    Ok(command) => Ok((command, h.opaque, 24 + total)),
                    Err(e) => Err(e),
                }
            }
        }
    }
}

/// `String::from_utf8` gives the text that the bytes encode where they are
/// valid UTF-8, and fails where they are not.
#[verifier::external_body]
pub(crate) fn utf8_string(bytes: Vec<u8>) -> (r: Option<String>)
    ensures
        match r {
            Some(s) => valid_utf8(bytes@) && s@ == decode_utf8(bytes@),
            None => !valid_utf8(bytes@),
        },
{
    String::from_utf8(bytes).ok()
}

fn key_list(key: String) -> (keys: Vec<String>)
    ensures
        crate::protocol::string_views(keys@) == seq![key@],
{
    let mut keys: Vec<String> = Vec::new();
    keys.push(key);
    assert(crate::protocol::string_views(keys@) == seq![key@]);
    keys
}

fn build_command(
    opcode: u8,
    extras_length: u8,
    key: String,
    key_length: u16,
    value_length: u32,
) -> (r: Result<Command, ParseError>)
    ensures
        crate::protocol::parsed_view(r) == command_of(
            opcode,
            extras_length as nat,
            key@,
            key_length as nat,
            value_length as nat,
        ),
{
    if opcode == OPCODE_GET || opcode == OPCODE_GETK {
        if extras_length != 0 {
            return Err(other("Get command must not have extras"));
        }
        if key_length == 0 {
            return Err(other("Get command must have key"));
        }
        if value_length != 0 {
            return Err(other("Get command must not have value"));
        }
        Ok(Command::Get(key_list(key)))
    } else if opcode == OPCODE_VERSION {
        if extras_length != 0 || key_length != 0 || value_length != 0 {
            return Err(other("Version command must not have extras, key, or value"));
        }
        Ok(Command::Version)
    } else if opcode == OPCODE_QUIT {
        if extras_length != 0 || key_length != 0 || value_length != 0 {
            return Err(other("Quit command must not have extras, key, or value"));
        }
        Ok(Command::Quit)
    } else if opcode == OPCODE_STAT {
        if extras_length != 0 {
            return Err(other("Stat command must not have extras"));
        }
        if value_length != 0 {
            return Err(other("Stat command must not have value"));
        }
        if key_length > 0 {
            Ok(Command::Stats(Some(key)))
        } else {
            Ok(Command::Stats(None))
        }
    } else if opcode == OPCODE_DELETE {
        if extras_length != 0 {
            return Err(other("Delete command must not have extras"));
        }
        if key_length == 0 {
            return Err(other("Delete command must have key"));
        }
        if value_length != 0 {
            return Err(other("Delete command must not have value"));
        }
        Ok(Command::Touch(key, 0))
    } else {
        let mut digits: Vec<char> = Vec::new();
        push_decimal(&mut digits, opcode as u64);
        assert(digits@ == decimal(opcode as nat));
        Err(other_about("Unsupported binary command opcode: ", &digits))
    }
}

/// Parses the first packet in `data`: the command, the opaque number that
/// the response repeats, and how many bytes of `data` the packet took.
pub fn parse_binary(data: &[u8]) -> (r: Result<(Command, u32, usize), ParseError>)
    ensures
        binary_parsed_view(r) == parse_binary_spec(data@),
{
    if data.len() < 24 {
        return Err(other("Binary packet too small"));
    }
    let header = match BinaryHeader::read_from(data) {
        Ok(h) => h,
        Err(e) => {
            return Err(e);
        },
    };
    if header.magic != MAGIC_REQUEST {
        return Err(other("Invalid magic byte for request"));
    }
    let extras: u64 = header.extras_length as u64;
    let key_length: u64 = header.key_length as u64;
    let total: u64 = header.total_body_length as u64;
    if total < extras + key_length {
        return Err(other("Invalid body length"));
    }
    if (data.len() as u64) < 24 + total {
        return Err(other("failed to fill whole buffer"));
    }
    let key_start: usize = 24 + header.extras_length as usize;
    let key_end: usize = key_start + header.key_length as usize;
    let key_bytes = vstd::slice::slice_to_vec(slice_subrange(data, key_start, key_end));
    let key = match utf8_string(key_bytes) {
        Some(key) => key,
        None => {
            return Err(other("Invalid key encoding"));
        },
    };
    let value_length: u32 = (total - extras - key_length) as u32;
    match build_command(
        header.opcode,
        header.extras_length,
        key,
        header.key_length,
        value_length,
    ) {
        Ok(command) => Ok((command, header.opaque, 24 + header.total_body_length as usize)),
        Err(e) => Err(e),
    }
}

/// The header of a response packet.
pub open spec fn response_header(
    opcode: u8,
    key_length: u16,
    extras_length: u8,
    status: u16,
    total_body_length: u32,
    opaque: u32,
    cas: u64,
) -> BinaryHeader {
    BinaryHeader {
        magic: MAGIC_RESPONSE,
        opcode,
        key_length,
        extras_length,
        data_type: 0,
        status_or_reserved: status,
        total_body_length,
        opaque,
        cas,
    }
}

/// A response packet that is a header only.
pub open spec fn status_packet(opcode: u8, status: u16, opaque: u32) -> Seq<u8> {
    header_bytes(response_header(opcode, 0, 0, status, 0, opaque, 0))
}

/// The packet that carries one item: its flags as extras, then its data;
/// none where the body does not fit the header's length field.
pub open spec fn value_packet(item: ItemView, opaque: u32) -> Option<Seq<u8>> {
    if item.data.len() + 4 > u32::MAX {
        None
    } else {
        Some(
            header_bytes(
                response_header(
                    OPCODE_GET,
                    0,
                    4,
                    STATUS_SUCCESS,
                    (item.data.len() + 4) as u32,
                    opaque,
                    match item.cas {
                        Some(cas) => cas,
                        None => 0,
                    },
                ),
            ) + be_bytes(item.flags as nat, 4) + item.data,
        )
    }
}

/// What has been written, followed by one more packet.
pub open spec fn appended(head: Option<Seq<u8>>, next: Option<Seq<u8>>) -> Option<Seq<u8>> {
    match (head, next) {
        (Some(a), Some(b)) => Some(a + b),
        _ => None,
    }
}

/// The packets of some items, one after the other.
pub open spec fn value_packets(items: Seq<ItemView>, opaque: u32) -> Option<Seq<u8>>
    decreases items.len(),
{
    if items.len() == 0 {
        Some(Seq::empty())
    } else {
        appended(value_packets(items.drop_last(), opaque), value_packet(items.last(), opaque))
    }
}

/// The packet that carries one statistic: its name as key, then its value;
/// none where name or body do not fit the header's length fields.
pub open spec fn stat_packet(name: Seq<char>, value: Seq<char>, opaque: u32) -> Option<Seq<u8>> {
    let key = encode_utf8(name);
    let body = encode_utf8(value);
    if key.len() > u16::MAX || key.len() + body.len() > u32::MAX {
        None
    } else {
        Some(
            header_bytes(
                response_header(
                    OPCODE_STAT,
                    key.len() as u16,
                    0,
                    STATUS_SUCCESS,
                    (key.len() + body.len()) as u32,
                    opaque,
                    0,
                ),
            ) + key + body,
        )
    }
}

/// The packets of some statistics, one after the other.
pub open spec fn stat_packets(stats: Seq<(Seq<char>, Seq<char>)>, opaque: u32) -> Option<Seq<u8>>
    decreases stats.len(),
{
    if stats.len() == 0 {
        Some(Seq::empty())
    } else {
        appended(
            stat_packets(stats.drop_last(), opaque),
            stat_packet(stats.last().0, stats.last().1, opaque),
        )
    }
}

/// Packets, or the reason there are none: a length that no header can hold.
pub open spec fn framed(packets: Option<Seq<u8>>) -> Result<Seq<u8>, Seq<char>> {
    match packets {
        Some(bytes) => Ok(bytes),
        None => Err("Value too large for binary protocol"@),
    }
}

/// The bytes that answer a binary request with `r`, every packet repeating
/// `opaque`; or why `r` cannot be sent in this dialect.
pub open spec fn binary_response(r: ResponseView, opaque: u32) -> Result<Seq<u8>, Seq<char>> {
    match r {
        ResponseView::Value(item) => framed(value_packet(item, opaque)),
        ResponseView::Values(items) => framed(value_packets(items, opaque)),
        ResponseView::End => Ok(status_packet(OPCODE_GET, STATUS_SUCCESS, opaque)),
        ResponseView::NotFound => Ok(status_packet(OPCODE_GET, STATUS_KEY_NOT_FOUND, opaque)),
        ResponseView::Version(version) => {
            let body = encode_utf8(version);
            if body.len() > u32::MAX {
                framed(None)
            } else {
                Ok(
                    header_bytes(
                        response_header(
                            OPCODE_VERSION,
                            0,
                            0,
                            STATUS_SUCCESS,
                            body.len() as u32,
                            opaque,
                            0,
                        ),
                    ) + body,
                )
            }
        },
        ResponseView::Stats(stats) => framed(
            appended(
                stat_packets(stats, opaque),
                Some(status_packet(OPCODE_STAT, STATUS_SUCCESS, opaque)),
            ),
        ),
        ResponseView::Error(_) => Ok(status_packet(OPCODE_NOOP, STATUS_UNKNOWN_COMMAND, opaque)),
        ResponseView::ClientError(_) => Ok(
            status_packet(OPCODE_NOOP, STATUS_INVALID_ARGUMENTS, opaque),
        ),
        ResponseView::ServerError(_) => Ok(
            status_packet(OPCODE_NOOP, STATUS_OUT_OF_MEMORY, opaque),
        ),
        ResponseView::Stored => Ok(status_packet(OPCODE_SET, STATUS_SUCCESS, opaque)),
        ResponseView::NotStored => Ok(status_packet(OPCODE_SET, STATUS_ITEM_NOT_STORED, opaque)),
        ResponseView::Exists => Ok(status_packet(OPCODE_SET, STATUS_KEY_EXISTS, opaque)),
        ResponseView::Deleted => Ok(status_packet(OPCODE_DELETE, STATUS_SUCCESS, opaque)),
        ResponseView::Touched => Ok(status_packet(OPCODE_NOOP, STATUS_SUCCESS, opaque)),
        ResponseView::MetaValue(_, _) | ResponseView::MetaHit(_) | ResponseView::MetaEnd
        | ResponseView::MetaNoOp => Err("Meta commands not supported in binary protocol"@),
    }
}

/// What the binary serializer returns, by its contents.
pub open spec fn serialized_view(r: Result<Vec<u8>, Error>) -> Result<Seq<u8>, Seq<char>> {
    match r {
        Ok(bytes) => Ok(bytes@),
        Err(Error::Other(reason)) => Err(reason@),
        Err(Error::NotFound) => Err("not found"@),
        Err(Error::NotReady) => Err("not ready"@),
    }
}

fn push_header(
    out: &mut Vec<u8>,
    opcode: u8,
    key_length: u16,
    extras_length: u8,
    status: u16,
    total_body_length: u32,
    opaque: u32,
    cas: u64,
)
    ensures
        final(out)@ == old(out)@ + header_bytes(
            response_header(
                opcode,
                key_length,
                extras_length,
                status,
                total_body_length,
                opaque,
                cas,
            ),
        ),
{
    let header = BinaryHeader {
        magic: MAGIC_RESPONSE,
        opcode,
        key_length,
        extras_length,
        data_type: 0,
        status_or_reserved: status,
        total_body_length,
        opaque,
        cas,
    };
    header.write_to(out);
}

fn push_value_packet(out: &mut Vec<u8>, item: &Item, opaque: u32) -> (fits: bool)
    ensures
        fits == value_packet(item@, opaque).is_some(),
        fits ==> final(out)@ == old(out)@ + value_packet(item@, opaque).unwrap(),
        !fits ==> final(out)@ == old(out)@,
{
    if item.data.len() > 0xffff_fffb {
        return false;
    }
    let cas: u64 = match item.cas {
        Some(cas) => cas,
        None => 0,
    };
    push_header(
        out,
        OPCODE_GET,
        0,
        4,
        STATUS_SUCCESS,
        (item.data.len() + 4) as u32,
        opaque,
        cas,
    );
    write_be_u32(out, item.flags);
    out.extend_from_slice(item.data.as_slice());
    assert(out@ =~= old(out)@ + value_packet(item@, opaque).unwrap());
    true
}

fn push_stat_packet(out: &mut Vec<u8>, name: &String, value: &String, opaque: u32) -> (fits: bool)
    ensures
        fits == stat_packet(name@, value@, opaque).is_some(),
        fits ==> final(out)@ == old(out)@ + stat_packet(name@, value@, opaque).unwrap(),
        !fits ==> final(out)@ == old(out)@,
{
    let key = name.as_str().as_bytes();
    let body = value.as_str().as_bytes();
    if key.len() > 0xffff || body.len() > 0xffff_ffff - key.len() {
        return false;
    }
    push_header(
        out,
        OPCODE_STAT,
        key.len() as u16,
        0,
        STATUS_SUCCESS,
        (key.len() + body.len()) as u32,
        opaque,
        0,
    );
    out.extend_from_slice(key);
    out.extend_from_slice(body);
    assert(out@ =~= old(out)@ + stat_packet(name@, value@, opaque).unwrap());
    true
}

fn status_only(opcode: u8, status: u16, opaque: u32) -> (out: Vec<u8>)
    ensures
        out@ == status_packet(opcode, status, opaque),
{
    let mut out: Vec<u8> = Vec::new();
    push_header(&mut out, opcode, 0, 0, status, 0, opaque, 0);
    assert(out@ =~= status_packet(opcode, status, opaque));
    out
}

fn too_large() -> (e: Error)
    ensures
        e matches Error::Other(reason) && reason@ == "Value too large for binary protocol"@,
{
    Error::Other(String::from_str("Value too large for binary protocol"))
}

/// Frames `response` for the binary dialect. Every packet has the response
/// magic and repeats `opaque`.
#[verifier::loop_isolation(false)]
pub fn serialize_binary_response(response: &Response, opaque: u32) -> (r: Result<Vec<u8>, Error>)
    ensures
        serialized_view(r) == binary_response(response@, opaque),
        r matches Err(e) ==> e is Other,
{
    let mut result: Vec<u8> = Vec::new();
    match response {
        Response::Value(item) => {
            if !push_value_packet(&mut result, item, opaque) {
                return Err(too_large());
            }
            assert(result@ =~= value_packet(item@, opaque).unwrap());
        },
        Response::Values(items) => {
            let mut i: usize = 0;
            while i < items.len()
                invariant
                    i <= items.len(),
                    value_packets(crate::protocol::item_views(items@).take(i as int), opaque)
                        == Some(result@),
                decreases items.len() - i,
            {
                let ghost views = crate::protocol::item_views(items@);
                proof {
                    assert(views.take(i + 1).drop_last() == views.take(i as int));
                    assert(views.take(i + 1).last() == items@[i as int]@);
                }
                if !push_value_packet(&mut result, &items[i], opaque) {
                    proof {
                        assert(value_packets(views.take(i + 1), opaque) is None);
                        lemma_value_packets_prefix(views, i + 1, opaque);
                    }
                    return Err(too_large());
                }
                i += 1;
            }
            assert(crate::protocol::item_views(items@).take(items.len() as int)
                == crate::protocol::item_views(items@));
        },
        Response::End => {
            return Ok(status_only(OPCODE_GET, STATUS_SUCCESS, opaque));
        },
        Response::NotFound => {
            return Ok(status_only(OPCODE_GET, STATUS_KEY_NOT_FOUND, opaque));
        },
        Response::Version(version) => {
            let body = version.as_str().as_bytes();
            if body.len() > 0xffff_ffff {
                return Err(too_large());
            }
            push_header(
                &mut result,
                OPCODE_VERSION,
                0,
                0,
                STATUS_SUCCESS,
                body.len() as u32,
                opaque,
                0,
            );
            result.extend_from_slice(body);
            assert(result@ =~= binary_response(response@, opaque)->Ok_0);
        },
        Response::Stats(stats) => {
            let mut i: usize = 0;
            while i < stats.len()
                invariant
                    i <= stats.len(),
                    stat_packets(crate::protocol::stat_views(stats@).take(i as int), opaque)
                        == Some(result@),
                decreases stats.len() - i,
            {
                let ghost views = crate::protocol::stat_views(stats@);
                proof {
                    assert(views.take(i + 1).drop_last() == views.take(i as int));
                    assert(views.take(i + 1).last() == (stats@[i as int].0@, stats@[i as int].1@));
                }
                if !push_stat_packet(&mut result, &stats[i].0, &stats[i].1, opaque) {
                    proof {
                        assert(stat_packets(views.take(i + 1), opaque) is None);
                        lemma_stat_packets_prefix(views, i + 1, opaque);
                    }
                    return Err(too_large());
                }
                i += 1;
            }
            assert(crate::protocol::stat_views(stats@).take(stats.len() as int)
                == crate::protocol::stat_views(stats@));
            push_header(&mut result, OPCODE_STAT, 0, 0, STATUS_SUCCESS, 0, opaque, 0);
        },
        Response::Error(_) => {
            return Ok(status_only(OPCODE_NOOP, STATUS_UNKNOWN_COMMAND, opaque));
        },
        Response::ClientError(_) => {
            return Ok(status_only(OPCODE_NOOP, STATUS_INVALID_ARGUMENTS, opaque));
        },
        Response::ServerError(_) => {
            return Ok(status_only(OPCODE_NOOP, STATUS_OUT_OF_MEMORY, opaque));
        },
        Response::Stored => {
            return Ok(status_only(OPCODE_SET, STATUS_SUCCESS, opaque));
        },
        Response::NotStored => {
            return Ok(status_only(OPCODE_SET, STATUS_ITEM_NOT_STORED, opaque));
        },
        Response::Exists => {
            return Ok(status_only(OPCODE_SET, STATUS_KEY_EXISTS, opaque));
        },
        Response::Deleted => {
            return Ok(status_only(OPCODE_DELETE, STATUS_SUCCESS, opaque));
        },
        Response::Touched => {
            return Ok(status_only(OPCODE_NOOP, STATUS_SUCCESS, opaque));
        },
        Response::MetaValue(_, _) | Response::MetaHit(_) | Response::MetaEnd
        | Response::MetaNoOp => {
            return Err(
                Error::Other(String::from_str("Meta commands not supported in binary protocol")),
            );
        },
    }
    Ok(result)
}

/// Items that cannot all be framed up to the `k`-th cannot all be framed.
pub proof fn lemma_value_packets_prefix(items: Seq<ItemView>, k: int, opaque: u32)
    requires
        0 <= k <= items.len(),
        value_packets(items.take(k), opaque) is None,
    ensures
        value_packets(items, opaque) is None,
    decreases items.len() - k,
{
    if k < items.len() {
        assert(items.take(k + 1).drop_last() == items.take(k));
        lemma_value_packets_prefix(items, k + 1, opaque);
    } else {
        assert(items.take(k) == items);
    }
}

/// Statistics that cannot all be framed up to the `k`-th cannot all be
/// framed.
pub proof fn lemma_stat_packets_prefix(stats: Seq<(Seq<char>, Seq<char>)>, k: int, opaque: u32)
    requires
        0 <= k <= stats.len(),
        stat_packets(stats.take(k), opaque) is None,
    ensures
        stat_packets(stats, opaque) is None,
    decreases stats.len() - k,
{
    if k < stats.len() {
        assert(stats.take(k + 1).drop_last() == stats.take(k));
        lemma_stat_packets_prefix(stats, k + 1, opaque);
    } else {
        assert(stats.take(k) == stats);
    }
}

} // verus!
