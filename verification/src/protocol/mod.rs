//! The wire model: commands as they are parsed from a connection in one of
//! three dialects, and responses as they are written back.

pub mod binary;
pub mod client;
pub mod meta;
pub mod text;

use crate::chars::{
    chars_of, decimal, has_prefix, push_decimal, starts_with, string_of, trim, trimmed,
};
use crate::Error;
use vstd::prelude::*;
use vstd::string::*;
use vstd::utf8::{decode_utf8, encode_utf8, valid_utf8};

verus! {

/// The dialect a command arrived in. A binary request carries an opaque
/// number that its response repeats.
#[derive(Debug, PartialEq, Eq, Clone, Copy)]
pub enum ProtocolType {
    Text,
    Binary { opaque: u32 },
    Meta,
}

/// A parsed command together with its dialect.
#[derive(Debug, PartialEq)]
pub struct CommandContext {
    pub command: Command,
    pub protocol: ProtocolType,
}

#[derive(Debug, PartialEq)]
pub enum Command {
    Get(Vec<String>),
    Gets(Vec<String>),
    /// Expiration time, then the keys.
    Gat(u32, Vec<String>),
    /// Expiration time, then the keys.
    Gats(u32, Vec<String>),
    /// The key, then the flags in the order they were written.
    MetaGet(String, Vec<MetaFlag>),
    MetaNoOp,
    Version,
    Stats(Option<String>),
    /// The key, then the expiration time.
    Touch(String, u32),
    Quit,
}

/// A flag of a meta command. The first eleven are single letters; the last
/// five carry a token.
#[derive(Debug, PartialEq, Clone)]
pub enum MetaFlag {
    BaseEncoded,
    ReturnCas,
    ReturnFlags,
    ReturnHit,
    ReturnKey,
    ReturnLastAccess,
    NoReply,
    ReturnSize,
    ReturnTtl,
    NoLruBump,
    ReturnValue,
    Opaque(String),
    VivifyOnMiss(u32),
    RecacheWin(u32),
    UpdateTtl(u32),
    SetCas(u64),
}

/// A stored value as it is sent to a client.
#[derive(Debug, PartialEq, Clone)]
pub struct Item {
    pub key: String,
    pub flags: u32,
    pub exptime: u32,
    pub data: Vec<u8>,
    pub cas: Option<u64>,
}

/// What the server answers, whatever the dialect.
#[derive(Debug, PartialEq)]
pub enum Response {
    Value(Item),
    Values(Vec<Item>),
    End,
    Stored,
    NotStored,
    Exists,
    NotFound,
    Deleted,
    Touched,
    Error(String),
    ClientError(String),
    ServerError(String),
    Version(String),
    /// Names and values, in the order they are sent.
    Stats(Vec<(String, String)>),
    /// A meta hit with its value, and the flags to repeat.
    MetaValue(Item, Vec<MetaFlag>),
    /// A meta hit without a value.
    MetaHit(Vec<MetaFlag>),
    MetaEnd,
    MetaNoOp,
}

/// Why a request could not be parsed.
#[derive(Debug, PartialEq)]
pub enum ParseError {
    /// There was nothing but white space.
    NoCommand,
    /// The request was malformed; the text says how.
    Other(String),
}

pub enum MetaFlagView {
    BaseEncoded,
    ReturnCas,
    ReturnFlags,
    ReturnHit,
    ReturnKey,
    ReturnLastAccess,
    NoReply,
    ReturnSize,
    ReturnTtl,
    NoLruBump,
    ReturnValue,
    Opaque(Seq<char>),
    VivifyOnMiss(u32),
    RecacheWin(u32),
    UpdateTtl(u32),
    SetCas(u64),
}

pub enum CommandView {
    Get(Seq<Seq<char>>),
    Gets(Seq<Seq<char>>),
    Gat(u32, Seq<Seq<char>>),
    Gats(u32, Seq<Seq<char>>),
    MetaGet(Seq<char>, Seq<MetaFlagView>),
    MetaNoOp,
    Version,
    Stats(Option<Seq<char>>),
    Touch(Seq<char>, u32),
    Quit,
}

pub struct ItemView {
    pub key: Seq<char>,
    pub flags: u32,
    pub exptime: u32,
    pub data: Seq<u8>,
    pub cas: Option<u64>,
}

pub enum ResponseView {
    Value(ItemView),
    Values(Seq<ItemView>),
    End,
    Stored,
    NotStored,
    Exists,
    NotFound,
    Deleted,
    Touched,
    Error(Seq<char>),
    ClientError(Seq<char>),
    ServerError(Seq<char>),
    Version(Seq<char>),
    Stats(Seq<(Seq<char>, Seq<char>)>),
    MetaValue(ItemView, Seq<MetaFlagView>),
    MetaHit(Seq<MetaFlagView>),
    MetaEnd,
    MetaNoOp,
}

pub struct CommandContextView {
    pub command: CommandView,
    pub protocol: ProtocolType,
}

pub enum ParseErrorView {
    NoCommand,
    Other(Seq<char>),
}

/// The contents of a list of strings.
pub open spec fn string_views(v: Seq<String>) -> Seq<Seq<char>> {
    v.map_values(|s: String| s@)
}

/// A copy of a list of strings.
pub fn copy_strings(list: &Vec<String>) -> (out: Vec<String>)
    ensures
        string_views(out@) == string_views(list@),
{
    let mut out: Vec<String> = Vec::new();
    let mut i: usize = 0;
    while i < list.len()
        invariant
            i <= list.len(),
            out@.len() == i,
            forall|k: int| 0 <= k < i ==> (#[trigger] out@[k])@ == list@[k]@,
        decreases list.len() - i,
    {
        out.push(list[i].clone());
        i += 1;
    }
    proof {
        assert(string_views(out@) =~= string_views(list@));
    }
    out
}

/// The contents of a list of flags.
pub open spec fn flag_views(v: Seq<MetaFlag>) -> Seq<MetaFlagView> {
    v.map_values(|f: MetaFlag| f@)
}

/// The contents of a list of items.
pub open spec fn item_views(v: Seq<Item>) -> Seq<ItemView> {
    v.map_values(|i: Item| i@)
}

/// The contents of a list of statistics.
pub open spec fn stat_views(v: Seq<(String, String)>) -> Seq<(Seq<char>, Seq<char>)> {
    v.map_values(|p: (String, String)| (p.0@, p.1@))
}

impl View for Item {
    type V = ItemView;

    open spec fn view(&self) -> ItemView {
        ItemView {
            key: self.key@,
            flags: self.flags,
            exptime: self.exptime,
            data: self.data@,
            cas: self.cas,
        }
    }
}

impl View for Response {
    type V = ResponseView;

    open spec fn view(&self) -> ResponseView {
        match self {
            Response::Value(item) => ResponseView::Value(item@),
            Response::Values(items) => ResponseView::Values(item_views(items@)),
            Response::End => ResponseView::End,
            Response::Stored => ResponseView::Stored,
            Response::NotStored => ResponseView::NotStored,
            Response::Exists => ResponseView::Exists,
            Response::NotFound => ResponseView::NotFound,
            Response::Deleted => ResponseView::Deleted,
            Response::Touched => ResponseView::Touched,
            Response::Error(msg) => ResponseView::Error(msg@),
            Response::ClientError(msg) => ResponseView::ClientError(msg@),
            Response::ServerError(msg) => ResponseView::ServerError(msg@),
            Response::Version(version) => ResponseView::Version(version@),
            Response::Stats(stats) => ResponseView::Stats(stat_views(stats@)),
            Response::MetaValue(item, flags) => ResponseView::MetaValue(item@, flag_views(flags@)),
            Response::MetaHit(flags) => ResponseView::MetaHit(flag_views(flags@)),
            Response::MetaEnd => ResponseView::MetaEnd,
            Response::MetaNoOp => ResponseView::MetaNoOp,
        }
    }
}

impl View for MetaFlag {
    type V = MetaFlagView;

    open spec fn view(&self) -> MetaFlagView {
        match self {
            MetaFlag::BaseEncoded => MetaFlagView::BaseEncoded,
            MetaFlag::ReturnCas => MetaFlagView::ReturnCas,
            MetaFlag::ReturnFlags => MetaFlagView::ReturnFlags,
            MetaFlag::ReturnHit => MetaFlagView::ReturnHit,
            MetaFlag::ReturnKey => MetaFlagView::ReturnKey,
            MetaFlag::ReturnLastAccess => MetaFlagView::ReturnLastAccess,
            MetaFlag::NoReply => MetaFlagView::NoReply,
            MetaFlag::ReturnSize => MetaFlagView::ReturnSize,
            MetaFlag::ReturnTtl => MetaFlagView::ReturnTtl,
            MetaFlag::NoLruBump => MetaFlagView::NoLruBump,
            MetaFlag::ReturnValue => MetaFlagView::ReturnValue,
            MetaFlag::Opaque(token) => MetaFlagView::Opaque(token@),
            MetaFlag::VivifyOnMiss(ttl) => MetaFlagView::VivifyOnMiss(*ttl),
            MetaFlag::RecacheWin(ttl) => MetaFlagView::RecacheWin(*ttl),
            MetaFlag::UpdateTtl(ttl) => MetaFlagView::UpdateTtl(*ttl),
            MetaFlag::SetCas(cas) => MetaFlagView::SetCas(*cas),
        }
    }
}

impl View for Command {
    type V = CommandView;

    open spec fn view(&self) -> CommandView {
        match self {
            Command::Get(keys) => CommandView::Get(string_views(keys@)),
            Command::Gets(keys) => CommandView::Gets(string_views(keys@)),
            Command::Gat(exptime, keys) => CommandView::Gat(*exptime, string_views(keys@)),
            Command::Gats(exptime, keys) => CommandView::Gats(*exptime, string_views(keys@)),
            Command::MetaGet(key, flags) => CommandView::MetaGet(key@, flag_views(flags@)),
            Command::MetaNoOp => CommandView::MetaNoOp,
            Command::Version => CommandView::Version,
            Command::Stats(arg) => CommandView::Stats(
                match arg {
                    Some(a) => Some(a@),
                    None => None,
                },
            ),
            Command::Touch(key, exptime) => CommandView::Touch(key@, *exptime),
            Command::Quit => CommandView::Quit,
        }
    }
}

impl View for CommandContext {
    type V = CommandContextView;

    open spec fn view(&self) -> CommandContextView {
        CommandContextView { command: self.command@, protocol: self.protocol }
    }
}

impl View for ParseError {
    type V = ParseErrorView;

    open spec fn view(&self) -> ParseErrorView {
        match self {
            ParseError::NoCommand => ParseErrorView::NoCommand,
            ParseError::Other(reason) => ParseErrorView::Other(reason@),
        }
    }
}

/// What a parser returns, by its contents.
pub open spec fn parsed_view(r: Result<Command, ParseError>) -> Result<
    CommandView,
    ParseErrorView,
> {
    match r {
        Ok(c) => Ok(c@),
        Err(e) => Err(e@),
    }
}

/// A malformed request, with the reason in words.
pub open spec fn malformed(reason: Seq<char>) -> Result<CommandView, ParseErrorView> {
    Err(ParseErrorView::Other(reason))
}

impl ParseError {
    /// The error in words.
    pub fn to_string(&self) -> (s: String)
        ensures
            s@ == match self@ {
                ParseErrorView::NoCommand => "no command"@,
                ParseErrorView::Other(reason) => reason,
            },
    {
        match self {
            ParseError::NoCommand => String::from_str("no command"),
            ParseError::Other(reason) => reason.clone(),
        }
    }
}

/// The way a flag is written in a response.
pub open spec fn flag_text(f: MetaFlagView) -> Seq<char> {
    match f {
        MetaFlagView::BaseEncoded => seq!['b'],
        MetaFlagView::ReturnCas => seq!['c'],
        MetaFlagView::ReturnFlags => seq!['f'],
        MetaFlagView::ReturnHit => seq!['h'],
        MetaFlagView::ReturnKey => seq!['k'],
        MetaFlagView::ReturnLastAccess => seq!['l'],
        MetaFlagView::NoReply => seq!['q'],
        MetaFlagView::ReturnSize => seq!['s'],
        MetaFlagView::ReturnTtl => seq!['t'],
        MetaFlagView::NoLruBump => seq!['u'],
        MetaFlagView::ReturnValue => seq!['v'],
        MetaFlagView::Opaque(token) => seq!['O'] + token,
        MetaFlagView::VivifyOnMiss(ttl) => seq!['N'] + decimal(ttl as nat),
        MetaFlagView::RecacheWin(ttl) => seq!['R'] + decimal(ttl as nat),
        MetaFlagView::UpdateTtl(ttl) => seq!['T'] + decimal(ttl as nat),
        MetaFlagView::SetCas(cas) => seq!['E'] + decimal(cas as nat),
    }
}

/// Appends the characters of `text` to `buf`.
pub fn push_text(buf: &mut Vec<char>, text: &str)
    ensures
        final(buf)@ == old(buf)@ + text@,
{
    let chars = chars_of(text);
    let mut i: usize = 0;
    while i < chars.len()
        invariant
            i <= chars.len(),
            chars@ == text@,
            buf@ == old(buf)@ + chars@.take(i as int),
        decreases chars.len() - i,
    {
        buf.push(chars[i]);
        assert(chars@.take(i + 1) == chars@.take(i as int).push(chars@[i as int]));
        i += 1;
    }
    assert(chars@.take(chars.len() as int) == chars@);
}

fn push_flag(buf: &mut Vec<char>, flag: &MetaFlag)
    ensures
        final(buf)@ == old(buf)@ + flag_text(flag@),
{
    match flag {
        MetaFlag::BaseEncoded => buf.push('b'),
        MetaFlag::ReturnCas => buf.push('c'),
        MetaFlag::ReturnFlags => buf.push('f'),
        MetaFlag::ReturnHit => buf.push('h'),
        MetaFlag::ReturnKey => buf.push('k'),
        MetaFlag::ReturnLastAccess => buf.push('l'),
        MetaFlag::NoReply => buf.push('q'),
        MetaFlag::ReturnSize => buf.push('s'),
        MetaFlag::ReturnTtl => buf.push('t'),
        MetaFlag::NoLruBump => buf.push('u'),
        MetaFlag::ReturnValue => buf.push('v'),
        MetaFlag::Opaque(token) => {
            buf.push('O');
            push_text(buf, token.as_str());
        },
        MetaFlag::VivifyOnMiss(ttl) => {
            buf.push('N');
            push_decimal(buf, *ttl as u64);
        },
        MetaFlag::RecacheWin(ttl) => {
            buf.push('R');
            push_decimal(buf, *ttl as u64);
        },
        MetaFlag::UpdateTtl(ttl) => {
            buf.push('T');
            push_decimal(buf, *ttl as u64);
        },
        MetaFlag::SetCas(cas) => {
            buf.push('E');
            push_decimal(buf, *cas);
        },
    }
    assert(buf@ =~= old(buf)@ + flag_text(flag@));
}

impl MetaFlag {
    /// The flag as a response repeats it: its letter, then its token if it
    /// has one.
    pub fn format_response(&self) -> (s: String)
        ensures
            s@ == flag_text(self@),
    {
        let mut buf: Vec<char> = Vec::new();
        push_flag(&mut buf, self);
        assert(buf@ =~= flag_text(self@));
        string_of(buf.as_slice())
    }
}

/// A stretch of a response in a line-oriented dialect: text, or the bytes
/// of a value.
#[derive(Debug, PartialEq, Clone)]
pub enum Piece {
    Text(String),
    Data(Vec<u8>),
}

pub enum PieceView {
    Text(Seq<char>),
    Data(Seq<u8>),
}

impl View for Piece {
    type V = PieceView;

    open spec fn view(&self) -> PieceView {
        match self {
            Piece::Text(text) => PieceView::Text(text@),
            Piece::Data(data) => PieceView::Data(data@),
        }
    }
}

/// The contents of a list of pieces.
pub open spec fn piece_views(v: Seq<Piece>) -> Seq<PieceView> {
    v.map_values(|p: Piece| p@)
}

/// The line that announces a value: key, flags, length and, if `with_cas`
/// and the item has one, its CAS number.
pub open spec fn value_line(item: ItemView, with_cas: bool) -> Seq<char> {
    "VALUE "@ + item.key + seq![' '] + decimal(item.flags as nat) + seq![' '] + decimal(
        item.data.len(),
    ) + (if with_cas && item.cas is Some {
        seq![' '] + decimal(item.cas->0 as nat)
    } else {
        Seq::empty()
    }) + "\r\n"@
}

/// One item: its line, its data, and the end of the data.
pub open spec fn item_pieces(item: ItemView, with_cas: bool) -> Seq<PieceView> {
    seq![
        PieceView::Text(value_line(item, with_cas)),
        PieceView::Data(item.data),
        PieceView::Text("\r\n"@),
    ]
}

/// Some items, one after the other, each with its CAS number if it has one.
pub open spec fn items_pieces(items: Seq<ItemView>) -> Seq<PieceView>
    decreases items.len(),
{
    if items.len() == 0 {
        Seq::empty()
    } else {
        items_pieces(items.drop_last()) + item_pieces(items.last(), true)
    }
}

/// One line for each statistic.
pub open spec fn stat_lines(stats: Seq<(Seq<char>, Seq<char>)>) -> Seq<char>
    decreases stats.len(),
{
    if stats.len() == 0 {
        Seq::empty()
    } else {
        stat_lines(stats.drop_last()) + "STAT "@ + stats.last().0 + seq![' '] + stats.last().1
            + "\r\n"@
    }
}

/// Each flag after one space.
pub open spec fn flags_text(flags: Seq<MetaFlagView>) -> Seq<char>
    decreases flags.len(),
{
    if flags.len() == 0 {
        Seq::empty()
    } else {
        flags_text(flags.drop_last()) + seq![' '] + flag_text(flags.last())
    }
}

/// A response that is one line of text.
pub open spec fn line(text: Seq<char>) -> Seq<PieceView> {
    seq![PieceView::Text(text)]
}

/// How a response is laid out in the text and meta dialects.
pub open spec fn layout(r: ResponseView) -> Seq<PieceView> {
    match r {
        ResponseView::Value(item) => item_pieces(item, false),
        ResponseView::Values(items) => items_pieces(items).push(PieceView::Text("END\r\n"@)),
        ResponseView::End => line("END\r\n"@),
        ResponseView::Stored => line("STORED\r\n"@),
        ResponseView::NotStored => line("NOT_STORED\r\n"@),
        ResponseView::Exists => line("EXISTS\r\n"@),
        ResponseView::NotFound => line("NOT_FOUND\r\n"@),
        ResponseView::Deleted => line("DELETED\r\n"@),
        ResponseView::Touched => line("TOUCHED\r\n"@),
        ResponseView::Error(_) => line("ERROR\r\n"@),
        ResponseView::ClientError(msg) => line("CLIENT_ERROR "@ + msg + "\r\n"@),
        ResponseView::ServerError(msg) => line("SERVER_ERROR "@ + msg + "\r\n"@),
        ResponseView::Version(version) => line("VERSION "@ + version + "\r\n"@),
        ResponseView::Stats(stats) => line(stat_lines(stats) + "END\r\n"@),
        ResponseView::MetaValue(item, flags) => seq![
            PieceView::Text("VA "@ + decimal(item.data.len()) + flags_text(flags) + "\r\n"@),
            PieceView::Data(item.data),
            PieceView::Text("\r\n"@),
        ],
        ResponseView::MetaHit(flags) => line("HD"@ + flags_text(flags) + "\r\n"@),
        ResponseView::MetaEnd => line("EN\r\n"@),
        ResponseView::MetaNoOp => line("MN\r\n"@),
    }
}

/// The text that `String::from_utf8_lossy` makes of bytes.
pub uninterp spec fn utf8_lossy(bytes: Seq<u8>) -> Seq<char>;

/// `String::from_utf8_lossy` turns bytes into text; bytes that are valid
/// UTF-8 become the text they encode.
#[verifier::external_body]
fn lossy_text(bytes: &[u8]) -> (s: String)
    ensures
        s@ == utf8_lossy(bytes@),
        valid_utf8(bytes@) ==> s@ == decode_utf8(bytes@),
{
    String::from_utf8_lossy(bytes).into_owned()
}

/// The pieces as one text, the data shown as text.
pub open spec fn rendered(pieces: Seq<PieceView>) -> Seq<char>
    decreases pieces.len(),
{
    if pieces.len() == 0 {
        Seq::empty()
    } else {
        rendered(pieces.drop_last()) + (match pieces.last() {
            PieceView::Text(text) => text,
            PieceView::Data(data) => utf8_lossy(data),
        })
    }
}

/// The pieces as they go on the wire: text as UTF-8, data as it is.
pub open spec fn wire(pieces: Seq<PieceView>) -> Seq<u8>
    decreases pieces.len(),
{
    if pieces.len() == 0 {
        Seq::empty()
    } else {
        wire(pieces.drop_last()) + (match pieces.last() {
            PieceView::Text(text) => encode_utf8(text),
            PieceView::Data(data) => data,
        })
    }
}

/// The bytes that answer a request of the given dialect with `r`. A
/// response that the binary dialect cannot carry is answered there by an
/// error packet with status "unknown command".
pub open spec fn serialized(r: ResponseView, protocol: ProtocolType) -> Seq<u8> {
    match protocol {
        ProtocolType::Text | ProtocolType::Meta => wire(layout(r)),
        ProtocolType::Binary { opaque } => match binary::binary_response(r, opaque) {
            Ok(bytes) => bytes,
            Err(_) => binary::status_packet(
                binary::OPCODE_NOOP,
                binary::STATUS_UNKNOWN_COMMAND,
                opaque,
            ),
        },
    }
}

fn push_item_pieces(pieces: &mut Vec<Piece>, item: &Item, with_cas: bool)
    ensures
        piece_views(final(pieces)@) == piece_views(old(pieces)@) + item_pieces(item@, with_cas),
{
    let ghost before = piece_views(pieces@);
    let mut buf: Vec<char> = Vec::new();
    push_text(&mut buf, "VALUE ");
    push_text(&mut buf, item.key.as_str());
    buf.push(' ');
    push_decimal(&mut buf, item.flags as u64);
    buf.push(' ');
    push_decimal(&mut buf, item.data.len() as u64);
    if with_cas {
        if let Some(cas) = item.cas {
            buf.push(' ');
            push_decimal(&mut buf, cas);
        }
    }
    push_text(&mut buf, "\r\n");
    assert(buf@ =~= value_line(item@, with_cas));
    let head = Piece::Text(string_of(buf.as_slice()));
    let data = Piece::Data(item.data.clone());
    let tail = Piece::Text(String::from_str("\r\n"));
    proof {
        let a = pieces@.push(head);
        let b = a.push(data);
        let c = b.push(tail);
        assert(piece_views(a) == before.push(head@));
        assert(piece_views(b) == piece_views(a).push(data@));
        assert(piece_views(c) == piece_views(b).push(tail@));
        assert(piece_views(c) =~= before + item_pieces(item@, with_cas));
    }
    pieces.push(head);
    pieces.push(data);
    pieces.push(tail);
}

fn push_flags(buf: &mut Vec<char>, flags: &Vec<MetaFlag>)
    ensures
        final(buf)@ == old(buf)@ + flags_text(flag_views(flags@)),
{
    let ghost all = flag_views(flags@);
    let mut i: usize = 0;
    assert(all.take(0) == Seq::<MetaFlagView>::empty());
    assert(buf@ == old(buf)@ + flags_text(all.take(0)));
    while i < flags.len()
        invariant
            i <= flags.len(),
            all == flag_views(flags@),
            buf@ == old(buf)@ + flags_text(all.take(i as int)),
        decreases flags.len() - i,
    {
        proof {
            assert(all.take(i + 1).drop_last() == all.take(i as int));
            assert(all.take(i + 1).last() == flags@[i as int]@);
        }
        let ghost so_far = buf@;
        buf.push(' ');
        push_flag(buf, &flags[i]);
        assert(buf@ =~= old(buf)@ + flags_text(all.take(i + 1)));
        i += 1;
    }
    assert(all.take(flags.len() as int) == all);
}

fn one_line(buf: &Vec<char>) -> (pieces: Vec<Piece>)
    ensures
        piece_views(pieces@) == line(buf@),
{
    let mut pieces: Vec<Piece> = Vec::new();
    let piece = Piece::Text(string_of(buf.as_slice()));
    assert(piece_views(pieces@.push(piece)) == piece_views(pieces@).push(piece@));
    pieces.push(piece);
    assert(piece_views(pieces@) =~= line(buf@));
    pieces
}

fn fixed_line(text: &str) -> (pieces: Vec<Piece>)
    ensures
        piece_views(pieces@) == line(text@),
{
    let mut buf: Vec<char> = Vec::new();
    push_text(&mut buf, text);
    assert(buf@ =~= text@);
    one_line(&buf)
}

fn framed_line(head: &str, body: &str) -> (pieces: Vec<Piece>)
    ensures
        piece_views(pieces@) == line(head@ + body@ + "\r\n"@),
{
    let mut buf: Vec<char> = Vec::new();
    push_text(&mut buf, head);
    push_text(&mut buf, body);
    push_text(&mut buf, "\r\n");
    assert(buf@ =~= head@ + body@ + "\r\n"@);
    one_line(&buf)
}

impl Response {
    /// The response as the text and meta dialects lay it out.
    #[verifier::loop_isolation(false)]
    pub fn pieces(&self) -> (pieces: Vec<Piece>)
        ensures
            piece_views(pieces@) == layout(self@),
    {
        match self {
            Response::Value(item) => {
                let mut pieces: Vec<Piece> = Vec::new();
                push_item_pieces(&mut pieces, item, false);
                assert(piece_views(pieces@) =~= item_pieces(item@, false));
                pieces
            },
            Response::Values(items) => {
                let mut pieces: Vec<Piece> = Vec::new();
                let ghost all = item_views(items@);
                let mut i: usize = 0;
                assert(piece_views(pieces@) =~= items_pieces(all.take(0)));
                while i < items.len()
                    invariant
                        i <= items.len(),
                        piece_views(pieces@) == items_pieces(all.take(i as int)),
                    decreases items.len() - i,
                {
                    proof {
                        assert(all.take(i + 1).drop_last() == all.take(i as int));
                        assert(all.take(i + 1).last() == items@[i as int]@);
                    }
                    push_item_pieces(&mut pieces, &items[i], true);
                    i += 1;
                }
                assert(all.take(items.len() as int) == all);
                let end = Piece::Text(String::from_str("END\r\n"));
                assert(piece_views(pieces@.push(end)) == piece_views(pieces@).push(end@));
                pieces.push(end);
                pieces
            },
            Response::End => fixed_line("END\r\n"),
            Response::Stored => fixed_line("STORED\r\n"),
            Response::NotStored => fixed_line("NOT_STORED\r\n"),
            Response::Exists => fixed_line("EXISTS\r\n"),
            Response::NotFound => fixed_line("NOT_FOUND\r\n"),
            Response::Deleted => fixed_line("DELETED\r\n"),
            Response::Touched => fixed_line("TOUCHED\r\n"),
            Response::Error(_) => fixed_line("ERROR\r\n"),
            Response::ClientError(msg) => framed_line("CLIENT_ERROR ", msg.as_str()),
            Response::ServerError(msg) => framed_line("SERVER_ERROR ", msg.as_str()),
            Response::Version(version) => framed_line("VERSION ", version.as_str()),
            Response::Stats(stats) => {
                let mut buf: Vec<char> = Vec::new();
                let ghost all = stat_views(stats@);
                let mut i: usize = 0;
                assert(buf@ =~= stat_lines(all.take(0)));
                while i < stats.len()
                    invariant
                        i <= stats.len(),
                        buf@ == stat_lines(all.take(i as int)),
                    decreases stats.len() - i,
                {
                    proof {
                        assert(all.take(i + 1).drop_last() == all.take(i as int));
                        assert(all.take(i + 1).last() == (stats@[i as int].0@, stats@[i as int].1@));
                    }
                    push_text(&mut buf, "STAT ");
                    push_text(&mut buf, stats[i].0.as_str());
                    buf.push(' ');
                    push_text(&mut buf, stats[i].1.as_str());
                    push_text(&mut buf, "\r\n");
                    assert(buf@ =~= stat_lines(all.take(i + 1)));
                    i += 1;
                }
                assert(all.take(stats.len() as int) == all);
                push_text(&mut buf, "END\r\n");
                one_line(&buf)
            },
            Response::MetaValue(item, flags) => {
                let mut buf: Vec<char> = Vec::new();
                push_text(&mut buf, "VA ");
                push_decimal(&mut buf, item.data.len() as u64);
                push_flags(&mut buf, flags);
                push_text(&mut buf, "\r\n");
                assert(buf@ =~= "VA "@ + decimal(item@.data.len()) + flags_text(flag_views(flags@))
                    + "\r\n"@);
                let mut pieces: Vec<Piece> = Vec::new();
                let head = Piece::Text(string_of(buf.as_slice()));
                let data = Piece::Data(item.data.clone());
                let tail = Piece::Text(String::from_str("\r\n"));
                proof {
                    let a = pieces@.push(head);
                    let b = a.push(data);
                    let c = b.push(tail);
                    assert(piece_views(a) == piece_views(pieces@).push(head@));
                    assert(piece_views(b) == piece_views(a).push(data@));
                    assert(piece_views(c) == piece_views(b).push(tail@));
                    assert(piece_views(c) =~= layout(self@));
                }
                pieces.push(head);
                pieces.push(data);
                pieces.push(tail);
                pieces
            },
            Response::MetaHit(flags) => {
                let mut buf: Vec<char> = Vec::new();
                push_text(&mut buf, "HD");
                push_flags(&mut buf, flags);
                push_text(&mut buf, "\r\n");
                assert(buf@ =~= "HD"@ + flags_text(flag_views(flags@)) + "\r\n"@);
                one_line(&buf)
            },
            Response::MetaEnd => fixed_line("EN\r\n"),
            Response::MetaNoOp => fixed_line("MN\r\n"),
        }
    }

    /// The response as text, in the layout of the text and meta dialects;
    /// the data of a value is shown as text.
    pub fn format(&self) -> (s: String)
        ensures
            s@ == rendered(layout(self@)),
    {
        let pieces = self.pieces();
        let ghost all = piece_views(pieces@);
        let mut out = String::new();
        let mut i: usize = 0;
        assert(all.take(0) == Seq::<PieceView>::empty());
        while i < pieces.len()
            invariant
                i <= pieces.len(),
                all == piece_views(pieces@),
                out@ == rendered(all.take(i as int)),
            decreases pieces.len() - i,
        {
            proof {
                assert(all.take(i + 1).drop_last() == all.take(i as int));
                assert(all.take(i + 1).last() == pieces@[i as int]@);
            }
            match &pieces[i] {
                Piece::Text(text) => {
                    out.append(text.as_str());
                },
                Piece::Data(data) => {
                    let text = lossy_text(data.as_slice());
                    out.append(text.as_str());
                },
            }
            i += 1;
        }
        assert(all.take(pieces.len() as int) == all);
        out
    }

    /// The bytes that answer a request of the given dialect.
    pub fn serialize(&self, protocol: &ProtocolType) -> (bytes: Vec<u8>)
        ensures
            bytes@ == serialized(self@, *protocol),
    {
        match protocol {
            ProtocolType::Text | ProtocolType::Meta => {
                let pieces = self.pieces();
                let ghost all = piece_views(pieces@);
                let mut out: Vec<u8> = Vec::new();
                let mut i: usize = 0;
                assert(all.take(0) == Seq::<PieceView>::empty());
                while i < pieces.len()
                    invariant
                        i <= pieces.len(),
                        all == piece_views(pieces@),
                        out@ == wire(all.take(i as int)),
                    decreases pieces.len() - i,
                {
                    proof {
                        assert(all.take(i + 1).drop_last() == all.take(i as int));
                        assert(all.take(i + 1).last() == pieces@[i as int]@);
                    }
                    match &pieces[i] {
                        Piece::Text(text) => {
                            out.extend_from_slice(text.as_str().as_bytes());
                        },
                        Piece::Data(data) => {
                            out.extend_from_slice(data.as_slice());
                        },
                    }
                    i += 1;
                }
                assert(all.take(pieces.len() as int) == all);
                out
            },
            ProtocolType::Binary { opaque } => self.serialize_binary(*opaque),
        }
    }

    fn serialize_binary(&self, opaque: u32) -> (bytes: Vec<u8>)
        ensures
            bytes@ == serialized(self@, ProtocolType::Binary { opaque }),
    {
        match binary::serialize_binary_response(self, opaque) {
            Ok(bytes) => bytes,
            Err(_) => {
                let mut out: Vec<u8> = Vec::new();
                let header = binary::BinaryHeader {
                    magic: binary::MAGIC_RESPONSE,
                    opcode: binary::OPCODE_NOOP,
                    key_length: 0,
                    extras_length: 0,
                    data_type: 0,
                    status_or_reserved: binary::STATUS_UNKNOWN_COMMAND,
                    total_body_length: 0,
                    opaque,
                    cas: 0,
                };
                header.write_to(&mut out);
                assert(out@ =~= binary::status_packet(
                    binary::OPCODE_NOOP,
                    binary::STATUS_UNKNOWN_COMMAND,
                    opaque,
                ));
                out
            },
        }
    }
}

/// Frames `response` for the binary dialect.
pub fn serialize_binary_response(response: &Response, opaque: u32) -> (r: Result<Vec<u8>, Error>)
    ensures
        binary::serialized_view(r) == binary::binary_response(response@, opaque),
        r matches Err(e) ==> e is Other,
{
    binary::serialize_binary_response(response, opaque)
}

/// What a line parser returns, by its contents.
pub open spec fn context_view(r: Result<CommandContext, ParseError>) -> Result<
    CommandContextView,
    ParseErrorView,
> {
    match r {
        Ok(context) => Ok(context@),
        Err(e) => Err(e@),
    }
}

/// A command in its dialect, or the error as it is.
pub open spec fn in_dialect(
    r: Result<CommandView, ParseErrorView>,
    protocol: ProtocolType,
) -> Result<CommandContextView, ParseErrorView> {
    match r {
        Ok(command) => Ok(CommandContextView { command, protocol }),
        Err(e) => Err(e),
    }
}

/// Whether a trimmed line belongs to the meta dialect.
pub open spec fn is_meta_line(line: Seq<char>) -> bool {
    has_prefix(line, "mg "@) || line == "mn"@
}

/// The command that a line denotes: none if it is white space only, a
/// command of the meta dialect if it begins with `mg ` or is `mn`, one of
/// the text dialect otherwise.
pub open spec fn parse_text_spec(line: Seq<char>) -> Result<CommandContextView, ParseErrorView> {
    let t = trimmed(line);
    if t.len() == 0 {
        Err(ParseErrorView::NoCommand)
    } else if is_meta_line(t) {
        in_dialect(meta::parse_spec(t), ProtocolType::Meta)
    } else {
        in_dialect(text::parse_spec(t), ProtocolType::Text)
    }
}

/// Whether `byte` opens a packet of the binary dialect.
pub open spec fn is_binary_magic(byte: u8) -> bool {
    byte == binary::MAGIC_REQUEST || byte == binary::MAGIC_RESPONSE
}

/// The command that `data` denotes, in whatever dialect it is written.
pub open spec fn parse_any_spec(data: Seq<u8>) -> Result<CommandView, ParseErrorView> {
    if data.len() == 0 {
        malformed("empty data"@)
    } else if is_binary_magic(data[0]) {
        match binary::parse_binary_spec(data) {
            Ok((command, _, _)) => Ok(command),
            Err(e) => Err(e),
        }
    } else if !valid_utf8(data) {
        malformed("Invalid UTF-8 in text protocol"@)
    } else {
        match parse_text_spec(decode_utf8(data)) {
            Ok(context) => Ok(context.command),
            Err(e) => Err(e),
        }
    }
}

/// Parses a line of the text or the meta dialect.
pub fn parse_text(line: &str) -> (r: Result<CommandContext, ParseError>)
    ensures
        context_view(r) == parse_text_spec(line@),
{
    let chars = chars_of(line);
    let t = trim(&chars);
    if t.len() == 0 {
        return Err(ParseError::NoCommand);
    }
    if starts_with(&t, "mg ") || text::is_word(&t, "mn") {
        match meta::parse_chars(&t) {
            Ok(command) => Ok(CommandContext { protocol: ProtocolType::Meta, command }),
            Err(e) => Err(e),
        }
    } else {
        match text::parse_chars(&t) {
            Ok(command) => Ok(CommandContext { protocol: ProtocolType::Text, command }),
            Err(e) => Err(e),
        }
    }
}

/// Parses a request in any of the three dialects.
pub fn parse_any(data: &[u8]) -> (r: Result<Command, ParseError>)
    ensures
        parsed_view(r) == parse_any_spec(data@),
{
    if data.len() == 0 {
        return Err(text::other("empty data"));
    }
    if data[0] == binary::MAGIC_REQUEST || data[0] == binary::MAGIC_RESPONSE {
        return match binary::parse_binary(data) {
            Ok((command, _, _)) => Ok(command),
            Err(e) => Err(e),
        };
    }
    let line = match binary::utf8_string(vstd::slice::slice_to_vec(data)) {
        Some(line) => line,
        None => {
            return Err(text::other("Invalid UTF-8 in text protocol"));
        },
    };
    match parse_text(line.as_str()) {
        Ok(context) => Ok(context.command),
        Err(e) => Err(e),
    }
}

/// What was found at the front of a connection's buffer.
#[derive(Debug, PartialEq)]
pub enum Received {
    /// A command, and how many bytes it took.
    Command(CommandContext, usize),
    /// A malformed request, the dialect it was written in, and how many
    /// bytes to drop.
    Failed(ParseError, ProtocolType, usize),
    /// A request that has not arrived whole yet: more bytes are needed.
    Incomplete,
}

pub enum ReceivedView {
    Command(CommandContextView, nat),
    Failed(ParseErrorView, ProtocolType, nat),
    Incomplete,
}

impl View for Received {
    type V = ReceivedView;

    open spec fn view(&self) -> ReceivedView {
        match self {
            Received::Command(context, used) => ReceivedView::Command(context@, *used as nat),
            Received::Failed(e, protocol, used) => ReceivedView::Failed(
                e@,
                *protocol,
                *used as nat,
            ),
            Received::Incomplete => ReceivedView::Incomplete,
        }
    }
}

/// The length of the first line of `data` from `i` on, its line feed
/// included; the length of what is left where there is no line feed.
pub open spec fn line_len(data: Seq<u8>, i: int) -> nat
    decreases data.len() - i,
{
    if 0 <= i < data.len() {
        if data[i] == 10 {
            1
        } else {
            1 + line_len(data, i + 1)
        }
    } else {
        0
    }
}

/// Whether `data` holds a line feed at or after `i`.
pub open spec fn has_line_feed(data: Seq<u8>, i: int) -> bool
    decreases data.len() - i,
{
    if 0 <= i < data.len() {
        data[i] == 10 || has_line_feed(data, i + 1)
    } else {
        false
    }
}

/// The dialect that a line is written in: meta if, trimmed, it begins
/// with `mg ` or is `mn`; text otherwise.
pub open spec fn line_protocol(line: Seq<char>) -> ProtocolType {
    if is_meta_line(trimmed(line)) {
        ProtocolType::Meta
    } else {
        ProtocolType::Text
    }
}

/// The length that the packet at the front of `data` says it has: that
/// of a header until the header has arrived, and then the header and the
/// body whose length it gives.
pub open spec fn packet_len(data: Seq<u8>) -> nat {
    if data.len() < 24 {
        24
    } else {
        24 + binary::header_at(data).total_body_length as nat
    }
}

/// The opaque number of the packet at the front of `data`; zero until the
/// header has arrived.
pub open spec fn packet_opaque(data: Seq<u8>) -> u32 {
    if data.len() < 24 {
        0
    } else {
        binary::header_at(data).opaque
    }
}

/// What stands at the front of a connection's buffer. Nothing at all is no
/// command. A first byte with the binary magic makes the buffer a binary
/// packet: it is waited for until it has arrived whole or the stream has
/// ended, and then taken whole, or as far as it came, whether it parses
/// or not. Anything else is a line, taken whole, and waited for until its
/// line feed arrives or the stream has ended.
pub open spec fn recv_command_spec(data: Seq<u8>, at_end: bool) -> ReceivedView {
    if data.len() == 0 {
        ReceivedView::Failed(ParseErrorView::NoCommand, ProtocolType::Text, 0)
    } else if is_binary_magic(data[0]) {
        match binary::parse_binary_spec(data) {
            Ok((command, opaque, used)) => ReceivedView::Command(
                CommandContextView { command, protocol: ProtocolType::Binary { opaque } },
                used,
            ),
            Err(e) => if data.len() < packet_len(data) && !at_end {
                ReceivedView::Incomplete
            } else {
                ReceivedView::Failed(
                    e,
                    ProtocolType::Binary { opaque: packet_opaque(data) },
                    if data.len() < packet_len(data) {
                        data.len()
                    } else {
                        packet_len(data)
                    },
                )
            },
        }
    } else if !has_line_feed(data, 0) && !at_end {
        ReceivedView::Incomplete
    } else {
        let used = line_len(data, 0);
        let line = data.take(used as int);
        if !valid_utf8(line) {
            ReceivedView::Failed(
                ParseErrorView::Other("stream did not contain valid UTF-8"@),
                ProtocolType::Text,
                used,
            )
        } else {
            match parse_text_spec(decode_utf8(line)) {
                Ok(context) => ReceivedView::Command(context, used),
                Err(e) => ReceivedView::Failed(e, line_protocol(decode_utf8(line)), used),
            }
        }
    }
}

/// Tells the dialect that a line is written in.
pub fn protocol_of_line(line: &str) -> (protocol: ProtocolType)
    ensures
        protocol == line_protocol(line@),
{
    let chars = chars_of(line);
    let t = trim(&chars);
    if starts_with(&t, "mg ") || text::is_word(&t, "mn") {
        ProtocolType::Meta
    } else {
        ProtocolType::Text
    }
}

/// Takes the next request from the bytes that a connection has buffered.
/// `at_end` says that no more bytes will arrive.
pub fn recv_command(data: &[u8], at_end: bool) -> (r: Received)
    ensures
        r@ == recv_command_spec(data@, at_end),
{
    if data.len() == 0 {
        return Received::Failed(ParseError::NoCommand, ProtocolType::Text, 0);
    }
    if data[0] == binary::MAGIC_REQUEST || data[0] == binary::MAGIC_RESPONSE {
        return match binary::parse_binary(data) {
            Ok((command, opaque, used)) => Received::Command(
                CommandContext { command, protocol: ProtocolType::Binary { opaque } },
                used,
            ),
            Err(e) => {
                let (length, opaque): (u64, u32) = match binary::BinaryHeader::read_from(data) {
                    Ok(header) => (24 + header.total_body_length as u64, header.opaque),
                    Err(_) => (24, 0),
                };
                if (data.len() as u64) < length {
                    if at_end {
                        Received::Failed(e, ProtocolType::Binary { opaque }, data.len())
                    } else {
                        Received::Incomplete
                    }
                } else {
                    Received::Failed(e, ProtocolType::Binary { opaque }, length as usize)
                }
            },
        };
    }
    let mut used: usize = 0;
    let mut found = false;
    while used < data.len() && !found
        invariant
            used <= data.len(),
            line_len(data@, 0) == used + (if found {
                0
            } else {
                line_len(data@, used as int)
            }),
            has_line_feed(data@, 0) == (found || has_line_feed(data@, used as int)),
        decreases data.len() - used + (if found { 0int } else { 1int }),
    {
        if data[used] == 10 {
            found = true;
        }
        used += 1;
    }
    if !found && !at_end {
        return Received::Incomplete;
    }
    let line_bytes = vstd::slice::slice_to_vec(vstd::slice::slice_subrange(data, 0, used));
    assert(line_bytes@ == data@.take(used as int));
    let line = match binary::utf8_string(line_bytes) {
        Some(line) => line,
        None => {
            return Received::Failed(
                text::other("stream did not contain valid UTF-8"),
                ProtocolType::Text,
                used,
            );
        },
    };
    match parse_text(line.as_str()) {
        Ok(context) => Received::Command(context, used),
        Err(e) => Received::Failed(e, protocol_of_line(line.as_str()), used),
    }
}

proof fn lemma_line_len_bound(data: Seq<u8>, i: int)
    requires
        0 <= i <= data.len(),
    ensures
        line_len(data, i) <= data.len() - i,
        i < data.len() ==> line_len(data, i) >= 1,
    decreases data.len() - i,
{
    if i < data.len() && data[i] != 10 {
        lemma_line_len_bound(data, i + 1);
    }
}

/// A connection always gets on: of a buffer that holds anything, either
/// some bytes are taken, and no more than it holds, or more bytes are
/// waited for, and that only while more can arrive.
pub proof fn lemma_recv_takes_bytes(data: Seq<u8>, at_end: bool)
    requires
        data.len() > 0,
    ensures
        match recv_command_spec(data, at_end) {
            ReceivedView::Command(_, used) => 0 < used <= data.len(),
            ReceivedView::Failed(_, _, used) => 0 < used <= data.len(),
            ReceivedView::Incomplete => !at_end,
        },
{
    lemma_line_len_bound(data, 0);
}

} // verus!
