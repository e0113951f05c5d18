//! The server: where it listens, and what a connection does with what it
//! received.

use crate::monitor::MonitorTasks;
use crate::protocol::binary::{
    binary_response, header_at, header_bytes, lemma_header_round_trip, response_header,
    stat_packet, stat_packets, value_packet, value_packets, BinaryHeader, MAGIC_RESPONSE,
};
use crate::protocol::{
    lemma_recv_takes_bytes, recv_command, recv_command_spec, serialized, CommandContext,
    CommandContextView, ItemView, ParseError, ParseErrorView, ProtocolType, Received,
    ReceivedView, Response, ResponseView,
};
use vstd::prelude::*;
use vstd::string::*;

verus! {

/// Where the server listens.
#[derive(Debug, Clone, PartialEq, Eq)]
pub enum SocketType {
    /// A TCP address, such as `127.0.0.1:11212`.
    Tcp(String),
    /// The path of a Unix socket.
    Unix(String),
}

/// The address that a server listens on where none is given.
pub const DEFAULT_BIND: &'static str = "127.0.0.1:11212";

pub struct Server {
    pub socket_config: SocketType,
    pub monitor_tasks: Option<MonitorTasks>,
}

impl Server {
    /// A server that listens on the TCP address `listen_address`.
    pub fn bind(listen_address: &str) -> (s: Self)
        ensures
            s.socket_config matches SocketType::Tcp(a) && a@ == listen_address@,
            s.monitor_tasks is None,
    {
        Self { socket_config: SocketType::Tcp(listen_address.to_owned()), monitor_tasks: None }
    }

    /// A server that listens on the Unix socket at `socket_path`.
    pub fn bind_unix(socket_path: &str) -> (s: Self)
        ensures
            s.socket_config matches SocketType::Unix(p) && p@ == socket_path@,
            s.monitor_tasks is None,
    {
        Self { socket_config: SocketType::Unix(socket_path.to_owned()), monitor_tasks: None }
    }

    /// Gives the server the engine to tick.
    pub fn with_monitor_tasks(&mut self, monitor_tasks: MonitorTasks)
        ensures
            final(self).socket_config == old(self).socket_config,
            final(self).monitor_tasks == Some(monitor_tasks),
    {
        self.monitor_tasks = Some(monitor_tasks);
    }
}

impl Clone for Server {
    /// A server that listens at the same place, with a handle to the same
    /// engine.
    fn clone(&self) -> (s: Self)
        ensures
            s.socket_config == self.socket_config,
            s.monitor_tasks is Some == self.monitor_tasks is Some,
            s.monitor_tasks matches Some(m) ==> m.limit() == self.monitor_tasks->0.limit(),
    {
        Self {
            socket_config: match &self.socket_config {
                SocketType::Tcp(address) => SocketType::Tcp(address.clone()),
                SocketType::Unix(path) => SocketType::Unix(path.clone()),
            },
            monitor_tasks: match &self.monitor_tasks {
                Some(tasks) => Some(tasks.clone()),
                None => None,
            },
        }
    }
}

/// What a connection does next.
#[derive(Debug, PartialEq, Eq)]
pub enum ConnectionAction {
    /// Nothing: go on reading.
    Continue,
    /// Write these bytes, then go on reading.
    Send(Vec<u8>),
    /// End the connection.
    Close,
}

pub enum ConnectionActionView {
    Continue,
    Send(Seq<u8>),
    Close,
}

impl View for ConnectionAction {
    type V = ConnectionActionView;

    open spec fn view(&self) -> ConnectionActionView {
        match self {
            ConnectionAction::Continue => ConnectionActionView::Continue,
            ConnectionAction::Send(bytes) => ConnectionActionView::Send(bytes@),
            ConnectionAction::Close => ConnectionActionView::Close,
        }
    }
}

/// Whether `response` is the one that ends a connection.
pub open spec fn ends_connection(response: ResponseView) -> bool {
    response == ResponseView::Error("Connection should close"@)
}

/// What a connection does with the response to a command that arrived in
/// the dialect `protocol`: it ends on the response that says so, and else
/// sends the response in that same dialect.
pub fn on_response(protocol: &ProtocolType, response: &Response) -> (action: ConnectionAction)
    ensures
        action@ == if ends_connection(response@) {
            ConnectionActionView::Close
        } else {
            ConnectionActionView::Send(serialized(response@, *protocol))
        },
{
    let quit = match response {
        Response::Error(msg) => crate::captures::str_equal(msg.as_str(), "Connection should close"),
        _ => false,
    };
    if quit {
        ConnectionAction::Close
    } else {
        ConnectionAction::Send(response.serialize(protocol))
    }
}

/// What a connection does when the service failed for a command that
/// arrived in the dialect `protocol`: it sends the failure as an error, in
/// that same dialect.
pub fn on_service_error(protocol: &ProtocolType, message: &str) -> (action: ConnectionAction)
    ensures
        action@ == ConnectionActionView::Send(
            serialized(ResponseView::Error(message@), *protocol),
        ),
{
    ConnectionAction::Send(Response::Error(message.to_owned()).serialize(protocol))
}

/// What a connection does when the service took too long over a command
/// that arrived in the dialect `protocol`: it sends a server error that
/// says so, in that same dialect.
pub fn on_timeout(protocol: &ProtocolType) -> (action: ConnectionAction)
    ensures
        action@ == ConnectionActionView::Send(
            serialized(ResponseView::ServerError("timeout"@), *protocol),
        ),
{
    ConnectionAction::Send(Response::ServerError(String::from_str("timeout")).serialize(protocol))
}

/// What a connection does with a request that did not parse: nothing where
/// there was no command at all; else it sends a parse error, in the
/// dialect that the request was written in, and goes on.
pub open spec fn after_parse_error(
    error: ParseErrorView,
    protocol: ProtocolType,
) -> ConnectionActionView {
    match error {
        ParseErrorView::NoCommand => ConnectionActionView::Continue,
        ParseErrorView::Other(_) => ConnectionActionView::Send(
            serialized(ResponseView::Error("Parse error"@), protocol),
        ),
    }
}

/// Decides what a connection does with a request that did not parse.
pub fn on_parse_error(error: &ParseError, protocol: &ProtocolType) -> (action: ConnectionAction)
    ensures
        action@ == after_parse_error(error@, *protocol),
{
    match error {
        ParseError::NoCommand => ConnectionAction::Continue,
        ParseError::Other(_) => ConnectionAction::Send(
            Response::Error(String::from_str("Parse error")).serialize(protocol),
        ),
    }
}

/// What a connection does next with the bytes it has buffered.
#[derive(Debug, PartialEq)]
pub enum ConnectionStep {
    /// Drop this many bytes from the front of the buffer and hand the
    /// command to the service.
    Handle(CommandContext, usize),
    /// Drop this many bytes from the front of the buffer and do this.
    Answer(ConnectionAction, usize),
    /// Read more bytes.
    Read,
    /// End the connection.
    Close,
}

pub enum ConnectionStepView {
    Handle(CommandContextView, nat),
    Answer(ConnectionActionView, nat),
    Read,
    Close,
}

impl View for ConnectionStep {
    type V = ConnectionStepView;

    open spec fn view(&self) -> ConnectionStepView {
        match self {
            ConnectionStep::Handle(context, used) => ConnectionStepView::Handle(
                context@,
                *used as nat,
            ),
            ConnectionStep::Answer(action, used) => ConnectionStepView::Answer(
                action@,
                *used as nat,
            ),
            ConnectionStep::Read => ConnectionStepView::Read,
            ConnectionStep::Close => ConnectionStepView::Close,
        }
    }
}

/// What a connection does next. With nothing buffered it reads on, or
/// ends where the stream has ended. A command at the front of the buffer
/// is handled, a request that did not parse is answered as such, and a
/// request that has not arrived whole is read on for.
pub open spec fn step_spec(data: Seq<u8>, at_end: bool) -> ConnectionStepView {
    if data.len() == 0 {
        if at_end {
            ConnectionStepView::Close
        } else {
            ConnectionStepView::Read
        }
    } else {
        match recv_command_spec(data, at_end) {
            ReceivedView::Command(context, used) => ConnectionStepView::Handle(context, used),
            ReceivedView::Failed(error, protocol, used) => ConnectionStepView::Answer(
                after_parse_error(error, protocol),
                used,
            ),
            ReceivedView::Incomplete => ConnectionStepView::Read,
        }
    }
}

/// Decides what a connection does next with the bytes it has buffered.
/// `at_end` says that no more bytes will arrive.
pub fn connection_step(data: &[u8], at_end: bool) -> (step: ConnectionStep)
    ensures
        step@ == step_spec(data@, at_end),
{
    if data.len() == 0 {
        return if at_end {
            ConnectionStep::Close
        } else {
            ConnectionStep::Read
        };
    }
    match recv_command(data, at_end) {
        Received::Command(context, used) => ConnectionStep::Handle(context, used),
        Received::Failed(error, protocol, used) => ConnectionStep::Answer(
            on_parse_error(&error, &protocol),
            used,
        ),
        Received::Incomplete => ConnectionStep::Read,
    }
}

/// A connection comes to its end: each step that is no reading takes
/// bytes from the buffer, and no more than it holds, or ends the
/// connection; and once the stream has ended no step reads.
pub proof fn lemma_connection_gets_on(data: Seq<u8>, at_end: bool)
    ensures
        match step_spec(data, at_end) {
            ConnectionStepView::Handle(_, used) => 0 < used <= data.len(),
            ConnectionStepView::Answer(_, used) => 0 < used <= data.len(),
            ConnectionStepView::Read => !at_end,
            ConnectionStepView::Close => at_end && data.len() == 0,
        },
{
    if data.len() > 0 {
        lemma_recv_takes_bytes(data, at_end);
    }
}

/// Whether `bytes` begin with the header of a response packet that
/// repeats `opaque`.
pub open spec fn answers_binary(bytes: Seq<u8>, opaque: u32) -> bool {
    &&& bytes.len() >= 24
    &&& header_at(bytes).magic == MAGIC_RESPONSE
    &&& header_at(bytes).opaque == opaque
}

proof fn lemma_packet_answers(h: BinaryHeader, rest: Seq<u8>, opaque: u32)
    requires
        h.magic == MAGIC_RESPONSE,
        h.opaque == opaque,
    ensures
        answers_binary(header_bytes(h) + rest, opaque),
{
    lemma_header_round_trip(h, rest);
    crate::protocol::binary::lemma_header_bytes_len(h);
}

proof fn lemma_value_packet_answers(item: ItemView, opaque: u32, rest: Seq<u8>)
    requires
        value_packet(item, opaque) is Some,
    ensures
        answers_binary(value_packet(item, opaque)->0 + rest, opaque),
{
    let h = response_header(
        crate::protocol::binary::OPCODE_GET,
        0,
        4,
        crate::protocol::binary::STATUS_SUCCESS,
        (item.data.len() + 4) as u32,
        opaque,
        match item.cas {
            Some(cas) => cas,
            None => 0,
        },
    );
    let body = crate::protocol::binary::be_bytes(item.flags as nat, 4) + item.data;
    assert(value_packet(item, opaque)->0 + rest == header_bytes(h) + (body + rest));
    lemma_packet_answers(h, body + rest, opaque);
}

proof fn lemma_value_packets_answer(items: Seq<ItemView>, opaque: u32, rest: Seq<u8>)
    requires
        items.len() > 0,
        value_packets(items, opaque) is Some,
    ensures
        answers_binary(value_packets(items, opaque)->0 + rest, opaque),
    decreases items.len(),
{
    let front = value_packets(items.drop_last(), opaque)->0;
    let last = value_packet(items.last(), opaque)->0;
    assert(value_packets(items, opaque)->0 + rest == front + (last + rest));
    if items.len() == 1 {
        assert(front == Seq::<u8>::empty());
        assert(front + (last + rest) == last + rest);
        lemma_value_packet_answers(items.last(), opaque, rest);
    } else {
        lemma_value_packets_answer(items.drop_last(), opaque, last + rest);
    }
}

proof fn lemma_stat_packet_answers(name: Seq<char>, value: Seq<char>, opaque: u32, rest: Seq<u8>)
    requires
        stat_packet(name, value, opaque) is Some,
    ensures
        answers_binary(stat_packet(name, value, opaque)->0 + rest, opaque),
{
    let key = vstd::utf8::encode_utf8(name);
    let body = vstd::utf8::encode_utf8(value);
    let h = response_header(
        crate::protocol::binary::OPCODE_STAT,
        key.len() as u16,
        0,
        crate::protocol::binary::STATUS_SUCCESS,
        (key.len() + body.len()) as u32,
        opaque,
        0,
    );
    assert(stat_packet(name, value, opaque)->0 + rest == header_bytes(h) + (key + body + rest));
    lemma_packet_answers(h, key + body + rest, opaque);
}

proof fn lemma_stat_packets_answer(
    stats: Seq<(Seq<char>, Seq<char>)>,
    opaque: u32,
    rest: Seq<u8>,
)
    requires
        stat_packets(stats, opaque) is Some,
        answers_binary(rest, opaque),
    ensures
        answers_binary(stat_packets(stats, opaque)->0 + rest, opaque),
    decreases stats.len(),
{
    if stats.len() == 0 {
        assert(stat_packets(stats, opaque)->0 + rest == rest);
    } else {
        let front = stat_packets(stats.drop_last(), opaque)->0;
        let last = stat_packet(stats.last().0, stats.last().1, opaque)->0;
        assert(stat_packets(stats, opaque)->0 + rest == front + (last + rest));
        lemma_stat_packet_answers(stats.last().0, stats.last().1, opaque, rest);
        lemma_stat_packets_answer(stats.drop_last(), opaque, last + rest);
    }
}

/// The answer keeps the dialect of the request. What is sent for a
/// binary request with an opaque number begins, unless it is empty, with a
/// response packet that repeats that number; what is sent for a request of
/// the text or the meta dialect is the response laid out in lines.
pub proof fn lemma_dialect_kept(response: ResponseView, protocol: ProtocolType)
    ensures
        match protocol {
            ProtocolType::Binary { opaque } => serialized(response, protocol).len() == 0
                || answers_binary(serialized(response, protocol), opaque),
            _ => serialized(response, protocol) == crate::protocol::wire(
                crate::protocol::layout(response),
            ),
        },
{
    match protocol {
        ProtocolType::Binary { opaque } => {
            let empty = Seq::<u8>::empty();
            match binary_response(response, opaque) {
                Ok(bytes) => {
                    assert(bytes + empty == bytes);
                    match response {
                        ResponseView::Value(item) => {
                            lemma_value_packet_answers(item, opaque, empty);
                        },
                        ResponseView::Values(items) => {
                            if items.len() > 0 {
                                lemma_value_packets_answer(items, opaque, empty);
                            } else {
                                assert(bytes.len() == 0);
                            }
                        },
                        ResponseView::Stats(stats) => {
                            let h = response_header(
                                crate::protocol::binary::OPCODE_STAT,
                                0,
                                0,
                                crate::protocol::binary::STATUS_SUCCESS,
                                0,
                                opaque,
                                0,
                            );
                            assert(header_bytes(h) + empty == header_bytes(h));
                            lemma_packet_answers(h, empty, opaque);
                            lemma_stat_packets_answer(stats, opaque, header_bytes(h));
                        },
                        ResponseView::Version(version) => {
                            let body = vstd::utf8::encode_utf8(version);
                            let h = response_header(
                                crate::protocol::binary::OPCODE_VERSION,
                                0,
                                0,
                                crate::protocol::binary::STATUS_SUCCESS,
                                body.len() as u32,
                                opaque,
                                0,
                            );
                            lemma_packet_answers(h, body, opaque);
                        },
                        _ => {
                            let h = header_at(bytes);
                            assert(exists|opcode: u8, status: u16|
                                bytes == header_bytes(
                                    response_header(opcode, 0, 0, status, 0, opaque, 0),
                                )) by {
                                lemma_status_only(response, opaque);
                            }
                            let (opcode, status) = choose|opcode: u8, status: u16|
                                bytes == header_bytes(
                                    response_header(opcode, 0, 0, status, 0, opaque, 0),
                                );
                            let hh = response_header(opcode, 0, 0, status, 0, opaque, 0);
                            assert(header_bytes(hh) + empty == header_bytes(hh));
                            lemma_packet_answers(hh, empty, opaque);
                        },
                    }
                },
                Err(_) => {
                    let h = response_header(
                        crate::protocol::binary::OPCODE_NOOP,
                        0,
                        0,
                        crate::protocol::binary::STATUS_UNKNOWN_COMMAND,
                        0,
                        opaque,
                        0,
                    );
                    assert(header_bytes(h) + empty == header_bytes(h));
                    lemma_packet_answers(h, empty, opaque);
                },
            }
        },
        _ => {},
    }
}

proof fn lemma_status_only(response: ResponseView, opaque: u32)
    requires
        binary_response(response, opaque) is Ok,
        !(response is Value),
        !(response is Values),
        !(response is Stats),
        !(response is Version),
    ensures
        exists|opcode: u8, status: u16|
            binary_response(response, opaque)->Ok_0 == header_bytes(
                response_header(opcode, 0, 0, status, 0, opaque, 0),
            ),
{
    let bytes = binary_response(response, opaque)->Ok_0;
    match response {
        ResponseView::End => {
            assert(bytes == header_bytes(
                response_header(
                    crate::protocol::binary::OPCODE_GET,
                    0,
                    0,
                    crate::protocol::binary::STATUS_SUCCESS,
                    0,
                    opaque,
                    0,
                ),
            ));
        },
        ResponseView::NotFound => {
            assert(bytes == header_bytes(
                response_header(
                    crate::protocol::binary::OPCODE_GET,
                    0,
                    0,
                    crate::protocol::binary::STATUS_KEY_NOT_FOUND,
                    0,
                    opaque,
                    0,
                ),
            ));
        },
        ResponseView::Error(_) => {
            assert(bytes == header_bytes(
                response_header(
                    crate::protocol::binary::OPCODE_NOOP,
                    0,
                    0,
                    crate::protocol::binary::STATUS_UNKNOWN_COMMAND,
                    0,
                    opaque,
                    0,
                ),
            ));
        },
        ResponseView::ClientError(_) => {
            assert(bytes == header_bytes(
                response_header(
                    crate::protocol::binary::OPCODE_NOOP,
                    0,
                    0,
                    crate::protocol::binary::STATUS_INVALID_ARGUMENTS,
                    0,
                    opaque,
                    0,
                ),
            ));
        },
        ResponseView::ServerError(_) => {
            assert(bytes == header_bytes(
                response_header(
                    crate::protocol::binary::OPCODE_NOOP,
                    0,
                    0,
                    crate::protocol::binary::STATUS_OUT_OF_MEMORY,
                    0,
                    opaque,
                    0,
                ),
            ));
        },
        ResponseView::Stored => {
            assert(bytes == header_bytes(
                response_header(
                    crate::protocol::binary::OPCODE_SET,
                    0,
                    0,
                    crate::protocol::binary::STATUS_SUCCESS,
                    0,
                    opaque,
                    0,
                ),
            ));
        },
        ResponseView::NotStored => {
            assert(bytes == header_bytes(
                response_header(
                    crate::protocol::binary::OPCODE_SET,
                    0,
                    0,
                    crate::protocol::binary::STATUS_ITEM_NOT_STORED,
                    0,
                    opaque,
                    0,
                ),
            ));
        },
        ResponseView::Exists => {
            assert(bytes == header_bytes(
                response_header(
                    crate::protocol::binary::OPCODE_SET,
                    0,
                    0,
                    crate::protocol::binary::STATUS_KEY_EXISTS,
                    0,
                    opaque,
                    0,
                ),
            ));
        },
        ResponseView::Deleted => {
            assert(bytes == header_bytes(
                response_header(
                    crate::protocol::binary::OPCODE_DELETE,
                    0,
                    0,
                    crate::protocol::binary::STATUS_SUCCESS,
                    0,
                    opaque,
                    0,
                ),
            ));
        },
        ResponseView::Touched => {
            assert(bytes == header_bytes(
                response_header(
                    crate::protocol::binary::OPCODE_NOOP,
                    0,
                    0,
                    crate::protocol::binary::STATUS_SUCCESS,
                    0,
                    opaque,
                    0,
                ),
            ));
        },
        _ => {},
    }
}

} // verus!
