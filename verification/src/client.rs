//! Client configuration, and the decisions that the client's connection loop
//! takes on each event.
use vstd::prelude::*;
use vstd::string::StringExecFns;
use vstd::utf8::encode_utf8;
use tokio::sync::mpsc::error::SendError;
use tokio::sync::mpsc::UnboundedReceiver;
use tokio::sync::mpsc::UnboundedSender;
use tokio::sync::oneshot;
use crate::channel::clone_sender;
use crate::channel::oneshot_channel;
use crate::channel::respond;
use crate::channel::send;
use crate::channel::unbounded_channel;
use crate::packet::connect_packet_with_credentials;
use crate::packet::craft_connect_packet_with_credentials;
use crate::packet::craft_pingreq_packet;
use crate::packet::fits_length_prefix;
use crate::packet::optional_utf8;
use crate::packet::craft_publish_packet_to;
use crate::packet::craft_subscribe_packet;
use crate::packet::MAX_STRING_LEN;
use crate::packet::MAX_REMAINING_LENGTH;
use crate::packet::PINGREQ_FIXED_HEADER;
use crate::packet::publish_fits;
use crate::packet::publish_packet_to;
use crate::packet::subscribe_packet;
use crate::packet::lemma_publish_read_by_qos_bits;
use crate::packet::remaining_length_bytes;
use vstd::utf8::decode_utf8;
use vstd::utf8::valid_utf8;
use crate::packet::connack_readable;
use crate::packet::incoming_packet;
use crate::packet::incoming_readable;
use crate::packet::packet_type;
use crate::packet::parse_connack_packet;
use crate::packet::parse_incoming_packet;
use crate::packet::parse_publish_packet;
use crate::packet::published_message;
use crate::packet::ConnackPacket;
use crate::packet::IncomingPacket;
use crate::error::io_error;
use crate::error::new_io_error;
use crate::error::IoErrorKind;
use crate::error::MqttError;

verus! {

// ---------------------------------------------------------------------------
// Options
// ---------------------------------------------------------------------------

/// Marks options whose broker host is not set yet.
#[derive(Default, Clone)]
pub struct MissingBroker;

/// The broker host of complete options.
#[derive(Default, Clone)]
pub struct Broker(String);

impl View for Broker {
    type V = Seq<char>;

    closed spec fn view(&self) -> Seq<char> {
        self.0@
    }
}

/// Marks options whose broker port is not set yet.
#[derive(Default, Clone)]
pub struct MissingPort;

/// The broker port of complete options.
#[derive(Default, Clone)]
pub struct Port(u16);

impl View for Port {
    type V = u16;

    closed spec fn view(&self) -> u16 {
        self.0
    }
}

/// The settings that a client is built from. The broker host and port are
/// type states: a client can only be built once both are set. `C` is the type
/// of the handler that receives the payload of each incoming message.
#[derive(Default)]
pub struct ClientOptions<H, P, C> {
    broker_host: H,
    broker_port: P,
    username: Option<String>,
    password: Option<String>,
    keep_alive: Option<u16>,
    callback_handler: Option<C>,
}

/// What a `ClientOptions` holds.
pub struct ClientOptionsView<H, P, C> {
    pub broker_host: H,
    pub broker_port: P,
    pub username: Option<String>,
    pub password: Option<String>,
    pub keep_alive: Option<u16>,
    pub callback_handler: Option<C>,
}

impl<H, P, C> View for ClientOptions<H, P, C> {
    type V = ClientOptionsView<H, P, C>;

    closed spec fn view(&self) -> ClientOptionsView<H, P, C> {
        ClientOptionsView {
            broker_host: self.broker_host,
            broker_port: self.broker_port,
            username: self.username,
            password: self.password,
            keep_alive: self.keep_alive,
            callback_handler: self.callback_handler,
        }
    }
}

impl<C> ClientOptions<MissingBroker, MissingPort, C> {
    /// Options with nothing set.
    pub fn new() -> (options: Self)
        ensures
            options@.username is None,
            options@.password is None,
            options@.keep_alive is None,
            options@.callback_handler is None,
    {
        ClientOptions {
            broker_host: MissingBroker,
            broker_port: MissingPort,
            username: None,
            password: None,
            keep_alive: None,
            callback_handler: None,
        }
    }
}

impl<B, P, C> ClientOptions<B, P, C> {
    /// Sets the broker host; everything else is kept.
    pub fn with_broker_host(self, broker_host: String) -> (options: ClientOptions<Broker, P, C>)
        ensures
            options@.broker_host@ == broker_host@,
            options@.broker_port == self@.broker_port,
            options@.username == self@.username,
            options@.password == self@.password,
            options@.keep_alive == self@.keep_alive,
            options@.callback_handler == self@.callback_handler,
    {
        ClientOptions {
            broker_host: Broker(broker_host),
            broker_port: self.broker_port,
            username: self.username,
            password: self.password,
            keep_alive: self.keep_alive,
            callback_handler: self.callback_handler,
        }
    }

    /// Sets the broker port; everything else is kept.
    pub fn with_broker_port(self, broker_port: u16) -> (options: ClientOptions<B, Port, C>)
        ensures
            options@.broker_host == self@.broker_host,
            options@.broker_port@ == broker_port,
            options@.username == self@.username,
            options@.password == self@.password,
            options@.keep_alive == self@.keep_alive,
            options@.callback_handler == self@.callback_handler,
    {
        ClientOptions {
            broker_host: self.broker_host,
            broker_port: Port(broker_port),
            username: self.username,
            password: self.password,
            keep_alive: self.keep_alive,
            callback_handler: self.callback_handler,
        }
    }

    /// Sets the username and the password; everything else is kept.
    pub fn with_credentials(self, username: String, password: String) -> (options: ClientOptions<
        B,
        P,
        C,
    >)
        ensures
            options@ == (ClientOptionsView {
                username: Some(username),
                password: Some(password),
                ..self@
            }),
    {
        let mut options = self;
        options.username = Some(username);
        options.password = Some(password);
        options
    }

    /// Sets the keep alive, in seconds; everything else is kept.
    pub fn with_keep_alive(self, keep_alive: u16) -> (options: ClientOptions<B, P, C>)
        ensures
            options@ == (ClientOptionsView { keep_alive: Some(keep_alive), ..self@ }),
    {
        let mut options = self;
        options.keep_alive = Some(keep_alive);
        options
    }

    /// Sets the handler of incoming messages; everything else is kept.
    pub fn with_callback_handler(self, callback_handler: C) -> (options: ClientOptions<B, P, C>)
        ensures
            options@ == (ClientOptionsView { callback_handler: Some(callback_handler), ..self@ }),
    {
        let mut options = self;
        options.callback_handler = Some(callback_handler);
        options
    }
}


// ---------------------------------------------------------------------------
// Broker address
// ---------------------------------------------------------------------------

/// The character of a decimal digit.
pub open spec fn digit_char(d: nat) -> char {
    if d == 0 {
        '0'
    } else if d == 1 {
        '1'
    } else if d == 2 {
        '2'
    } else if d == 3 {
        '3'
    } else if d == 4 {
        '4'
    } else if d == 5 {
        '5'
    } else if d == 6 {
        '6'
    } else if d == 7 {
        '7'
    } else if d == 8 {
        '8'
    } else {
        '9'
    }
}

/// The decimal notation of `n`, without leading zeros.
pub open spec fn decimal(n: nat) -> Seq<char>
    decreases n,
{
    if n < 10 {
        seq![digit_char(n)]
    } else {
        decimal(n / 10) + seq![digit_char(n % 10)]
    }
}

fn digit_str(d: u16) -> (text: &'static str)
    requires
        d < 10,
    ensures
        text@ == seq![digit_char(d as nat)],
{
    match d {
        0 => {
            proof {
                reveal_strlit("0");
            }
            "0"
        },
        1 => {
            proof {
                reveal_strlit("1");
            }
            "1"
        },
        2 => {
            proof {
                reveal_strlit("2");
            }
            "2"
        },
        3 => {
            proof {
                reveal_strlit("3");
            }
            "3"
        },
        4 => {
            proof {
                reveal_strlit("4");
            }
            "4"
        },
        5 => {
            proof {
                reveal_strlit("5");
            }
            "5"
        },
        6 => {
            proof {
                reveal_strlit("6");
            }
            "6"
        },
        7 => {
            proof {
                reveal_strlit("7");
            }
            "7"
        },
        8 => {
            proof {
                reveal_strlit("8");
            }
            "8"
        },
        _ => {
            proof {
                reveal_strlit("9");
            }
            "9"
        },
    }
}

/// Writes `n` in decimal.
fn decimal_string(n: u16) -> (text: String)
    ensures
        text@ == decimal(n as nat),
    decreases n,
{
    if n < 10 {
        String::from_str(digit_str(n))
    } else {
        decimal_string(n / 10).concat(digit_str(n % 10))
    }
}

/// The address that the client connects to: the host, a colon, and the port
/// in decimal.
pub open spec fn broker_address(host: Seq<char>, port: u16) -> Seq<char> {
    host + seq![':'] + decimal(port as nat)
}

fn format_broker_address(host: &Broker, port: &Port) -> (address: String)
    ensures
        address@ == broker_address(host@, port@),
{
    proof {
        reveal_strlit(":");
    }
    host.0.as_str().to_owned().concat(":").concat(decimal_string(port.0).as_str())
}


// ---------------------------------------------------------------------------
// Client
// ---------------------------------------------------------------------------

/// Keep alive, in seconds, when the options set none.
pub const DEFAULT_KEEP_ALIVE_SECS: u16 = 60;

/// An error that the client reports to its user.
#[derive(Debug, Clone, Copy, PartialEq, Eq, Structural)]
pub enum ClientError {
    InternalError,
}

/// Where the outcome of a publish request is sent back: whether its PUBLISH
/// packet could be queued for the connection.
pub type Responder<T> = oneshot::Sender<Result<T, SendError<Vec<u8>>>>;

/// A request, from the user to the connection loop, to publish a message.
pub struct PublishRequest {
    pub topic: String,
    pub payload: String,
    pub responder: Responder<()>,
}

/// A connection to a broker as the user sees it: where it goes, with which
/// settings, and the channels that feed the connection loop.
pub struct Client<C> {
    broker_address: String,
    keep_alive: u16,
    username: Option<String>,
    password: Option<String>,
    // Payloads -> PUBLISH
    publish_channel_sender: UnboundedSender<PublishRequest>,
    publish_channel_receiver: Option<UnboundedReceiver<PublishRequest>>,
    // TCP packets -> TCP stream
    raw_tcp_channel_sender: UnboundedSender<Vec<u8>>,
    raw_tcp_channel_receiver: Option<UnboundedReceiver<Vec<u8>>>,
    callback_handler: Option<C>,
}

/// What a `Client` holds, apart from the channels' senders.
pub struct ClientView<C> {
    pub broker_address: Seq<char>,
    pub keep_alive: u16,
    pub username: Option<String>,
    pub password: Option<String>,
    pub has_publish_receiver: bool,
    pub has_raw_tcp_receiver: bool,
    pub callback_handler: Option<C>,
}

impl<C> View for Client<C> {
    type V = ClientView<C>;

    closed spec fn view(&self) -> ClientView<C> {
        ClientView {
            broker_address: self.broker_address@,
            keep_alive: self.keep_alive,
            username: self.username,
            password: self.password,
            has_publish_receiver: self.publish_channel_receiver is Some,
            has_raw_tcp_receiver: self.raw_tcp_channel_receiver is Some,
            callback_handler: self.callback_handler,
        }
    }
}

/// The keep alive that the options set, or the default.
pub open spec fn keep_alive_or_default(keep_alive: Option<u16>) -> u16 {
    match keep_alive {
        Some(k) => k,
        None => DEFAULT_KEEP_ALIVE_SECS,
    }
}

impl<C: Copy> Client<C> {
    /// Builds the client that complete options describe, with fresh channels
    /// whose receivers it holds until the connection loop takes them.
    pub fn from_options(options: ClientOptions<Broker, Port, C>) -> (client: Client<C>)
        ensures
            client@ == (ClientView {
                broker_address: broker_address(options@.broker_host@, options@.broker_port@),
                keep_alive: keep_alive_or_default(options@.keep_alive),
                username: options@.username,
                password: options@.password,
                has_publish_receiver: true,
                has_raw_tcp_receiver: true,
                callback_handler: options@.callback_handler,
            }),
    {
        let broker_address = format_broker_address(&options.broker_host, &options.broker_port);
        let (publish_channel_sender, publish_channel_receiver) = unbounded_channel();
        let (raw_tcp_channel_sender, raw_tcp_channel_receiver) = unbounded_channel();
        let keep_alive: u16 = match options.keep_alive {
            Some(k) => k,
            None => DEFAULT_KEEP_ALIVE_SECS,
        };
        Client {
            broker_address,
            keep_alive,
            username: options.username,
            password: options.password,
            publish_channel_sender,
            publish_channel_receiver: Some(publish_channel_receiver),
            raw_tcp_channel_sender,
            raw_tcp_channel_receiver: Some(raw_tcp_channel_receiver),
            callback_handler: options.callback_handler,
        }
    }

    /// The address of the broker: host, colon, port.
    pub fn broker_address(&self) -> (address: &str)
        ensures
            address@ == self@.broker_address,
    {
        self.broker_address.as_str()
    }

    /// The keep alive, in seconds.
    pub fn keep_alive(&self) -> (keep_alive: u16)
        ensures
            keep_alive == self@.keep_alive,
    {
        self.keep_alive
    }

    /// The handler of incoming messages, if any.
    pub fn callback_handler(&self) -> (handler: Option<C>)
        ensures
            handler == self@.callback_handler,
    {
        self.callback_handler
    }

    /// The time between two PINGREQ packets, in milliseconds: half the keep
    /// alive.
    pub fn ping_interval_millis(&self) -> (millis: u64)
        ensures
            millis == self@.keep_alive as nat * 500,
    {
        self.keep_alive as u64 * 500
    }

    /// Takes the receiver of publish requests out of the client, for the
    /// connection loop; the client keeps none afterwards.
    pub fn take_publish_receiver(&mut self) -> (receiver: Option<UnboundedReceiver<PublishRequest>>)
        ensures
            receiver is Some <==> old(self)@.has_publish_receiver,
            final(self)@ == (ClientView { has_publish_receiver: false, ..old(self)@ }),
    {
        self.publish_channel_receiver.take()
    }

    /// Takes the receiver of raw packets out of the client, for the connection
    /// loop; the client keeps none afterwards.
    pub fn take_raw_tcp_receiver(&mut self) -> (receiver: Option<UnboundedReceiver<Vec<u8>>>)
        ensures
            receiver is Some <==> old(self)@.has_raw_tcp_receiver,
            final(self)@ == (ClientView { has_raw_tcp_receiver: false, ..old(self)@ }),
    {
        self.raw_tcp_channel_receiver.take()
    }

    /// The CONNECT packet that opens a session with the client's keep alive and
    /// credentials, or `None` when a credential is too long for a CONNECT
    /// packet.
    pub fn connect_packet(&self) -> (packet: Option<Vec<u8>>)
        ensures
            packet is Some <==> fits_length_prefix(self@.username) && fits_length_prefix(
                self@.password,
            ),
            packet matches Some(p) ==> p@ == connect_packet_with_credentials(
                optional_utf8(self@.username),
                optional_utf8(self@.password),
                self@.keep_alive,
            ),
    {
        let username_fits = match &self.username {
            Some(name) => name.as_str().as_bytes().len() <= MAX_STRING_LEN,
            None => true,
        };
        let password_fits = match &self.password {
            Some(secret) => secret.as_str().as_bytes().len() <= MAX_STRING_LEN,
            None => true,
        };
        if username_fits && password_fits {
            Some(
                craft_connect_packet_with_credentials(
                    self.username.clone(),
                    self.password.clone(),
                    self.keep_alive,
                ),
            )
        } else {
            None
        }
    }

    /// Queues a PINGREQ packet for the connection. Whether it is queued depends
    /// on whether the connection loop still listens; when it is not, the error
    /// hands the packet back.
    pub fn send_pingreq_packet(&self) -> (sent: Result<(), SendError<Vec<u8>>>)
        ensures
            sent matches Err(e) ==> e.0@ == seq![PINGREQ_FIXED_HEADER, 0u8],
    {
        let pingreq_packet = craft_pingreq_packet();
        send(&self.raw_tcp_channel_sender, pingreq_packet)
    }

    /// Queues a PUBLISH packet of `payload` to `topic` for the connection.
    /// Whether it is queued depends on whether the connection loop still
    /// listens; when it is not, the error hands the packet back.
    pub fn send_publish_packet(&self, topic: String, payload: String) -> (sent: Result<
        (),
        SendError<Vec<u8>>,
    >)
        requires
            publish_fits(encode_utf8(topic@), encode_utf8(payload@)),
        ensures
            sent matches Err(e) ==> e.0@ == publish_packet_to(
                encode_utf8(topic@),
                encode_utf8(payload@),
            ),
    {
        let publish_packet = craft_publish_packet_to(topic, payload);
        send(&self.raw_tcp_channel_sender, publish_packet)
    }

    /// Queues a SUBSCRIBE packet for `topic_filter` for the connection.
    /// Whether it is queued depends on whether the connection loop still
    /// listens; when it is not, the error hands the packet back.
    pub fn subscribe(&mut self, topic_filter: String) -> (sent: Result<(), SendError<Vec<u8>>>)
        requires
            encode_utf8(topic_filter@).len() <= MAX_STRING_LEN,
        ensures
            final(self)@ == old(self)@,
            sent matches Err(e) ==> e.0@ == subscribe_packet(encode_utf8(topic_filter@)),
    {
        let subscribe_packet = craft_subscribe_packet(topic_filter);
        send(&self.raw_tcp_channel_sender, subscribe_packet)
    }
}

impl PublishRequest {
    /// A request to publish `payload` to `topic`, answered through `responder`.
    pub fn new(topic: String, payload: String, responder: Responder<()>) -> (request: Self)
        ensures
            request.topic == topic,
            request.payload == payload,
            request.responder == responder,
    {
        PublishRequest { topic, payload, responder }
    }
}

impl<C: Copy> Client<C> {
    /// Asks the connection loop to publish `payload` to `topic`, and returns
    /// where its answer will come. Fails when the loop no longer listens; the
    /// request, with this topic and payload, is then handed back by the send
    /// and dropped.
    pub fn request_publish(&self, topic: String, payload: String) -> (answer: Result<
        oneshot::Receiver<Result<(), SendError<Vec<u8>>>>,
        ClientError,
    >)
        ensures
            answer matches Err(e) ==> e == ClientError::InternalError,
    {
        let (responder, answer) = oneshot_channel();
        let request = PublishRequest::new(topic, payload, responder);
        match send(&self.publish_channel_sender, request) {
            Ok(()) => Ok(answer),
            Err(_) => Err(ClientError::InternalError),
        }
    }

    /// Handles a publish request in the connection loop: queues its PUBLISH
    /// packet and tells the requester whether that worked. A topic or payload
    /// that no PUBLISH packet can carry is not queued and gets no answer, which
    /// the requester sees as a failure. Returns whether the packet was queued.
    pub fn handle_publish(&self, publish_req: PublishRequest) -> (queued: bool)
        ensures
            !publish_fits(encode_utf8(publish_req.topic@), encode_utf8(publish_req.payload@))
                ==> !queued,
            queued ==> publish_fits(
                encode_utf8(publish_req.topic@),
                encode_utf8(publish_req.payload@),
            ),
    {
        let topic_len: usize = publish_req.topic.as_str().as_bytes().len();
        let payload_len: usize = publish_req.payload.as_str().as_bytes().len();
        if topic_len > MAX_STRING_LEN || payload_len > MAX_REMAINING_LENGTH - 4 - topic_len {
            return false;
        }
        let result = self.send_publish_packet(publish_req.topic, publish_req.payload);
        answer_publish(publish_req.responder, result)
    }
}

/// Tells the requester of a publish whether its PUBLISH packet was queued, by
/// handing it the outcome of the send; returns whether it was.
pub fn answer_publish(responder: Responder<()>, sent: Result<(), SendError<Vec<u8>>>) -> (queued:
    bool)
    ensures
        queued == sent is Ok,
{
    let queued = sent.is_ok();
    let _ = respond(responder, sent);
    queued
}

/// The outcome of a publish request, from the answer of the connection loop:
/// success only when the answer came and says the packet was queued.
pub fn publish_outcome(
    answer: Result<Result<(), SendError<Vec<u8>>>, oneshot::error::RecvError>,
) -> (outcome: Result<(), ClientError>)
    ensures
        outcome is Ok <==> answer matches Ok(Ok(())),
        outcome matches Err(e) ==> e == ClientError::InternalError,
{
    match answer {
        Ok(Ok(())) => Ok(()),
        Ok(Err(_)) => Err(ClientError::InternalError),
        Err(_) => Err(ClientError::InternalError),
    }
}

// ---------------------------------------------------------------------------
// Incoming packets
// ---------------------------------------------------------------------------

/// What an attempt to read from the connection gave.
pub enum ReadOutcome {
    /// This many bytes were read into the buffer.
    Received(usize),
    /// Nothing was there to read yet.
    WouldBlock,
    /// The read failed.
    Failed(std::io::Error),
}

/// What the connection loop does with an incoming packet.
pub enum IncomingAction<C> {
    /// Nothing.
    Idle,
    /// Report the CONNACK.
    Connack(ConnackPacket),
    /// Hand the payload of a PUBLISH to the handler.
    Deliver(C, String),
    /// Nothing but note the packet type, which is not handled.
    Ignore(u8),
}

/// The error for a PUBLISH packet that cannot be read.
pub open spec fn malformed_publish_message() -> Seq<char> {
    "malformed PUBLISH packet"@
}

/// How `packet` is handled, with `handler` as the handler of incoming
/// messages: a CONNACK is reported; the payload of a readable PUBLISH goes to
/// the handler, if there is one; an unreadable PUBLISH is an invalid packet;
/// other types are ignored.
pub open spec fn processed<C>(
    packet: Seq<u8>,
    handler: Option<C>,
    result: Result<IncomingAction<C>, MqttError>,
) -> bool {
    let t = packet_type(packet[0]);
    if t == 2 {
        result matches Ok(IncomingAction::Connack(c)) && c.flags == packet[2]
            && c.return_code.code() == packet[3]
    } else if t == 3 {
        match published_message(packet) {
            Some((_, payload)) => match handler {
                Some(h) => result matches Ok(IncomingAction::Deliver(g, p)) && g == h && p@
                    == payload,
                None => result matches Ok(IncomingAction::Idle),
            },
            None => result matches Err(MqttError::InvalidPacket(m)) && m@
                == malformed_publish_message(),
        }
    } else {
        result matches Ok(IncomingAction::Ignore(u)) && u == t
    }
}

/// The packet can be handled: it is not empty, and a CONNACK's fields can be
/// read.
pub open spec fn processable(packet: Seq<u8>) -> bool {
    &&& packet.len() >= 1
    &&& packet_type(packet[0]) == 2 ==> connack_readable(packet)
}

/// The outcome of a read can be handled: no more bytes than the buffer holds
/// were read, and those read can be handled unless they fill the buffer.
pub open spec fn read_handleable(outcome: ReadOutcome, buffer: Seq<u8>) -> bool {
    outcome matches ReadOutcome::Received(n) ==> n <= buffer.len() && (0 < n < buffer.len()
        ==> processable(buffer.take(n as int)))
}

impl<C: Copy> Client<C> {
    /// Decides what to do with an incoming packet.
    pub fn process_packet(&self, packet: &[u8]) -> (result: Result<IncomingAction<C>, MqttError>)
        requires
            processable(packet@),
        ensures
            processed(packet@, self@.callback_handler, result),
    {
        let first_byte: u8 = packet[0];
        let packet_type: u8 = first_byte >> 4u8;
        assert(first_byte >> 4u8 == first_byte / 16) by (bit_vector);
        if packet_type == 2 {
            Ok(IncomingAction::Connack(parse_connack_packet(packet)))
        } else if packet_type == 3 {
            match parse_publish_packet(packet) {
                Some((_topic, payload)) => match self.callback_handler {
                    Some(handler) => Ok(IncomingAction::Deliver(handler, payload)),
                    None => Ok(IncomingAction::Idle),
                },
                None => Err(MqttError::InvalidPacket(String::from_str("malformed PUBLISH packet"))),
            }
        } else {
            Ok(IncomingAction::Ignore(packet_type))
        }
    }

    /// Decides what the outcome of a read from the connection into `buffer`
    /// means: no bytes means the broker closed the connection; a full buffer
    /// means the packet is too large; otherwise the bytes read are an incoming
    /// packet. Nothing to read yet is nothing to do, and a failed read is an
    /// I/O error.
    pub fn handle_incoming_packet(&self, outcome: ReadOutcome, buffer: &[u8]) -> (result: Result<
        IncomingAction<C>,
        MqttError,
    >)
        requires
            read_handleable(outcome, buffer@),
        ensures
            match outcome {
                ReadOutcome::Received(n) => if n == 0 {
                    result matches Err(MqttError::ConnectionClosed)
                } else if n >= buffer@.len() {
                    result matches Err(MqttError::PacketTooLarge)
                } else {
                    processed(buffer@.take(n as int), self@.callback_handler, result)
                },
                ReadOutcome::WouldBlock => result matches Ok(IncomingAction::Idle),
                ReadOutcome::Failed(e) => result matches Err(MqttError::IoError(f)) && f == e,
            },
    {
        match outcome {
            ReadOutcome::Received(n) => {
                if n == 0 {
                    Err(MqttError::ConnectionClosed)
                } else if n >= buffer.len() {
                    Err(MqttError::PacketTooLarge)
                } else {
                    let packet = &buffer[0..n];
                    assert(packet@ == buffer@.take(n as int));
                    self.process_packet(packet)
                }
            },
            ReadOutcome::WouldBlock => Ok(IncomingAction::Idle),
            ReadOutcome::Failed(e) => Err(MqttError::IoError(e)),
        }
    }
}

/// The error that ends a connection on an incoming packet that could not be
/// handled: a closed connection is reported as aborted, any other error as
/// its own conversion.
pub fn connection_error(error: MqttError) -> (e: std::io::Error)
    ensures
        error matches MqttError::ConnectionClosed ==> e == io_error(
            IoErrorKind::ConnectionAborted,
            "Broker closed connection"@,
        ),
        error matches MqttError::PacketTooLarge ==> e == io_error(
            IoErrorKind::InvalidData,
            "Packet too large"@,
        ),
        error matches MqttError::InvalidPacket(m) ==> e == io_error(IoErrorKind::InvalidData, m@),
        error matches MqttError::IoError(inner) ==> e == inner,
{
    match error {
        MqttError::ConnectionClosed => new_io_error(
            IoErrorKind::ConnectionAborted,
            String::from_str("Broker closed connection"),
        ),
        other => std::io::Error::from(other),
    }
}

/// What the session loop does after a read from the connection.
pub enum SessionRead {
    /// The broker closed the connection: stop.
    Closed,
    /// Nothing to read yet: go on.
    Idle,
    /// A packet came, read as far as this client reads packets.
    Packet(IncomingPacket),
    /// The read failed: stop.
    Failed(std::io::Error),
}

/// The bytes of a read can be read as a packet by `parse_incoming_packet`.
pub open spec fn session_read_handleable(outcome: ReadOutcome, buffer: Seq<u8>) -> bool {
    outcome matches ReadOutcome::Received(n) ==> n <= buffer.len() && (n > 0 ==> incoming_readable(
        buffer.take(n as int),
    ))
}

/// Decides what a read means in a single-session loop, one that reads and
/// reports packets without a handler of incoming messages: no bytes means the broker closed the connection; otherwise the bytes read are
/// parsed as an incoming packet.
pub fn session_read(outcome: ReadOutcome, buffer: &[u8]) -> (step: SessionRead)
    requires
        session_read_handleable(outcome, buffer@),
    ensures
        match outcome {
            ReadOutcome::Received(n) => if n == 0 {
                step matches SessionRead::Closed
            } else {
                step matches SessionRead::Packet(p) && p == incoming_packet(
                    buffer@.take(n as int),
                )
            },
            ReadOutcome::WouldBlock => step matches SessionRead::Idle,
            ReadOutcome::Failed(e) => step matches SessionRead::Failed(f) && f == e,
        },
{
    match outcome {
        ReadOutcome::Received(n) => {
            if n == 0 {
                SessionRead::Closed
            } else {
                let packet = &buffer[0..n];
                assert(packet@ == buffer@.take(n as int));
                SessionRead::Packet(parse_incoming_packet(packet))
            }
        },
        ReadOutcome::WouldBlock => SessionRead::Idle,
        ReadOutcome::Failed(e) => SessionRead::Failed(e),
    }
}

impl<C: Copy> Clone for Client<C> {
    /// Another handle on the same connection: same settings and senders, but
    /// no receivers, which only the connection loop uses.
    fn clone(&self) -> (client: Self)
        ensures
            client@ == (ClientView {
                has_publish_receiver: false,
                has_raw_tcp_receiver: false,
                ..self@
            }),
    {
        Client {
            broker_address: self.broker_address.clone(),
            keep_alive: self.keep_alive,
            username: self.username.clone(),
            password: self.password.clone(),
            publish_channel_sender: clone_sender(&self.publish_channel_sender),
            raw_tcp_channel_sender: clone_sender(&self.raw_tcp_channel_sender),
            callback_handler: self.callback_handler,
            publish_channel_receiver: None,
            raw_tcp_channel_receiver: None,
        }
    }
}

/// Every PUBLISH packet, whatever the DUP, QoS and RETAIN bits of its first
/// byte `b` (`b >> 4 == 3`), is delivered to the handler with its payload: when
/// its Remaining Length covers a length-prefixed topic, a Packet Identifier
/// exactly when the QoS bits `(b >> 1) & 3` are above 0, and a payload, and
/// topic and payload are UTF-8, the handler receives that payload as text.
pub proof fn lemma_publish_delivered_whatever_the_flags<C>(
    b: u8,
    topic: Seq<u8>,
    packet_id: Seq<u8>,
    payload: Seq<u8>,
    handler: C,
    result: Result<IncomingAction<C>, MqttError>,
)
    requires
        b >> 4u8 == 3,
        packet_id.len() == (if (b >> 1u8) & 3u8 > 0 { 2int } else { 0int }),
        topic.len() <= 65535,
        topic.len() + packet_id.len() + payload.len() + 2 <= 268_435_455,
        valid_utf8(topic),
        valid_utf8(payload),
        processed(
            seq![b] + remaining_length_bytes(
                (seq![(topic.len() / 256) as u8, (topic.len() % 256) as u8] + topic + packet_id
                    + payload).len(),
            ) + (seq![(topic.len() / 256) as u8, (topic.len() % 256) as u8] + topic + packet_id
                + payload),
            Some(handler),
            result,
        ),
    ensures
        result matches Ok(IncomingAction::Deliver(h, delivered)) && h == handler && delivered@
            == decode_utf8(payload),
{
    let rest = seq![(topic.len() / 256) as u8, (topic.len() % 256) as u8] + topic + packet_id
        + payload;
    let packet = seq![b] + remaining_length_bytes(rest.len()) + rest;
    lemma_publish_read_by_qos_bits(b, topic, packet_id, payload);
    assert(b >> 4u8 == b / 16) by (bit_vector);
    assert(packet[0] == b);
    assert(packet_type(packet[0]) == 3);
    assert(published_message(packet) == Some((decode_utf8(topic), decode_utf8(payload))));
}

} // verus!
