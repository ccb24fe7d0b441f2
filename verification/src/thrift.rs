//! The choice of a Thrift protocol: by the first byte of what a peer sent, and for what
//! is sent to it.

use vstd::prelude::*;
use vstd::string::*;

use crate::text;

verus! {

/// The protocols of a message on the wire.
#[derive(Clone, Copy, Debug, PartialEq, Eq, Structural)]
pub enum Protocol {
    Binary,
    ApacheCompact,
    FBThriftCompact,
}

/// Marks a connection whose peer sent the binary protocol.
#[derive(Clone, Copy, Debug, PartialEq, Eq, Structural)]
pub struct ProtocolBinary;

/// Marks a connection whose peer sent the compact protocol.
#[derive(Clone, Copy, Debug, PartialEq, Eq, Structural)]
pub struct ProtocolApacheCompact;

/// How many bytes it takes to tell the protocol of a message.
pub const HEADER_DETECT_LENGTH: usize = 1;

/// The marks that the context of a call carries.
#[derive(Clone, Copy, Debug, PartialEq, Eq, Structural)]
pub struct ProtocolMarks {
    pub binary: Option<ProtocolBinary>,
    pub apache_compact: Option<ProtocolApacheCompact>,
}

impl ProtocolMarks {
    /// These marks and the one of `protocol`, if it has one.
    pub open spec fn with(self, protocol: Protocol) -> ProtocolMarks {
        match protocol {
            Protocol::Binary => ProtocolMarks { binary: Some(ProtocolBinary), ..self },
            Protocol::ApacheCompact => ProtocolMarks {
                apache_compact: Some(ProtocolApacheCompact),
                ..self
            },
            Protocol::FBThriftCompact => self,
        }
    }

    /// No marks.
    pub fn new() -> (marks: Self)
        ensures
            marks.binary is None,
            marks.apache_compact is None,
    {
        ProtocolMarks { binary: None, apache_compact: None }
    }

    /// Adds the mark of `protocol`, if it has one.
    pub fn insert(&mut self, protocol: Protocol)
        ensures
            *final(self) == old(self).with(protocol),
    {
        match protocol {
            Protocol::Binary => {
                self.binary = Some(ProtocolBinary);
            },
            Protocol::ApacheCompact => {
                self.apache_compact = Some(ProtocolApacheCompact);
            },
            Protocol::FBThriftCompact => {},
        }
    }
}

/// What is wrong with a protocol.
#[derive(Clone, Copy, Debug, PartialEq, Eq, Structural)]
pub enum ProtocolExceptionKind {
    BadVersion,
    NotImplemented,
}

/// A protocol that cannot be told or is not supported.
#[derive(Debug)]
pub struct ProtocolException {
    pub kind: ProtocolExceptionKind,
    pub message: String,
}

/// A message that could not be read or written: for its protocol, or for what the
/// reader or writer of the message ran into.
#[derive(Debug)]
pub enum ThriftException<E> {
    Protocol(ProtocolException),
    Message(E),
}

/// The protocol of messages that start with the byte `first`.
pub open spec fn protocol_of(first: u8) -> Option<Protocol> {
    if first == 0x80 || first == 0x00 {
        Some(Protocol::Binary)
    } else if first == 0x82 {
        Some(Protocol::ApacheCompact)
    } else {
        None
    }
}

/// Whether `exception` says that no protocol starts with the byte `first`.
pub open spec fn is_unknown_protocol(exception: ProtocolException, first: u8) -> bool {
    &&& exception.kind == ProtocolExceptionKind::BadVersion
    &&& exception.message@ == "unknown protocol, first byte: "@ + text::decimal_text(first as nat)
}

/// Whether `exception` says that there was no byte to tell the protocol by.
pub open spec fn is_missing_head(exception: ProtocolException) -> bool {
    &&& exception.kind == ProtocolExceptionKind::BadVersion
    &&& exception.message@ == "not enough bytes to detect protocol in thrift codec"@
}

/// Whether `exception` says that a protocol is not supported. There is one such.
pub open spec fn is_unsupported(exception: ProtocolException) -> bool {
    &&& exception.kind == ProtocolExceptionKind::NotImplemented
    &&& exception.message@ == "protocol FBThriftCompact is not supported"@
}

fn unsupported() -> (exception: ProtocolException)
    ensures
        is_unsupported(exception),
{
    ProtocolException {
        kind: ProtocolExceptionKind::NotImplemented,
        message: "protocol FBThriftCompact is not supported".to_owned(),
    }
}

fn missing_head() -> (exception: ProtocolException)
    ensures
        is_missing_head(exception),
{
    ProtocolException {
        kind: ProtocolExceptionKind::BadVersion,
        message: "not enough bytes to detect protocol in thrift codec".to_owned(),
    }
}

/// Tells the protocol of a message by its first byte.
pub fn detect(buf: &[u8]) -> (r: Result<Protocol, ProtocolException>)
    requires
        buf@.len() >= HEADER_DETECT_LENGTH,
    ensures
        match r {
            Ok(protocol) => protocol_of(buf@[0]) == Some(protocol),
            Err(exception) => protocol_of(buf@[0]) is None && is_unknown_protocol(
                exception,
                buf@[0],
            ),
        },
{
    let first: u8 = buf[0];
    if first == 0x80 || first == 0x00 {
        Ok(Protocol::Binary)
    } else if first == 0x82 {
        Ok(Protocol::ApacheCompact)
    } else {
        let mut message = "unknown protocol, first byte: ".to_owned();
        text::append_decimal(&mut message, first);
        Err(ProtocolException { kind: ProtocolExceptionKind::BadVersion, message })
    }
}

/// The byte with which a message starts when it is sent in `protocol`.
pub open spec fn leading_byte(protocol: Protocol) -> Option<u8> {
    match protocol {
        Protocol::Binary => Some(0x80),
        Protocol::ApacheCompact => Some(0x82),
        Protocol::FBThriftCompact => None,
    }
}

/// Whether `r` is what reading a message that starts with `head` comes to, and `before`
/// and `after` are the marks of the context: without a head, or with one that starts no
/// protocol, `read` plays no part; else its outcome in that protocol is what comes out,
/// and the context is marked where there is a message.
pub open spec fn decoded<M, E, F: FnOnce(Protocol) -> Result<M, E>>(
    read: F,
    head: Seq<u8>,
    before: ProtocolMarks,
    after: ProtocolMarks,
    r: Result<Option<M>, ThriftException<E>>,
) -> bool {
    if head.len() < HEADER_DETECT_LENGTH {
        &&& r matches Err(ThriftException::Protocol(exception)) && is_missing_head(exception)
        &&& after == before
    } else {
        match protocol_of(head[0]) {
            None => {
                &&& r matches Err(ThriftException::Protocol(exception)) && is_unknown_protocol(
                    exception,
                    head[0],
                )
                &&& after == before
            },
            Some(protocol) => match r {
                Ok(Some(message)) => {
                    &&& read.ensures((protocol,), Ok(message))
                    &&& after == before.with(protocol)
                },
                Ok(None) => false,
                Err(ThriftException::Message(error)) => {
                    &&& read.ensures((protocol,), Err(error))
                    &&& after == before
                },
                Err(ThriftException::Protocol(_)) => false,
            },
        }
    }
}

/// The lengths of a message, as a protocol measures it.
#[derive(Clone, Copy, Debug, PartialEq, Eq, Structural)]
pub struct MessageLength {
    /// All the bytes of the message.
    pub total: usize,
    /// Those of them that are linked in and not copied.
    pub zero_copy: usize,
}

/// What a reader that waits for a message gets to know.
pub enum DecodeEvent<M, E> {
    /// The bytes that are there to tell the protocol by.
    Head(Vec<u8>),
    /// The peer sent too few bytes to tell the protocol by.
    HeadMissing,
    /// What reading a message in a protocol came to.
    Message { protocol: Protocol, outcome: Result<M, E> },
}

/// What a reader that waits for a message does next.
pub enum DecodeAction<M, E> {
    /// It reads a message in this protocol.
    ReadMessage(Protocol),
    /// It is done with this result; if so told, it notes the time at which reading
    /// ended.
    Finish { result: Result<Option<M>, ThriftException<E>>, record_read_end: bool },
}

/// Whether `action` is the next step of reading a message from a stream once `event` has
/// happened, and `before` and `after` are the marks of the context.
pub open spec fn stepped<M, E>(
    event: DecodeEvent<M, E>,
    before: ProtocolMarks,
    after: ProtocolMarks,
    action: DecodeAction<M, E>,
) -> bool {
    match event {
        DecodeEvent::Head(head) => {
            &&& after == before
            &&& match protocol_of(head@[0]) {
                Some(protocol) => action == DecodeAction::<M, E>::ReadMessage(protocol),
                None => action matches DecodeAction::Finish { result, record_read_end }
                    && record_read_end && (result matches Err(ThriftException::Protocol(exception))
                    && is_unknown_protocol(exception, head@[0])),
            }
        },
        DecodeEvent::HeadMissing => {
            &&& after == before
            &&& action matches DecodeAction::Finish { result, record_read_end } && record_read_end
                && (result matches Err(ThriftException::Protocol(exception)) && is_missing_head(
                exception,
            ))
        },
        DecodeEvent::Message { protocol, outcome: Ok(message) } => {
            &&& after == before.with(protocol)
            &&& action == (DecodeAction::<M, E>::Finish {
                result: Ok(Some(message)),
                record_read_end: true,
            })
        },
        DecodeEvent::Message { protocol, outcome: Err(error) } => {
            &&& after == before
            &&& action == (DecodeAction::<M, E>::Finish {
                result: Err(ThriftException::Message(error)),
                record_read_end: false,
            })
        },
    }
}

/// Whether `r` is what writing a message in `protocol` comes to.
pub open spec fn encoded<E, F: FnOnce(Protocol) -> Result<(), E>>(
    write: F,
    protocol: Protocol,
    r: Result<(), ThriftException<E>>,
) -> bool {
    if protocol == Protocol::FBThriftCompact {
        r matches Err(ThriftException::Protocol(exception)) && is_unsupported(exception)
    } else {
        match r {
            Ok(done) => write.ensures((protocol,), Ok(done)),
            Err(ThriftException::Message(error)) => write.ensures((protocol,), Err(error)),
            Err(ThriftException::Protocol(_)) => false,
        }
    }
}

/// Whether `r` is what measuring a message in `protocol` comes to: the length of the
/// message, and how much of that is not linked in.
pub open spec fn measured<F: FnOnce(Protocol) -> MessageLength>(
    measure: F,
    protocol: Protocol,
    r: Result<(usize, usize), ProtocolException>,
) -> bool {
    if protocol == Protocol::FBThriftCompact {
        r matches Err(exception) && is_unsupported(exception)
    } else {
        r matches Ok(sizes) && exists|length: MessageLength|
            {
                &&& #[trigger] measure.ensures((protocol,), length)
                &&& sizes.0 == length.total
                &&& sizes.1 == length.total - length.zero_copy
            }
    }
}

/// Reads and writes messages. Its protocol is the one in which a client sends; a
/// server answers in the protocol in which it was asked.
#[derive(Clone, Copy, Debug, PartialEq, Eq, Structural)]
pub struct ThriftCodec {
    protocol: Protocol,
}

impl Default for ThriftCodec {
    fn default() -> (codec: Self)
        ensures
            codec.client_protocol() == Protocol::Binary,
    {
        ThriftCodec::new(Protocol::Binary)
    }
}

impl ThriftCodec {
    /// The protocol in which a client sends.
    pub closed spec fn client_protocol(self) -> Protocol {
        self.protocol
    }

    /// The protocol in which a message is sent in a context with these marks.
    pub open spec fn sending_protocol(self, marks: ProtocolMarks) -> Protocol {
        if marks.binary is Some {
            Protocol::Binary
        } else if marks.apache_compact is Some {
            Protocol::ApacheCompact
        } else {
            self.client_protocol()
        }
    }

    /// A codec that sends in the given protocol as a client.
    pub fn new(protocol: Protocol) -> (codec: Self)
        ensures
            codec.client_protocol() == protocol,
    {
        ThriftCodec { protocol }
    }

    /// Picks the protocol in which a message is sent in a context with these marks.
    fn select(&self, marks: &ProtocolMarks) -> (protocol: Protocol)
        ensures
            protocol == self.sending_protocol(*marks),
    {
        if marks.binary.is_some() {
            Protocol::Binary
        } else if marks.apache_compact.is_some() {
            Protocol::ApacheCompact
        } else {
            self.protocol
        }
    }

    /// Reads a message from a buffer that starts with `head`: tells the protocol, lets
    /// `read` take the message out of the buffer, and marks the context with the protocol
    /// once that has succeeded.
    pub fn decode<M, E, F: FnOnce(Protocol) -> Result<M, E>>(
        &self,
        marks: &mut ProtocolMarks,
        head: &[u8],
        read: F,
    ) -> (r: Result<Option<M>, ThriftException<E>>)
        requires
            head@.len() > 0 ==> (protocol_of(head@[0]) matches Some(protocol) ==> read.requires(
                (protocol,),
            )),
        ensures
            decoded(read, head@, *old(marks), *final(marks), r),
    {
        if head.len() < HEADER_DETECT_LENGTH {
            return Err(ThriftException::Protocol(missing_head()));
        }
        let protocol = match detect(head) {
            Ok(protocol) => protocol,
            Err(exception) => {
                return Err(ThriftException::Protocol(exception));
            },
        };
        match protocol {
            Protocol::Binary | Protocol::ApacheCompact => match read(protocol) {
                Ok(message) => {
                    marks.insert(protocol);
                    Ok(Some(message))
                },
                Err(error) => Err(ThriftException::Message(error)),
            },
            Protocol::FBThriftCompact => Err(ThriftException::Protocol(unsupported())),
        }
    }

    /// Takes one step of reading a message from a stream: first the protocol is told by
    /// the head, then a message is read in it. The context is marked with the protocol
    /// once a message has been read. The end of reading is noted in every case but that
    /// of a message that could not be read.
    pub fn decode_async<M, E>(&self, marks: &mut ProtocolMarks, event: DecodeEvent<M, E>) -> (action:
        DecodeAction<M, E>)
        requires
            event matches DecodeEvent::Head(head) ==> head@.len() >= HEADER_DETECT_LENGTH,
            event matches DecodeEvent::Message { protocol, outcome } ==> protocol
                != Protocol::FBThriftCompact,
        ensures
            stepped(event, *old(marks), *final(marks), action),
    {
        match event {
            DecodeEvent::Head(head) => match detect(head.as_slice()) {
                Ok(protocol) => match protocol {
                    Protocol::Binary | Protocol::ApacheCompact => DecodeAction::ReadMessage(
                        protocol,
                    ),
                    Protocol::FBThriftCompact => DecodeAction::Finish {
                        result: Err(ThriftException::Protocol(unsupported())),
                        record_read_end: true,
                    },
                },
                Err(exception) => DecodeAction::Finish {
                    result: Err(ThriftException::Protocol(exception)),
                    record_read_end: true,
                },
            },
            DecodeEvent::HeadMissing => DecodeAction::Finish {
                result: Err(ThriftException::Protocol(missing_head())),
                record_read_end: true,
            },
            DecodeEvent::Message { protocol, outcome } => match outcome {
                Ok(message) => {
                    marks.insert(protocol);
                    DecodeAction::Finish { result: Ok(Some(message)), record_read_end: true }
                },
                Err(error) => DecodeAction::Finish {
                    result: Err(ThriftException::Message(error)),
                    record_read_end: false,
                },
            },
        }
    }

    /// Writes a message: picks the protocol and lets `write` put the message out in it.
    pub fn encode<E, F: FnOnce(Protocol) -> Result<(), E>>(
        &self,
        marks: &ProtocolMarks,
        write: F,
    ) -> (r: Result<(), ThriftException<E>>)
        requires
            self.sending_protocol(*marks) != Protocol::FBThriftCompact ==> write.requires(
                (self.sending_protocol(*marks),),
            ),
        ensures
            encoded(write, self.sending_protocol(*marks), r),
    {
        let protocol = self.select(marks);
        match protocol {
            Protocol::Binary | Protocol::ApacheCompact => match write(protocol) {
                Ok(done) => Ok(done),
                Err(error) => Err(ThriftException::Message(error)),
            },
            Protocol::FBThriftCompact => Err(ThriftException::Protocol(unsupported())),
        }
    }

    /// Measures a message: picks the protocol, lets `measure` find the lengths of the
    /// message in it, and returns the length of the message and how much of that has to
    /// be allocated.
    pub fn size<F: FnOnce(Protocol) -> MessageLength>(
        &self,
        marks: &ProtocolMarks,
        measure: F,
    ) -> (r: Result<(usize, usize), ProtocolException>)
        requires
            self.sending_protocol(*marks) != Protocol::FBThriftCompact ==> {
                &&& measure.requires((self.sending_protocol(*marks),))
                &&& forall|length: MessageLength|
                    measure.ensures((self.sending_protocol(*marks),), length) ==> length.zero_copy
                        <= length.total
            },
        ensures
            measured(measure, self.sending_protocol(*marks), r),
    {
        let protocol = self.select(marks);
        match protocol {
            Protocol::Binary | Protocol::ApacheCompact => {
                let length = measure(protocol);
                Ok((length.total, length.total - length.zero_copy))
            },
            Protocol::FBThriftCompact => Err(unsupported()),
        }
    }
}

/// Makes [`ThriftCodec`]s.
#[derive(Clone, Copy, Debug, PartialEq, Eq, Structural)]
pub struct MakeThriftCodec {
    protocol: Protocol,
}

impl Default for MakeThriftCodec {
    fn default() -> (maker: Self)
        ensures
            maker.client_protocol() == Protocol::Binary,
    {
        MakeThriftCodec::new()
    }
}

impl MakeThriftCodec {
    /// The protocol in which a client sends.
    pub closed spec fn client_protocol(self) -> Protocol {
        self.protocol
    }

    /// Codecs that send in the binary protocol as a client.
    pub fn new() -> (maker: Self)
        ensures
            maker.client_protocol() == Protocol::Binary,
    {
        MakeThriftCodec { protocol: Protocol::Binary }
    }

    /// Codecs that send in the given protocol as a client. A server tells the protocol
    /// by what it is sent.
    pub fn with_protocol(self, protocol: Protocol) -> (maker: Self)
        ensures
            maker.client_protocol() == protocol,
    {
        MakeThriftCodec { protocol }
    }

    /// Makes a codec to write with and one to read with.
    pub fn make_codec(&self) -> (codecs: (ThriftCodec, ThriftCodec))
        ensures
            codecs.0.client_protocol() == self.client_protocol(),
            codecs.1 == codecs.0,
    {
        let codec = ThriftCodec::new(self.protocol);
        (codec, codec)
    }
}

} // verus!
