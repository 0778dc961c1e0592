//! Peer frames of the multi-group link, and what the link does with them.
//!
//! The outer envelope carries group incarnation and both endpoint identities; the inner message
//! uses the peer message codec. The connection preamble and the sender field are consistency checks
//! only.

use rafter::Message;
use vstd::prelude::*;
use vstd::string::StringExecFns;

use crate::bytes::{
    be_bytes_u32, be_bytes_u64, be_u32_at, be_u64_at, get_be_u32, get_be_u64, lemma_be_u32_written,
    lemma_be_u64_written, put_be_u32, put_be_u64,
};
use crate::checksum::{crc32, crc32_of};
use crate::message::{decode_message, decoded_message, encode_message, encoded_message};
use crate::node::render::numbered;
use crate::text::{append_number, decimal};
use crate::types::{GroupId, GroupIncarnation};

verus! {

/// Version of the frames.
pub const FRAME_VERSION: u8 = 1;

/// Longest frame body.
pub const MAX_FRAME_BYTES: usize = 8 * 1024 * 1024;

/// Bytes of a frame body before the message.
pub const FRAME_HEADER_BYTES: usize = 33;

/// One peer frame as the consumer routes it.
#[derive(Debug, Eq, PartialEq)]
pub struct PeerFrame {
    /// Group the message is for.
    pub group_id: GroupId,
    /// Its incarnation.
    pub incarnation: GroupIncarnation,
    /// Sending node.
    pub from: u64,
    /// Receiving node.
    pub to: u64,
    /// The message.
    pub message: Message,
}

/// Content of a frame on the wire.
#[verifier::ext_equal]
pub struct FrameView {
    /// Group the message is for.
    pub group_id: GroupId,
    /// Its incarnation.
    pub incarnation: GroupIncarnation,
    /// Sending node.
    pub from: u64,
    /// Receiving node.
    pub to: u64,
    /// Encoded message.
    pub message: Seq<u8>,
}

impl PeerFrame {
    /// Content of the frame on the wire, with its message encoded like this.
    pub open spec fn with_message(self, message: Seq<u8>) -> FrameView {
        FrameView {
            group_id: self.group_id,
            incarnation: self.incarnation,
            from: self.from,
            to: self.to,
            message,
        }
    }
}

/// Outbound refusal.
#[derive(Clone, Copy, Debug, Eq, PartialEq, Structural)]
pub enum LinkError {
    /// No route to this peer.
    UnknownPeer {
        /// The peer.
        peer: u64,
    },
    /// The peer's queue is full.
    QueueFull {
        /// The peer.
        peer: u64,
        /// Bound of its queue.
        bound: usize,
    },
    /// The envelope does not fit the wire format.
    Unencodable,
}

/// Why received bytes are no frame.
#[derive(Clone, Copy, Debug, Eq, PartialEq, Structural)]
pub enum FrameError {
    /// Longer than any frame.
    TooLong,
    /// Shorter than any frame.
    Short,
    /// The bytes are not the ones that were sent.
    Checksum,
    /// Not a peer frame.
    WrongMagic,
    /// Unknown version.
    UnsupportedVersion,
    /// Zero incarnation.
    ZeroIncarnation,
    /// The message length cannot be addressed.
    LengthOverflow,
    /// The message does not fill the frame.
    LengthMismatch,
    /// The message codec refuses the message.
    Message,
}

impl FrameError {
    /// Detail of the error.
    pub open spec fn detail(self) -> Seq<char> {
        match self {
            FrameError::TooLong => "peer frame exceeds its bound"@,
            FrameError::Short => "short peer frame"@,
            FrameError::Checksum => "peer frame checksum mismatch"@,
            FrameError::WrongMagic => "wrong peer magic"@,
            FrameError::UnsupportedVersion => "unsupported peer version"@,
            FrameError::ZeroIncarnation => "zero incarnation"@,
            FrameError::LengthOverflow => "message length overflow"@,
            FrameError::LengthMismatch => "peer message length mismatch"@,
            FrameError::Message => "malformed peer message"@,
        }
    }

    /// Returns the detail of the error.
    pub fn message(self) -> (r: &'static str)
        ensures
            r@ == self.detail(),
    {
        match self {
            FrameError::TooLong => "peer frame exceeds its bound",
            FrameError::Short => "short peer frame",
            FrameError::Checksum => "peer frame checksum mismatch",
            FrameError::WrongMagic => "wrong peer magic",
            FrameError::UnsupportedVersion => "unsupported peer version",
            FrameError::ZeroIncarnation => "zero incarnation",
            FrameError::LengthOverflow => "message length overflow",
            FrameError::LengthMismatch => "peer message length mismatch",
            FrameError::Message => "malformed peer message",
        }
    }
}

// -------------------------------------------------------------------- frames

/// Bytes that a frame body starts with.
pub open spec fn frame_magic() -> Seq<u8> {
    seq![0x52u8, 0x43u8, 0x50u8, 0x45u8]
}

/// Fields of a frame before its message.
pub open(crate) spec fn frame_header(frame: FrameView) -> Seq<u8> {
    frame_magic() + seq![FRAME_VERSION] + be_bytes_u32(frame.group_id@) + be_bytes_u32(
        frame.incarnation@,
    ) + be_bytes_u64(frame.from) + be_bytes_u64(frame.to) + be_bytes_u32(frame.message.len() as u32)
}

/// Frame body before its checksum.
pub open(crate) spec fn frame_content(frame: FrameView) -> Seq<u8> {
    frame_header(frame) + frame.message
}

/// Frame body with the checksum of what precedes it.
pub open(crate) spec fn frame_body(frame: FrameView, checksum: u32) -> Seq<u8> {
    frame_content(frame) + be_bytes_u32(checksum)
}

/// The frame fits the wire format.
pub open(crate) spec fn frame_fits(frame: FrameView) -> bool {
    FRAME_HEADER_BYTES + frame.message.len() + 4 <= MAX_FRAME_BYTES
}

/// What is wrong with a frame body whose bytes without the checksum have the checksum `actual`, but
/// for its message.
pub open(crate) spec fn frame_fault(body: Seq<u8>, actual: u32) -> Option<FrameError> {
    let n = body.len() - 4;
    if body.len() < FRAME_HEADER_BYTES + 4 {
        Some(FrameError::Short)
    } else if be_u32_at(body, n) != actual {
        Some(FrameError::Checksum)
    } else if body.subrange(0, 4) != frame_magic() {
        Some(FrameError::WrongMagic)
    } else if body[4] != FRAME_VERSION {
        Some(FrameError::UnsupportedVersion)
    } else if be_u32_at(body, 9) == 0 {
        Some(FrameError::ZeroIncarnation)
    } else if FRAME_HEADER_BYTES + be_u32_at(body, 29) > usize::MAX {
        Some(FrameError::LengthOverflow)
    } else if FRAME_HEADER_BYTES + be_u32_at(body, 29) != n {
        Some(FrameError::LengthMismatch)
    } else {
        None
    }
}

/// Message of a frame body.
pub open(crate) spec fn frame_message(body: Seq<u8>) -> Seq<u8> {
    body.subrange(FRAME_HEADER_BYTES as int, body.len() - 4)
}

/// Frame of a body without fault whose message is this one.
pub open(crate) spec fn frame_of(body: Seq<u8>, message: Message) -> PeerFrame {
    PeerFrame {
        group_id: GroupId(be_u32_at(body, 5)),
        incarnation: GroupIncarnation(be_u32_at(body, 9)),
        from: be_u64_at(body, 13),
        to: be_u64_at(body, 21),
        message,
    }
}

/// What reading a frame body gives, when its bytes without the checksum have the checksum `actual`
/// and the message codec reads this of its message.
pub open(crate) spec fn frame_read(
    body: Seq<u8>,
    actual: u32,
    message: Option<Message>,
) -> Result<PeerFrame, FrameError> {
    match frame_fault(body, actual) {
        Some(error) => Err(error),
        None => match message {
            Some(message) => Ok(frame_of(body, message)),
            None => Err(FrameError::Message),
        },
    }
}

/// Bytes of a frame with its length, when the message codec wrote this for its message.
pub open(crate) spec fn frame_bytes(frame: PeerFrame, message: Option<Seq<u8>>) -> Option<Seq<u8>> {
    match message {
        Some(message) => {
            let wire = frame.with_message(message);
            let body = frame_body(wire, crc32_of(frame_content(wire)));
            if frame_fits(wire) {
                Some(be_bytes_u32(body.len() as u32) + body)
            } else {
                None
            }
        },
        None => None,
    }
}

/// The bytes are these, or there are none and the frame is refused.
pub open spec fn encoding_agrees(r: Result<Vec<u8>, LinkError>, wanted: Option<Seq<u8>>) -> bool {
    match wanted {
        Some(bytes) => r is Ok && r->Ok_0@ == bytes,
        None => r is Err && r->Err_0 == LinkError::Unencodable,
    }
}

/// Encodes a frame with its length, when the message codec wrote `message` for its message, or
/// nothing.
pub fn encode_frame_with(frame: &PeerFrame, message: Option<Vec<u8>>) -> (r: Result<
    Vec<u8>,
    LinkError,
>)
    ensures
        encoding_agrees(
            r,
            frame_bytes(
                *frame,
                match message {
                    Some(bytes) => Some(bytes@),
                    None => None,
                },
            ),
        ),
{
    let Some(message) = message else {
        return Err(LinkError::Unencodable);
    };
    if message.len() > MAX_FRAME_BYTES - FRAME_HEADER_BYTES - 4 {
        return Err(LinkError::Unencodable);
    }
    let ghost wire = frame.with_message(message@);
    let mut body: Vec<u8> = Vec::new();
    body.push(0x52);
    body.push(0x43);
    body.push(0x50);
    body.push(0x45);
    body.push(FRAME_VERSION);
    put_be_u32(&mut body, frame.group_id.get());
    put_be_u32(&mut body, frame.incarnation.get());
    put_be_u64(&mut body, frame.from);
    put_be_u64(&mut body, frame.to);
    put_be_u32(&mut body, message.len() as u32);
    assert(body@ =~= frame_header(wire));
    body.extend_from_slice(message.as_slice());
    assert(body@ =~= frame_content(wire));
    let checksum: u32 = crc32(body.as_slice());
    put_be_u32(&mut body, checksum);
    assert(body@ =~= frame_body(wire, checksum));
    let mut framed: Vec<u8> = Vec::new();
    put_be_u32(&mut framed, body.len() as u32);
    framed.extend_from_slice(body.as_slice());
    assert(framed@ =~= be_bytes_u32(body@.len() as u32) + body@);
    Ok(framed)
}

/// Encodes a frame with its length.
pub fn encode_frame(frame: &PeerFrame) -> (r: Result<Vec<u8>, LinkError>)
    ensures
        encoding_agrees(r, frame_bytes(*frame, encoded_message(frame.message))),
{
    match encode_message(&frame.message) {
        Ok(message) => encode_frame_with(frame, Some(message)),
        Err(_) => Err(LinkError::Unencodable),
    }
}

/// Reads the length of the body that follows.
pub fn read_frame_length(prefix: &[u8]) -> (r: Result<usize, FrameError>)
    requires
        prefix@.len() == 4,
    ensures
        r == if be_u32_at(prefix@, 0) > MAX_FRAME_BYTES {
            Err::<usize, FrameError>(FrameError::TooLong)
        } else {
            Ok(be_u32_at(prefix@, 0) as usize)
        },
{
    let length: u32 = get_be_u32(prefix, 0);
    if length as u64 > MAX_FRAME_BYTES as u64 {
        return Err(FrameError::TooLong);
    }
    Ok(length as usize)
}

fn check_frame(body: &[u8], actual: u32) -> (r: Option<FrameError>)
    ensures
        r == frame_fault(body@, actual),
{
    if body.len() < FRAME_HEADER_BYTES + 4 {
        return Some(FrameError::Short);
    }
    let end: usize = body.len() - 4;
    if get_be_u32(body, end) != actual {
        return Some(FrameError::Checksum);
    }
    let matched = body[0] == 0x52 && body[1] == 0x43 && body[2] == 0x50 && body[3] == 0x45;
    proof {
        let head = body@.subrange(0, 4);
        assert(head[0] == body@[0] && head[1] == body@[1] && head[2] == body@[2] && head[3]
            == body@[3]);
        if matched {
            assert(head =~= frame_magic());
        }
    }
    if !matched {
        return Some(FrameError::WrongMagic);
    }
    if body[4] != FRAME_VERSION {
        return Some(FrameError::UnsupportedVersion);
    }
    if get_be_u32(body, 9) == 0 {
        return Some(FrameError::ZeroIncarnation);
    }
    let stated: u64 = FRAME_HEADER_BYTES as u64 + get_be_u32(body, 29) as u64;
    if stated > usize::MAX as u64 {
        return Some(FrameError::LengthOverflow);
    }
    if stated != end as u64 {
        return Some(FrameError::LengthMismatch);
    }
    None
}

/// Reads a frame body whose bytes without the checksum have the checksum `actual`, and of whose
/// message the codec reads `message`, or nothing.
pub fn read_frame_checked(body: &[u8], actual: u32, message: Option<Message>) -> (r: Result<
    PeerFrame,
    FrameError,
>)
    ensures
        r == frame_read(body@, actual, message),
{
    if let Some(error) = check_frame(body, actual) {
        return Err(error);
    }
    let Some(message) = message else {
        return Err(FrameError::Message);
    };
    let Some(incarnation) = GroupIncarnation::new(get_be_u32(body, 9)) else {
        return Err(FrameError::ZeroIncarnation);
    };
    Ok(
        PeerFrame {
            group_id: GroupId::new(get_be_u32(body, 5)),
            incarnation,
            from: get_be_u64(body, 13),
            to: get_be_u64(body, 21),
            message,
        },
    )
}

/// Reads a frame body.
pub fn read_frame(body: &[u8]) -> (r: Result<PeerFrame, FrameError>)
    ensures
        r == if body@.len() < FRAME_HEADER_BYTES + 4 {
            Err::<PeerFrame, FrameError>(FrameError::Short)
        } else {
            frame_read(
                body@,
                crc32_of(body@.take(body@.len() - 4)),
                decoded_message(frame_message(body@)),
            )
        },
{
    if body.len() < FRAME_HEADER_BYTES + 4 {
        return Err(FrameError::Short);
    }
    let end: usize = body.len() - 4;
    let sealed = vstd::slice::slice_subrange(body, 0, end);
    assert(sealed@ =~= body@.take(body@.len() - 4));
    let actual: u32 = crc32(sealed);
    if let Some(error) = check_frame(body, actual) {
        return Err(error);
    }
    let message = vstd::slice::slice_subrange(body, FRAME_HEADER_BYTES, end);
    assert(message@ =~= frame_message(body@));
    match decode_message(message) {
        Ok(message) => read_frame_checked(body, actual, Some(message)),
        Err(_) => Err(FrameError::Message),
    }
}

/// A frame that was sent is read back, where the codec reads back its message.
pub proof fn law_frames_round_trip(frame: PeerFrame, message: Seq<u8>)
    requires
        frame_fits(frame.with_message(message)),
        frame.incarnation.valid(),
    ensures
        ({
            let wire = frame.with_message(message);
            let body = frame_body(wire, crc32_of(frame_content(wire)));
            let actual = crc32_of(body.take(body.len() - 4));
            let read = frame_read(body, actual, decoded_message(frame_message(body)));
            &&& frame_bytes(frame, Some(message)) == Some(be_bytes_u32(body.len() as u32) + body)
            &&& decoded_message(message) == Some(frame.message) ==> read == Ok::<
                PeerFrame,
                FrameError,
            >(frame)
            &&& decoded_message(message) is None ==> read == Err::<PeerFrame, FrameError>(
                FrameError::Message,
            )
        }),
{
    let wire = frame.with_message(message);
    let checksum = crc32_of(frame_content(wire));
    let body = frame_body(wire, checksum);
    let n = body.len() - 4;
    assert(body.subrange(0, 4) =~= frame_magic());
    assert(body[4] == FRAME_VERSION);
    assert(body.subrange(5, 9) =~= be_bytes_u32(wire.group_id@));
    assert(body.subrange(9, 13) =~= be_bytes_u32(wire.incarnation@));
    assert(body.subrange(13, 21) =~= be_bytes_u64(wire.from));
    assert(body.subrange(21, 29) =~= be_bytes_u64(wire.to));
    assert(body.subrange(29, 33) =~= be_bytes_u32(message.len() as u32));
    assert(body.subrange(n, n + 4) =~= be_bytes_u32(checksum));
    lemma_be_u32_written(body, 5, wire.group_id@);
    lemma_be_u32_written(body, 9, wire.incarnation@);
    lemma_be_u64_written(body, 13, wire.from);
    lemma_be_u64_written(body, 21, wire.to);
    lemma_be_u32_written(body, 29, message.len() as u32);
    lemma_be_u32_written(body, n, checksum);
    assert(frame_message(body) =~= message);
    assert(body.take(n) =~= frame_content(wire));
}

/// A frame is delivered only as its sender and receiver claim: any other pair of endpoints is
/// refused.
pub proof fn law_delivered_frame_is_from_the_claimed_peer(
    from: u64,
    to: u64,
    claimed: u64,
    node: u64,
)
    ensures
        link_step(ReadEvent::Frame { from, to }, claimed, node) == LinkStep::Deliver <==> from
            == claimed && to == node,
{
}

// ---------------------------------------------------------------- connection

/// Peer that a connection preamble claims to come from, when it is for this node.
pub open spec fn preamble_sender(preamble: Seq<u8>, node: u64) -> Option<u64> {
    if be_u64_at(preamble, 8) == node {
        Some(be_u64_at(preamble, 0))
    } else {
        None
    }
}

/// Encodes a connection preamble.
pub fn encode_preamble(from: u64, to: u64) -> (r: Vec<u8>)
    ensures
        r@ == be_bytes_u64(from) + be_bytes_u64(to),
        preamble_sender(r@, to) == Some(from),
{
    let mut bytes: Vec<u8> = Vec::new();
    put_be_u64(&mut bytes, from);
    put_be_u64(&mut bytes, to);
    proof {
        assert(bytes@ =~= be_bytes_u64(from) + be_bytes_u64(to));
        assert(bytes@.subrange(0, 8) =~= be_bytes_u64(from));
        assert(bytes@.subrange(8, 16) =~= be_bytes_u64(to));
        lemma_be_u64_written(bytes@, 0, from);
        lemma_be_u64_written(bytes@, 8, to);
    }
    bytes
}

/// Reads a connection preamble.
pub fn read_preamble(preamble: &[u8], node: u64) -> (r: Option<u64>)
    requires
        preamble@.len() == 16,
    ensures
        r == preamble_sender(preamble@, node),
{
    if get_be_u64(preamble, 8) == node {
        Some(get_be_u64(preamble, 0))
    } else {
        None
    }
}

/// What came out of reading one frame from a connection.
#[derive(Clone, Copy, Debug, Eq, PartialEq, Structural)]
pub enum ReadEvent {
    /// A frame between these endpoints.
    Frame {
        /// Sender it names.
        from: u64,
        /// Receiver it names.
        to: u64,
    },
    /// Nothing came in time.
    TimedOut,
    /// The peer closed the connection.
    Closed,
    /// The bytes are no frame, or the connection failed otherwise.
    Malformed,
}

/// What the link does next with a connection.
#[derive(Clone, Copy, Debug, Eq, PartialEq, Structural)]
pub enum LinkStep {
    /// Queue the frame.
    Deliver,
    /// Read on.
    Continue,
    /// Close the connection.
    Close,
    /// Count a refused identity and close.
    Refuse,
    /// Count a malformed frame and close.
    Discard,
}

/// What the link does next.
pub open spec fn link_step(event: ReadEvent, claimed: u64, node: u64) -> LinkStep {
    match event {
        ReadEvent::Frame { from, to } => if from == claimed && to == node {
            LinkStep::Deliver
        } else {
            LinkStep::Refuse
        },
        ReadEvent::TimedOut => LinkStep::Continue,
        ReadEvent::Closed => LinkStep::Close,
        ReadEvent::Malformed => LinkStep::Discard,
    }
}

/// Decides what the link does next with a connection that claims to come from a peer.
pub fn receive_connection(event: ReadEvent, claimed: u64, node: u64) -> (r: LinkStep)
    ensures
        r == link_step(event, claimed, node),
{
    match event {
        ReadEvent::Frame { from, to } => if from == claimed && to == node {
            LinkStep::Deliver
        } else {
            LinkStep::Refuse
        },
        ReadEvent::TimedOut => LinkStep::Continue,
        ReadEvent::Closed => LinkStep::Close,
        ReadEvent::Malformed => LinkStep::Discard,
    }
}

/// Decides whether a frame for a peer can be queued, when the peer's queue holds `queued` of at
/// most `bound` frames; a peer without a queue has no route.
pub fn admit_outbound(peer: u64, queued: Option<usize>, bound: usize) -> (r: Result<(), LinkError>)
    ensures
        r == match queued {
            None => Err(LinkError::UnknownPeer { peer }),
            Some(queued) => if queued >= bound {
                Err(LinkError::QueueFull { peer, bound })
            } else {
                Ok(())
            },
        },
{
    match queued {
        None => Err(LinkError::UnknownPeer { peer }),
        Some(queued) => if queued >= bound {
            Err(LinkError::QueueFull { peer, bound })
        } else {
            Ok(())
        },
    }
}

// ------------------------------------------------------------- group routing

/// Transport identity for one live counter group incarnation.
#[derive(Clone, Copy, Debug, Eq, PartialEq, Structural)]
pub struct PeerGroupId {
    /// The group.
    pub group_id: GroupId,
    /// Its incarnation.
    pub incarnation: GroupIncarnation,
}

/// Invalid encoded counter transport group identity.
#[derive(Clone, Copy, Debug, Eq, PartialEq, Structural)]
pub enum PeerGroupCodecError {
    /// Not exactly eight bytes.
    InvalidLength {
        /// Bytes given.
        actual: usize,
    },
    /// Zero incarnation.
    ZeroIncarnation,
}

/// Big-endian bytes of a group identity.
pub open(crate) spec fn peer_group_bytes(group: PeerGroupId) -> Seq<u8> {
    be_bytes_u32(group.group_id@) + be_bytes_u32(group.incarnation@)
}

/// Group identity of bytes.
pub open(crate) spec fn peer_group_of(input: Seq<u8>) -> Result<PeerGroupId, PeerGroupCodecError> {
    if input.len() != 8 {
        Err(PeerGroupCodecError::InvalidLength { actual: input.len() as usize })
    } else if be_u32_at(input, 4) == 0 {
        Err(PeerGroupCodecError::ZeroIncarnation)
    } else {
        Ok(
            PeerGroupId {
                group_id: GroupId(be_u32_at(input, 0)),
                incarnation: GroupIncarnation(be_u32_at(input, 4)),
            },
        )
    }
}

impl PeerGroupId {
    /// Encodes the identity.
    pub fn encode(self) -> (r: Vec<u8>)
        ensures
            r@ == peer_group_bytes(self),
    {
        let mut bytes: Vec<u8> = Vec::new();
        put_be_u32(&mut bytes, self.group_id.get());
        put_be_u32(&mut bytes, self.incarnation.get());
        assert(bytes@ =~= peer_group_bytes(self));
        bytes
    }

    /// Decodes an identity.
    pub fn decode(input: &[u8]) -> (r: Result<Self, PeerGroupCodecError>)
        ensures
            r == peer_group_of(input@),
    {
        if input.len() != 8 {
            return Err(PeerGroupCodecError::InvalidLength { actual: input.len() });
        }
        match GroupIncarnation::new(get_be_u32(input, 4)) {
            Some(incarnation) => Ok(
                PeerGroupId { group_id: GroupId::new(get_be_u32(input, 0)), incarnation },
            ),
            None => Err(PeerGroupCodecError::ZeroIncarnation),
        }
    }
}

/// A group identity is read back from its bytes.
pub proof fn law_group_identities_round_trip(group: PeerGroupId)
    requires
        group.incarnation.valid(),
    ensures
        peer_group_of(peer_group_bytes(group)) == Ok::<PeerGroupId, PeerGroupCodecError>(group),
{
    let bytes = peer_group_bytes(group);
    assert(bytes.subrange(0, 4) =~= be_bytes_u32(group.group_id@));
    assert(bytes.subrange(4, 8) =~= be_bytes_u32(group.incarnation@));
    lemma_be_u32_written(bytes, 0, group.group_id@);
    lemma_be_u32_written(bytes, 4, group.incarnation@);
}

// --------------------------------------------------------------- diagnostics

/// Diagnostics of the peer transport.
#[derive(Clone, Copy, Debug, Eq, PartialEq, Structural)]
pub struct Diagnostics {
    /// Frames refused because a peer's queue was full.
    pub queue_full: u64,
    /// Received frames dropped because the inbound queue was full.
    pub inbound_full: u64,
    /// Malformed frames.
    pub malformed_frames: u64,
    /// Frames over the bound.
    pub frame_too_large: u64,
    /// Connections with an unknown certificate.
    pub unknown_certificates: u64,
    /// Connections whose identity does not match.
    pub identity_mismatches: u64,
    /// Connections of another cluster.
    pub cluster_mismatches: u64,
    /// Connections of another version.
    pub version_mismatches: u64,
    /// Frames that the policy does not allow.
    pub unauthorized_frames: u64,
    /// Frames of retired peers.
    pub retired_peer_frames: u64,
    /// Connections refused because too many were open.
    pub connection_full: u64,
    /// Completed handshakes.
    pub tls_handshakes: u64,
    /// Failed handshakes.
    pub tls_failures: u64,
    /// Sessions that were replaced.
    pub stale_sessions: u64,
    /// Open outbound connections.
    pub active_outbound_connections: usize,
    /// Open inbound connections.
    pub active_inbound_connections: usize,
}

/// Counters of the link that the process reports.
#[derive(Clone, Copy, Debug, Eq, PartialEq, Structural)]
pub struct LinkCounters {
    /// Frames refused because a peer's queue was full.
    pub outbound_full: u64,
    /// Received frames dropped because the inbound queue was full.
    pub inbound_full: u64,
    /// Malformed frames.
    pub malformed: u64,
    /// Frames and connections with the wrong identity.
    pub identity_refused: u64,
    /// Connections refused because too many were open.
    pub inbound_connection_full: u64,
    /// Completed handshakes.
    pub tls_handshakes: u64,
    /// Failed handshakes.
    pub tls_failures: u64,
    /// Sessions that were replaced.
    pub stale_sessions: u64,
    /// Open outbound connections.
    pub active_outbound_connections: usize,
    /// Open inbound connections.
    pub active_inbound_connections: usize,
}

/// Sum that stays at the largest number.
pub open spec fn saturated(sum: int) -> u64 {
    if sum > u64::MAX {
        u64::MAX
    } else {
        sum as u64
    }
}

impl LinkCounters {
    /// Projects the transport's diagnostics onto the counters that the process reports.
    pub fn from_diagnostics(diagnostics: Diagnostics) -> (r: Self)
        ensures
            r == (LinkCounters {
                outbound_full: diagnostics.queue_full,
                inbound_full: diagnostics.inbound_full,
                malformed: saturated(diagnostics.malformed_frames + diagnostics.frame_too_large),
                identity_refused: saturated(
                    diagnostics.unknown_certificates + diagnostics.identity_mismatches
                        + diagnostics.cluster_mismatches + diagnostics.version_mismatches
                        + diagnostics.unauthorized_frames + diagnostics.retired_peer_frames,
                ),
                inbound_connection_full: diagnostics.connection_full,
                tls_handshakes: diagnostics.tls_handshakes,
                tls_failures: diagnostics.tls_failures,
                stale_sessions: diagnostics.stale_sessions,
                active_outbound_connections: diagnostics.active_outbound_connections,
                active_inbound_connections: diagnostics.active_inbound_connections,
            }),
    {
        LinkCounters {
            outbound_full: diagnostics.queue_full,
            inbound_full: diagnostics.inbound_full,
            malformed: diagnostics.malformed_frames.saturating_add(diagnostics.frame_too_large),
            identity_refused: diagnostics.unknown_certificates.saturating_add(
                diagnostics.identity_mismatches,
            ).saturating_add(diagnostics.cluster_mismatches).saturating_add(
                diagnostics.version_mismatches,
            ).saturating_add(diagnostics.unauthorized_frames).saturating_add(
                diagnostics.retired_peer_frames,
            ),
            inbound_connection_full: diagnostics.connection_full,
            tls_handshakes: diagnostics.tls_handshakes,
            tls_failures: diagnostics.tls_failures,
            stale_sessions: diagnostics.stale_sessions,
            active_outbound_connections: diagnostics.active_outbound_connections,
            active_inbound_connections: diagnostics.active_inbound_connections,
        }
    }
}

/// How the state of the peer sessions is brought up.
#[derive(Clone, Copy, Debug, Eq, PartialEq, Structural)]
pub enum TransportState {
    /// It is on disk.
    Open,
    /// The host has groups but no session state: its identity may be in use elsewhere, so the
    /// process stops.
    Missing,
    /// The host is new: it is created.
    Create,
}

/// Decides how the state of the peer sessions is brought up.
pub fn transport_state(found: bool, has_groups: bool) -> (r: TransportState)
    ensures
        r == if found {
            TransportState::Open
        } else if has_groups {
            TransportState::Missing
        } else {
            TransportState::Create
        },
{
    if found {
        TransportState::Open
    } else if has_groups {
        TransportState::Missing
    } else {
        TransportState::Create
    }
}

impl LinkError {
    /// Renders the refusal.
    pub fn render(self) -> (r: String)
        ensures
            r@ == match self {
                LinkError::UnknownPeer { peer } => "peer "@ + decimal(peer as nat)
                    + " has no route"@,
                LinkError::QueueFull { peer, bound } => "peer "@ + decimal(peer as nat)
                    + " outbound queue reached its bound "@ + decimal(bound as nat),
                LinkError::Unencodable => "peer envelope does not fit the wire format"@,
            },
    {
        match self {
            LinkError::UnknownPeer { peer } => {
                let mut text = numbered("peer ", peer);
                text.append(" has no route");
                text
            },
            LinkError::QueueFull { peer, bound } => {
                let mut text = numbered("peer ", peer);
                text.append(" outbound queue reached its bound ");
                append_number(&mut text, bound as u64);
                text
            },
            LinkError::Unencodable => "peer envelope does not fit the wire format".to_owned(),
        }
    }
}

impl PeerGroupCodecError {
    /// Text of the refusal.
    pub open spec fn text(self) -> Seq<char> {
        match self {
            PeerGroupCodecError::InvalidLength { actual } =>
                "counter transport group identity must contain exactly eight bytes; got "@
                + decimal(actual as nat),
            PeerGroupCodecError::ZeroIncarnation =>
                "counter transport group incarnation must be nonzero"@,
        }
    }

    /// Renders the refusal.
    pub fn render(self) -> (r: String)
        ensures
            r@ == self.text(),
    {
        match self {
            PeerGroupCodecError::InvalidLength { actual } => numbered(
                "counter transport group identity must contain exactly eight bytes; got ",
                actual as u64,
            ),
            PeerGroupCodecError::ZeroIncarnation => {
                "counter transport group incarnation must be nonzero".to_owned()
            },
        }
    }
}

} // verus!
