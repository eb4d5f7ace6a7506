//! The datapack, unit of exchange on the bus, and the length-prefixed framing
//! that carries encoded datapacks over a byte stream.
use vstd::prelude::*;

use crate::text::str_eq;

verus! {

/// The kind of conversation a channel is.
#[derive(Debug, Clone, Copy, PartialEq, Eq, Structural)]
pub enum ChannelType {
    Private,
    Group,
}

/// Where a conversation takes place.
#[derive(Debug)]
pub struct Channel {
    pub id: String,
    pub ty: ChannelType,
    pub name: String,
    /// The group that holds a private sub-conversation.
    pub parent_id: Option<String>,
    /// The bot's own identity within the channel.
    pub self_id: Option<String>,
}

/// The characters of an optional string.
pub open spec fn opt_view(o: Option<String>) -> Option<Seq<char>> {
    match o {
        Some(s) => Some(s@),
        None => None,
    }
}

pub fn clone_opt_string(o: &Option<String>) -> (r: Option<String>)
    ensures
        r == *o,
{
    match o {
        Some(s) => Some(s.clone()),
        None => None,
    }
}

fn eq_opt_string(a: &Option<String>, b: &Option<String>) -> (r: bool)
    ensures
        r == (opt_view(*a) == opt_view(*b)),
{
    match (a, b) {
        (Some(x), Some(y)) => *x == *y,
        (None, None) => true,
        _ => false,
    }
}

impl Channel {
    /// Two channels are the same conversation when their id, type and parent
    /// agree; the name and the bot's identity do not count.
    pub open spec fn same_as(&self, o: &Channel) -> bool {
        self.id@ == o.id@ && self.ty == o.ty && opt_view(self.parent_id) == opt_view(o.parent_id)
    }

    pub fn copy(&self) -> (r: Channel)
        ensures
            r == *self,
    {
        Channel {
            id: self.id.clone(),
            ty: self.ty,
            name: self.name.clone(),
            parent_id: clone_opt_string(&self.parent_id),
            self_id: clone_opt_string(&self.self_id),
        }
    }
}

impl PartialEq for Channel {
    fn eq(&self, o: &Channel) -> (r: bool) {
        self.id == o.id && self.ty == o.ty && eq_opt_string(&self.parent_id, &o.parent_id)
    }
}

impl vstd::std_specs::cmp::PartialEqSpecImpl for Channel {
    open spec fn obeys_eq_spec() -> bool {
        true
    }

    open spec fn eq_spec(&self, o: &Channel) -> bool {
        self.same_as(o)
    }
}

pub fn clone_opt_channel(o: &Option<Channel>) -> (r: Option<Channel>)
    ensures
        r == *o,
{
    match o {
        Some(c) => Some(c.copy()),
        None => None,
    }
}

/// The record exchanged on the bus. A request carries a `path`; a response
/// carries the `correlate` id of the request it answers.
#[derive(Debug)]
pub struct DataPack {
    /// Unique, time-ordered identifier; zero stands for "not yet assigned".
    pub id: u128,
    pub correlate: Option<u128>,
    pub path: Option<String>,
    pub bot_id: Option<String>,
    pub channel: Option<Channel>,
    /// Opaque encoded payload.
    pub payload: Vec<u8>,
}

/// The path of a request, if it is one.
pub open spec fn path_of(p: DataPack) -> Option<Seq<char>> {
    opt_view(p.path)
}

impl DataPack {
    /// A request on `path`.
    pub fn request(id: u128, path: String, payload: Vec<u8>) -> (r: DataPack)
        ensures
            r.id == id,
            r.correlate is None,
            r.path == Some(path),
            r.bot_id is None,
            r.channel is None,
            r.payload == payload,
    {
        DataPack { id, correlate: None, path: Some(path), bot_id: None, channel: None, payload }
    }

    /// A response carrying `payload`, not yet linked to a request.
    pub open spec fn response_of(id: u128, payload: Vec<u8>) -> DataPack {
        DataPack { id, correlate: None, path: None, bot_id: None, channel: None, payload }
    }

    /// A response carrying `payload`, not yet linked to a request.
    pub fn response(id: u128, payload: Vec<u8>) -> (r: DataPack)
        ensures
            r == DataPack::response_of(id, payload),
    {
        DataPack { id, correlate: None, path: None, bot_id: None, channel: None, payload }
    }

    /// What `link` yields: `correlate` set to the parent's id, and the bot and
    /// channel taken from the parent unless this packet sets them.
    pub open spec fn linked(self, parent: DataPack) -> DataPack {
        DataPack {
            correlate: Some(parent.id),
            bot_id: if self.bot_id is Some {
                self.bot_id
            } else {
                parent.bot_id
            },
            channel: if self.channel is Some {
                self.channel
            } else {
                parent.channel
            },
            ..self
        }
    }

    /// Derives this packet from `parent`.
    pub fn link(self, parent: &DataPack) -> (r: DataPack)
        ensures
            r == self.linked(*parent),
    {
        let bot_id = if self.bot_id.is_some() {
            self.bot_id
        } else {
            clone_opt_string(&parent.bot_id)
        };
        let channel = if self.channel.is_some() {
            self.channel
        } else {
            clone_opt_channel(&parent.channel)
        };
        DataPack {
            id: self.id,
            correlate: Some(parent.id),
            path: self.path,
            bot_id,
            channel,
            payload: self.payload,
        }
    }

    /// Whether this packet is a request on exactly `path`.
    pub fn is_on(&self, path: &str) -> (r: bool)
        ensures
            r == (path_of(*self) == Some(path@)),
    {
        match &self.path {
            Some(p) => str_eq(p.as_str(), path),
            None => false,
        }
    }
}

/// The four little-endian bytes of `n`.
pub open spec fn le32(n: u32) -> Seq<u8> {
    seq![
        (n & 0xff) as u8,
        ((n >> 8u32) & 0xff) as u8,
        ((n >> 16u32) & 0xff) as u8,
        ((n >> 24u32) & 0xff) as u8,
    ]
}

/// The number that four little-endian bytes spell.
pub open spec fn le32_value(b0: u8, b1: u8, b2: u8, b3: u8) -> u32 {
    (b0 as u32) | ((b1 as u32) << 8u32) | ((b2 as u32) << 16u32) | ((b3 as u32) << 24u32)
}

/// A frame: the body's length as four little-endian bytes, then the body.
pub open spec fn frame_spec(body: Seq<u8>) -> Seq<u8> {
    le32(body.len() as u32) + body
}

/// What the front of a byte buffer holds.
#[derive(Debug)]
pub enum Decoded {
    /// Not yet a whole frame.
    Incomplete,
    /// A whole frame: its body, and how many bytes of the buffer it took.
    Frame { body: Vec<u8>, consumed: usize },
}

/// Why framing failed.
#[derive(Debug, PartialEq, Eq, Structural)]
pub enum FrameError {
    /// A body too long for the length header.
    TooLong,
    /// The stream ended inside a frame.
    PartialFrame,
}

/// The length that the header at the front of `buf` announces.
pub open spec fn announced(buf: Seq<u8>) -> nat
    recommends
        buf.len() >= 4,
{
    le32_value(buf[0], buf[1], buf[2], buf[3]) as nat
}

/// Whether `buf` starts with a whole frame.
pub open spec fn has_frame(buf: Seq<u8>) -> bool {
    buf.len() >= 4 && buf.len() >= 4 + announced(buf)
}

/// The length of the frame at the front of `buf`, header included.
pub open spec fn frame_len(buf: Seq<u8>) -> nat {
    4 + announced(buf)
}

/// The body of the frame at the front of `buf`.
pub open spec fn frame_body(buf: Seq<u8>) -> Seq<u8> {
    buf.subrange(4, frame_len(buf) as int)
}

/// Frames `body` for the stream.
pub fn encode_frame(body: &[u8]) -> (r: Result<Vec<u8>, FrameError>)
    ensures
        body@.len() > u32::MAX <==> r is Err,
        r is Err ==> r == Err::<Vec<u8>, FrameError>(FrameError::TooLong),
        r is Ok ==> r->Ok_0@ == frame_spec(body@),
{
    if body.len() > 0xffff_ffff {
        return Err(FrameError::TooLong);
    }
    let n = body.len() as u32;
    let mut out: Vec<u8> = Vec::new();
    out.push((n & 0xff) as u8);
    out.push(((n >> 8) & 0xff) as u8);
    out.push(((n >> 16) & 0xff) as u8);
    out.push(((n >> 24) & 0xff) as u8);
    let mut i: usize = 0;
    while i < body.len()
        invariant
            i <= body@.len(),
            out@ == le32(n) + body@.subrange(0, i as int),
        decreases body@.len() - i,
    {
        out.push(body[i]);
        i = i + 1;
        proof {
            assert(out@ =~= le32(n) + body@.subrange(0, i as int));
        }
    }
    proof {
        assert(body@.subrange(0, body@.len() as int) =~= body@);
    }
    Ok(out)
}

/// Takes one frame from the front of `buf`, if a whole one is there.
pub fn decode_frame(buf: &[u8]) -> (r: Decoded)
    ensures
        !has_frame(buf@) ==> r is Incomplete,
        has_frame(buf@) ==> (r matches Decoded::Frame { body, consumed } && body@ == frame_body(
            buf@,
        ) && consumed as nat == frame_len(buf@)),
{
    if buf.len() < 4 {
        return Decoded::Incomplete;
    }
    let n: u32 = (buf[0] as u32) | ((buf[1] as u32) << 8) | ((buf[2] as u32) << 16) | ((
    buf[3] as u32) << 24);
    if buf.len() - 4 < n as usize {
        return Decoded::Incomplete;
    }
    let end: usize = 4 + n as usize;
    let mut body: Vec<u8> = Vec::new();
    let mut i: usize = 4;
    while i < end
        invariant
            4 <= i <= end,
            end <= buf@.len(),
            body@ == buf@.subrange(4, i as int),
        decreases end - i,
    {
        body.push(buf[i]);
        i = i + 1;
        proof {
            assert(body@ =~= buf@.subrange(4, i as int));
        }
    }
    Decoded::Frame { body, consumed: end }
}

/// Like `decode_frame`, for a stream that has ended: no bytes left is the
/// end (`Ok(None)`), a whole frame is returned, and anything else is a
/// partial frame.
pub fn decode_frame_eof(buf: &[u8]) -> (r: Result<Option<Decoded>, FrameError>)
    ensures
        buf@.len() == 0 ==> r == Ok::<Option<Decoded>, FrameError>(None),
        buf@.len() > 0 && !has_frame(buf@) ==> r == Err::<Option<Decoded>, FrameError>(
            FrameError::PartialFrame,
        ),
        has_frame(buf@) ==> (r matches Ok(Some(Decoded::Frame { body, consumed })) && body@
            == frame_body(buf@) && consumed as nat == frame_len(buf@)),
{
    if buf.len() == 0 {
        return Ok(None);
    }
    match decode_frame(buf) {
        Decoded::Incomplete => Err(FrameError::PartialFrame),
        d => Ok(Some(d)),
    }
}

/// Reading four little-endian bytes back gives the number written.
pub proof fn lemma_le32_round_trip(n: u32)
    ensures
        le32_value(le32(n)[0], le32(n)[1], le32(n)[2], le32(n)[3]) == n,
{
    assert(((n & 0xff) as u8 as u32) | ((((n >> 8u32) & 0xff) as u8 as u32) << 8u32) | ((((n
        >> 16u32) & 0xff) as u8 as u32) << 16u32) | ((((n >> 24u32) & 0xff) as u8 as u32)
        << 24u32) == n) by (bit_vector);
}

/// Decoding a frame, followed by any further bytes, gives back its body and
/// consumes exactly the frame.
pub proof fn law_frame_round_trip(body: Seq<u8>, rest: Seq<u8>)
    requires
        body.len() <= u32::MAX,
    ensures
        has_frame(frame_spec(body) + rest),
        frame_body(frame_spec(body) + rest) == body,
        frame_len(frame_spec(body) + rest) == 4 + body.len(),
{
    let buf = frame_spec(body) + rest;
    lemma_le32_round_trip(body.len() as u32);
    assert(buf[0] == le32(body.len() as u32)[0]);
    assert(buf[1] == le32(body.len() as u32)[1]);
    assert(buf[2] == le32(body.len() as u32)[2]);
    assert(buf[3] == le32(body.len() as u32)[3]);
    assert(announced(buf) == body.len());
    assert(buf.subrange(4, 4 + body.len() as int) =~= body);
}

} // verus!
