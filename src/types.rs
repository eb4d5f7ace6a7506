//! Types that plugins and the host share: the handshake record, extracted
//! request parts, and message segments.
use vstd::prelude::*;

use crate::datapack::{clone_opt_channel, clone_opt_string, Channel, DataPack};
use crate::loader::INIT_PATH;
use crate::text::str_eq;

verus! {

/// The handshake record that the host sends a plugin.
#[derive(Debug)]
pub struct Initialize<C> {
    pub config: C,
    /// The plugin id.
    pub id: String,
    /// The plugin's data directory.
    pub data_path: String,
}

impl<C> Initialize<C> {
    pub fn new(config: C, name: String, data_path: String) -> (r: Self)
        ensures
            r == (Initialize { config, id: name, data_path }),
    {
        Initialize { config, id: name, data_path }
    }

    /// The path of the handshake.
    pub fn path() -> (r: &'static str)
        ensures
            r@ == INIT_PATH@,
    {
        INIT_PATH
    }
}

/// A decoded request payload.
#[derive(Debug)]
pub struct Payload<T>(pub T);

impl<T> Payload<T> {
    pub fn into_inner(self) -> (r: T)
        ensures
            r == self.0,
    {
        self.0
    }
}

/// The bot that a request relates to, if it names one. Extracting it never
/// fails.
#[derive(Debug)]
pub struct BotId(pub Option<String>);

impl BotId {
    pub fn from_request(p: &DataPack) -> (r: BotId)
        ensures
            r.0 == p.bot_id,
    {
        BotId(clone_opt_string(&p.bot_id))
    }

    pub fn into_option(self) -> (r: Option<String>)
        ensures
            r == self.0,
    {
        self.0
    }
}

/// The channel of a request; extracting it fails when the request has none.
pub fn channel_of(p: &DataPack) -> (r: Option<Channel>)
    ensures
        r == p.channel,
{
    clone_opt_channel(&p.channel)
}

/// An error carried as its message.
#[derive(Debug)]
pub struct ErrorString(pub String);

impl ErrorString {
    pub fn new(s: String) -> (r: ErrorString)
        ensures
            r.0 == s,
    {
        ErrorString(s)
    }

    pub fn message(&self) -> (r: &String)
        ensures
            *r == self.0,
    {
        &self.0
    }
}

/// State that can hand out the bus client of a plugin.
pub trait Clientful {
    type Client;

    fn client(&self) -> &Self::Client;
}

/// A message segment of any type, its data kept encoded.
#[derive(Debug)]
pub struct Segment {
    pub ty: String,
    pub data: String,
}

impl Segment {
    pub fn text(content: String) -> (r: Segment)
        ensures
            r.ty@ == "text"@,
            r.data == content,
    {
        Segment { ty: "text".to_owned(), data: content }
    }

    pub fn image(url: String) -> (r: Segment)
        ensures
            r.ty@ == "image"@,
            r.data == url,
    {
        Segment { ty: "image".to_owned(), data: url }
    }

    pub fn img(url: String) -> (r: Segment)
        ensures
            r.ty@ == "image"@,
            r.data == url,
    {
        Segment::image(url)
    }

    pub fn at(target: String) -> (r: Segment)
        ensures
            r.ty@ == "at"@,
            r.data == target,
    {
        Segment { ty: "at".to_owned(), data: target }
    }
}

/// The segments that plugins commonly read.
#[derive(Debug)]
pub enum CommonSegment {
    Text(String),
    Image(String),
    At(String),
    Unknown(Segment),
}

impl CommonSegment {
    pub fn text(content: String) -> (r: CommonSegment)
        ensures
            r == CommonSegment::Text(content),
    {
        CommonSegment::Text(content)
    }

    pub fn image(url: String) -> (r: CommonSegment)
        ensures
            r == CommonSegment::Image(url),
    {
        CommonSegment::Image(url)
    }

    pub fn img(url: String) -> (r: CommonSegment)
        ensures
            r == CommonSegment::Image(url),
    {
        CommonSegment::image(url)
    }

    pub fn at(target: String) -> (r: CommonSegment)
        ensures
            r == CommonSegment::At(target),
    {
        CommonSegment::At(target)
    }

    /// The text of a text segment.
    pub fn text_opt(&self) -> (r: Option<&String>)
        ensures
            self matches CommonSegment::Text(t) ==> r == Some(t),
            !(self is Text) ==> r is None,
    {
        match self {
            CommonSegment::Text(t) => Some(t),
            _ => None,
        }
    }
}

/// The common reading of a segment: text, image and mention segments by
/// their type, any other kept as it is.
pub open spec fn common_of(s: Segment) -> CommonSegment {
    if s.ty@ == "text"@ {
        CommonSegment::Text(s.data)
    } else if s.ty@ == "image"@ {
        CommonSegment::Image(s.data)
    } else if s.ty@ == "at"@ {
        CommonSegment::At(s.data)
    } else {
        CommonSegment::Unknown(s)
    }
}

impl CommonSegment {
    /// Reads a segment by its type.
    pub fn from_segment(s: Segment) -> (r: CommonSegment)
        ensures
            r == common_of(s),
    {
        if str_eq(s.ty.as_str(), "text") {
            CommonSegment::Text(s.data)
        } else if str_eq(s.ty.as_str(), "image") {
            CommonSegment::Image(s.data)
        } else if str_eq(s.ty.as_str(), "at") {
            CommonSegment::At(s.data)
        } else {
            CommonSegment::Unknown(s)
        }
    }

    /// The segment with its type written out.
    pub fn into_segment(self) -> (r: Segment)
        ensures
            self matches CommonSegment::Text(t) ==> r.ty@ == "text"@ && r.data == t,
            self matches CommonSegment::Image(u) ==> r.ty@ == "image"@ && r.data == u,
            self matches CommonSegment::At(a) ==> r.ty@ == "at"@ && r.data == a,
            self matches CommonSegment::Unknown(s) ==> r == s,
    {
        match self {
            CommonSegment::Text(t) => Segment::text(t),
            CommonSegment::Image(u) => Segment::image(u),
            CommonSegment::At(a) => Segment::at(a),
            CommonSegment::Unknown(s) => s,
        }
    }
}

/// Reading a segment of a common type and writing it out again gives it back.
pub proof fn law_segment_round_trip(s: Segment, back: Segment)
    requires
        common_of(s) matches CommonSegment::Text(t) ==> back.ty@ == "text"@ && back.data == t,
        common_of(s) matches CommonSegment::Image(u) ==> back.ty@ == "image"@ && back.data == u,
        common_of(s) matches CommonSegment::At(a) ==> back.ty@ == "at"@ && back.data == a,
        common_of(s) matches CommonSegment::Unknown(u) ==> back == u,
    ensures
        back.ty@ == s.ty@,
        back.data == s.data,
{
}

/// A message as received: its id and its segments.
#[derive(Debug)]
pub struct Message<Seg> {
    pub id: String,
    pub content: Vec<Seg>,
}

/// A message to send.
#[derive(Debug)]
pub struct SendMessage<Seg> {
    pub content: Vec<Seg>,
}

impl<Seg> SendMessage<Seg> {
    pub fn new(content: Vec<Seg>) -> (r: SendMessage<Seg>)
        ensures
            r.content == content,
    {
        SendMessage { content }
    }
}

/// The texts of the text segments, concatenated.
pub open spec fn text_of(segs: Seq<CommonSegment>) -> Seq<char>
    decreases segs.len(),
{
    if segs.len() == 0 {
        Seq::empty()
    } else {
        text_of(segs.drop_last()) + match segs.last() {
            CommonSegment::Text(t) => t@,
            _ => Seq::empty(),
        }
    }
}

/// The command text of a message: its text segments, concatenated.
pub fn cmd(msg: &Vec<CommonSegment>) -> (r: String)
    ensures
        r@ == text_of(msg@),
{
    let mut s = String::new();
    let mut i: usize = 0;
    while i < msg.len()
        invariant
            i <= msg@.len(),
            s@ == text_of(msg@.subrange(0, i as int)),
        decreases msg@.len() - i,
    {
        proof {
            assert(msg@.subrange(0, i as int + 1).drop_last() =~= msg@.subrange(0, i as int));
        }
        match &msg[i] {
            CommonSegment::Text(t) => s.append(t.as_str()),
            _ => {
                proof {
                    assert(s@ + Seq::<char>::empty() =~= s@);
                }
            },
        }
        i = i + 1;
    }
    proof {
        assert(msg@.subrange(0, msg@.len() as int) =~= msg@);
    }
    s
}

} // verus!
