//! Room messages and the Matrix message events they are read from.

use crate::model::strmap::StrMap;
use crate::model::sync_response::StateEvent;
use crate::outside::{
    is_lower_hex_digest, local_date_text, md5_hex, md5_hex_of, now_time, parse_url, url_parse_result,
};
use std::convert::TryFrom;
use vstd::prelude::*;
use vstd::std_specs::cmp::PartialOrdSpecImpl;

verus! {

/// A message of a room. URLs are held in their serialized form, dates as
/// milliseconds since the Unix epoch.
pub struct Message {
    pub sender: String,
    pub mtype: String,
    pub body: String,
    pub date: i64,
    /// Nanoseconds past the millisecond of `date` (below a million), for a
    /// message dated by this client's clock; dates read from the server
    /// are whole milliseconds.
    pub date_nanos: u32,
    pub room: String,
    pub thumb: Option<String>,
    pub local_path_thumb: Option<String>,
    pub url: Option<String>,
    pub local_path: Option<String>,
    /// The event ID; messages that are still being sent have none.
    pub id: Option<String>,
    pub formatted_body: Option<String>,
    pub format: Option<String>,
    pub source: Option<String>,
    /// Read receipts: user ID to the time of the receipt, in seconds.
    pub receipt: StrMap<i64>,
    pub redacted: bool,
    /// The event ID of the message this one replies to.
    pub in_reply_to: Option<String>,
    /// The event ID of the message this one replaces.
    pub replace: Option<String>,
    pub extra_content: Option<String>,
}

/// The mathematical value of a [`Message`].
pub struct MessageView {
    pub sender: Seq<char>,
    pub mtype: Seq<char>,
    pub body: Seq<char>,
    pub date: i64,
    pub date_nanos: u32,
    pub room: Seq<char>,
    pub thumb: Option<Seq<char>>,
    pub local_path_thumb: Option<Seq<char>>,
    pub url: Option<Seq<char>>,
    pub local_path: Option<Seq<char>>,
    pub id: Option<Seq<char>>,
    pub formatted_body: Option<Seq<char>>,
    pub format: Option<Seq<char>>,
    pub source: Option<Seq<char>>,
    pub receipt: Map<Seq<char>, i64>,
    pub redacted: bool,
    pub in_reply_to: Option<Seq<char>>,
    pub replace: Option<Seq<char>>,
    pub extra_content: Option<Seq<char>>,
}

impl View for Message {
    type V = MessageView;

    open spec fn view(&self) -> MessageView {
        MessageView {
            sender: self.sender@,
            mtype: self.mtype@,
            body: self.body@,
            date: self.date,
            date_nanos: self.date_nanos,
            room: self.room@,
            thumb: self.thumb.deep_view(),
            local_path_thumb: self.local_path_thumb.deep_view(),
            url: self.url.deep_view(),
            local_path: self.local_path.deep_view(),
            id: self.id.deep_view(),
            formatted_body: self.formatted_body.deep_view(),
            format: self.format.deep_view(),
            source: self.source.deep_view(),
            receipt: self.receipt.map(),
            redacted: self.redacted,
            in_reply_to: self.in_reply_to.deep_view(),
            replace: self.replace.deep_view(),
            extra_content: self.extra_content.deep_view(),
        }
    }
}

impl DeepView for Message {
    type V = MessageView;

    open spec fn deep_view(&self) -> MessageView {
        self@
    }
}

/// What a message relates to.
pub enum Relation {
    /// It replaces the event with this ID.
    Replacement(String),
    /// It replies to the event with this ID.
    Reply(String),
    /// Another kind of relation.
    Other,
}

/// A formatted body: its format (such as `org.matrix.custom.html`) and text.
pub struct FormattedBody {
    pub format: String,
    pub body: String,
}

/// The new content of an edited message.
pub struct NewContent {
    pub body: String,
    pub formatted: Option<FormattedBody>,
    pub relates_to: Option<Relation>,
}

/// The content of a text or notice message.
pub struct TextContent {
    pub body: String,
    pub formatted: Option<FormattedBody>,
    pub relates_to: Option<Relation>,
    pub new_content: Option<NewContent>,
}

/// The content of an `m.room.message` event, by message type.
pub enum MessageContent {
    Audio { body: String, url: Option<String> },
    /// `thumbnail_url` is the thumbnail URL of the file's info, if both are set.
    File { body: String, url: Option<String>, thumbnail_url: Option<String> },
    Image { body: String, url: Option<String>, thumbnail_url: Option<String> },
    Video { body: String, url: Option<String>, thumbnail_url: Option<String> },
    Text(TextContent),
    Emote { body: String, formatted: Option<FormattedBody> },
    Location { body: String },
    Notice(TextContent),
    ServerNotice { body: String },
    /// A message type this client does not show.
    Other,
}

/// What every room event carries. `source` is the event's JSON text, when
/// it could be serialized.
pub struct EventMeta {
    pub sender: String,
    pub origin_server_ts: i64,
    pub room_id: String,
    pub event_id: String,
    pub source: Option<String>,
}

/// An `m.room.message` event.
pub struct MessageEvent {
    pub meta: EventMeta,
    pub content: MessageContent,
}

/// The content of an `m.sticker` event.
pub struct StickerContent {
    pub body: String,
    pub url: String,
    pub thumbnail_url: Option<String>,
}

/// An `m.sticker` event.
pub struct StickerEvent {
    pub meta: EventMeta,
    pub content: StickerContent,
}

/// A redacted `m.room.message` event.
pub struct RedactedMessageEvent {
    pub meta: EventMeta,
}

/// A redacted `m.sticker` event.
pub struct RedactedStickerEvent {
    pub meta: EventMeta,
}

/// A room event, as far as messages are concerned.
pub enum AnyRoomEvent {
    Message(MessageEvent),
    Sticker(StickerEvent),
    RedactedMessage(RedactedMessageEvent),
    RedactedSticker(RedactedStickerEvent),
    /// A state event of the timeline.
    State(StateEvent),
    /// A redaction of the event with ID `redacts`.
    Redaction { redacts: String },
    /// Any other event.
    Other,
}

/// The serialization of a URL, or nothing when there is none or it does not
/// parse.
pub open spec fn parsed_url_or_none(u: Option<Seq<char>>) -> Option<Seq<char>> {
    match u {
        Some(s) => match url_parse_result(s) {
            Ok(p) => Some(p),
            Err(_) => None,
        },
        None => None,
    }
}

/// Parses an optional URL, dropping it when it does not parse.
pub fn parse_url_or_none(u: &Option<String>) -> (r: Option<String>)
    ensures
        r.deep_view() == parsed_url_or_none(u.deep_view()),
{
    match u {
        Some(s) => match parse_url(s.as_str()) {
            Ok(p) => Some(p),
            Err(_) => None,
        },
        None => None,
    }
}

/// The first option when it is set, else the second.
pub open spec fn or_else_opt(a: Option<Seq<char>>, b: Option<Seq<char>>) -> Option<Seq<char>> {
    match a {
        Some(x) => Some(x),
        None => b,
    }
}

/// The message an event gives before its content is read: no type, no
/// body, no receipts.
pub open spec fn base_message(meta: &EventMeta) -> MessageView {
    MessageView {
        sender: meta.sender@,
        mtype: Seq::empty(),
        body: Seq::empty(),
        date: meta.origin_server_ts,
        date_nanos: 0,
        room: meta.room_id@,
        thumb: None,
        local_path_thumb: None,
        url: None,
        local_path: None,
        id: Some(meta.event_id@),
        formatted_body: None,
        format: None,
        source: meta.source.deep_view(),
        receipt: Map::empty(),
        redacted: false,
        in_reply_to: None,
        replace: None,
        extra_content: None,
    }
}

/// The formatted body and format of an optional formatted body.
pub open spec fn formatted_parts(f: Option<FormattedBody>) -> (Option<Seq<char>>, Option<Seq<char>>) {
    match f {
        Some(f) => (Some(f.body@), Some(f.format@)),
        None => (None, None),
    }
}

/// The message a text or notice content gives: an edit takes its body,
/// formatting and reply from the new content; the replaced event comes
/// from the outer relation.
pub open spec fn text_message(mtype: Seq<char>, c: &TextContent, b: MessageView) -> MessageView {
    let rel = match c.relates_to {
        Some(Relation::Replacement(id)) => (None::<Seq<char>>, Some(id@)),
        Some(Relation::Reply(id)) => (Some(id@), None::<Seq<char>>),
        _ => (None::<Seq<char>>, None::<Seq<char>>),
    };
    let (body, formatted, in_reply_to) = match c.new_content {
        Some(nc) => (
            nc.body@,
            nc.formatted,
            match nc.relates_to {
                Some(Relation::Reply(id)) => Some(id@),
                _ => None,
            },
        ),
        None => (c.body@, c.formatted, rel.0),
    };
    MessageView {
        mtype,
        body,
        formatted_body: formatted_parts(formatted).0,
        format: formatted_parts(formatted).1,
        in_reply_to,
        replace: rel.1,
        ..b
    }
}

/// The message an attachment content (file, image, video) gives: the
/// thumbnail is the info's thumbnail URL when it parses, else the URL.
pub open spec fn attachment_message(
    mtype: Seq<char>,
    body: Seq<char>,
    url: Option<Seq<char>>,
    thumbnail_url: Option<Seq<char>>,
    b: MessageView,
) -> MessageView {
    let u = parsed_url_or_none(url);
    MessageView {
        mtype,
        body,
        url: u,
        thumb: or_else_opt(parsed_url_or_none(thumbnail_url), u),
        ..b
    }
}

/// The message an `m.room.message` event gives.
pub open spec fn message_of_event(ev: &MessageEvent) -> MessageView {
    let b = base_message(&ev.meta);
    match ev.content {
        MessageContent::Audio { body, url } => MessageView {
            mtype: "m.audio"@,
            body: body@,
            url: parsed_url_or_none(url.deep_view()),
            ..b
        },
        MessageContent::File { body, url, thumbnail_url } => attachment_message(
            "m.file"@,
            body@,
            url.deep_view(),
            thumbnail_url.deep_view(),
            b,
        ),
        MessageContent::Image { body, url, thumbnail_url } => attachment_message(
            "m.image"@,
            body@,
            url.deep_view(),
            thumbnail_url.deep_view(),
            b,
        ),
        MessageContent::Video { body, url, thumbnail_url } => attachment_message(
            "m.video"@,
            body@,
            url.deep_view(),
            thumbnail_url.deep_view(),
            b,
        ),
        MessageContent::Text(c) => text_message("m.text"@, &c, b),
        MessageContent::Emote { body, formatted } => MessageView {
            mtype: "m.emote"@,
            body: body@,
            formatted_body: formatted_parts(formatted).0,
            format: formatted_parts(formatted).1,
            ..b
        },
        MessageContent::Location { body } => MessageView { mtype: "m.location"@, body: body@, ..b },
        MessageContent::Notice(c) => text_message("m.notice"@, &c, b),
        MessageContent::ServerNotice { body } => MessageView {
            mtype: "m.server_notice"@,
            body: body@,
            ..b
        },
        MessageContent::Other => b,
    }
}

/// Whether a message takes its URL and thumbnail as an attachment with the
/// given URL and thumbnail URL: the URL is kept where it parses; the
/// thumbnail is the parsed thumbnail URL where that parses, and only
/// otherwise the parsed URL.
pub open spec fn attachment_urls_kept(m: MessageView, url: Option<Seq<char>>, thumbnail_url: Option<Seq<char>>) -> bool {
    &&& m.url == match url {
        Some(u) => match url_parse_result(u) {
            Ok(p) => Some(p),
            Err(_) => None,
        },
        None => None,
    }
    &&& thumbnail_url is Some && url_parse_result(thumbnail_url->Some_0) is Ok ==> m.thumb == Some(
        url_parse_result(thumbnail_url->Some_0)->Ok_0,
    )
    &&& !(thumbnail_url is Some && url_parse_result(thumbnail_url->Some_0) is Ok) ==> m.thumb == m.url
}

/// A file, image or video message has the parsed URL of its content, and
/// as thumbnail the parsed thumbnail URL of its info, falling back on the
/// URL only where the thumbnail URL is missing or does not parse.
pub proof fn lemma_attachment_thumbnail(ev: MessageEvent)
    ensures
        ev.content matches MessageContent::File { url, thumbnail_url, .. } ==> attachment_urls_kept(
            message_of_event(&ev),
            url.deep_view(),
            thumbnail_url.deep_view(),
        ),
        ev.content matches MessageContent::Image { url, thumbnail_url, .. } ==> attachment_urls_kept(
            message_of_event(&ev),
            url.deep_view(),
            thumbnail_url.deep_view(),
        ),
        ev.content matches MessageContent::Video { url, thumbnail_url, .. } ==> attachment_urls_kept(
            message_of_event(&ev),
            url.deep_view(),
            thumbnail_url.deep_view(),
        ),
{
}

/// A sticker message has the parsed URL of its image, and as thumbnail
/// the parsed thumbnail URL, falling back on the URL only where the
/// thumbnail URL is missing or does not parse.
pub proof fn lemma_sticker_thumbnail(ev: StickerEvent)
    ensures
        attachment_urls_kept(message_of_sticker(&ev), Some(ev.content.url@), ev.content.thumbnail_url.deep_view()),
{
}

/// The message an `m.sticker` event gives.
pub open spec fn message_of_sticker(ev: &StickerEvent) -> MessageView {
    let u = parsed_url_or_none(Some(ev.content.url@));
    MessageView {
        mtype: "m.sticker"@,
        body: ev.content.body@,
        url: u,
        thumb: or_else_opt(parsed_url_or_none(ev.content.thumbnail_url.deep_view()), u),
        ..base_message(&ev.meta)
    }
}

/// The message a redacted event of the given type gives.
pub open spec fn message_of_redacted(meta: &EventMeta, mtype: Seq<char>) -> MessageView {
    MessageView { mtype, redacted: true, ..base_message(meta) }
}

/// A copy of an optional formatted body.
fn clone_formatted(f: &Option<FormattedBody>) -> (r: Option<FormattedBody>)
    ensures
        formatted_parts(r) == formatted_parts(*f),
{
    match f {
        Some(f) => Some(FormattedBody { format: f.format.clone(), body: f.body.clone() }),
        None => None,
    }
}

/// Splits an optional formatted body into its body and format.
fn split_formatted(f: Option<FormattedBody>) -> (r: (Option<String>, Option<String>))
    ensures
        (r.0.deep_view(), r.1.deep_view()) == formatted_parts(f),
{
    match f {
        Some(f) => (Some(f.body), Some(f.format)),
        None => (None, None),
    }
}

impl Message {
    /// The message of an event, before its content is read.
    fn from_meta(meta: &EventMeta) -> (m: Message)
        ensures
            m@ == base_message(meta),
    {
        let m = Message {
            sender: meta.sender.clone(),
            mtype: String::new(),
            body: String::new(),
            date: meta.origin_server_ts,
            date_nanos: 0,
            room: meta.room_id.clone(),
            thumb: None,
            local_path_thumb: None,
            url: None,
            local_path: None,
            id: Some(meta.event_id.clone()),
            formatted_body: None,
            format: None,
            source: crate::model::member::clone_opt_string(&meta.source),
            receipt: StrMap::new(),
            redacted: false,
            in_reply_to: None,
            replace: None,
            extra_content: None,
        };
        assert(m@ =~= base_message(meta));
        m
    }

    /// Fills in the fields of a text or notice message.
    fn fill_text(mut m: Message, mtype: String, c: &TextContent) -> (r: Message)
        ensures
            r@ == text_message(mtype@, c, m@),
    {
        let (in_reply_to, replace) = match &c.relates_to {
            Some(Relation::Replacement(id)) => (None, Some(id.clone())),
            Some(Relation::Reply(id)) => (Some(id.clone()), None),
            _ => (None, None),
        };
        let (body, formatted, in_reply_to) = match &c.new_content {
            Some(nc) => (
                nc.body.clone(),
                clone_formatted(&nc.formatted),
                match &nc.relates_to {
                    Some(Relation::Reply(id)) => Some(id.clone()),
                    _ => None,
                },
            ),
            None => (c.body.clone(), clone_formatted(&c.formatted), in_reply_to),
        };
        let (formatted_body, format) = split_formatted(formatted);
        m.mtype = mtype;
        m.body = body;
        m.formatted_body = formatted_body;
        m.format = format;
        m.in_reply_to = in_reply_to;
        m.replace = replace;
        m
    }

    /// Fills in the fields of an attachment message.
    fn fill_attachment(
        mut m: Message,
        mtype: String,
        body: &String,
        url: &Option<String>,
        thumbnail_url: &Option<String>,
    ) -> (r: Message)
        ensures
            r@ == attachment_message(
                mtype@,
                body@,
                url.deep_view(),
                thumbnail_url.deep_view(),
                m@,
            ),
    {
        let u = parse_url_or_none(url);
        let t = match parse_url_or_none(thumbnail_url) {
            Some(t) => Some(t),
            None => crate::model::member::clone_opt_string(&u),
        };
        m.mtype = mtype;
        m.body = body.clone();
        m.url = u;
        m.thumb = t;
        m
    }

    /// A new message being composed by this client, dated now.
    pub fn new(room: String, sender: String, body: String, mtype: String, id: Option<String>) -> (m:
        Message)
        ensures
            m@ == (MessageView {
                date: m.date,
                date_nanos: m.date_nanos,
                ..base_new(room@, sender@, body@, mtype@, id.deep_view())
            }),
            m.date_nanos < 1_000_000,
    {
        let (date, subsec_nanos) = now_time();
        let date_nanos: u32 = subsec_nanos % 1_000_000;
        let m = Message {
            id,
            sender,
            mtype,
            body,
            date,
            date_nanos,
            room,
            thumb: None,
            local_path_thumb: None,
            url: None,
            local_path: None,
            formatted_body: None,
            format: None,
            source: None,
            receipt: StrMap::new(),
            redacted: false,
            in_reply_to: None,
            replace: None,
            extra_content: None,
        };
        assert(m@ =~= (MessageView {
            date: m.date,
            date_nanos: m.date_nanos,
            ..base_new(room@, sender@, body@, mtype@, id.deep_view())
        }));
        m
    }

    /// The transaction ID of this message given the text of its date: the
    /// lowercase hex MD5 digest of the room ID, the body and the date text.
    pub fn txn_id_for_date_text(&self, date_text: &str) -> (r: String)
        ensures
            r@ == md5_hex_of(self.room@ + self.body@ + date_text@),
            is_lower_hex_digest(r@),
    {
        let mut s = self.room.clone();
        s.append(self.body.as_str());
        s.append(date_text);
        md5_hex(s.as_str())
    }

    /// A unique transaction ID for this message: the MD5 digest of its room
    /// ID, body and date, the date written as local time to the
    /// nanosecond.
    pub fn get_txn_id(&self) -> (r: String)
        ensures
            exists|d: Seq<char>| r@ == md5_hex_of(self.room@ + self.body@ + d),
            is_lower_hex_digest(r@),
    {
        let q: i64 = self.date / 1000;
        let rem: i64 = self.date % 1000;
        let (secs, ms_in_second): (i64, i64) = if rem < 0 {
            (q - 1, rem + 1000)
        } else {
            (q, rem)
        };
        let nanos: u32 = (ms_in_second as u32) * 1_000_000 + self.date_nanos % 1_000_000;
        let d = local_date_text(secs, nanos);
        let r = self.txn_id_for_date_text(d.as_str());
        assert(r@ == md5_hex_of(self.room@ + self.body@ + d@));
        r
    }

    /// Replaces the read receipts of this message.
    pub fn set_receipt(&mut self, receipt: StrMap<i64>)
        ensures
            final(self)@ == (MessageView { receipt: receipt.map(), ..old(self)@ }),
    {
        self.receipt = receipt;
    }
}

/// The IDs of the messages a message relates to: the one it replaces and
/// the one it replies to.
pub open spec fn relations_of(m: MessageView) -> Set<Seq<char>> {
    let r = match m.replace {
        Some(x) => set![x],
        None => Set::empty(),
    };
    match m.in_reply_to {
        Some(y) => r.insert(y),
        None => r,
    }
}

impl Message {
    /// The IDs of the messages this one relates to: the one it replaces and
    /// the one it replies to.
    pub fn relations(&self) -> (r: Vec<String>)
        ensures
            r.deep_view().to_set() == relations_of(self@),
    {
        let mut r: Vec<String> = Vec::new();
        if let Some(x) = &self.replace {
            r.push(x.clone());
        }
        if let Some(y) = &self.in_reply_to {
            r.push(y.clone());
        }
        assert(r.deep_view().to_set() =~= relations_of(self@)) by {
            assert forall|z: Seq<char>| r.deep_view().to_set().contains(z) <==> relations_of(self@).contains(z) by {
                if relations_of(self@).contains(z) {
                    if self@.replace == Some(z) {
                        assert(r.deep_view()[0] == z);
                    } else {
                        assert(r.deep_view()[r.deep_view().len() - 1] == z);
                    }
                }
            }
        }
        r
    }
}

/// A message composed by this client before it is dated.
pub open spec fn base_new(
    room: Seq<char>,
    sender: Seq<char>,
    body: Seq<char>,
    mtype: Seq<char>,
    id: Option<Seq<char>>,
) -> MessageView {
    MessageView {
        sender,
        mtype,
        body,
        date: 0,
        date_nanos: 0,
        room,
        thumb: None,
        local_path_thumb: None,
        url: None,
        local_path: None,
        id,
        formatted_body: None,
        format: None,
        source: None,
        receipt: Map::empty(),
        redacted: false,
        in_reply_to: None,
        replace: None,
        extra_content: None,
    }
}

impl From<MessageEvent> for Message {
    /// The message an `m.room.message` event gives.
    fn from(msg: MessageEvent) -> (m: Message)
        ensures
            m@ == message_of_event(&msg),
            msg.content matches MessageContent::File { url, thumbnail_url, .. } ==> attachment_urls_kept(
                m@,
                url.deep_view(),
                thumbnail_url.deep_view(),
            ),
            msg.content matches MessageContent::Image { url, thumbnail_url, .. } ==> attachment_urls_kept(
                m@,
                url.deep_view(),
                thumbnail_url.deep_view(),
            ),
            msg.content matches MessageContent::Video { url, thumbnail_url, .. } ==> attachment_urls_kept(
                m@,
                url.deep_view(),
                thumbnail_url.deep_view(),
            ),
    {
        let mut m = Message::from_meta(&msg.meta);
        match &msg.content {
            MessageContent::Audio { body, url } => {
                m.mtype = "m.audio".to_owned();
                m.body = body.clone();
                m.url = parse_url_or_none(url);
                m
            },
            MessageContent::File { body, url, thumbnail_url } => {
                Message::fill_attachment(m, "m.file".to_owned(), body, url, thumbnail_url)
            },
            MessageContent::Image { body, url, thumbnail_url } => {
                Message::fill_attachment(m, "m.image".to_owned(), body, url, thumbnail_url)
            },
            MessageContent::Video { body, url, thumbnail_url } => {
                Message::fill_attachment(m, "m.video".to_owned(), body, url, thumbnail_url)
            },
            MessageContent::Text(c) => Message::fill_text(m, "m.text".to_owned(), c),
            MessageContent::Emote { body, formatted } => {
                let (formatted_body, format) = split_formatted(clone_formatted(formatted));
                m.mtype = "m.emote".to_owned();
                m.body = body.clone();
                m.formatted_body = formatted_body;
                m.format = format;
                m
            },
            MessageContent::Location { body } => {
                m.mtype = "m.location".to_owned();
                m.body = body.clone();
                m
            },
            MessageContent::Notice(c) => Message::fill_text(m, "m.notice".to_owned(), c),
            MessageContent::ServerNotice { body } => {
                m.mtype = "m.server_notice".to_owned();
                m.body = body.clone();
                m
            },
            MessageContent::Other => m,
        }
    }
}

impl vstd::std_specs::convert::FromSpecImpl<MessageEvent> for Message {
    /// The conversion's contract is stated on `from` itself, over views.
    open spec fn obeys_from_spec() -> bool {
        false
    }

    open spec fn from_spec(v: MessageEvent) -> Message {
        vstd::pervasive::arbitrary()
    }
}

impl From<StickerEvent> for Message {
    /// The message an `m.sticker` event gives.
    fn from(msg: StickerEvent) -> (m: Message)
        ensures
            m@ == message_of_sticker(&msg),
            attachment_urls_kept(m@, Some(msg.content.url@), msg.content.thumbnail_url.deep_view()),
    {
        let mut m = Message::from_meta(&msg.meta);
        let url = parse_url_or_none(&Some(msg.content.url.clone()));
        let thumb = match parse_url_or_none(&msg.content.thumbnail_url) {
            Some(t) => Some(t),
            None => crate::model::member::clone_opt_string(&url),
        };
        m.mtype = "m.sticker".to_owned();
        m.body = msg.content.body;
        m.url = url;
        m.thumb = thumb;
        m
    }
}

impl vstd::std_specs::convert::FromSpecImpl<StickerEvent> for Message {
    /// The conversion's contract is stated on `from` itself, over views.
    open spec fn obeys_from_spec() -> bool {
        false
    }

    open spec fn from_spec(v: StickerEvent) -> Message {
        vstd::pervasive::arbitrary()
    }
}

impl From<RedactedMessageEvent> for Message {
    /// The message a redacted `m.room.message` event gives.
    fn from(msg: RedactedMessageEvent) -> (m: Message)
        ensures
            m@ == message_of_redacted(&msg.meta, "m.room.message"@),
    {
        let mut m = Message::from_meta(&msg.meta);
        m.mtype = "m.room.message".to_owned();
        m.redacted = true;
        m
    }
}

impl vstd::std_specs::convert::FromSpecImpl<RedactedMessageEvent> for Message {
    /// The conversion's contract is stated on `from` itself, over views.
    open spec fn obeys_from_spec() -> bool {
        false
    }

    open spec fn from_spec(v: RedactedMessageEvent) -> Message {
        vstd::pervasive::arbitrary()
    }
}

impl From<RedactedStickerEvent> for Message {
    /// The message a redacted `m.sticker` event gives.
    fn from(msg: RedactedStickerEvent) -> (m: Message)
        ensures
            m@ == message_of_redacted(&msg.meta, "m.sticker"@),
    {
        let mut m = Message::from_meta(&msg.meta);
        m.mtype = "m.sticker".to_owned();
        m.redacted = true;
        m
    }
}

impl vstd::std_specs::convert::FromSpecImpl<RedactedStickerEvent> for Message {
    /// The conversion's contract is stated on `from` itself, over views.
    open spec fn obeys_from_spec() -> bool {
        false
    }

    open spec fn from_spec(v: RedactedStickerEvent) -> Message {
        vstd::pervasive::arbitrary()
    }
}

/// The message a room event gives, if it is a message or sticker event.
pub open spec fn message_of_room_event(event: &AnyRoomEvent) -> Option<MessageView> {
    match event {
        AnyRoomEvent::Message(ev) => Some(message_of_event(ev)),
        AnyRoomEvent::Sticker(ev) => Some(message_of_sticker(ev)),
        AnyRoomEvent::RedactedMessage(ev) => Some(message_of_redacted(&ev.meta, "m.room.message"@)),
        AnyRoomEvent::RedactedSticker(ev) => Some(message_of_redacted(&ev.meta, "m.sticker"@)),
        _ => None,
    }
}

impl TryFrom<AnyRoomEvent> for Message {
    type Error = ();

    /// The message of a message or sticker event, redacted or not; any
    /// other event is refused.
    fn try_from(event: AnyRoomEvent) -> (r: Result<Message, ()>)
        ensures
            match (r, message_of_room_event(&event)) {
                (Ok(m), Some(v)) => m@ == v,
                (Err(_), None) => true,
                _ => false,
            },
    {
        match event {
            AnyRoomEvent::Message(ev) => Ok(Message::from(ev)),
            AnyRoomEvent::Sticker(ev) => Ok(Message::from(ev)),
            AnyRoomEvent::RedactedMessage(ev) => Ok(Message::from(ev)),
            AnyRoomEvent::RedactedSticker(ev) => Ok(Message::from(ev)),
            _ => Err(()),
        }
    }
}

impl vstd::std_specs::convert::TryFromSpecImpl<AnyRoomEvent> for Message {
    /// The conversion's contract is stated on `try_from` itself, over views.
    open spec fn obeys_try_from_spec() -> bool {
        false
    }

    open spec fn try_from_spec(v: AnyRoomEvent) -> Result<Message, ()> {
        vstd::pervasive::arbitrary()
    }
}

/// The meta data of an event, with its room ID set.
pub open spec fn with_room(meta: EventMeta, room_id: String) -> EventMeta {
    EventMeta { room_id, ..meta }
}

/// A room event of a sync response (which carries no room ID) made full
/// with the ID of the room it came in.
pub open spec fn into_full_event(event: AnyRoomEvent, room_id: String) -> AnyRoomEvent {
    match event {
        AnyRoomEvent::Message(ev) => AnyRoomEvent::Message(
            MessageEvent { meta: with_room(ev.meta, room_id), content: ev.content },
        ),
        AnyRoomEvent::Sticker(ev) => AnyRoomEvent::Sticker(
            StickerEvent { meta: with_room(ev.meta, room_id), content: ev.content },
        ),
        AnyRoomEvent::RedactedMessage(ev) => AnyRoomEvent::RedactedMessage(
            RedactedMessageEvent { meta: with_room(ev.meta, room_id) },
        ),
        AnyRoomEvent::RedactedSticker(ev) => AnyRoomEvent::RedactedSticker(
            RedactedStickerEvent { meta: with_room(ev.meta, room_id) },
        ),
        other => other,
    }
}

impl AnyRoomEvent {
    /// Sets the room ID of this event, as a sync response's events carry none.
    pub fn into_full_event(self, room_id: String) -> (r: AnyRoomEvent)
        ensures
            r == into_full_event(self, room_id),
    {
        match self {
            AnyRoomEvent::Message(ev) => AnyRoomEvent::Message(
                MessageEvent { meta: EventMeta { room_id, ..ev.meta }, content: ev.content },
            ),
            AnyRoomEvent::Sticker(ev) => AnyRoomEvent::Sticker(
                StickerEvent { meta: EventMeta { room_id, ..ev.meta }, content: ev.content },
            ),
            AnyRoomEvent::RedactedMessage(ev) => AnyRoomEvent::RedactedMessage(
                RedactedMessageEvent { meta: EventMeta { room_id, ..ev.meta } },
            ),
            AnyRoomEvent::RedactedSticker(ev) => AnyRoomEvent::RedactedSticker(
                RedactedStickerEvent { meta: EventMeta { room_id, ..ev.meta } },
            ),
            other => other,
        }
    }
}

impl TryFrom<(String, AnyRoomEvent)> for Message {
    type Error = ();

    /// The message of an event of a sync response, in the room with the
    /// given ID.
    fn try_from(input: (String, AnyRoomEvent)) -> (r: Result<Message, ()>)
        ensures
            match (r, message_of_room_event(&into_full_event(input.1, input.0))) {
                (Ok(m), Some(v)) => m@ == v,
                (Err(_), None) => true,
                _ => false,
            },
    {
        let (room_id, event) = input;
        Message::try_from(event.into_full_event(room_id))
    }
}

impl vstd::std_specs::convert::TryFromSpecImpl<(String, AnyRoomEvent)> for Message {
    /// The conversion's contract is stated on `try_from` itself, over views.
    open spec fn obeys_try_from_spec() -> bool {
        false
    }

    open spec fn try_from_spec(v: (String, AnyRoomEvent)) -> Result<Message, ()> {
        vstd::pervasive::arbitrary()
    }
}

/// Whether two optional event IDs are equal.
pub fn same_id(a: &Option<String>, b: &Option<String>) -> (r: bool)
    ensures
        r == (a.deep_view() == b.deep_view()),
{
    match (a, b) {
        (Some(x), Some(y)) => crate::text::str_eq(x.as_str(), y.as_str()),
        (None, None) => true,
        _ => false,
    }
}

impl PartialEq for Message {
    /// Two messages are the same when their event IDs are.
    fn eq(&self, other: &Message) -> (r: bool) {
        same_id(&self.id, &other.id)
    }
}

impl vstd::std_specs::cmp::PartialEqSpecImpl for Message {
    open spec fn obeys_eq_spec() -> bool {
        true
    }

    open spec fn eq_spec(&self, other: &Message) -> bool {
        self.id.deep_view() == other.id.deep_view()
    }
}

impl PartialOrd for Message {
    /// Messages are ordered by date; a message is equal to one with the
    /// same event ID.
    fn partial_cmp(&self, other: &Message) -> (r: Option<std::cmp::Ordering>) {
        if same_id(&self.id, &other.id) {
            Some(std::cmp::Ordering::Equal)
        } else if self.date < other.date {
            Some(std::cmp::Ordering::Less)
        } else if self.date > other.date {
            Some(std::cmp::Ordering::Greater)
        } else {
            Some(std::cmp::Ordering::Equal)
        }
    }
}

impl PartialOrdSpecImpl for Message {
    open spec fn obeys_partial_cmp_spec() -> bool {
        true
    }

    open spec fn partial_cmp_spec(&self, other: &Message) -> Option<std::cmp::Ordering> {
        if self.id.deep_view() == other.id.deep_view() {
            Some(std::cmp::Ordering::Equal)
        } else if self.date < other.date {
            Some(std::cmp::Ordering::Less)
        } else if self.date > other.date {
            Some(std::cmp::Ordering::Greater)
        } else {
            Some(std::cmp::Ordering::Equal)
        }
    }
}

} // verus!
