use fractal_gtk::model::message::{
    AnyRoomEvent, EventMeta, FormattedBody, Message, MessageContent, MessageEvent, NewContent,
    RedactedMessageEvent, RedactedStickerEvent, Relation, StickerContent, StickerEvent, TextContent,
};
use fractal_gtk::model::strmap::StrMap;
use chrono::TimeZone;
use std::convert::TryFrom;

fn meta(id: &str, ts: i64) -> EventMeta {
    EventMeta {
        sender: "@alice:example.org".to_string(),
        origin_server_ts: ts,
        room_id: "!room:example.org".to_string(),
        event_id: id.to_string(),
        source: Some("{}".to_string()),
    }
}

fn text(body: &str) -> TextContent {
    TextContent { body: body.to_string(), formatted: None, relates_to: None, new_content: None }
}

#[test]
fn text_message_from_event() {
    let ev = MessageEvent { meta: meta("$1", 1000), content: MessageContent::Text(text("hello")) };
    let m = Message::from(ev);
    assert_eq!(m.mtype, "m.text");
    assert_eq!(m.body, "hello");
    assert_eq!(m.date, 1000);
    assert_eq!(m.id.as_deref(), Some("$1"));
    assert_eq!(m.room, "!room:example.org");
    assert_eq!(m.source.as_deref(), Some("{}"));
    assert!(!m.redacted);
    assert!(m.in_reply_to.is_none() && m.replace.is_none());
}

#[test]
fn reply_and_formatting_are_read() {
    let mut c = text("> quoted\n\nreply");
    c.relates_to = Some(Relation::Reply("$0".to_string()));
    c.formatted = Some(FormattedBody { format: "org.matrix.custom.html".to_string(), body: "<b>reply</b>".to_string() });
    let m = Message::from(MessageEvent { meta: meta("$2", 5), content: MessageContent::Text(c) });
    assert_eq!(m.in_reply_to.as_deref(), Some("$0"));
    assert_eq!(m.format.as_deref(), Some("org.matrix.custom.html"));
    assert_eq!(m.formatted_body.as_deref(), Some("<b>reply</b>"));
}

#[test]
fn edit_takes_new_content() {
    let mut c = text("* fixed");
    c.relates_to = Some(Relation::Replacement("$orig".to_string()));
    c.new_content = Some(NewContent { body: "fixed".to_string(), formatted: None, relates_to: None });
    let m = Message::from(MessageEvent { meta: meta("$3", 5), content: MessageContent::Notice(c) });
    assert_eq!(m.mtype, "m.notice");
    assert_eq!(m.body, "fixed");
    assert_eq!(m.replace.as_deref(), Some("$orig"));
    assert!(m.in_reply_to.is_none());
}

#[test]
fn image_thumbnail_falls_back_to_url() {
    let content = MessageContent::Image {
        body: "cat.png".to_string(),
        url: Some("mxc://example.org/abc".to_string()),
        thumbnail_url: Some("not a url".to_string()),
    };
    let m = Message::from(MessageEvent { meta: meta("$4", 5), content });
    assert_eq!(m.mtype, "m.image");
    assert_eq!(m.url.as_deref(), Some("mxc://example.org/abc"));
    assert_eq!(m.thumb.as_deref(), Some("mxc://example.org/abc"));
}

#[test]
fn other_message_kinds() {
    let audio = Message::from(MessageEvent {
        meta: meta("$5", 5),
        content: MessageContent::Audio { body: "song".to_string(), url: Some("bad".to_string()) },
    });
    assert_eq!(audio.mtype, "m.audio");
    assert!(audio.url.is_none());
    let emote = Message::from(MessageEvent {
        meta: meta("$6", 5),
        content: MessageContent::Emote { body: "waves".to_string(), formatted: None },
    });
    assert_eq!(emote.mtype, "m.emote");
    let loc = Message::from(MessageEvent { meta: meta("$7", 5), content: MessageContent::Location { body: "here".to_string() } });
    assert_eq!(loc.mtype, "m.location");
    let notice = Message::from(MessageEvent { meta: meta("$8", 5), content: MessageContent::ServerNotice { body: "n".to_string() } });
    assert_eq!(notice.mtype, "m.server_notice");
    let other = Message::from(MessageEvent { meta: meta("$9", 5), content: MessageContent::Other });
    assert_eq!(other.mtype, "");
    assert_eq!(other.body, "");
}

#[test]
fn sticker_and_redactions() {
    let s = Message::from(StickerEvent {
        meta: meta("$s", 1),
        content: StickerContent { body: "smile".to_string(), url: "mxc://x.org/s".to_string(), thumbnail_url: None },
    });
    assert_eq!(s.mtype, "m.sticker");
    assert_eq!(s.thumb.as_deref(), Some("mxc://x.org/s"));
    let r = Message::from(RedactedMessageEvent { meta: meta("$r", 1) });
    assert!(r.redacted);
    assert_eq!(r.mtype, "m.room.message");
    let rs = Message::from(RedactedStickerEvent { meta: meta("$rs", 1) });
    assert!(rs.redacted);
    assert_eq!(rs.mtype, "m.sticker");
}

#[test]
fn only_message_events_give_messages() {
    assert!(Message::try_from(AnyRoomEvent::Other).is_err());
    assert!(Message::try_from(AnyRoomEvent::Redaction { redacts: "$x".to_string() }).is_err());
    let mut m = meta("$10", 1);
    m.room_id = String::new();
    let ev = AnyRoomEvent::Message(MessageEvent { meta: m, content: MessageContent::Text(text("hi")) });
    let msg = Message::try_from(("!other:example.org".to_string(), ev)).unwrap();
    assert_eq!(msg.room, "!other:example.org");
}

#[test]
fn messages_equal_by_id_and_ordered_by_date() {
    let a = Message::new("!r:x.org".into(), "@a:x.org".into(), "a".into(), "m.text".into(), Some("$a".into()));
    let mut b = Message::new("!r:x.org".into(), "@b:x.org".into(), "b".into(), "m.text".into(), Some("$a".into()));
    assert!(a == b);
    b.id = Some("$b".into());
    let mut a2 = a;
    a2.date = 10;
    b.date = 20;
    assert!(a2 != b);
    assert!(a2 < b);
    assert_eq!(a2.partial_cmp(&a2), Some(std::cmp::Ordering::Equal));
}

#[test]
fn transaction_id_is_md5_of_room_body_and_date() {
    let m = Message::new("!room:example.org".into(), "@a:x.org".into(), "hello".into(), "m.text".into(), None);
    assert_eq!(m.txn_id_for_date_text("2020-01-01"), "7309676719ab844f492d746401a1627b");
    let t = m.get_txn_id();
    assert_eq!(t.len(), 32);
    assert!(t.chars().all(|c| c.is_ascii_digit() || ('a'..='f').contains(&c)));
}

#[test]
fn transaction_id_dates_to_the_nanosecond() {
    let mut m = Message::new("!room:example.org".into(), "@a:x.org".into(), "hello".into(), "m.text".into(), None);
    assert!(m.date_nanos < 1_000_000);
    m.date = 1_600_000_000_123;
    m.date_nanos = 456_789;
    let text = chrono::Local.timestamp_opt(1_600_000_000, 123_456_789).unwrap().to_string();
    assert_eq!(m.get_txn_id(), m.txn_id_for_date_text(&text));
    m.date = -1;
    m.date_nanos = 0;
    let text = chrono::Local.timestamp_opt(-1, 999_000_000).unwrap().to_string();
    assert_eq!(m.get_txn_id(), m.txn_id_for_date_text(&text));
}

#[test]
fn receipts_are_replaced_and_relations_listed() {
    let mut m = Message::new("!r:x.org".into(), "@a:x.org".into(), "a".into(), "m.text".into(), Some("$a".into()));
    let mut r = StrMap::new();
    r.insert("@b:x.org".to_string(), 7i64);
    m.set_receipt(r);
    assert_eq!(m.receipt.get("@b:x.org"), Some(&7));
    assert!(m.relations().is_empty());
    m.replace = Some("$x".into());
    m.in_reply_to = Some("$y".into());
    let rel = m.relations();
    assert!(rel.contains(&"$x".to_string()) && rel.contains(&"$y".to_string()));
}
