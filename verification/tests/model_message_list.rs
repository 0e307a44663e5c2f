use fractal_gtk::model::message::Message;
use fractal_gtk::model::message_list::MessageList;

fn msg(id: &str, date: i64) -> Message {
    let mut m = Message::new("!r:x.org".into(), "@a:x.org".into(), id.into(), "m.text".into(), Some(id.into()));
    m.date = date;
    m
}

fn ids(l: &MessageList) -> Vec<String> {
    l.iter().iter().map(|m| m.id.clone().unwrap()).collect()
}

#[test]
fn messages_are_kept_in_date_order() {
    let mut l = MessageList::new();
    l.add(msg("$b", 20));
    l.add(msg("$a", 10));
    l.add(msg("$c", 30));
    assert_eq!(ids(&l), vec!["$a", "$b", "$c"]);
    assert_eq!(l.len(), 3);
}

#[test]
fn added_message_can_be_read_back() {
    let mut l = MessageList::new();
    l.add(msg("$a", 10));
    assert!(l.contains("$a"));
    assert_eq!(l.get("$a").unwrap().date, 10);
    assert!(!l.contains("$z"));
    assert!(l.get("$z").is_none());
}

#[test]
fn newer_version_replaces_older_one() {
    let mut l = MessageList::new();
    l.add(msg("$a", 10));
    l.add(msg("$b", 20));
    let mut newer = msg("$a", 30);
    newer.body = "edited".into();
    l.add(newer);
    assert_eq!(ids(&l), vec!["$b", "$a"]);
    assert_eq!(l.get("$a").unwrap().body, "edited");
}

#[test]
fn messages_of_the_same_date_are_all_kept() {
    let mut l = MessageList::new();
    l.add(msg("$a", 10));
    l.add(msg("$b", 10));
    l.add(msg("$c", 10));
    assert_eq!(ids(&l), vec!["$a", "$b", "$c"]);
    l.add(msg("$b", 10));
    assert_eq!(ids(&l), vec!["$a", "$c", "$b"]);
    l.add(msg("$d", 5));
    assert_eq!(ids(&l), vec!["$d", "$a", "$c", "$b"]);
}

#[test]
fn adding_twice_is_adding_once() {
    let mut l = MessageList::new();
    l.add(msg("$a", 10));
    l.add(msg("$c", 30));
    l.add(msg("$b", 20));
    let once = ids(&l);
    l.add(msg("$b", 20));
    assert_eq!(ids(&l), once);
}

#[test]
fn from_messages_adds_each() {
    let l = MessageList::from_messages(vec![msg("$c", 3), msg("$a", 1), msg("$b", 2)]);
    assert_eq!(ids(&l), vec!["$a", "$b", "$c"]);
}

#[test]
fn redacted_message_is_kept_as_redacted() {
    let mut l = MessageList::new();
    let mut reply = msg("$r", 20);
    reply.in_reply_to = Some("$a".into());
    l.add(msg("$a", 10));
    l.add(reply);
    let mut red = msg("$r", 20);
    red.redacted = true;
    l.add(red);
    assert!(l.get("$r").unwrap().redacted);
    assert_eq!(l.len(), 2);
}
