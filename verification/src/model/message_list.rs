//! The ordered list of the messages of a room, with the relations between
//! them (edits and replies).

use crate::model::message::{relations_of, Message, MessageView};
use crate::model::strmap::{has_key, keys_distinct, lemma_map_of_entry, map_of, StrMap};
use crate::text::{clone_strings, str_eq};
use vstd::prelude::*;

verus! {

/// Messages ordered by date.
pub open spec fn sorted_by_date(s: Seq<MessageView>) -> bool {
    forall|i: int, j: int| 0 <= i <= j < s.len() ==> #[trigger] s[i].date <= #[trigger] s[j].date
}

/// Every message has an event ID, and no two share one.
pub open spec fn ids_unique(s: Seq<MessageView>) -> bool {
    &&& forall|i: int| 0 <= i < s.len() ==> (#[trigger] s[i].id) is Some
    &&& forall|i: int, j: int|
        0 <= i < s.len() && 0 <= j < s.len() && #[trigger] s[i].id == #[trigger] s[j].id ==> i == j
}

/// Whether message `m` replaces or replies to the event `id`.
pub open spec fn relates_to(m: MessageView, id: Seq<char>) -> bool {
    m.replace == Some(id) || m.in_reply_to == Some(id)
}

/// The IDs of the messages of `s` that replace or reply to `id`.
pub open spec fn relating_ids(s: Seq<MessageView>, id: Seq<char>) -> Set<Seq<char>> {
    Set::new(
        |x: Seq<char>|
            exists|i: int| 0 <= i < s.len() && relates_to(s[i], id) && #[trigger] s[i].id == Some(x),
    )
}

/// The position at which a message of date `date` goes into messages
/// ordered by date: after every message of that date or earlier, before
/// every later one.
pub open spec fn insert_position(s: Seq<MessageView>, date: i64, p: int) -> bool {
    &&& 0 <= p <= s.len()
    &&& forall|j: int| 0 <= j < p ==> #[trigger] s[j].date <= date
    &&& forall|j: int| p <= j < s.len() ==> #[trigger] s[j].date > date
}

/// The messages after `m` has been placed in `kept`, a list ordered by date
/// that holds no message with `m`'s ID: every message of `kept` stays, in
/// order, and `m` is inserted at its position by date.
pub open spec fn placed(kept: Seq<MessageView>, m: MessageView, r: Seq<MessageView>) -> bool {
    exists|p: int| insert_position(kept, m.date, p) && r == kept.insert(p, m)
}

/// The relations after the outgoing relations of the message with ID
/// `id` (in `rels`) have been removed: `id` leaves each set of relating
/// messages whose key is in `rels`.
pub open spec fn without_relations(
    r: Map<Seq<char>, Set<Seq<char>>>,
    rels: Set<Seq<char>>,
    id: Seq<char>,
) -> Map<Seq<char>, Set<Seq<char>>> {
    Map::new(
        |k: Seq<char>| r.dom().contains(k),
        |k: Seq<char>|
            if rels.contains(k) {
                r[k].remove(id)
            } else {
                r[k]
            },
    )
}

/// The relations after message `m` (with ID `id`) has been recorded among
/// `s`: the messages relating to `id`, and `id` relating to the message it
/// replaces.
pub open spec fn with_relations(
    r: Map<Seq<char>, Set<Seq<char>>>,
    s: Seq<MessageView>,
    m: MessageView,
    id: Seq<char>,
) -> Map<Seq<char>, Set<Seq<char>>> {
    let r1 = r.insert(id, relating_ids(s, id));
    match m.replace {
        Some(rid) => r1.insert(
            rid,
            if r1.dom().contains(rid) {
                r1[rid].insert(id)
            } else {
                set![id]
            },
        ),
        None => r1,
    }
}

/// The position of the message with event ID `id` in `s`, if any.
pub open spec fn find_id(s: Seq<MessageView>, id: Seq<char>) -> Option<int> {
    if exists|i: int| 0 <= i < s.len() && #[trigger] s[i].id == Some(id) {
        Some(choose|i: int| 0 <= i < s.len() && #[trigger] s[i].id == Some(id))
    } else {
        None
    }
}

/// The relations held as lists of IDs, read as sets.
pub open spec fn rel_sets(m: Map<Seq<char>, Seq<Seq<char>>>) -> Map<Seq<char>, Set<Seq<char>>> {
    m.map_values(|s: Seq<Seq<char>>| s.to_set())
}

/// Two lists of strings one after the other.
fn concat_strings(a: Vec<String>, b: &Vec<String>) -> (r: Vec<String>)
    ensures
        r.deep_view() == a.deep_view() + b.deep_view(),
{
    let mut r = a;
    let ghost a0 = r.deep_view();
    let mut i: usize = 0;
    while i < b.len()
        invariant
            i <= b.len(),
            r.deep_view() == a0 + b.deep_view().take(i as int),
        decreases b.len() - i,
    {
        let ghost prev = r.deep_view();
        let c = b[i].clone();
        r.push(c);
        assert(r.deep_view() =~= prev.push(b.deep_view()[i as int]));
        assert(r.deep_view() =~= a0 + b.deep_view().take(i + 1 as int));
        i = i + 1;
    }
    assert(b.deep_view().take(b.len() as int) =~= b.deep_view());
    r
}

/// Records messages relating to the message with the given ID, keeping
/// those recorded before.
fn update_relating(rm: &mut StrMap<Vec<String>>, id: String, relating: Vec<String>)
    ensures
        rel_sets(final(rm).map()) == rel_sets(old(rm).map()).insert(
            id@,
            if rel_sets(old(rm).map()).dom().contains(id@) {
                rel_sets(old(rm).map())[id@] + relating.deep_view().to_set()
            } else {
                relating.deep_view().to_set()
            },
        ),
{
    let new_relating = match rm.get(id.as_str()) {
        Some(old_relating) => concat_strings(clone_strings(old_relating), &relating),
        None => relating,
    };
    let ghost nv = new_relating.deep_view();
    rm.insert(id, new_relating);
    proof {
        broadcast use vstd::seq_lib::lemma_seq_concat_contains_all_elements;

        let o = rel_sets(old(rm).map());
        let t = if o.dom().contains(id@) {
            o[id@] + relating.deep_view().to_set()
        } else {
            relating.deep_view().to_set()
        };
        assert(nv.to_set() =~= t);
        assert(rel_sets(rm.map()) =~= o.insert(id@, t));
    }
}

/// Whether a message has an ID other than `id`.
pub open spec fn other_id(id: Seq<char>) -> spec_fn(MessageView) -> bool {
    |m: MessageView| m.id != Some(id)
}

/// The views of a list of messages.
pub open spec fn views(v: Seq<Message>) -> Seq<MessageView> {
    v.map_values(|m: Message| m@)
}

/// The messages of a list ordered by date without the one with ID `id`.
fn without_id(msgs: Vec<Message>, id: &str) -> (r: Vec<Message>)
    requires
        sorted_by_date(views(msgs@)),
        ids_unique(views(msgs@)),
    ensures
        views(r@) == views(msgs@).filter(other_id(id@)),
        sorted_by_date(views(r@)),
        ids_unique(views(r@)),
        forall|j: int| 0 <= j < r@.len() ==> (#[trigger] views(r@)[j]).id != Some(id@),
{
    let ghost orig = views(msgs@);
    let mut rest = msgs;
    let mut kept: Vec<Message> = Vec::new();
    let ghost mut k: int = 0;
    assert(orig.take(0) =~= Seq::<MessageView>::empty());
    assert(views(rest@) =~= orig.skip(0));
    while rest.len() > 0
        invariant
            0 <= k <= orig.len(),
            sorted_by_date(orig),
            ids_unique(orig),
            views(rest@) == orig.skip(k),
            rest@.len() == orig.len() - k,
            views(kept@) == orig.take(k).filter(other_id(id@)),
            sorted_by_date(views(kept@)),
            ids_unique(views(kept@)),
            forall|j: int| 0 <= j < kept@.len() ==> (#[trigger] views(kept@)[j]).id != Some(id@),
            forall|j: int|
                0 <= j < kept@.len() ==> exists|i: int|
                    0 <= i < k && #[trigger] views(kept@)[j] == #[trigger] orig[i],
        decreases rest.len(),
    {
        let ghost before = views(kept@);
        let ghost rest0 = rest@;
        assert(views(rest0)[0] == orig[k]);
        let m = rest.remove(0);
        proof {
            assert(rest@ == rest0.remove(0));
            assert(m@ == orig[k]);
            assert forall|j: int| 0 <= j < views(rest@).len() implies #[trigger] views(rest@)[j] == orig.skip(k + 1)[j] by {
                assert(rest@[j] == rest0[j + 1]);
                assert(views(rest0)[j + 1] == orig.skip(k)[j + 1]);
            }
            assert(views(rest@) =~= orig.skip(k + 1));
            assert(orig.take(k + 1).drop_last() =~= orig.take(k));
            assert(orig.take(k + 1).last() == orig[k]);
        }
        let keep = match &m.id {
            Some(mid) => {
                let e = str_eq(mid.as_str(), id);
                assert(m@.id == Some(mid@));
                assert(e == (m@.id == Some(id@)));
                !e
            },
            None => true,
        };
        proof {
            assert(keep == (m@.id != Some(id@)));
            assert(orig[k].id == m@.id);
            assert(other_id(id@)(orig[k]) == keep);
            reveal_with_fuel(Seq::<MessageView>::filter, 1);
            assert(orig.take(k + 1).filter(other_id(id@)) == if other_id(id@)(orig[k]) {
                orig.take(k).filter(other_id(id@)).push(orig[k])
            } else {
                orig.take(k).filter(other_id(id@))
            });
        }
        if keep {
            kept.push(m);
            proof {
                assert(views(kept@) =~= before.push(orig[k]));
                assert forall|a: int, b: int|
                    0 <= a <= b < views(kept@).len() implies #[trigger] views(kept@)[a].date
                    <= #[trigger] views(kept@)[b].date by {
                    if b == before.len() && a < b {
                        let i = choose|i: int| 0 <= i < k && #[trigger] before[a] == #[trigger] orig[i];
                        assert(orig[i].date <= orig[k].date);
                    }
                }
                assert forall|a: int, b: int|
                    0 <= a < views(kept@).len() && 0 <= b < views(kept@).len() && #[trigger] views(
                        kept@,
                    )[a].id == #[trigger] views(kept@)[b].id implies a == b by {
                    if a == before.len() && b < a {
                        let i = choose|i: int| 0 <= i < k && #[trigger] before[b] == #[trigger] orig[i];
                        assert(orig[i].id == orig[k].id);
                    }
                    if b == before.len() && a < b {
                        let i = choose|i: int| 0 <= i < k && #[trigger] before[a] == #[trigger] orig[i];
                        assert(orig[i].id == orig[k].id);
                    }
                }
                assert forall|j: int| 0 <= j < kept@.len() implies exists|i: int|
                    0 <= i < k + 1 && #[trigger] views(kept@)[j] == #[trigger] orig[i] by {
                    if j == before.len() {
                        assert(views(kept@)[j] == orig[k]);
                    } else {
                        let i = choose|i: int| 0 <= i < k && #[trigger] before[j] == #[trigger] orig[i];
                        assert(views(kept@)[j] == orig[i]);
                    }
                }
            }
        } else {
            proof {
                assert forall|j: int| 0 <= j < kept@.len() implies exists|i: int|
                    0 <= i < k + 1 && #[trigger] views(kept@)[j] == #[trigger] orig[i] by {
                    let i = choose|i: int| 0 <= i < k && #[trigger] before[j] == #[trigger] orig[i];
                    assert(views(kept@)[j] == orig[i]);
                }
            }
        }
        proof {
            k = k + 1;
        }
    }
    proof {
        assert(orig.take(k) =~= orig);
    }
    kept
}

/// The position at which a message of the given date goes into messages
/// ordered by date.
fn date_position(msgs: &Vec<Message>, date: i64) -> (p: usize)
    requires
        sorted_by_date(views(msgs@)),
    ensures
        insert_position(views(msgs@), date, p as int),
{
    let ghost s = views(msgs@);
    let mut lo: usize = 0;
    let mut hi: usize = msgs.len();
    while lo < hi
        invariant
            lo <= hi <= msgs@.len(),
            s == views(msgs@),
            sorted_by_date(s),
            forall|j: int| 0 <= j < lo ==> #[trigger] s[j].date <= date,
            forall|j: int| hi <= j < s.len() ==> #[trigger] s[j].date > date,
        decreases hi - lo,
    {
        let mid = lo + (hi - lo) / 2;
        if msgs[mid].date <= date {
            assert forall|j: int| 0 <= j < mid + 1 implies #[trigger] s[j].date <= date by {
                assert(s[j].date <= s[mid as int].date);
            }
            lo = mid + 1;
        } else {
            assert forall|j: int| mid <= j < s.len() implies #[trigger] s[j].date > date by {
                assert(s[mid as int].date <= s[j].date);
            }
            hi = mid;
        }
    }
    lo
}

/// The relations after `m` has been added to messages `s` with relations
/// `r`: a redacted message loses its outgoing relations; any other gets its
/// relations recorded among the messages that do not share its ID.
pub open spec fn added_relations(
    r: Map<Seq<char>, Set<Seq<char>>>,
    s: Seq<MessageView>,
    m: MessageView,
) -> Map<Seq<char>, Set<Seq<char>>> {
    let id = m.id->Some_0;
    if m.redacted {
        match find_id(s, id) {
            Some(i) => without_relations(r, relations_of(s[i]), id),
            None => r,
        }
    } else {
        with_relations(r, s.filter(other_id(id)), m, id)
    }
}

/// The facts that placing a message gives, for a list `r` in which the
/// message stands at `pos` and every other position `a` holds `k[src(a)]`.
proof fn lemma_placed_facts(k: Seq<MessageView>, m: MessageView, r: Seq<MessageView>, pos: int)
    requires
        ids_unique(k),
        m.id is Some,
        forall|j: int| 0 <= j < k.len() ==> (#[trigger] k[j]).id != m.id,
        0 <= pos < r.len(),
        r[pos] == m,
        r.len() == k.len() || r.len() == k.len() + 1,
        forall|a: int|
            0 <= a < r.len() && a != pos ==> #[trigger] r[a] == k[if a < pos || r.len() == k.len() {
                a
            } else {
                a - 1
            }],
    ensures
        ids_unique(r),
        find_id(r, m.id->Some_0) is Some,
        r[find_id(r, m.id->Some_0)->Some_0] == m,
{
    assert forall|a: int| 0 <= a < r.len() implies (#[trigger] r[a].id) is Some by {
        if a != pos {
            let ia = if a < pos || r.len() == k.len() { a } else { a - 1 };
            assert(r[a] == k[ia]);
        }
    }
    assert forall|a: int, b: int|
        0 <= a < r.len() && 0 <= b < r.len() && #[trigger] r[a].id == #[trigger] r[b].id implies a
        == b by {
        let ia = if a < pos || r.len() == k.len() { a } else { a - 1 };
        let ib = if b < pos || r.len() == k.len() { b } else { b - 1 };
        if a != pos && b != pos {
            assert(r[a] == k[ia] && r[b] == k[ib]);
        } else if a != pos {
            assert(r[a] == k[ia]);
        } else if b != pos {
            assert(r[b] == k[ib]);
        }
    }
    assert(r[pos].id == Some(m.id->Some_0));
    assert(find_id(r, m.id->Some_0) is Some);
    let f = find_id(r, m.id->Some_0)->Some_0;
    assert(r[f].id == r[pos].id);
}

/// Placing a message in a list ordered by date whose IDs are unique and
/// differ from the message's keeps the list ordered by date with unique
/// IDs, and the message is then found under its ID.
pub proof fn lemma_placed(k: Seq<MessageView>, m: MessageView, r: Seq<MessageView>)
    requires
        sorted_by_date(k),
        ids_unique(k),
        m.id is Some,
        forall|j: int| 0 <= j < k.len() ==> (#[trigger] k[j]).id != m.id,
        placed(k, m, r),
    ensures
        sorted_by_date(r),
        ids_unique(r),
        find_id(r, m.id->Some_0) is Some,
        r[find_id(r, m.id->Some_0)->Some_0] == m,
{
    let p = choose|p: int| insert_position(k, m.date, p) && r == k.insert(p, m);
    assert forall|a: int, b: int| 0 <= a <= b < r.len() implies #[trigger] r[a].date
        <= #[trigger] r[b].date by {
        if a < p && b < p {
            assert(k[a].date <= k[b].date);
        } else if a > p && b > p {
            assert(k[a - 1].date <= k[b - 1].date);
        } else if a < p && b > p {
            assert(k[a].date <= m.date);
            assert(k[b - 1].date > m.date);
        } else if a == p && b > p {
            assert(k[b - 1].date > m.date);
        } else if a < p && b == p {
            assert(k[a].date <= m.date);
        }
    }
    lemma_placed_facts(k, m, r, p);
}

/// Whether `m` is the value of one of the first `n` messages of `s`.
pub open spec fn among(m: MessageView, s: Seq<Message>, n: int) -> bool {
    exists|i: int| 0 <= i < n && #[trigger] s[i]@ == m
}

/// An ordered list of messages and their relations.
pub struct MessageList {
    messages: Vec<Message>,
    relating_messages: StrMap<Vec<String>>,
}

impl MessageList {
    /// The messages, in order.
    pub closed spec fn msgs(&self) -> Seq<MessageView> {
        self.messages@.map_values(|m: Message| m@)
    }

    /// For each event ID, the IDs of the messages that replace or reply to it.
    pub closed spec fn relating(&self) -> Map<Seq<char>, Set<Seq<char>>> {
        rel_sets(self.relating_messages.map())
    }

    #[verifier::type_invariant]
    closed spec fn well_formed(&self) -> bool {
        sorted_by_date(self.msgs()) && ids_unique(self.msgs())
    }

    /// The empty list.
    pub fn new() -> (l: MessageList)
        ensures
            l.msgs() == Seq::<MessageView>::empty(),
            l.relating() == Map::<Seq<char>, Set<Seq<char>>>::empty(),
    {
        let l = MessageList { messages: Vec::new(), relating_messages: StrMap::new() };
        assert(l.msgs() =~= Seq::<MessageView>::empty());
        assert(l.relating() =~= Map::<Seq<char>, Set<Seq<char>>>::empty());
        l
    }

    /// The number of messages. The messages are always ordered by date,
    /// have event IDs, and no two share one.
    pub fn len(&self) -> (n: usize)
        ensures
            n == self.msgs().len(),
            sorted_by_date(self.msgs()),
            ids_unique(self.msgs()),
    {
        proof {
            use_type_invariant(self);
        }
        self.messages.len()
    }

    /// The `i`-th message in date order.
    pub fn message_at(&self, i: usize) -> (m: &Message)
        requires
            i < self.msgs().len(),
        ensures
            m@ == self.msgs()[i as int],
    {
        &self.messages[i]
    }

    /// The messages, in date order.
    pub fn iter(&self) -> (v: &Vec<Message>)
        ensures
            v@.map_values(|m: Message| m@) == self.msgs(),
    {
        &self.messages
    }

    /// The position of the message with the given event ID.
    fn position(&self, event_id: &str) -> (r: Option<usize>)
        ensures
            match r {
                Some(i) => i < self.msgs().len() && self.msgs()[i as int].id == Some(event_id@),
                None => forall|i: int|
                    0 <= i < self.msgs().len() ==> #[trigger] self.msgs()[i].id != Some(event_id@),
            },
    {
        let mut i: usize = 0;
        while i < self.messages.len()
            invariant
                i <= self.messages.len(),
                self.msgs().len() == self.messages.len(),
                forall|j: int| 0 <= j < i ==> #[trigger] self.msgs()[j].id != Some(event_id@),
            decreases self.messages.len() - i,
        {
            let found = match &self.messages[i].id {
                Some(id) => str_eq(id.as_str(), event_id),
                None => false,
            };
            if found {
                return Some(i);
            }
            i = i + 1;
        }
        None
    }

    /// The message with the given event ID.
    pub fn get(&self, event_id: &str) -> (r: Option<&Message>)
        ensures
            match r {
                Some(m) => find_id(self.msgs(), event_id@) is Some && m@ == self.msgs()[find_id(
                    self.msgs(),
                    event_id@,
                )->Some_0],
                None => find_id(self.msgs(), event_id@) is None,
            },
    {
        proof {
            use_type_invariant(self);
        }
        match self.position(event_id) {
            Some(i) => {
                let ghost j = choose|j: int|
                    0 <= j < self.msgs().len() && #[trigger] self.msgs()[j].id == Some(event_id@);
                assert(self.msgs()[i as int].id == self.msgs()[j].id);
                Some(&self.messages[i])
            },
            None => None,
        }
    }

    /// Whether the message with the given event ID is in the list.
    pub fn contains(&self, event_id: &str) -> (r: bool)
        ensures
            r == (find_id(self.msgs(), event_id@) is Some),
    {
        self.get(event_id).is_some()
    }

    /// Removes the outgoing relations of the message with the given event
    /// ID: it no longer counts among the messages relating to the messages
    /// it replaces or replies to.
    fn remove_relations(&mut self, event_id: &str)
        ensures
            final(self).msgs() == old(self).msgs(),
            final(self).relating() == match find_id(old(self).msgs(), event_id@) {
                Some(i) => without_relations(
                    old(self).relating(),
                    relations_of(old(self).msgs()[i]),
                    event_id@,
                ),
                None => old(self).relating(),
            },
    {
        proof {
            use_type_invariant(&*self);
        }
        let pos = match self.position(event_id) {
            Some(p) => p,
            None => {
                return ;
            },
        };
        let ghost j = choose|j: int|
            0 <= j < self.msgs().len() && #[trigger] self.msgs()[j].id == Some(event_id@);
        assert(self.msgs()[pos as int].id == self.msgs()[j].id);
        let rels = self.messages[pos].relations();
        let ghost rset = relations_of(self.msgs()[pos as int]);
        let ghost s0 = self.relating_messages.pairs();
        let mut rm: StrMap<Vec<String>> = StrMap::new();
        std::mem::swap(&mut rm, &mut self.relating_messages);
        let n = rm.len();
        let mut i: usize = 0;
        while i < n
            invariant
                i <= n,
                n == s0.len(),
                keys_distinct(s0),
                rels.deep_view().to_set() == rset,
                rm.pairs().len() == n,
                forall|k: int| 0 <= k < n ==> #[trigger] rm.pairs()[k].0 == s0[k].0,
                forall|k: int|
                    0 <= k < i ==> (#[trigger] rm.pairs()[k]).1.to_set() == if rset.contains(
                        s0[k].0,
                    ) {
                        s0[k].1.to_set().remove(event_id@)
                    } else {
                        s0[k].1.to_set()
                    },
                forall|k: int| i <= k < n ==> #[trigger] rm.pairs()[k] == s0[k],
            decreases n - i,
        {
            let key_in = crate::text::contains_str(&rels, rm.key_at(i).as_str());
            if key_in {
                let v = crate::text::without_str(rm.value_at(i), event_id);
                rm.set_value_at(i, v);
            }
            i = i + 1;
        }
        self.relating_messages = rm;
        proof {
            let t = self.relating_messages.pairs();
            crate::model::strmap::lemma_map_of_same_keys(s0, t);
            let target = without_relations(old(self).relating(), rset, event_id@);
            assert forall|key: Seq<char>| #[trigger] self.relating().dom().contains(key) implies self.relating()[key] == target[key] by {
                let k = choose|k: int| 0 <= k < s0.len() && #[trigger] s0[k].0 == key;
                lemma_map_of_entry(s0, k);
            }
            assert(self.relating() =~= target);
        }
    }

    /// The IDs of the messages that replace or reply to the given event.
    fn find_and_get_relating(&self, id: &str) -> (r: Vec<String>)
        ensures
            r.deep_view().to_set() == relating_ids(self.msgs(), id@),
    {
        proof {
            use_type_invariant(self);
        }
        let mut r: Vec<String> = Vec::new();
        let mut i: usize = 0;
        while i < self.messages.len()
            invariant
                i <= self.messages.len(),
                self.msgs().len() == self.messages.len(),
                ids_unique(self.msgs()),
                forall|x: Seq<char>| #[trigger] r.deep_view().contains(x) <==> exists|j: int|
                    0 <= j < i && relates_to(self.msgs()[j], id@) && #[trigger] self.msgs()[j].id
                        == Some(x),
            decreases self.messages.len() - i,
        {
            let m = &self.messages[i];
            let rel = match (&m.replace, &m.in_reply_to) {
                (Some(a), _) if str_eq(a.as_str(), id) => true,
                (_, Some(b)) => str_eq(b.as_str(), id),
                _ => false,
            };
            let ghost prev = r.deep_view();
            if rel {
                match &m.id {
                    Some(mid) => {
                        r.push(mid.clone());
                        assert(r.deep_view() =~= prev.push(mid@));
                    },
                    None => {
                        assert(self.msgs()[i as int].id is Some);
                    },
                }
            }
            proof {
                broadcast use vstd::seq_lib::lemma_seq_contains_after_push;

                assert forall|x: Seq<char>| #[trigger] r.deep_view().contains(x) <==> exists|j: int|
                    0 <= j < i + 1 && relates_to(self.msgs()[j], id@) && #[trigger] self.msgs()[j].id
                        == Some(x) by {
                    if exists|j: int|
                        0 <= j < i + 1 && relates_to(self.msgs()[j], id@) && #[trigger] self.msgs()[j].id
                            == Some(x) {
                        let j = choose|j: int|
                            0 <= j < i + 1 && relates_to(self.msgs()[j], id@) && #[trigger] self.msgs()[j].id
                                == Some(x);
                        if j < i {
                            assert(prev.contains(x));
                        }
                    }
                    if prev.contains(x) {
                        let j = choose|j: int|
                            0 <= j < i && relates_to(self.msgs()[j], id@) && #[trigger] self.msgs()[j].id
                                == Some(x);
                        assert(0 <= j < i + 1);
                    }
                    if rel && self.msgs()[i as int].id == Some(x) {
                        assert(relates_to(self.msgs()[i as int], id@));
                    }
                }
            }
            i = i + 1;
        }
        assert(r.deep_view().to_set() =~= relating_ids(self.msgs(), id@));
        r
    }

    /// Records the relations `msg` is part of: the messages relating to it,
    /// and it relating to the message it replaces.
    fn populate_relations(&mut self, msg: &Message)
        requires
            msg@.id is Some,
        ensures
            final(self).msgs() == old(self).msgs(),
            final(self).relating() == with_relations(
                old(self).relating(),
                old(self).msgs(),
                msg@,
                msg@.id->Some_0,
            ),
    {
        proof {
            use_type_invariant(&*self);
        }
        let id = match &msg.id {
            Some(id) => id.clone(),
            None => {
                return ;
            },
        };
        let relating = self.find_and_get_relating(id.as_str());
        let mut rm: StrMap<Vec<String>> = StrMap::new();
        std::mem::swap(&mut rm, &mut self.relating_messages);
        let ghost r0 = rel_sets(rm.map());
        let ghost rids = relating.deep_view().to_set();
        rm.insert(id.clone(), relating);
        assert(rel_sets(rm.map()) =~= r0.insert(id@, rids));
        match &msg.replace {
            Some(replace_id) => {
                let ghost r1 = rel_sets(rm.map());
                let mut one: Vec<String> = Vec::new();
                one.push(id.clone());
                assert(one.deep_view() =~= seq![id@]);
                update_relating(&mut rm, replace_id.clone(), one);
                proof {
                    assert(seq![id@][0] == id@);
                    assert(seq![id@].to_set() =~= set![id@]);
                    if r1.dom().contains(replace_id@) {
                        assert(r1[replace_id@] + set![id@] =~= r1[replace_id@].insert(id@));
                    }
                }
            },
            None => {},
        }
        self.relating_messages = rm;
    }

    /// Inserts the message at its place by date, replacing any older
    /// version of it (one with the same event ID); every message with
    /// another ID stays. A redacted message loses its outgoing relations;
    /// any other gets its relations recorded.
    pub fn add(&mut self, msg: Message)
        requires
            msg@.id is Some,
        ensures
            placed(
                old(self).msgs().filter(other_id(msg@.id->Some_0)),
                msg@,
                final(self).msgs(),
            ),
            final(self).relating() == added_relations(old(self).relating(), old(self).msgs(), msg@),
            find_id(final(self).msgs(), msg@.id->Some_0) is Some,
            final(self).msgs()[find_id(final(self).msgs(), msg@.id->Some_0)->Some_0] == msg@,
            forall|i: int|
                0 <= i < old(self).msgs().len() && (#[trigger] old(self).msgs()[i]).id != msg@.id
                    ==> final(self).msgs().contains(old(self).msgs()[i]),
            final(self).msgs().len() == old(self).msgs().filter(other_id(msg@.id->Some_0)).len() + 1,
    {
        proof {
            use_type_invariant(&*self);
        }
        let id = match &msg.id {
            Some(id) => id.clone(),
            None => {
                return ;
            },
        };
        let ghost id_v = id@;
        if msg.redacted {
            self.remove_relations(id.as_str());
        }
        let mut msgs: Vec<Message> = Vec::new();
        std::mem::swap(&mut msgs, &mut self.messages);
        let kept = without_id(msgs, id.as_str());
        self.messages = kept;
        if !msg.redacted {
            self.populate_relations(&msg);
        }
        let mut msgs: Vec<Message> = Vec::new();
        std::mem::swap(&mut msgs, &mut self.messages);
        let ghost k = views(msgs@);
        let ghost mv = msg@;
        let p = date_position(&msgs, msg.date);
        msgs.insert(p, msg);
        proof {
            assert(views(msgs@) =~= k.insert(p as int, mv));
            let r = views(msgs@);
            assert forall|i: int|
                0 <= i < old(self).msgs().len() && (#[trigger] old(self).msgs()[i]).id != mv.id implies r.contains(
                old(self).msgs()[i],
            ) by {
                let x = old(self).msgs()[i];
                assert(old(self).msgs().contains(x));
                old(self).msgs().lemma_filter_contains_rev(other_id(id_v), x);
                assert(other_id(id_v)(x));
                assert(k.contains(x));
                let j = choose|j: int| 0 <= j < k.len() && k[j] == x;
                if j < p {
                    assert(r[j] == x);
                } else {
                    assert(r[j + 1] == x);
                }
            }
        }
        proof {
            lemma_placed(k, mv, views(msgs@));
        }
        self.messages = msgs;
    }

    /// A list built by adding the given messages one after another. Each
    /// message of the list is one of them, and the last one is in it.
    pub fn from_messages(messages: Vec<Message>) -> (l: MessageList)
        requires
            forall|i: int| 0 <= i < messages@.len() ==> (#[trigger] messages@[i])@.id is Some,
        ensures
            built_from(views(messages@), l.msgs(), l.relating()),
            forall|j: int|
                0 <= j < l.msgs().len() ==> among(#[trigger] l.msgs()[j], messages@, messages@.len() as int),
            messages@.len() > 0 ==> find_id(l.msgs(), messages@.last()@.id->Some_0) is Some,
    {
        let ghost input = messages@;
        let mut list = MessageList::new();
        let mut rest = messages;
        let ghost mut k: int = 0;
        let ghost mut states: Seq<(Seq<MessageView>, Map<Seq<char>, Set<Seq<char>>>)> = seq![
            (list.msgs(), list.relating()),
        ];
        assert(views(input.take(0)) =~= Seq::<MessageView>::empty());
        while rest.len() > 0
            invariant
                0 <= k <= input.len(),
                rest@ == input.skip(k),
                rest@.len() == input.len() - k,
                input == messages@,
                forall|i: int| 0 <= i < input.len() ==> (#[trigger] input[i])@.id is Some,
                forall|j: int| 0 <= j < list.msgs().len() ==> among(#[trigger] list.msgs()[j], input, k),
                k > 0 ==> find_id(list.msgs(), input[k - 1]@.id->Some_0) is Some,
                adding_steps(views(input.take(k)), states),
                states.last() == (list.msgs(), list.relating()),
            decreases rest.len(),
        {
            let ghost before = list.msgs();
            let ghost before_rel = list.relating();
            let m = rest.remove(0);
            proof {
                assert(input.skip(k)[0] == input[k]);
                assert(rest@ =~= input.skip(k + 1));
            }
            let ghost mv = m@;
            list.add(m);
            proof {
                let ms = views(input.take(k + 1));
                assert(ms.len() == k + 1);
                assert(ms.drop_last() =~= views(input.take(k)));
                assert(ms.last() == mv);
                assert(placed(before.filter(other_id(ms.last().id->Some_0)), ms.last(), list.msgs()));
                assert(list.relating() == added_relations(before_rel, before, ms.last()));
                let old_states = states;
                states = states.push((list.msgs(), list.relating()));
                assert forall|i: int| 0 <= i < ms.len() implies placed(
                    (#[trigger] states[i]).0.filter(other_id(ms[i].id->Some_0)),
                    ms[i],
                    states[i + 1].0,
                ) && states[i + 1].1 == added_relations(states[i].1, states[i].0, ms[i]) by {
                    if i < k {
                        assert(ms[i] == views(input.take(k))[i]);
                        assert(states[i] == old_states[i]);
                    }
                }
                assert(adding_steps(ms, states));
                let kept = before.filter(other_id(mv.id->Some_0));
                assert forall|j: int| 0 <= j < kept.len() implies before.contains(#[trigger] kept[j]) by {
                    assert(kept[j] == kept[j]);
                    assert(kept.contains(kept[j]));
                    before.lemma_filter_contains_rev(other_id(mv.id->Some_0), kept[j]);
                }
                assert forall|j: int| 0 <= j < list.msgs().len() implies among(#[trigger] list.msgs()[j], input, k + 1) by {
                    let r = list.msgs();
                    if r[j] == mv {
                        assert(input[k]@ == mv);
                    } else {
                        let p = choose|p: int| insert_position(kept, mv.date, p) && r == kept.insert(p, mv);
                        let src: MessageView = if j < p { kept[j] } else { kept[j - 1] };
                        assert(r[j] == src);
                        assert(before.contains(src));
                        let b = choose|b: int| 0 <= b < before.len() && before[b] == src;
                        assert(among(before[b], input, k));
                        let i = choose|i: int| 0 <= i < k && #[trigger] input[i]@ == before[b];
                        assert(input[i]@ == r[j]);
                    }
                }
                k = k + 1;
            }
        }
        assert(input.take(input.len() as int) =~= input);
        assert(adding_steps(views(input), states));
        list
    }
}

/// Whether `states` are the messages and relations of a list after each
/// step of adding the messages `ms` one after another to an empty list,
/// each placed in turn as `add` places it.
pub open spec fn adding_steps(
    ms: Seq<MessageView>,
    states: Seq<(Seq<MessageView>, Map<Seq<char>, Set<Seq<char>>>)>,
) -> bool {
    &&& states.len() == ms.len() + 1
    &&& states[0] == (Seq::<MessageView>::empty(), Map::<Seq<char>, Set<Seq<char>>>::empty())
    &&& forall|i: int|
        0 <= i < ms.len() ==> placed(
            (#[trigger] states[i]).0.filter(other_id(ms[i].id->Some_0)),
            ms[i],
            states[i + 1].0,
        ) && states[i + 1].1 == added_relations(states[i].1, states[i].0, ms[i])
}

/// Whether messages `r` with relations `rel` are what adding the messages
/// `ms` one after another to an empty list gives.
pub open spec fn built_from(
    ms: Seq<MessageView>,
    r: Seq<MessageView>,
    rel: Map<Seq<char>, Set<Seq<char>>>,
) -> bool {
    exists|states: Seq<(Seq<MessageView>, Map<Seq<char>, Set<Seq<char>>>)>|
        #[trigger] adding_steps(ms, states) && states.last() == (r, rel)
}

/// Every message of a filtered list is one of the list's, and the
/// filtered list keeps their order: it is ordered by date with unique IDs
/// when the list is.
pub proof fn lemma_filter_keeps_order(s: Seq<MessageView>, id: Seq<char>)
    requires
        sorted_by_date(s),
        ids_unique(s),
    ensures
        sorted_by_date(s.filter(other_id(id))),
        ids_unique(s.filter(other_id(id))),
        forall|j: int| 0 <= j < s.filter(other_id(id)).len() ==> (#[trigger] s.filter(other_id(id))[j]).id != Some(id),
    decreases s.len(),
{
    reveal_with_fuel(Seq::<MessageView>::filter, 1);
    let f = s.filter(other_id(id));
    if s.len() == 0 {
        assert(f.len() == 0);
    } else {
        let d = s.drop_last();
        assert forall|i: int, j: int| 0 <= i <= j < d.len() implies #[trigger] d[i].date <= #[trigger] d[j].date by {
            assert(d[i] == s[i] && d[j] == s[j]);
        }
        assert forall|i: int| 0 <= i < d.len() implies (#[trigger] d[i].id) is Some by {
            assert(d[i] == s[i]);
        }
        assert forall|i: int, j: int| 0 <= i < d.len() && 0 <= j < d.len() && #[trigger] d[i].id == #[trigger] d[j].id implies i == j by {
            assert(d[i] == s[i] && d[j] == s[j]);
        }
        lemma_filter_keeps_order(d, id);
        let fd = d.filter(other_id(id));
        if other_id(id)(s.last()) {
            assert(f == fd.push(s.last()));
            assert forall|j: int| 0 <= j < fd.len() implies s.contains(#[trigger] fd[j]) by {
                assert(fd.contains(fd[j]));
                d.lemma_filter_contains_rev(other_id(id), fd[j]);
                let x = choose|x: int| 0 <= x < d.len() && d[x] == fd[j];
                assert(s[x] == fd[j]);
            }
            assert forall|i: int, j: int| 0 <= i <= j < f.len() implies #[trigger] f[i].date <= #[trigger] f[j].date by {
                if j == fd.len() && i < j {
                    assert(s.contains(fd[i]));
                    let x = choose|x: int| 0 <= x < s.len() && s[x] == fd[i];
                    assert(s[x].date <= s[s.len() - 1].date);
                }
            }
            assert forall|i: int, j: int| 0 <= i < f.len() && 0 <= j < f.len() && #[trigger] f[i].id == #[trigger] f[j].id implies i == j by {
                if j == fd.len() && i < j {
                    assert(s.contains(fd[i]));
                    let x = choose|x: int| 0 <= x < s.len() && s[x] == fd[i];
                    assert(x != s.len() - 1) by {
                        if x == s.len() - 1 {
                            assert(d.contains(fd[i])) by {
                                assert(fd.contains(fd[i]));
                                d.lemma_filter_contains_rev(other_id(id), fd[i]);
                            }
                            let y = choose|y: int| 0 <= y < d.len() && d[y] == fd[i];
                            assert(s[y].id == s[s.len() - 1].id);
                        }
                    }
                    assert(s[x].id != s[s.len() - 1].id);
                }
                if i == fd.len() && j < i {
                    assert(s.contains(fd[j]));
                    let x = choose|x: int| 0 <= x < s.len() && s[x] == fd[j];
                    assert(x != s.len() - 1) by {
                        if x == s.len() - 1 {
                            assert(d.contains(fd[j])) by {
                                assert(fd.contains(fd[j]));
                                d.lemma_filter_contains_rev(other_id(id), fd[j]);
                            }
                            let y = choose|y: int| 0 <= y < d.len() && d[y] == fd[j];
                            assert(s[y].id == s[s.len() - 1].id);
                        }
                    }
                    assert(s[x].id != s[s.len() - 1].id);
                }
            }
        } else {
            assert(f == fd);
        }
    }
}

/// A list none of whose messages has the ID `id` is left as it is by
/// filtering out that ID.
pub proof fn lemma_filter_none_removed(s: Seq<MessageView>, id: Seq<char>)
    requires
        forall|j: int| 0 <= j < s.len() ==> (#[trigger] s[j]).id != Some(id),
    ensures
        s.filter(other_id(id)) == s,
    decreases s.len(),
{
    reveal_with_fuel(Seq::<MessageView>::filter, 1);
    if s.len() > 0 {
        let d = s.drop_last();
        assert forall|j: int| 0 <= j < d.len() implies (#[trigger] d[j]).id != Some(id) by {
            assert(d[j] == s[j]);
        }
        lemma_filter_none_removed(d, id);
        assert(other_id(id)(s.last()));
        assert(s.filter(other_id(id)) =~= d.push(s.last()));
        assert(d.push(s.last()) =~= s);
    }
}

/// Filtering out the ID of a message inserted into a list that did not
/// hold that ID gives the list back.
#[verifier::spinoff_prover]
#[verifier::rlimit(30)]
pub proof fn lemma_filter_inserted(k: Seq<MessageView>, m: MessageView, p: int)
    requires
        0 <= p <= k.len(),
        m.id is Some,
        forall|j: int| 0 <= j < k.len() ==> (#[trigger] k[j]).id != m.id,
    ensures
        k.insert(p, m).filter(other_id(m.id->Some_0)) == k,
{
    let id = m.id->Some_0;
    let a = k.take(p);
    let b = k.skip(p);
    assert(k.insert(p, m) =~= a + seq![m] + b);
    assert forall|j: int| 0 <= j < a.len() implies (#[trigger] a[j]).id != Some(id) by {
        assert(a[j] == k[j]);
    }
    assert forall|j: int| 0 <= j < b.len() implies (#[trigger] b[j]).id != Some(id) by {
        assert(b[j] == k[p + j]);
    }
    lemma_filter_none_removed(a, id);
    lemma_filter_none_removed(b, id);
    Seq::<MessageView>::filter_distributes_over_add(a + seq![m], b, other_id(id));
    Seq::<MessageView>::filter_distributes_over_add(a, seq![m], other_id(id));
    reveal_with_fuel(Seq::<MessageView>::filter, 2);
    assert(seq![m].drop_last() =~= Seq::<MessageView>::empty());
    assert(seq![m].filter(other_id(id)) =~= Seq::<MessageView>::empty());
    assert((a + seq![m] + b).filter(other_id(id)) == (a + seq![m]).filter(other_id(id)) + b.filter(
        other_id(id),
    ));
    assert((a + seq![m]).filter(other_id(id)) == a.filter(other_id(id)) + seq![m].filter(
        other_id(id),
    ));
    assert(a + b =~= k);
}

/// The position at which a message of a date goes into messages ordered
/// by date is the only one.
pub proof fn lemma_insert_position_unique(k: Seq<MessageView>, date: i64, p: int, q: int)
    requires
        insert_position(k, date, p),
        insert_position(k, date, q),
    ensures
        p == q,
{
    if p < q {
        assert(k[p].date > date);
        assert(k[p].date <= date);
    }
    if q < p {
        assert(k[q].date > date);
        assert(k[q].date <= date);
    }
}

/// Adding a message that is not redacted a second time leaves the list as
/// the first time made it, messages and relations.
pub proof fn lemma_add_twice(
    s: Seq<MessageView>,
    rel: Map<Seq<char>, Set<Seq<char>>>,
    m: MessageView,
    r1: Seq<MessageView>,
    r2: Seq<MessageView>,
)
    requires
        sorted_by_date(s),
        ids_unique(s),
        m.id is Some,
        !m.redacted,
        placed(s.filter(other_id(m.id->Some_0)), m, r1),
        placed(r1.filter(other_id(m.id->Some_0)), m, r2),
    ensures
        r2 == r1,
        added_relations(added_relations(rel, s, m), r1, m) == added_relations(rel, s, m),
{
    let id = m.id->Some_0;
    let k = s.filter(other_id(id));
    lemma_filter_keeps_order(s, id);
    let p = choose|p: int| insert_position(k, m.date, p) && r1 == k.insert(p, m);
    lemma_filter_inserted(k, m, p);
    let q = choose|q: int| insert_position(k, m.date, q) && r2 == k.insert(q, m);
    lemma_insert_position_unique(k, m.date, p, q);
    let r0 = with_relations(rel, k, m, id);
    let rr = with_relations(r0, k, m, id);
    assert(rr =~= r0) by {
        let a0 = rel.insert(id, relating_ids(k, id));
        let a1 = r0.insert(id, relating_ids(k, id));
        match m.replace {
            Some(rid) => {
                assert(a1.dom().contains(rid));
                if rid == id {
                    assert(a1[rid] == relating_ids(k, id));
                    assert(r0[rid] == (if a0.dom().contains(rid) { a0[rid].insert(id) } else { set![id] }));
                    assert(relating_ids(k, id).insert(id) =~= relating_ids(k, id).insert(id).insert(id));
                } else {
                    assert(a1[rid] == r0[rid]);
                    assert(r0[rid].insert(id) =~= r0[rid]);
                }
            },
            None => {},
        }
    }
}

} // verus!
