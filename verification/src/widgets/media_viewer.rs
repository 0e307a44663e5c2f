//! Moving between the images and videos of a room in the media viewer.

use crate::model::message::{Message, MessageView};
use vstd::prelude::*;

verus! {

/// The state of the media viewer: the number of media, the one shown, and
/// whether older media are known not to exist.
pub struct MediaNav {
    pub len: usize,
    pub current_media_index: usize,
    pub no_more_media: bool,
}

impl MediaNav {
    /// Which of the previous and next buttons are visible: the previous one
    /// unless the first medium is shown and there is none older; the next
    /// one unless the last medium is shown.
    pub fn nav_btn_visibility(&self) -> (r: (bool, bool))
        ensures
            r.0 == !(self.current_media_index == 0 && self.no_more_media),
            r.1 == !(self.len > 0 && self.current_media_index >= self.len - 1),
    {
        let prev = !(self.current_media_index == 0 && self.no_more_media);
        let next = !(self.len > 0 && self.current_media_index >= self.len - 1);
        (prev, next)
    }

    /// Moves to the previous medium: nothing moves when there are no older
    /// media, or at the first one (then older ones are to be loaded: the
    /// result is false); otherwise the one before is shown.
    pub fn previous_media(&mut self) -> (r: bool)
        ensures
            final(self).len == old(self).len,
            final(self).no_more_media == old(self).no_more_media,
            (final(self).current_media_index, r) == after_previous(*old(self)),
    {
        if self.no_more_media {
            return true;
        }
        if self.current_media_index == 0 {
            false
        } else {
            self.current_media_index = self.current_media_index - 1;
            true
        }
    }

    /// Moves to the next medium, unless the last one is shown.
    pub fn next_media(&mut self)
        requires
            old(self).len > 0,
        ensures
            final(self).len == old(self).len,
            final(self).no_more_media == old(self).no_more_media,
            final(self).current_media_index == after_next(*old(self)),
    {
        if self.current_media_index >= self.len - 1 {
            return ;
        }
        self.current_media_index = self.current_media_index + 1;
    }
}

/// The index shown after moving to the previous medium, and whether the
/// move was done or older media are to be loaded.
pub open spec fn after_previous(n: MediaNav) -> (usize, bool) {
    if n.no_more_media {
        (n.current_media_index, true)
    } else if n.current_media_index == 0 {
        (0, false)
    } else {
        ((n.current_media_index - 1) as usize, true)
    }
}

/// The index shown after moving to the next medium.
pub open spec fn after_next(n: MediaNav) -> usize {
    if n.current_media_index >= n.len - 1 {
        n.current_media_index
    } else {
        (n.current_media_index + 1) as usize
    }
}

/// Moving to the next medium undoes moving to the previous one, when the
/// viewer shows one of its media, not the first, and older ones may exist.
pub proof fn lemma_next_undoes_previous(n: MediaNav)
    requires
        !n.no_more_media,
        0 < n.current_media_index < n.len,
    ensures
        after_next(MediaNav { current_media_index: after_previous(n).0, ..n }) == n.current_media_index,
{
}

/// Whether a message is an image or a video.
pub open spec fn is_media(m: MessageView) -> bool {
    m.mtype == "m.image"@ || m.mtype == "m.video"@
}

/// The positions of the images and videos among messages, in order.
pub fn media_positions(msgs: &Vec<Message>) -> (r: Vec<usize>)
    ensures
        forall|k: int| 0 <= k < r@.len() ==> (#[trigger] r@[k]) < msgs@.len() && is_media(msgs@[r@[k] as int]@),
        forall|a: int, b: int| 0 <= a < b < r@.len() ==> #[trigger] r@[a] < #[trigger] r@[b],
        forall|i: int| 0 <= i < msgs@.len() && is_media(#[trigger] msgs@[i]@) ==> r@.contains(i as usize),
{
    let mut r: Vec<usize> = Vec::new();
    let mut i: usize = 0;
    while i < msgs.len()
        invariant
            i <= msgs.len(),
            forall|k: int| 0 <= k < r@.len() ==> (#[trigger] r@[k]) < i && is_media(msgs@[r@[k] as int]@),
            forall|a: int, b: int| 0 <= a < b < r@.len() ==> #[trigger] r@[a] < #[trigger] r@[b],
            forall|j: int| 0 <= j < i && is_media(#[trigger] msgs@[j]@) ==> r@.contains(j as usize),
        decreases msgs.len() - i,
    {
        let m = crate::text::str_eq(msgs[i].mtype.as_str(), "m.image") || crate::text::str_eq(msgs[i].mtype.as_str(), "m.video");
        let ghost prev = r@;
        if m {
            r.push(i);
            proof {
                assert forall|j: int| 0 <= j < i + 1 && is_media(#[trigger] msgs@[j]@) implies r@.contains(j as usize) by {
                    if j < i {
                        let a = choose|a: int| 0 <= a < prev.len() && prev[a] == j as usize;
                        assert(r@[a] == j as usize);
                    } else {
                        assert(r@[prev.len() as int] == i);
                    }
                }
            }
        }
        i = i + 1;
    }
    r
}

/// The keys the media viewer reacts to.
pub enum ViewerKey {
    Escape,
    Left,
    Right,
    Other,
}

/// What a key does in the media viewer.
pub enum ViewerAction {
    /// Leave full screen, and stop the key.
    LeaveFullScreen,
    /// Show the previous medium, and stop the key.
    Previous,
    /// Show the next medium, and stop the key.
    Next,
    /// Let the key do its work.
    Pass,
}

/// What a key does in the media viewer: Escape leaves full screen (only
/// when the window is in full screen), the arrows move to the previous and
/// next medium.
pub fn viewer_key_action(key: ViewerKey, fullscreen: bool) -> (r: ViewerAction)
    ensures
        r == match key {
            ViewerKey::Escape => if fullscreen {
                ViewerAction::LeaveFullScreen
            } else {
                ViewerAction::Pass
            },
            ViewerKey::Left => ViewerAction::Previous,
            ViewerKey::Right => ViewerAction::Next,
            ViewerKey::Other => ViewerAction::Pass,
        },
{
    match key {
        ViewerKey::Escape => if fullscreen {
            ViewerAction::LeaveFullScreen
        } else {
            ViewerAction::Pass
        },
        ViewerKey::Left => ViewerAction::Previous,
        ViewerKey::Right => ViewerAction::Next,
        ViewerKey::Other => ViewerAction::Pass,
    }
}

/// What older messages loaded for the media viewer lead to.
pub enum MoreMedia {
    /// None came: there are no older media.
    NoMore,
    /// Messages came but no image or video among them: load older ones.
    LoadAgain,
    /// Older media came and were put before the others.
    Shown,
}

/// The images and videos among messages, in order.
pub open spec fn media_of(s: Seq<Message>) -> Seq<Message> {
    s.filter(|m: Message| is_media(m@))
}

/// Takes older messages loaded for the media viewer: their images and
/// videos go before the media already listed, and the index of the medium
/// shown moves up by their number, so the same medium stays shown.
pub fn add_older_media(media_list: &mut Vec<Message>, current: &mut usize, msgs: Vec<Message>) -> (r: MoreMedia)
    requires
        *old(current) + msgs@.len() <= usize::MAX,
    ensures
        msgs@.len() == 0 ==> r is NoMore && final(media_list)@ == old(media_list)@ && *final(current)
            == *old(current),
        msgs@.len() > 0 ==> final(media_list)@ == media_of(msgs@) + old(media_list)@,
        msgs@.len() > 0 && media_of(msgs@).len() == 0 ==> r is LoadAgain && *final(current) == *old(current),
        msgs@.len() > 0 && media_of(msgs@).len() > 0 ==> r is Shown && *final(current) == *old(current)
            + media_of(msgs@).len(),
{
    if msgs.len() == 0 {
        return MoreMedia::NoMore;
    }
    let ghost orig = msgs@;
    let mut rest = msgs;
    let mut imgs: Vec<Message> = Vec::new();
    let ghost mut k: int = 0;
    assert(orig.take(0) =~= Seq::<Message>::empty());
    while rest.len() > 0
        invariant
            0 <= k <= orig.len(),
            rest@ == orig.skip(k),
            imgs@ == orig.take(k).filter(|m: Message| is_media(m@)),
            imgs@.len() <= k,
        decreases rest.len(),
    {
        proof {
            reveal_with_fuel(Seq::<Message>::filter, 1);
            assert(orig.take(k + 1).drop_last() =~= orig.take(k));
            assert(orig.skip(k)[0] == orig[k]);
            assert(orig.take(k + 1).last() == orig[k]);
        }
        let m = rest.remove(0);
        proof {
            assert(rest@ =~= orig.skip(k + 1));
        }
        let keep = crate::text::str_eq(m.mtype.as_str(), "m.image") || crate::text::str_eq(
            m.mtype.as_str(),
            "m.video",
        );
        let ghost prev = imgs@;
        if keep {
            imgs.push(m);
            assert(imgs@ =~= prev.push(orig[k]));
        }
        assert(imgs@ =~= orig.take(k + 1).filter(|m: Message| is_media(m@)));
        proof {
            k = k + 1;
        }
    }
    assert(orig.take(orig.len() as int) =~= orig);
    let n = imgs.len();
    let mut older: Vec<Message> = Vec::new();
    std::mem::swap(&mut older, media_list);
    imgs.append(&mut older);
    *media_list = imgs;
    if n == 0 {
        MoreMedia::LoadAgain
    } else {
        *current = *current + n;
        MoreMedia::Shown
    }
}

/// The state of the media viewer: the images and videos of the room, the
/// one shown, where older media are to be loaded from, whether they are
/// being loaded, and whether there are none older.
pub struct MediaViewerData {
    pub media_list: Vec<Message>,
    pub current_media_index: usize,
    pub prev_batch: Option<String>,
    pub loading_more_media: bool,
    pub no_more_media: bool,
}

impl MediaViewerData {
    /// Moves to the previous medium, as `MediaNav::previous_media` does,
    /// and gives the header title then shown (the body of that medium)
    /// when it moved.
    pub fn previous_media(&mut self) -> (r: (bool, Option<String>))
        requires
            old(self).current_media_index < old(self).media_list@.len(),
        ensures
            final(self).media_list@ == old(self).media_list@,
            final(self).prev_batch == old(self).prev_batch,
            final(self).loading_more_media == old(self).loading_more_media,
            final(self).no_more_media == old(self).no_more_media,
            old(self).no_more_media ==> r.0 && r.1 is None && final(self).current_media_index
                == old(self).current_media_index,
            !old(self).no_more_media && old(self).current_media_index == 0 ==> !r.0 && r.1 is None
                && final(self).current_media_index == 0,
            !old(self).no_more_media && old(self).current_media_index > 0 ==> r.0
                && final(self).current_media_index == old(self).current_media_index - 1 && r.1.deep_view()
                == Some(old(self).media_list@[old(self).current_media_index - 1].body@),
    {
        if self.no_more_media {
            return (true, None);
        }
        if self.current_media_index == 0 {
            (false, None)
        } else {
            self.current_media_index = self.current_media_index - 1;
            let title = self.media_list[self.current_media_index].body.clone();
            (true, Some(title))
        }
    }

    /// Moves to the next medium unless the last one is shown, and gives the
    /// header title then shown when it moved.
    pub fn next_media(&mut self) -> (r: Option<String>)
        requires
            old(self).current_media_index < old(self).media_list@.len(),
        ensures
            final(self).media_list@ == old(self).media_list@,
            final(self).prev_batch == old(self).prev_batch,
            final(self).loading_more_media == old(self).loading_more_media,
            final(self).no_more_media == old(self).no_more_media,
            old(self).current_media_index + 1 >= old(self).media_list@.len() ==> r is None
                && final(self).current_media_index == old(self).current_media_index,
            old(self).current_media_index + 1 < old(self).media_list@.len() ==> final(self).current_media_index
                == old(self).current_media_index + 1 && r.deep_view() == Some(
                old(self).media_list@[old(self).current_media_index + 1].body@,
            ),
    {
        if self.current_media_index >= self.media_list.len() - 1 {
            return None;
        }
        self.current_media_index = self.current_media_index + 1;
        Some(self.media_list[self.current_media_index].body.clone())
    }

    /// Starts loading older media: the viewer shows that it is loading, and
    /// the request goes for the room and event ID of the medium shown, from
    /// the batch loaded last. A medium without an event ID asks for nothing
    /// (and the viewer stays loading).
    pub fn start_loading_more(&mut self) -> (r: Option<(String, String, Option<String>)>)
        requires
            old(self).current_media_index < old(self).media_list@.len(),
        ensures
            final(self).loading_more_media,
            final(self).media_list@ == old(self).media_list@,
            final(self).current_media_index == old(self).current_media_index,
            final(self).prev_batch == old(self).prev_batch,
            final(self).no_more_media == old(self).no_more_media,
            match old(self).media_list@[old(self).current_media_index as int]@.id {
                None => r is None,
                Some(id) => r matches Some((room, eid, pb)) && room@ == old(self).media_list@[old(
                    self,
                ).current_media_index as int]@.room && eid@ == id && pb.deep_view()
                    == old(self).prev_batch.deep_view(),
            },
    {
        self.loading_more_media = true;
        let m = &self.media_list[self.current_media_index];
        match &m.id {
            None => None,
            Some(id) => {
                let pb = match &self.prev_batch {
                    Some(p) => Some(p.clone()),
                    None => None,
                };
                Some((m.room.clone(), id.clone(), pb))
            },
        }
    }

    /// Takes the older messages loaded and the batch to load from next.
    /// None loaded: there are no older media. Otherwise their images and
    /// videos go before the others and the batch is remembered; when there
    /// are some, the viewer steps back to the newest of them (giving its
    /// header title) and stops loading.
    pub fn older_media_loaded(&mut self, msgs: Vec<Message>, prev_batch: String) -> (r: (MoreMedia, Option<String>))
        requires
            old(self).current_media_index < old(self).media_list@.len(),
            old(self).current_media_index + msgs@.len() <= usize::MAX,
            !old(self).no_more_media,
        ensures
            msgs@.len() == 0 ==> r.0 is NoMore && r.1 is None && final(self).no_more_media && final(self).media_list@
                == old(self).media_list@ && final(self).current_media_index == old(self).current_media_index
                && final(self).prev_batch == old(self).prev_batch && final(self).loading_more_media
                == old(self).loading_more_media,
            msgs@.len() > 0 ==> !final(self).no_more_media && final(self).media_list@ == media_of(msgs@)
                + old(self).media_list@ && final(self).prev_batch.deep_view() == Some(prev_batch@),
            msgs@.len() > 0 && media_of(msgs@).len() == 0 ==> r.0 is LoadAgain && r.1 is None
                && final(self).current_media_index == old(self).current_media_index && final(self).loading_more_media
                == old(self).loading_more_media,
            msgs@.len() > 0 && media_of(msgs@).len() > 0 ==> r.0 is Shown && final(self).current_media_index
                == old(self).current_media_index + media_of(msgs@).len() - 1 && !final(self).loading_more_media
                && r.1.deep_view() == Some(final(self).media_list@[final(self).current_media_index as int].body@),
    {
        let n_msgs = msgs.len();
        let mut list: Vec<Message> = Vec::new();
        std::mem::swap(&mut list, &mut self.media_list);
        let mut current = self.current_media_index;
        let r = add_older_media(&mut list, &mut current, msgs);
        self.media_list = list;
        self.current_media_index = current;
        match r {
            MoreMedia::NoMore => {
                self.no_more_media = true;
                (MoreMedia::NoMore, None)
            },
            MoreMedia::LoadAgain => {
                self.prev_batch = Some(prev_batch);
                (MoreMedia::LoadAgain, None)
            },
            MoreMedia::Shown => {
                self.prev_batch = Some(prev_batch);
                let (_, title) = self.previous_media();
                self.loading_more_media = false;
                (MoreMedia::Shown, title)
            },
        }
    }
}

} // verus!
