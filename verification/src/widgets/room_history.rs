//! What the room history decides: where a row lies relative to the visible
//! area, which rows are visible, when messages share a header, and where
//! the new messages divider goes.

use vstd::prelude::*;

verus! {

/// Where a row lies relative to the visible area of the history.
pub enum RelativePosition {
    In,
    Above,
    Below,
}

/// Where a row lies: above the visible area when it ends at or above its
/// top, in it when it starts above its bottom, below otherwise. `rel_y` is
/// the row's top relative to the top of the visible area.
pub fn get_rel_position(rel_y: i32, height_widget: i32, height_visible_area: i32) -> (r: RelativePosition)
    ensures
        r == (if rel_y <= -height_widget {
            RelativePosition::Above
        } else if rel_y < height_visible_area {
            RelativePosition::In
        } else {
            RelativePosition::Below
        }),
{
    if (rel_y as i64) <= -(height_widget as i64) {
        RelativePosition::Above
    } else if rel_y < height_visible_area {
        RelativePosition::In
    } else {
        RelativePosition::Below
    }
}

/// Rows laid out in order, from the bottom of the history (row 0) up:
/// every row below the visible area comes before every row in it, which
/// come before every row above it.
pub open spec fn laid_out(p: Seq<RelativePosition>) -> bool {
    forall|i: int, j: int|
        0 <= i < j < p.len() ==> (#[trigger] p[i] is Above ==> p[j] is Above) && (#[trigger] p[j]
            is Below ==> p[i] is Below)
}

/// Looks for a visible row among the rows `lo..=hi` by halving the range:
/// a row above the visible area sends the search to the rows under it
/// (lower indices), one below to the rows over it. The row found is visible; when the rows are
/// laid out in order, none is visible in the range when none is found.
pub fn find_visible_index(positions: &Vec<RelativePosition>, lo: usize, hi: usize) -> (r: Option<usize>)
    requires
        hi < positions@.len(),
    ensures
        match r {
            Some(i) => lo <= i <= hi && positions@[i as int] is In,
            None => laid_out(positions@) ==> forall|j: int|
                lo <= j <= hi ==> !(#[trigger] positions@[j] is In),
        },
    decreases hi - lo + 1,
{
    if lo > hi {
        return None;
    }
    let middle = lo + (hi - lo) / 2;
    match positions[middle] {
        RelativePosition::Above => {
            if lo == hi {
                None
            } else {
                let r = find_visible_index(positions, lo, middle);
                proof {
                    if r is None && laid_out(positions@) {
                        assert forall|j: int| lo <= j <= hi implies !(#[trigger] positions@[j] is In) by {
                            if j > middle {
                                assert(positions@[middle as int] is Above);
                            }
                        }
                    }
                }
                r
            }
        },
        RelativePosition::In => Some(middle),
        RelativePosition::Below => {
            if lo == hi {
                None
            } else {
                let r = find_visible_index(positions, middle + 1, hi);
                proof {
                    if r is None && laid_out(positions@) {
                        assert forall|j: int| lo <= j <= hi implies !(#[trigger] positions@[j] is In) by {
                            if j < middle {
                                assert(positions@[middle as int] is Below);
                            }
                        }
                    }
                }
                r
            }
        },
    }
}

/// Whether the row at `i` is in the visible area.
fn is_in(positions: &Vec<RelativePosition>, i: usize) -> (r: bool)
    requires
        i < positions@.len(),
    ensures
        r == positions@[i as int] is In,
{
    match positions[i] {
        RelativePosition::In => true,
        _ => false,
    }
}

/// The visible rows: a visible row found first (row 0 when it is visible,
/// else by halving), then the rows after it while they are visible, then
/// the rows before it, going back, while they are visible. Each row comes
/// once; when the rows are laid out in order, every visible row comes.
pub fn find_all_visible_indices(positions: &Vec<RelativePosition>) -> (r: Vec<usize>)
    ensures
        forall|k: int| 0 <= k < r@.len() ==> (#[trigger] r@[k]) < positions@.len() && positions@[r@[k] as int] is In,
        r@.no_duplicates(),
        laid_out(positions@) ==> forall|j: int|
            0 <= j < positions@.len() && #[trigger] positions@[j] is In ==> r@.contains(j as usize),
{
    let len = positions.len();
    let mut indices: Vec<usize> = Vec::new();
    if len == 0 {
        return indices;
    }
    let visible = if is_in(positions, 0) {
        Some(0)
    } else {
        find_visible_index(positions, 0, len - 1)
    };
    if let Some(v) = visible {
        indices.push(v);
        assert(indices@[0] == v);
        let mut i = v + 1;
        while i < len && is_in(positions, i)
            invariant
                v < i <= len,
                len == positions@.len(),
                positions@[v as int] is In,
                indices@.len() == i - v,
                forall|k: int| 0 <= k < indices@.len() ==> #[trigger] indices@[k] == v + k,
                forall|k: int| v <= k < i ==> positions@[k] is In,
            decreases len - i,
        {
            indices.push(i);
            i = i + 1;
        }
        let ghost top = i;
        proof {
            assert forall|k: int| 0 <= k < indices@.len() implies #[trigger] indices@[k] == v + k
                && indices@[k] < len && positions@[indices@[k] as int] is In by {}
        }
        let mut j = v;
        while j > 0 && is_in(positions, j - 1)
            invariant
                j <= v < top <= len,
                len == positions@.len(),
                positions@[v as int] is In,
                top == len || !(positions@[top as int] is In),
                indices@.len() == (top - v) + (v - j),
                forall|k: int| 0 <= k < top - v ==> #[trigger] indices@[k] == v + k,
                forall|k: int| top - v <= k < indices@.len() ==> #[trigger] indices@[k] == v - 1 - (k - (top - v)),
                forall|k: int| j <= k < top ==> positions@[k] is In,
            decreases j,
        {
            indices.push(j - 1);
            j = j - 1;
        }
        proof {
            assert forall|a: int| 0 <= a < indices@.len() implies (#[trigger] indices@[a]) < positions@.len()
                && positions@[indices@[a] as int] is In && j <= indices@[a] < top by {
                if a < top - v {
                } else {
                }
            }
            assert forall|a: int, b: int| 0 <= a < indices@.len() && 0 <= b < indices@.len() && a != b
                implies indices@[a] != indices@[b] by {
                if a < top - v {
                } else {
                }
                if b < top - v {
                } else {
                }
            }
            if laid_out(positions@) {
                assert forall|x: int| 0 <= x < positions@.len() && #[trigger] positions@[x] is In implies indices@.contains(x as usize) by {
                    if x >= top {
                        assert(positions@[top as int] is Above || positions@[top as int] is Below);
                        if positions@[top as int] is Below {
                            assert(positions@[v as int] is Below);
                        }
                        assert(x == top || positions@[x] is Above);
                    }
                    if x < j {
                        assert(positions@[j - 1] is Above || positions@[j - 1] is Below);
                        if positions@[j - 1] is Above {
                            assert(positions@[v as int] is Above);
                        }
                        assert(x == j - 1 || positions@[x] is Below);
                    }
                    if x >= v {
                        assert(indices@[x - v] == x);
                    } else {
                        let k = (top - v) + (v - 1 - x);
                        assert(indices@[k] == x);
                    }
                }
            }
        }
    } else {
        proof {
            if laid_out(positions@) {
                assert(!(positions@[0] is In));
            }
        }
    }
    indices
}

/// Whether a message shares the header of the one before it: same sender,
/// the one before not redacted, and sent less than 30 minutes after it
/// (fewer than 30 whole minutes between the two dates, in milliseconds).
pub open spec fn groups_with(
    sender: Seq<char>,
    date: i64,
    prev_sender: Seq<char>,
    prev_date: i64,
    prev_redacted: bool,
) -> bool {
    sender == prev_sender && !prev_redacted && date - prev_date < 30 * 60 * 1000
}

/// Whether a message shares the header of the one before it.
pub fn should_group_message(
    sender: &str,
    date: i64,
    prev_sender: &str,
    prev_date: i64,
    prev_redacted: bool,
) -> (r: bool)
    ensures
        r == groups_with(sender@, date, prev_sender@, prev_date, prev_redacted),
{
    if crate::text::str_eq(sender, prev_sender) && !prev_redacted {
        (date as i128) - (prev_date as i128) < 1800000
    } else {
        false
    }
}

/// What is known of the row a new message follows.
pub enum LastRow {
    /// The history is empty.
    Nothing,
    /// A message row: its sender, date, whether it is redacted or an emote.
    Message { sender: String, date: i64, redacted: bool, emote: bool },
    /// A divider.
    Divider,
}

/// Whether a new message shows a header: always after nothing, never
/// after a divider, and after a message when that one is an emote or the
/// two do not group.
pub fn has_header(sender: &str, date: i64, last: &LastRow) -> (r: bool)
    ensures
        r == match *last {
            LastRow::Nothing => true,
            LastRow::Message { sender: s, date: d, redacted, emote } => emote || !groups_with(
                sender@,
                date,
                s@,
                d,
                redacted,
            ),
            LastRow::Divider => false,
        },
{
    match last {
        LastRow::Nothing => true,
        LastRow::Message { sender: s, date: d, redacted, emote } => {
            *emote || !should_group_message(sender, date, s.as_str(), *d, *redacted)
        },
        LastRow::Divider => false,
    }
}

/// Where the history splits the messages of a room in two: after the
/// last message viewed (the old ones before, the new ones after), or after
/// all of them when none was viewed.
pub fn split_position(last_viewed: &Vec<bool>) -> (p: usize)
    ensures
        p <= last_viewed@.len(),
        (forall|i: int| 0 <= i < last_viewed@.len() ==> !#[trigger] last_viewed@[i]) ==> p
            == last_viewed@.len(),
        (exists|i: int| 0 <= i < last_viewed@.len() && #[trigger] last_viewed@[i]) ==> 0 < p
            && last_viewed@[p - 1] && forall|k: int| p <= k < last_viewed@.len() ==> !#[trigger] last_viewed@[k],
{
    let mut position = last_viewed.len();
    let mut i: usize = 0;
    let mut found = false;
    while i < last_viewed.len()
        invariant
            i <= last_viewed.len(),
            found ==> 0 < position <= i && last_viewed@[position - 1] && forall|k: int| position <= k < i ==> !#[trigger] last_viewed@[k],
            !found ==> position == last_viewed.len() && forall|k: int| 0 <= k < i ==> !#[trigger] last_viewed@[k],
        decreases last_viewed.len() - i,
    {
        if last_viewed[i] {
            position = i + 1;
            found = true;
        }
        i = i + 1;
    }
    position
}

/// The position of the new messages divider after a row is added at the
/// bottom: one further from the bottom.
pub fn divider_after_add_bottom(new_divider_index: Option<usize>) -> (r: Option<usize>)
    requires
        new_divider_index matches Some(i) ==> i < usize::MAX,
    ensures
        r == match new_divider_index {
            Some(i) => Some((i + 1) as usize),
            None => None::<usize>,
        },
{
    match new_divider_index {
        Some(i) => Some(i + 1),
        None => None,
    }
}

} // verus!
