//! Which buttons the menu of a message shows.

use vstd::prelude::*;

verus! {

/// What a message shows, as far as its menu is concerned.
pub enum RowKind {
    Image,
    Video,
    /// Any other kind of message.
    Other,
}

/// Which buttons of a message's menu are visible, and the event ID that
/// the actions of the reply, open-with, view-source, delete, save-as and
/// copy buttons act on.
pub struct MenuButtons {
    pub action_target: String,
    pub copy_selected: bool,
    pub delete_message: bool,
    pub separator: bool,
    pub open_with: bool,
    pub save_image_as: bool,
    pub save_video_as: bool,
    pub copy_image: bool,
    pub copy_text: bool,
}

/// The buttons of a message's menu: deleting (and the separator before it)
/// when the message can be redacted; opening with another application for
/// images and videos; saving an image or a video as such; copying an
/// image; copying the text of any other message. Copying a selection is
/// hidden until text is selected. The actions act on the message's event
/// ID.
pub fn menu_buttons(id: &str, kind: RowKind, redactable: bool) -> (b: MenuButtons)
    ensures
        b.action_target@ == id@,
        !b.copy_selected,
        b.delete_message == redactable,
        b.separator == redactable,
        b.open_with == (kind is Image || kind is Video),
        b.save_image_as == kind is Image,
        b.save_video_as == kind is Video,
        b.copy_image == kind is Image,
        b.copy_text == !(kind is Image || kind is Video),
{
    let (image, video) = match kind {
        RowKind::Image => (true, false),
        RowKind::Video => (false, true),
        RowKind::Other => (false, false),
    };
    MenuButtons {
        action_target: id.to_owned(),
        copy_selected: false,
        delete_message: redactable,
        separator: redactable,
        open_with: image || video,
        save_image_as: image,
        save_video_as: video,
        copy_image: image,
        copy_text: !image && !video,
    }
}

} // verus!
