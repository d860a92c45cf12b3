//! Error popup state: a titled message dialog with an acknowledge action
//! that requests its own closure.

use vstd::prelude::*;

verus! {

/// A modal error dialog. `open` is the dialog's own wish to stay visible;
/// clicking its acknowledge button clears it, and the host window's
/// visibility flag is then reconciled with it once per frame.
pub struct PopupWindow {
    pub title: String,
    pub message: String,
    pub open: bool,
}

impl Default for PopupWindow {
    /// A fresh popup is titled "Message", has no text yet, and wants to be shown.
    fn default() -> (r: Self)
        ensures
            r.title@ == "Message"@,
            r.message@ == Seq::<char>::empty(),
            r.open,
    {
        PopupWindow {
            title: String::from_str("Message"),
            message: String::new(),
            open: true,
        }
    }
}

impl PopupWindow {
    pub fn set_title(&mut self, title: String)
        ensures
            final(self).title == title,
            final(self).message == old(self).message,
            final(self).open == old(self).open,
    {
        self.title = title;
    }

    pub fn set_message(&mut self, msg: String)
        ensures
            final(self).message == msg,
            final(self).title == old(self).title,
            final(self).open == old(self).open,
    {
        self.message = msg;
    }

    /// The acknowledge button was clicked: the popup asks to be closed.
    pub fn acknowledge(&mut self)
        ensures
            !final(self).open,
            final(self).title == old(self).title,
            final(self).message == old(self).message,
    {
        self.open = false;
    }

    /// After a frame, fold the popup's own wish to close into the host
    /// window's visibility flag: the view stays open only if both the host
    /// and the popup still want it open.
    pub fn sync_open(&self, open: &mut bool)
        ensures
            *final(open) == (*old(open) && self.open),
    {
        if !self.open {
            *open = false;
        }
    }
}

} // verus!
