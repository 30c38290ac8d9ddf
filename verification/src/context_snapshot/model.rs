//! What a saved snapshot holds.

use vstd::prelude::*;

use crate::text;
use crate::time::UtcTime;

verus! {

/// A complete captured desktop state.
#[derive(Debug, Clone, PartialEq, Eq)]
pub struct ContextSnapshot {
    /// The name that the user gave. Doubles as the stem of the file name.
    pub name: String,
    /// Wall-clock time of the capture.
    pub captured_at: UtcTime,
    /// The workspace that was focused. Restoring focuses it last.
    pub focused_workspace: Option<String>,
    /// The captured windows.
    pub windows: Vec<WindowSnapshot>,
}

/// One captured window. Its identity is the application and the title.
#[derive(Debug, Clone, PartialEq, Eq)]
pub struct WindowSnapshot {
    /// The workspace that the window was on.
    pub workspace: String,
    /// The Wayland application id, or the window class of an X11 window. A capture
    /// passes windows over that have neither, so it is never empty there.
    pub app_id: String,
    /// The title. May be empty.
    pub title: String,
    /// The arguments of the window's process, where they could be read.
    pub cmdline: Option<Vec<String>>,
    /// Whether the window was floating.
    pub floating: bool,
}

/// The mathematical contents of a [`WindowSnapshot`].
pub struct WindowView {
    pub workspace: Seq<char>,
    pub app_id: Seq<char>,
    pub title: Seq<char>,
    pub cmdline: Option<Seq<Seq<char>>>,
    pub floating: bool,
}

impl DeepView for WindowSnapshot {
    type V = WindowView;

    open spec fn deep_view(&self) -> WindowView {
        WindowView {
            workspace: self.workspace@,
            app_id: self.app_id@,
            title: self.title@,
            cmdline: self.cmdline.deep_view(),
            floating: self.floating,
        }
    }
}

impl WindowView {
    /// The application, and the title behind a dash where there is one.
    pub open spec fn identity(self) -> Seq<char> {
        if self.title.len() == 0 {
            self.app_id
        } else {
            self.app_id + " — "@ + self.title
        }
    }
}

impl WindowSnapshot {
    /// The identity of the window in words.
    pub fn identity(&self) -> (r: String)
        ensures
            r@ == self.deep_view().identity(),
    {
        if self.title.as_str().is_empty() {
            self.app_id.clone()
        } else {
            text::concat3(&self.app_id, " — ", &self.title)
        }
    }
}

} // verus!
