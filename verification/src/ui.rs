//! What the menus and the tab strip report to the host.

use crate::editor::TabId;
use vstd::prelude::*;

verus! {

/// What the user picked on the tab strip.
#[derive(Clone, Copy, Debug, PartialEq, Eq, Structural)]
pub enum TabAction {
    Select(TabId),
    Close(TabId),
    CloseOthers(TabId),
    New,
}

/// What the user picked in the main menu.
#[derive(Debug)]
pub enum MenuAction {
    NewTab,
    Open,
    /// Open the recently used file at this path.
    OpenRecent(String),
    Save,
    SaveAs,
    Exit,
    Undo,
    Redo,
    Find,
    Replace,
    GotoLine,
    TimeDate,
    ToggleWordWrap,
    ToggleLineNumbers,
    ToggleDarkMode,
    ZoomIn,
    ZoomOut,
    ResetZoom,
    /// Use the font family of this name in the editor.
    ChangeFont(String),
    LoadFont,
}

} // verus!
