use vstd::prelude::*;

use crate::path::FsPath;

verus! {

/// The modes the interface can be in.
#[derive(PartialEq, Eq, Clone, Copy, Debug)]
pub enum AppMode {
    Normal,
    Edit(EditAction),
    Search,
    Navigate,
    Compare,
    Theme,
}

/// The change an edit mode makes.
#[derive(PartialEq, Eq, Clone, Copy, Debug)]
pub enum EditAction {
    Create,
    Delete,
    Rename,
    Move,
    Copy,
}

/// An edit to a line of input.
#[derive(Debug, PartialEq, Eq, PartialOrd, Ord)]
pub enum InputType {
    AppendChar(char),
    DeleteChar,
    SetCursor(usize),
    DeletePrevWord,
    DeleteNextWord,
    GoToPrevWord,
    GoToNextWord,
    AutoComplete(FsPath),
}

/// The name shown for a mode.
pub open spec fn mode_label(m: AppMode) -> Seq<char> {
    match m {
        AppMode::Normal => seq!['N', 'o', 'r', 'm', 'a', 'l'],
        AppMode::Edit(_) => seq!['E', 'd', 'i', 't'],
        AppMode::Search => seq!['S', 'e', 'a', 'r', 'c', 'h'],
        AppMode::Navigate => seq!['N', 'a', 'v', 'i', 'g', 'a', 't', 'e'],
        AppMode::Compare => seq!['C', 'o', 'm', 'p', 'a', 'r', 'e'],
        AppMode::Theme => seq!['T', 'h', 'e', 'm', 'e'],
    }
}

impl AppMode {
    /// The name shown for this mode.
    pub fn label(&self) -> (r: String)
        ensures
            r@ == mode_label(*self),
    {
        let s = match self {
            AppMode::Normal => "Normal",
            AppMode::Edit(_) => "Edit",
            AppMode::Search => "Search",
            AppMode::Navigate => "Navigate",
            AppMode::Compare => "Compare",
            AppMode::Theme => "Theme",
        };
        proof {
            reveal_strlit("Normal");
            reveal_strlit("Edit");
            reveal_strlit("Search");
            reveal_strlit("Navigate");
            reveal_strlit("Compare");
            reveal_strlit("Theme");
        }
        let r = s.to_owned();
        assert(r@ =~= mode_label(*self));
        r
    }
}

} // verus!
