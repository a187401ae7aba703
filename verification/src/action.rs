use vstd::prelude::*;
use crate::file_browser::BrowserMode;

verus! {

/// A screen that a page can open.
pub enum Screen {
    /// The start-up logo.
    Logo,
    /// The main menu.
    Menu,
    /// The time-zone list.
    Timezone,
    /// The note-service setup.
    SimpleNoteSetup,
    /// A marathon game.
    Zeugtris,
    /// The high-score table.
    Highscores,
    /// The deck browser of the learning mode.
    LearnBrowser(BrowserMode),
    /// Naming a new folder (`true`) or file (`false`) in a directory.
    NameEntry(String, bool),
}

/// What a page asks of the screen stack after a key or a tick.
pub enum Action {
    /// Nothing changes.
    Nothing,
    /// The page is drawn again.
    Redraw,
    /// A new screen goes on top.
    Push(Screen),
    /// The page leaves the stack.
    Pop,
    /// The page is replaced.
    Replace(Screen),
    /// The program ends.
    Exit,
}

impl Action {
    /// The action asks for nothing.
    pub fn is_none(&self) -> (b: bool)
        ensures
            b == (*self is Nothing),
    {
        match self {
            Action::Nothing => true,
            _ => false,
        }
    }
}

} // verus!
