use vstd::prelude::*;
use crate::action::{Action, Screen};
use crate::context::{Context, KeyboardLayout};
use crate::file_browser::BrowserMode;
use crate::keys::Key;

verus! {

/// Entries of the main menu: write, learn, zeugtris, settings, credits.
pub const MENU_OPTION_COUNT: usize = 5;

/// Entries of the settings list: time zone, location, dark mode, note
/// service, keyboard.
pub const SETTINGS_OPTION_COUNT: usize = 5;

/// Time-zone offsets on the map.
pub const TZ_COUNT: usize = 31;

/// The time-zone offset selected first: UTC.
pub const TZ_UTC: usize = 12;

/// The name of time-zone offset `i` (hours from UTC), west to east.
pub open spec fn tz_label(i: int) -> Seq<char> {
    if i == 0 {
        "-11"@
    } else if i == 1 {
        "-10"@
    } else if i == 2 {
        "-9"@
    } else if i == 3 {
        "-8"@
    } else if i == 4 {
        "-7"@
    } else if i == 5 {
        "-6"@
    } else if i == 6 {
        "-5"@
    } else if i == 7 {
        "-4"@
    } else if i == 8 {
        "-3.5"@
    } else if i == 9 {
        "-3"@
    } else if i == 10 {
        "-2"@
    } else if i == 11 {
        "-1"@
    } else if i == 12 {
        "UTC"@
    } else if i == 13 {
        "1"@
    } else if i == 14 {
        "2"@
    } else if i == 15 {
        "3"@
    } else if i == 16 {
        "3.5"@
    } else if i == 17 {
        "4"@
    } else if i == 18 {
        "4.5"@
    } else if i == 19 {
        "5"@
    } else if i == 20 {
        "5.5"@
    } else if i == 21 {
        "6"@
    } else if i == 22 {
        "6.5"@
    } else if i == 23 {
        "7"@
    } else if i == 24 {
        "8"@
    } else if i == 25 {
        "9"@
    } else if i == 26 {
        "9.5"@
    } else if i == 27 {
        "10"@
    } else if i == 28 {
        "10.5"@
    } else if i == 29 {
        "11"@
    } else {
        "12"@
    }
}

/// The name of time-zone offset `i`, for `i` below `TZ_COUNT`.
pub fn tz_label_str(i: usize) -> (s: &'static str)
    requires
        i < TZ_COUNT,
    ensures
        s@ == tz_label(i as int),
{
    match i {
        0 => "-11",
        1 => "-10",
        2 => "-9",
        3 => "-8",
        4 => "-7",
        5 => "-6",
        6 => "-5",
        7 => "-4",
        8 => "-3.5",
        9 => "-3",
        10 => "-2",
        11 => "-1",
        12 => "UTC",
        13 => "1",
        14 => "2",
        15 => "3",
        16 => "3.5",
        17 => "4",
        18 => "4.5",
        19 => "5",
        20 => "5.5",
        21 => "6",
        22 => "6.5",
        23 => "7",
        24 => "8",
        25 => "9",
        26 => "9.5",
        27 => "10",
        28 => "10.5",
        29 => "11",
        _ => "12",
    }
}

/// The start-up logo: Enter opens the main menu in its place.
pub struct LogoPage {}

impl LogoPage {
    pub fn new() -> (p: Self) {
        LogoPage {  }
    }

    pub fn update(&mut self, key: Key) -> (a: Action)
        ensures
            a == (if key == Key::Char('\n') {
                Action::Replace(Screen::Menu)
            } else {
                Action::Nothing
            }),
    {
        if key == Key::Char('\n') {
            Action::Replace(Screen::Menu)
        } else {
            Action::Nothing
        }
    }
}

/// The credits picture: Esc leaves.
pub struct CreditsPage {}

impl CreditsPage {
    pub fn new() -> (p: Self) {
        CreditsPage {  }
    }

    pub fn update(&mut self, key: Key) -> (a: Action)
        ensures
            a == (if key == Key::Esc {
                Action::Pop
            } else {
                Action::Nothing
            }),
    {
        if key == Key::Esc {
            Action::Pop
        } else {
            Action::Nothing
        }
    }
}

/// A list of `count` entries with one selected: up and down move the
/// selection and stop at the ends.
pub open spec fn stepped(index: int, count: int, key: Key) -> int {
    match key {
        Key::Up => if index > 0 {
            index - 1
        } else {
            index
        },
        Key::Down => if index < count - 1 {
            index + 1
        } else {
            index
        },
        _ => index,
    }
}

/// The main menu: a list of five entries. Esc goes back to the logo; Enter
/// does nothing yet.
pub struct MenuPage {
    current_index: usize,
}

impl MenuPage {
    pub fn new() -> (p: Self)
        ensures
            p.current_index() == 0,
    {
        MenuPage { current_index: 0 }
    }

    pub closed spec fn current_index(&self) -> int {
        self.current_index as int
    }

    pub fn selected(&self) -> (i: usize)
        ensures
            i == self.current_index(),
    {
        self.current_index
    }

    pub fn update(&mut self, key: Key) -> (a: Action)
        requires
            old(self).current_index() < MENU_OPTION_COUNT,
        ensures
            final(self).current_index() == (if key == Key::Esc {
                old(self).current_index()
            } else {
                stepped(old(self).current_index(), MENU_OPTION_COUNT as int, key)
            }),
            final(self).current_index() < MENU_OPTION_COUNT,
            a == (if key == Key::Esc {
                Action::Replace(Screen::Logo)
            } else {
                Action::Nothing
            }),
    {
        match key {
            Key::Esc => Action::Replace(Screen::Logo),
            Key::Up => {
                if self.current_index > 0 {
                    self.current_index = self.current_index - 1;
                }
                Action::Nothing
            },
            Key::Down => {
                if self.current_index < MENU_OPTION_COUNT - 1 {
                    self.current_index = self.current_index + 1;
                }
                Action::Nothing
            },
            _ => Action::Nothing,
        }
    }
}

/// The writing menu: new file or open file. Esc leaves; Enter does
/// nothing yet.
pub struct WriteMenuPage {
    current_index: usize,
}

impl WriteMenuPage {
    pub fn new() -> (p: Self)
        ensures
            p.current_index() == 0,
    {
        WriteMenuPage { current_index: 0 }
    }

    pub closed spec fn current_index(&self) -> int {
        self.current_index as int
    }

    pub fn selected(&self) -> (i: usize)
        ensures
            i == self.current_index(),
    {
        self.current_index
    }

    pub fn update(&mut self, key: Key) -> (a: Action)
        requires
            old(self).current_index() < 2,
        ensures
            final(self).current_index() == stepped(old(self).current_index(), 2, key),
            a == (if key == Key::Esc {
                Action::Pop
            } else {
                Action::Nothing
            }),
    {
        match key {
            Key::Up => {
                if self.current_index == 1 {
                    self.current_index = 0;
                }
                Action::Nothing
            },
            Key::Down => {
                if self.current_index == 0 {
                    self.current_index = 1;
                }
                Action::Nothing
            },
            Key::Esc => Action::Pop,
            _ => Action::Nothing,
        }
    }
}

/// The game menu: play or high scores; up and down toggle between them.
pub struct ZeugtrisMenuPage {
    current_index: usize,
}

impl ZeugtrisMenuPage {
    pub fn new() -> (p: Self)
        ensures
            p.current_index() == 0,
    {
        ZeugtrisMenuPage { current_index: 0 }
    }

    pub closed spec fn current_index(&self) -> int {
        self.current_index as int
    }

    pub fn selected(&self) -> (i: usize)
        ensures
            i == self.current_index(),
    {
        self.current_index
    }

    pub fn update(&mut self, key: Key) -> (a: Action)
        requires
            old(self).current_index() < 2,
        ensures
            final(self).current_index() == (if key == Key::Up || key == Key::Down {
                1 - old(self).current_index()
            } else {
                old(self).current_index()
            }),
            a == (if key == Key::Char('\n') {
                if old(self).current_index() == 0 {
                    Action::Push(Screen::Zeugtris)
                } else {
                    Action::Push(Screen::Highscores)
                }
            } else if key == Key::Esc {
                Action::Pop
            } else {
                Action::Nothing
            }),
    {
        match key {
            Key::Up | Key::Down => {
                self.current_index = if self.current_index == 0 {
                    1
                } else {
                    0
                };
                Action::Nothing
            },
            Key::Char(c) => {
                if c == '\n' {
                    if self.current_index == 0 {
                        Action::Push(Screen::Zeugtris)
                    } else {
                        Action::Push(Screen::Highscores)
                    }
                } else {
                    Action::Nothing
                }
            },
            Key::Esc => Action::Pop,
            _ => Action::Nothing,
        }
    }
}

/// The learning menu: open a deck or create one, each through the deck
/// browser.
pub struct LearnMenuPage {
    current_index: usize,
}

impl LearnMenuPage {
    pub fn new() -> (p: Self)
        ensures
            p.current_index() == 0,
    {
        LearnMenuPage { current_index: 0 }
    }

    pub closed spec fn current_index(&self) -> int {
        self.current_index as int
    }

    pub fn selected(&self) -> (i: usize)
        ensures
            i == self.current_index(),
    {
        self.current_index
    }

    pub fn update(&mut self, key: Key) -> (a: Action)
        requires
            old(self).current_index() < 2,
        ensures
            final(self).current_index() == stepped(old(self).current_index(), 2, key),
            a == (if key == Key::Char('\n') {
                if old(self).current_index() == 0 {
                    Action::Push(Screen::LearnBrowser(BrowserMode::OpenFile))
                } else {
                    Action::Push(Screen::LearnBrowser(BrowserMode::Full))
                }
            } else if key == Key::Esc {
                Action::Pop
            } else {
                Action::Nothing
            }),
    {
        match key {
            Key::Up => {
                if self.current_index > 0 {
                    self.current_index = self.current_index - 1;
                }
                Action::Nothing
            },
            Key::Down => {
                if self.current_index < 1 {
                    self.current_index = self.current_index + 1;
                }
                Action::Nothing
            },
            Key::Char(c) => {
                if c == '\n' {
                    if self.current_index == 0 {
                        Action::Push(Screen::LearnBrowser(BrowserMode::OpenFile))
                    } else {
                        Action::Push(Screen::LearnBrowser(BrowserMode::Full))
                    }
                } else {
                    Action::Nothing
                }
            },
            Key::Esc => Action::Pop,
            _ => Action::Nothing,
        }
    }
}

/// The other keyboard layout.
pub open spec fn other_layout(l: KeyboardLayout) -> KeyboardLayout {
    match l {
        KeyboardLayout::Qwerty => KeyboardLayout::Qwertz,
        KeyboardLayout::Qwertz => KeyboardLayout::Qwerty,
    }
}

/// The settings list. Enter on the time zone or the note service opens
/// its page; on dark mode or the keyboard it toggles the setting; on the
/// location it does nothing.
pub struct SettingsPage {
    current_index: usize,
}

impl SettingsPage {
    pub fn new() -> (p: Self)
        ensures
            p.current_index() == 0,
    {
        SettingsPage { current_index: 0 }
    }

    pub closed spec fn current_index(&self) -> int {
        self.current_index as int
    }

    pub fn selected(&self) -> (i: usize)
        ensures
            i == self.current_index(),
    {
        self.current_index
    }

    pub fn update(&mut self, key: Key, ctx: &mut Context) -> (a: Action)
        requires
            old(self).current_index() < SETTINGS_OPTION_COUNT,
        ensures
            final(self).current_index() == stepped(
                old(self).current_index(),
                SETTINGS_OPTION_COUNT as int,
                key,
            ),
            final(self).current_index() < SETTINGS_OPTION_COUNT,
            final(ctx).dark_mode == (if key == Key::Char('\n') && old(self).current_index() == 2 {
                !old(ctx).dark_mode
            } else {
                old(ctx).dark_mode
            }),
            final(ctx).layout == (if key == Key::Char('\n') && old(self).current_index() == 4 {
                other_layout(old(ctx).layout)
            } else {
                old(ctx).layout
            }),
            final(ctx).status == old(ctx).status,
            final(ctx).timezone == old(ctx).timezone,
            a == (if key == Key::Char('\n') {
                if old(self).current_index() == 0 {
                    Action::Push(Screen::Timezone)
                } else if old(self).current_index() == 3 {
                    Action::Push(Screen::SimpleNoteSetup)
                } else {
                    Action::Nothing
                }
            } else if key == Key::Esc {
                Action::Pop
            } else {
                Action::Nothing
            }),
    {
        match key {
            Key::Up => {
                if self.current_index > 0 {
                    self.current_index = self.current_index - 1;
                }
                Action::Nothing
            },
            Key::Down => {
                if self.current_index < SETTINGS_OPTION_COUNT - 1 {
                    self.current_index = self.current_index + 1;
                }
                Action::Nothing
            },
            Key::Char(c) => {
                if c != '\n' {
                    return Action::Nothing;
                }
                match self.current_index {
                    0 => Action::Push(Screen::Timezone),
                    2 => {
                        ctx.dark_mode = !ctx.dark_mode;
                        Action::Nothing
                    },
                    3 => Action::Push(Screen::SimpleNoteSetup),
                    4 => {
                        ctx.layout = match ctx.layout {
                            KeyboardLayout::Qwerty => KeyboardLayout::Qwertz,
                            KeyboardLayout::Qwertz => KeyboardLayout::Qwerty,
                        };
                        Action::Nothing
                    },
                    _ => Action::Nothing,
                }
            },
            Key::Esc => Action::Pop,
            _ => Action::Nothing,
        }
    }
}

/// The time-zone map: left and right step through the offsets, wrapping
/// around; Enter keeps the offset shown and leaves, Esc leaves.
pub struct TimezonePage {
    current_index: usize,
}

impl TimezonePage {
    pub fn new() -> (p: Self)
        ensures
            p.current_index() == TZ_UTC,
    {
        TimezonePage { current_index: TZ_UTC }
    }

    pub closed spec fn current_index(&self) -> int {
        self.current_index as int
    }

    pub fn selected(&self) -> (i: usize)
        ensures
            i == self.current_index(),
    {
        self.current_index
    }

    pub fn update(&mut self, key: Key, ctx: &mut Context) -> (a: Action)
        requires
            old(self).current_index() < TZ_COUNT,
        ensures
            final(self).current_index() == (if key == Key::Right {
                (old(self).current_index() + 1) % (TZ_COUNT as int)
            } else if key == Key::Left {
                if old(self).current_index() == 0 {
                    TZ_COUNT - 1
                } else {
                    old(self).current_index() - 1
                }
            } else {
                old(self).current_index()
            }),
            final(self).current_index() < TZ_COUNT,
            final(ctx).timezone@ == (if key == Key::Char('\n') {
                tz_label(old(self).current_index())
            } else {
                old(ctx).timezone@
            }),
            final(ctx).dark_mode == old(ctx).dark_mode,
            final(ctx).layout == old(ctx).layout,
            final(ctx).status == old(ctx).status,
            a == (if key == Key::Char('\n') || key == Key::Esc {
                Action::Pop
            } else {
                Action::Nothing
            }),
    {
        match key {
            Key::Right => {
                self.current_index = (self.current_index + 1) % TZ_COUNT;
                Action::Nothing
            },
            Key::Left => {
                if self.current_index == 0 {
                    self.current_index = TZ_COUNT - 1;
                } else {
                    self.current_index = self.current_index - 1;
                }
                Action::Nothing
            },
            Key::Char(c) => {
                if c == '\n' {
                    ctx.timezone = tz_label_str(self.current_index).to_owned();
                    Action::Pop
                } else {
                    Action::Nothing
                }
            },
            Key::Esc => Action::Pop,
            _ => Action::Nothing,
        }
    }
}

} // verus!
