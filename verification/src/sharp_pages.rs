use vstd::prelude::*;
use crate::keys::Key;
use crate::page_id::PageId;
use crate::tetris::{
    TetrisGame, fresh_game, hard_drop_step, hold_step, left_step, pause_step, right_step, score_headroom,
    soft_drop_step, turn_step,
};

verus! {

/// Entries of the main menu: write, learn, zeugtris, settings, credits.
pub const MENU_ENTRIES: usize = 5;

/// The start screen: Enter goes to the menu.
pub struct LogoPage {}

impl LogoPage {
    pub fn new() -> (p: Self) {
        LogoPage {  }
    }

    pub fn handle_key(&mut self, key: Key) -> (r: Option<PageId>)
        ensures
            r == (if key == Key::Char('\n') {
                Some(PageId::Menu)
            } else {
                None::<PageId>
            }),
    {
        if key == Key::Char('\n') {
            Some(PageId::Menu)
        } else {
            None
        }
    }
}

/// The screen that Enter opens from menu entry `i`: writing for the first,
/// the game menu for the third, the start screen for the others.
pub open spec fn menu_target(i: int) -> PageId {
    if i == 0 {
        PageId::WriteMenu
    } else if i == 2 {
        PageId::ZeugtrisMenu
    } else {
        PageId::Logo
    }
}

/// The main menu: up and down move through the entries and stop at the
/// ends; Enter opens the entry's screen.
pub struct MenuPage {
    current_index: usize,
}

impl MenuPage {
    pub fn new() -> (p: Self)
        ensures
            p.current_index() == 0,
    {
        MenuPage { current_index: 0 }
    }

    pub closed spec fn current_index(&self) -> int {
        self.current_index as int
    }

    pub fn selected(&self) -> (i: usize)
        ensures
            i == self.current_index(),
    {
        self.current_index
    }

    pub fn handle_key(&mut self, key: Key) -> (r: Option<PageId>)
        requires
            old(self).current_index() < MENU_ENTRIES,
        ensures
            final(self).current_index() < MENU_ENTRIES,
            key == Key::Char('\n') ==> final(self).current_index() == old(self).current_index() && r
                == Some(menu_target(old(self).current_index())),
            key == Key::Up ==> r is None && final(self).current_index() == (if old(self).current_index()
                > 0 {
                old(self).current_index() - 1
            } else {
                0
            }),
            key == Key::Down ==> r is None && final(self).current_index() == (if old(
                self,
            ).current_index() < MENU_ENTRIES - 1 {
                old(self).current_index() + 1
            } else {
                old(self).current_index()
            }),
            (key != Key::Char('\n') && key != Key::Up && key != Key::Down) ==> r is None
                && final(self).current_index() == old(self).current_index(),
    {
        match key {
            Key::Char(c) => {
                if c == '\n' {
                    if self.current_index == 0 {
                        Some(PageId::WriteMenu)
                    } else if self.current_index == 2 {
                        Some(PageId::ZeugtrisMenu)
                    } else {
                        Some(PageId::Logo)
                    }
                } else {
                    None
                }
            },
            Key::Up => {
                if self.current_index > 0 {
                    self.current_index = self.current_index - 1;
                }
                None
            },
            Key::Down => {
                if self.current_index < MENU_ENTRIES - 1 {
                    self.current_index = self.current_index + 1;
                }
                None
            },
            _ => None,
        }
    }
}

/// What a key does to the game.
#[derive(Clone, Copy, Debug, PartialEq, Eq, Structural)]
pub enum GameCommand {
    Nothing,
    Reset,
    TogglePause,
    RotateLeft,
    RotateRight,
    MoveLeft,
    MoveRight,
    SoftDrop,
    HardDrop,
    Hold,
}

/// The command and the screen change of a key: once the game is over, Esc
/// goes to the game menu and R restarts; P pauses or resumes; while paused
/// only Esc (to the menu) counts; otherwise Z and X turn the piece left and
/// right, the arrows move it (up drops it hard, as space does), C holds
/// it, Esc goes to the menu and R restarts.
pub open spec fn command_of(game_over: bool, paused: bool, key: Key) -> (GameCommand, Option<PageId>) {
    if game_over {
        match key {
            Key::Esc => (GameCommand::Nothing, Some(PageId::ZeugtrisMenu)),
            Key::Char(c) => if c == 'r' || c == 'R' {
                (GameCommand::Reset, None)
            } else {
                (GameCommand::Nothing, None)
            },
            _ => (GameCommand::Nothing, None),
        }
    } else if key == Key::Char('p') || key == Key::Char('P') {
        (GameCommand::TogglePause, None)
    } else if paused {
        if key == Key::Esc {
            (GameCommand::Nothing, Some(PageId::ZeugtrisMenu))
        } else {
            (GameCommand::Nothing, None)
        }
    } else {
        match key {
            Key::Char(c) => if c == 'z' || c == 'Z' {
                (GameCommand::RotateLeft, None)
            } else if c == 'x' || c == 'X' {
                (GameCommand::RotateRight, None)
            } else if c == ' ' {
                (GameCommand::HardDrop, None)
            } else if c == 'c' || c == 'C' {
                (GameCommand::Hold, None)
            } else if c == 'r' || c == 'R' {
                (GameCommand::Reset, None)
            } else {
                (GameCommand::Nothing, None)
            },
            Key::Left => (GameCommand::MoveLeft, None),
            Key::Right => (GameCommand::MoveRight, None),
            Key::Down => (GameCommand::SoftDrop, None),
            Key::Up => (GameCommand::HardDrop, None),
            Key::Esc => (GameCommand::Nothing, Some(PageId::ZeugtrisMenu)),
            _ => (GameCommand::Nothing, None),
        }
    }
}

/// The command and the screen change of a key; see `command_of`.
pub fn command_for(game_over: bool, paused: bool, key: Key) -> (r: (GameCommand, Option<PageId>))
    ensures
        r == command_of(game_over, paused, key),
{
    if game_over {
        return match key {
            Key::Esc => (GameCommand::Nothing, Some(PageId::ZeugtrisMenu)),
            Key::Char(c) => if c == 'r' || c == 'R' {
                (GameCommand::Reset, None)
            } else {
                (GameCommand::Nothing, None)
            },
            _ => (GameCommand::Nothing, None),
        };
    }
    if key == Key::Char('p') || key == Key::Char('P') {
        return (GameCommand::TogglePause, None);
    }
    if paused {
        return if key == Key::Esc {
            (GameCommand::Nothing, Some(PageId::ZeugtrisMenu))
        } else {
            (GameCommand::Nothing, None)
        };
    }
    match key {
        Key::Char(c) => if c == 'z' || c == 'Z' {
            (GameCommand::RotateLeft, None)
        } else if c == 'x' || c == 'X' {
            (GameCommand::RotateRight, None)
        } else if c == ' ' {
            (GameCommand::HardDrop, None)
        } else if c == 'c' || c == 'C' {
            (GameCommand::Hold, None)
        } else if c == 'r' || c == 'R' {
            (GameCommand::Reset, None)
        } else {
            (GameCommand::Nothing, None)
        },
        Key::Left => (GameCommand::MoveLeft, None),
        Key::Right => (GameCommand::MoveRight, None),
        Key::Down => (GameCommand::SoftDrop, None),
        Key::Up => (GameCommand::HardDrop, None),
        Key::Esc => (GameCommand::Nothing, Some(PageId::ZeugtrisMenu)),
        _ => (GameCommand::Nothing, None),
    }
}

/// The game screen: a game, and a frame counter for redrawing.
pub struct ZeugtrisPage {
    game: TetrisGame,
    frame_count: u32,
}

impl ZeugtrisPage {
    pub open spec fn wf(&self) -> bool {
        self.game().wf()
    }

    /// The game, for the specification.
    pub closed spec fn game(&self) -> TetrisGame {
        self.game
    }

    pub closed spec fn frames(&self) -> int {
        self.frame_count as int
    }

    /// A new game.
    pub fn new() -> (p: Self)
        ensures
            p.wf(),
            p.frames() == 0,
    {
        ZeugtrisPage { game: TetrisGame::new(), frame_count: 0 }
    }

    /// The game.
    pub fn game_ref(&self) -> (g: &TetrisGame)
        ensures
            *g == self.game(),
    {
        &self.game
    }

    /// A key press: the game carries out `command_of` the key, and the
    /// screen change is returned.
    pub fn handle_key(&mut self, key: Key) -> (r: Option<PageId>)
        requires
            old(self).wf(),
            score_headroom(old(self).game()@.score),
        ensures
            final(self).wf(),
            final(self).frames() == old(self).frames(),
            r == command_of(old(self).game()@.game_over, old(self).game()@.paused, key).1,
            ({
                let s = old(self).game()@;
                let t = final(self).game()@;
                match command_of(s.game_over, s.paused, key).0 {
                    GameCommand::Nothing => t == s,
                    GameCommand::Reset => fresh_game(t),
                    GameCommand::TogglePause => pause_step(s, t),
                    GameCommand::RotateLeft => turn_step(s, t, 3),
                    GameCommand::RotateRight => turn_step(s, t, 1),
                    GameCommand::MoveLeft => left_step(s, t),
                    GameCommand::MoveRight => right_step(s, t),
                    GameCommand::SoftDrop => soft_drop_step(s, t),
                    GameCommand::HardDrop => hard_drop_step(s, t),
                    GameCommand::Hold => hold_step(s, t),
                }
            }),
    {
        let (command, page) = command_for(self.game.is_game_over(), self.game.is_paused(), key);
        match command {
            GameCommand::Nothing => {},
            GameCommand::Reset => {
                self.game.reset();
            },
            GameCommand::TogglePause => {
                self.game.toggle_pause();
            },
            GameCommand::RotateLeft => {
                self.game.rotate_left();
            },
            GameCommand::RotateRight => {
                self.game.rotate_right();
            },
            GameCommand::MoveLeft => {
                self.game.move_left();
            },
            GameCommand::MoveRight => {
                self.game.move_right();
            },
            GameCommand::SoftDrop => {
                self.game.soft_drop();
            },
            GameCommand::HardDrop => {
                self.game.hard_drop();
            },
            GameCommand::Hold => {
                self.game.hold_current_piece();
            },
        }
        page
    }

    /// A frame: the game advances by the clock (the piece falls a row, or
    /// settles, once its interval has passed), and the frame counts. Tells
    /// whether to draw: when the game asks for it, in four frames of every
    /// eight, or when `millis_since_draw` reaches 16.
    pub fn frame(&mut self, millis_since_draw: u128) -> (draw: bool)
        requires
            old(self).wf(),
            score_headroom(old(self).game()@.score),
            old(self).frames() < u32::MAX,
        ensures
            final(self).wf(),
            final(self).frames() == old(self).frames() + 1,
            final(self).game()@ == old(self).game()@ || (crate::tetris::active(old(self).game()@)
                && old(self).game()@.board.lines_to_clear.len() == 0 && soft_drop_step(
                old(self).game()@,
                final(self).game()@,
            )),
            draw == (final(self).game()@.needs_redraw || (old(self).frames() + 1) % 8 < 4
                || millis_since_draw >= 16),
    {
        self.game.update();
        self.frame_count = self.frame_count + 1;
        let force = self.frame_count % 8 < 4;
        self.game.needs_redraw() || force || millis_since_draw >= 16
    }

    /// The frame was drawn.
    pub fn drawn(&mut self)
        requires
            old(self).wf(),
        ensures
            final(self).wf(),
            final(self).frames() == old(self).frames(),
            !final(self).game()@.needs_redraw,
    {
        self.game.clear_redraw_flag();
    }
}

} // verus!
