use kramwriter::action::Action;
use kramwriter::board::Board;
use kramwriter::keys::Key;
use kramwriter::marathon::{rotate, spawn_piece, ZeugtrisPage as MarathonGame};
use kramwriter::page_id::PageId;
use kramwriter::score::Score;
use kramwriter::sharp_pages::{command_for, GameCommand, LogoPage, MenuPage, ZeugtrisPage};
use kramwriter::tetrimino::{Tetrimino, TetriminoType};
use kramwriter::tetris::TetrisGame;

#[test]
fn score_starts_at_level_one() {
    let s = Score::new();
    assert_eq!(s.score(), 0);
    assert_eq!(s.level(), 1);
    assert_eq!(s.lines_cleared(), 0);
    assert_eq!(s.drop_interval(), 1000);
}

#[test]
fn score_four_lines_at_level_one() {
    let mut s = Score::new();
    s.add_lines(4);
    assert_eq!(s.score(), 2400);
    assert_eq!(s.lines_cleared(), 4);
    assert_eq!(s.level(), 1);
}

#[test]
fn score_points_per_line_count() {
    let cases = [(1usize, 80u32), (2, 200), (3, 600), (4, 2400), (0, 0), (5, 0)];
    for (lines, points) in cases {
        let mut s = Score::new();
        s.add_lines(lines);
        assert_eq!(s.score(), points);
    }
}

#[test]
fn score_level_and_gravity_follow_lines() {
    let mut s = Score::new();
    s.add_lines(4);
    s.add_lines(4);
    s.add_lines(4);
    assert_eq!(s.score(), 7200);
    assert_eq!(s.lines_cleared(), 12);
    assert_eq!(s.level(), 2);
    assert_eq!(s.drop_interval(), 800);
    for _ in 0..2 {
        s.add_lines(4);
    }
    assert_eq!(s.level(), 3);
    assert_eq!(s.drop_interval(), 640);
}

#[test]
fn score_gravity_never_below_floor() {
    let mut s = Score::new();
    for _ in 0..35 {
        s.add_lines(4);
    }
    assert_eq!(s.level(), 15);
    assert_eq!(s.drop_interval(), 50);
}

#[test]
fn score_drop_points_and_reset() {
    let mut s = Score::new();
    s.add_soft_drop_points(3);
    s.add_hard_drop_points(5);
    assert_eq!(s.score(), 13);
    s.reset();
    assert_eq!(s.score(), 0);
    assert_eq!(s.level(), 1);
}

#[test]
fn tetrimino_index_round_trip() {
    for i in 0..7usize {
        let t = TetriminoType::from_index(i);
        assert_eq!(t.as_index(), i);
    }
    assert_eq!(TetriminoType::from_index(9), TetriminoType::I);
    assert_eq!(TetriminoType::I.letter(), 'I');
    assert_eq!(TetriminoType::J.letter(), 'J');
}

#[test]
fn tetrimino_four_right_turns_come_back() {
    let mut t = Tetrimino::new(TetriminoType::T);
    let start = t.matrix();
    t.rotate_right();
    assert_ne!(t.matrix(), start);
    t.rotate_right();
    t.rotate_right();
    t.rotate_right();
    assert_eq!(t.matrix(), start);
}

#[test]
fn tetrimino_left_undoes_right() {
    let mut t = Tetrimino::new(TetriminoType::L);
    let start = t.matrix();
    t.rotate_right();
    t.rotate_left();
    assert_eq!(t.matrix(), start);
    assert_eq!(t.rotation, 0);
}

#[test]
fn tetrimino_i_shape() {
    let t = Tetrimino::new(TetriminoType::I);
    assert_eq!(t.matrix(), [0, 0, 0, 0, 1, 1, 1, 1, 0, 0, 0, 0, 0, 0, 0, 0]);
    assert_eq!(t.get_matrix(Some(1)), [0, 0, 1, 0, 0, 0, 1, 0, 0, 0, 1, 0, 0, 0, 1, 0]);
}

#[test]
fn tetrimino_random_is_a_shape() {
    let t = Tetrimino::random();
    assert!(t.tetrimino_type.as_index() < 7);
    assert_eq!(t.rotation, 0);
}

#[test]
fn board_starts_empty() {
    let b = Board::new();
    assert_eq!(b.width(), 10);
    assert_eq!(b.height(), 18);
    for y in 0..18 {
        for x in 0..10 {
            assert_eq!(b.get_cell(x, y), None);
        }
    }
    assert_eq!(b.get_cell(10, 0), None);
    assert!(!b.is_line_clearing());
}

#[test]
fn board_collision_with_walls() {
    let b = Board::new();
    let i = Tetrimino::new(TetriminoType::I);
    assert!(!b.check_collision(&i, 0, 0, None));
    assert!(b.check_collision(&i, -1, 0, None));
    assert!(b.check_collision(&i, 7, 0, None));
    assert!(!b.check_collision(&i, 6, 0, None));
    assert!(b.check_collision(&i, 0, 17, None));
    assert!(!b.check_collision(&i, 0, -1, None));
}

#[test]
fn board_clears_a_full_row() {
    let mut b = Board::new();
    let i = Tetrimino::new(TetriminoType::I);
    let o = Tetrimino::new(TetriminoType::O);
    assert_eq!(b.lock_tetrimino(&i, 0, 16), 0);
    assert!(b.get_cell(0, 17).is_some());
    assert_eq!(b.lock_tetrimino(&i, 4, 16), 0);
    assert!(b.check_collision(&i, 0, 16, None));
    let n = b.lock_tetrimino(&o, 7, 15);
    assert_eq!(n, 1);
    assert_eq!(b.lines_to_clear().clone(), vec![17usize]);
    assert!(b.is_line_clearing());
    assert_eq!(b.get_cell(0, 17), None);
    assert!(b.get_cell(8, 17).is_some());
    assert!(b.get_cell(9, 17).is_some());
    assert_eq!(b.get_cell(8, 16), None);
    b.clear();
    assert_eq!(b.get_cell(8, 17), None);
}

#[test]
fn tetris_new_game_is_running() {
    let g = TetrisGame::new();
    assert!(!g.is_game_over());
    assert!(!g.is_paused());
    assert_eq!(g.position(), (4, 0));
    assert_eq!(g.score().score(), 0);
    assert!(g.held_piece().is_none());
    assert!(g.ghost_position() >= 0);
}

#[test]
fn tetris_left_then_right_comes_back() {
    let mut g = TetrisGame::new();
    let start = g.position();
    if g.move_left() {
        assert!(g.move_right());
        assert_eq!(g.position(), start);
    }
    if g.move_right() {
        assert!(g.move_left());
        assert_eq!(g.position(), start);
    }
}

#[test]
fn tetris_pause_blocks_moves() {
    let mut g = TetrisGame::new();
    g.toggle_pause();
    assert!(g.is_paused());
    let start = g.position();
    assert!(!g.move_left());
    assert!(!g.move_right());
    assert_eq!(g.position(), start);
    g.toggle_pause();
    assert!(!g.is_paused());
}

#[test]
fn tetris_hard_drop_scores_and_deals_next() {
    let mut g = TetrisGame::new();
    let next = g.next_piece();
    let ghost = g.ghost_position();
    let (_, y0) = g.position();
    assert!(g.hard_drop());
    assert_eq!(g.score().score(), 2 * (ghost - y0) as u32);
    assert_eq!(g.current_piece().tetrimino_type, next.tetrimino_type);
}

#[test]
fn tetris_hold_swaps_once() {
    let mut g = TetrisGame::new();
    let first = g.current_piece();
    assert!(g.hold_current_piece());
    assert_eq!(g.held_piece().map(|t| t.tetrimino_type), Some(first.tetrimino_type));
    assert!(!g.hold_current_piece());
}

#[test]
fn tetris_reset_clears_everything() {
    let mut g = TetrisGame::new();
    g.hard_drop();
    g.reset();
    assert_eq!(g.score().score(), 0);
    assert_eq!(g.position(), (4, 0));
    for y in 0..18 {
        for x in 0..10 {
            assert_eq!(g.board().get_cell(x, y), None);
        }
    }
}

#[test]
fn marathon_starts_at_level_one() {
    let g = MarathonGame::new();
    assert_eq!(g.score(), 0);
    assert_eq!(g.level(), 1);
    assert_eq!(g.lines(), 0);
    assert!(!g.is_game_over());
    assert_eq!(g.stats().iter().sum::<u32>(), 1);
    assert_eq!(g.active_piece().row, -2);
    assert_eq!(g.active_piece().col, 3);
    assert!(g.playfield().iter().all(|c| c.is_none()));
}

#[test]
fn marathon_gravity_after_sixty_frames() {
    let mut g = MarathonGame::new();
    for _ in 0..59 {
        assert!(g.can_tick());
        assert!(matches!(g.tick(), Action::Nothing));
    }
    assert_eq!(g.active_piece().row, -2);
    assert!(matches!(g.tick(), Action::Redraw));
    assert_eq!(g.active_piece().row, -1);
}

#[test]
fn marathon_soft_drop_scores_one() {
    let mut g = MarathonGame::new();
    assert!(g.can_update(Key::Down));
    assert!(matches!(g.update(Key::Down), Action::Redraw));
    assert_eq!(g.score(), 1);
    assert_eq!(g.active_piece().row, -1);
}

#[test]
fn marathon_left_then_right_comes_back() {
    let mut g = MarathonGame::new();
    let col = g.active_piece().col;
    g.update(Key::Left);
    assert_eq!(g.active_piece().col, col - 1);
    g.update(Key::Right);
    assert_eq!(g.active_piece().col, col);
    assert!(matches!(g.update(Key::Esc), Action::Pop));
    assert!(matches!(g.update(Key::Char('q')), Action::Redraw));
}

#[test]
fn marathon_piece_reaches_the_floor_and_settles() {
    let mut g = MarathonGame::new();
    let first = g.active_piece().kind;
    for _ in 0..40 {
        g.update(Key::Down);
    }
    assert!(g.can_tick());
    for _ in 0..60 {
        g.tick();
    }
    assert!(g.playfield().iter().any(|c| *c == Some(first.as_index() as u8)));
    assert_eq!(g.active_piece().row, -2);
    assert_eq!(g.stats().iter().sum::<u32>(), 2);
}

#[test]
fn marathon_rotate_turns_clockwise() {
    let j = vec![vec![1u8, 0, 0], vec![1, 1, 1], vec![0, 0, 0]];
    assert_eq!(rotate(&j), vec![vec![0u8, 1, 1], vec![0, 1, 0], vec![0, 1, 0]]);
    assert_eq!(rotate(&rotate(&rotate(&rotate(&j)))), j);
}

#[test]
fn marathon_spawn_is_a_known_shape() {
    let p = spawn_piece();
    assert_eq!(p.row, -2);
    assert_eq!(p.col, 3);
    let n = p.matrix.len();
    assert!((2..=4).contains(&n));
    assert!(p.matrix.iter().all(|r| r.len() == n));
}

#[test]
fn sharp_game_commands() {
    assert_eq!(command_for(false, false, Key::Char('z')), (GameCommand::RotateLeft, None));
    assert_eq!(command_for(false, false, Key::Char('X')), (GameCommand::RotateRight, None));
    assert_eq!(command_for(false, false, Key::Up), (GameCommand::HardDrop, None));
    assert_eq!(command_for(false, false, Key::Char(' ')), (GameCommand::HardDrop, None));
    assert_eq!(command_for(false, false, Key::Char('c')), (GameCommand::Hold, None));
    assert_eq!(command_for(false, false, Key::Esc), (GameCommand::Nothing, Some(PageId::ZeugtrisMenu)));
    assert_eq!(command_for(false, true, Key::Left), (GameCommand::Nothing, None));
    assert_eq!(command_for(false, true, Key::Char('P')), (GameCommand::TogglePause, None));
    assert_eq!(command_for(true, false, Key::Char('r')), (GameCommand::Reset, None));
    assert_eq!(command_for(true, false, Key::Left), (GameCommand::Nothing, None));
}

#[test]
fn sharp_game_page_pauses() {
    let mut p = ZeugtrisPage::new();
    assert_eq!(p.handle_key(Key::Char('p')), None);
    assert!(p.game_ref().is_paused());
    assert_eq!(p.handle_key(Key::Esc), Some(PageId::ZeugtrisMenu));
}

#[test]
fn sharp_menu_navigation() {
    let mut m = MenuPage::new();
    assert_eq!(m.handle_key(Key::Char('\n')), Some(PageId::WriteMenu));
    assert_eq!(m.handle_key(Key::Down), None);
    assert_eq!(m.handle_key(Key::Down), None);
    assert_eq!(m.selected(), 2);
    assert_eq!(m.handle_key(Key::Char('\n')), Some(PageId::ZeugtrisMenu));
    for _ in 0..10 {
        m.handle_key(Key::Down);
    }
    assert_eq!(m.selected(), 4);
    assert_eq!(m.handle_key(Key::Char('\n')), Some(PageId::Logo));
    m.handle_key(Key::Up);
    assert_eq!(m.selected(), 3);
    let mut l = LogoPage::new();
    assert_eq!(l.handle_key(Key::Char('\n')), Some(PageId::Menu));
    assert_eq!(l.handle_key(Key::Char('a')), None);
}

#[test]
fn board_cells_hold_piece_colours() {
    let mut b = Board::new();
    let kinds = [
        TetriminoType::I,
        TetriminoType::O,
        TetriminoType::S,
        TetriminoType::Z,
        TetriminoType::T,
        TetriminoType::L,
        TetriminoType::J,
    ];
    let places: [(i32, i32); 7] = [(0, 0), (0, 4), (0, 8), (0, 12), (5, 0), (5, 4), (5, 8)];
    for (k, (x, y)) in kinds.iter().zip(places.iter()) {
        let t = Tetrimino::new(*k);
        assert_eq!(b.lock_tetrimino(&t, *x, *y), 0);
    }
    let mut seen = [false; 8];
    for y in 0..20 {
        for x in 0..12 {
            if let Some(c) = b.get_cell(x, y) {
                assert!((1..=7).contains(&c));
                seen[c as usize] = true;
            }
        }
    }
    assert!(seen[1..].iter().all(|s| *s));
}

#[test]
fn line_clearing_follows_the_last_lock() {
    let mut b = Board::new();
    let i = Tetrimino::new(TetriminoType::I);
    let o = Tetrimino::new(TetriminoType::O);
    assert!(!b.is_line_clearing());
    assert_eq!(b.lock_tetrimino(&i, 0, 16), 0);
    assert!(!b.is_line_clearing());
    assert_eq!(b.lock_tetrimino(&i, 4, 16), 0);
    assert!(!b.is_line_clearing());
    assert_eq!(b.lock_tetrimino(&o, 7, 15), 1);
    assert!(b.is_line_clearing());
    assert_eq!(b.lock_tetrimino(&o, 0, 0), 0);
    assert!(!b.is_line_clearing());
    assert!(b.lines_to_clear().is_empty());
    b.clear();
    assert!(!b.is_line_clearing());
}

#[test]
fn board_far_positions_do_not_overflow() {
    let mut b = Board::new();
    let t = Tetrimino::new(TetriminoType::T);
    assert!(b.check_collision(&t, i32::MAX, 0, None));
    assert!(b.check_collision(&t, 0, i32::MAX, None));
    assert!(!b.check_collision(&t, 0, i32::MIN, None));
    assert_eq!(b.lock_tetrimino(&t, i32::MAX, i32::MAX), 0);
    for y in 0..18 {
        for x in 0..10 {
            assert_eq!(b.get_cell(x, y), None);
        }
    }
}
