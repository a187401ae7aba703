pub mod randomness;
pub mod score;
pub mod tetrimino;
pub mod board;
pub mod clock;
pub mod tetris;
pub mod utf8_text;
pub mod writing_document;
pub mod bmp;
pub mod char_class;
pub mod bitmap;
pub mod glyphs;
pub mod keys;
pub mod page_id;
pub mod write_menu;
pub mod marathon;
pub mod action;
pub mod context;
pub mod file_browser;
pub mod highscores;
pub mod kram_menus;
pub mod name_entry;
pub mod learn;
pub mod writing_page;
pub mod learn_create;
pub mod simplenote;
pub mod sharp_pages;
pub mod browser;
pub mod editor;
pub mod sprites;
pub mod screen_stack;
