# kramwriter

The software of a small writing device with a Sharp memory display and a
keyboard: a start-up logo, menus, a text editor with word wrapping, a file
browser, flash-card learning, and a falling-block game.

`src/` is the verified library. Each screen's decisions are functions from
its state and a key (or a clock tick) to its next state and what it asks of
the program around it; their contracts state the result exactly.

- `bmp`, `bitmap`, `sprites`: decoding BMP images into display pixels.
- `glyphs`: glyph metrics of bitmap fonts, text widths, word wrapping.
- `utf8_text`, `char_class`: text as characters with byte cursors.
- `writing_document`, `writing_page`, `write_menu`: the two editors of the
  display demo.
- `tetrimino`, `board`, `score`, `tetris`, `sharp_pages`: the game of the
  display demo; `marathon`, `highscores`: the device's own game.
- `kram_menus`, `context`, `action`, `file_browser`, `name_entry`,
  `editor`, `learn`, `learn_create`, `simplenote`, `browser`: the device's
  screens.

`app/` is the program: the display driver, the terminal keyboard, the
TrueType font, files, the deck archives and the sync script. It runs the
device's system, or the display demo with `--sharp`.

`tests/` runs the library on concrete inputs.
