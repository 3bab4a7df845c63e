# sch_gui

Drawing and state for a small UEFI desktop, written in Verus.

- `src/` is the library, every function proved against its contract:
  - `canvas`: the frame buffer (`Buffer`, `Pixel`) and its row-major addressing;
  - `draw`, `glyph`, `line`, `window`: rectangles, 16 by 16 glyphs and words,
    lines, windows and the desktop background, each stated as the exact set of
    pixels it paints;
  - `fits`: run-time tests of the drawing preconditions;
  - `animation`: the pulsing grey of the splash screen;
  - `pointer`, `desktop`: the cursor and what each desktop frame shows;
  - `text`: decimal numerals, the clock and the text of a file;
  - `file_name`: the UCS-2 form of file names, through the `uefi` crate.
- `app/` is the firmware program: it reads the screen mode, the clock and the
  pointer, blits frames and opens files, and calls the library for the rest.
- `tests/` runs the library on concrete frames and values.
