# scamp

A small animated cat that wanders over a terminal while a shell runs in it.

`src/` is the library, verified with Verus:

- `half_block` and `sprite`: sprite frames as terminal cells (two pixels per
  cell, drawn with half-block characters), cropping to a shared bounding box,
  and the escape sequences that draw a frame.
- `screen`: a model of the terminal screen that follows what the shell
  prints (printing, line feeds, scrolling, erasing, the alternate screen).
- `pet`: the pet's state machine (idling, walking, sleeping) and the text
  that draws it over the screen and restores what it covered.
- `setup`: choosing a renderer and a sprite sheet, and building the
  animations from the sheet.
- `aseprite`: one tagged animation from an Aseprite file. Files are first
  checked for what would make the Aseprite reader panic (a badly nested
  first layer, a cel naming a missing layer or frame, a compressed cel that
  inflates to too few pixels, ...); only the others reach the reader.
  Files with tilesets are refused: tilemaps are not read.
- `raster`, `sixel`, `chance`: the calls into the image, sixel and
  random-number crates, behind contracts.
- `input`: routing keystrokes to the shell, minus the screen-dump key.
- `laws`: properties that span several functions, proved once.

`app/` is the program around the library: the pseudo-terminal, the threads
that read the shell's output and the keyboard, and the drawing loop.
