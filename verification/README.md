# clogwench

The core of a small windowing system, verified with Verus.

- `src/` is the library. Every function in it is verified against its
  contract, except eight small wrappers around calls into std and outside
  crates (fresh ids, random text, lower and upper case mapping, the system
  clock, the local time of day, PNG decoding and encoding), whose contracts
  are trusted:
  - `geom`, `color`, `graphics`, `font`: rectangles, colours and pixel
    layouts, pixel buffers (fill, tile, copy between layouts, cut out,
    RGBA export and import, PNG bytes) and bitmap text;
  - `db`, `assoc`, `text`: the document database (objects, queries,
    updates, deletion, the objects written out when saving and the merging
    of stored files when loading);
  - `wm`, `headless`, `platform`, `linuxwm`: the window manager's record
    of applications and windows, gestures, and the decisions of a window
    manager that keeps its screen in memory, of one that composes frames
    for a display, and of one that draws onto a framebuffer;
  - `central`, `protocol`: the messages of the system and how the central
    server routes them;
  - `surf`: a framebuffer's frame and the messages its drawing loop
    paints;
  - `toolkit`, `screen`, `clock`, `logger`, `ids`, `runner`: toolkit
    pieces (layout, hit testing through a view tree, pointer routing), a
    clock face, the logger's prefix, fresh ids and random strings, and the
    kinds of window manager a run can start.
- `tests/` exercises the library on concrete values.
- `app/` holds the programs around the library: the central server, the
  two window managers' network loops, the digital clock application, JSON
  and PNG files, and the event listeners that are keyed by Rust type.
