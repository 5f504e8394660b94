# Bandit Lite

A grid based terminal puzzle game about reflecting and manipulating light: the player walks to
the exit (a green `!`), pushing objects, flipping levers and steering laser beams on the way.

The game logic is a library verified with Verus; a thin terminal front end drives it.

The grid of tiles and entities, the commands that change it and the order in which entities
are updated (`src/grid.rs`, `src/assoc.rs`, `src/lib.rs`) are the library's own model of a
game board. The game engine that this kind of board usually comes from is not part of the
build, so the model is specified and proved on its own terms, not checked against that engine.

A puzzle pack file holds a line with the pack's name, then for each puzzle a line with its
name, its rows (top row first, two characters per cell: a colour letter, upper case for an
entity that cannot be pushed, and the object's character) and an empty line.

## Layout

- `src/` — the verified library.
  - `point.rs`, `style.rs`: points on the grid, terminal colours and styled characters.
  - `beam.rs`, `port.rs`: laser colours and how they mix, beams, and the port expressions
    that decide which colours leave an object.
  - `entity.rs`, `entity/activation.rs`: entities, activation conditions, effects and
    handlers, and what an update of an entity does.
  - `grid.rs`, `assoc.rs`: the grid of tiles and entities, the commands that change it, and
    the effects shown on it.
  - `frame.rs`, `lib.rs`: tiles, the passes at the start and end of a frame, updating the
    game until it settles, turns, undo, and the laws about winning and undoing.
  - `loader.rs`, `loader/puzzles.rs`, `loader/puzzles/ts.rs`, `loader/puzzles/reread.rs`,
    `loader/saver.rs`: reading object definitions, puzzles and puzzle packs, writing them
    back (and reading back what was written), and the save file of completed puzzles.
  - `editor.rs`, `screen.rs`: the level editor and the layout of the menus.
  - `text.rs`, `digest.rs`: text handling and puzzle identifiers (MD5 digests).
- `tests/` — tests of the library.
- `app/` — the terminal front end: files, menus, drawing and the main loop.

## Controls

Move with WASD, the arrow keys or HJKL; `u` undoes the previous move; escape pauses. In the
editor, Y and I rotate the current object, enter places it, backspace deletes, O picks an
object, M toggles whether the object under the cursor can be pushed.
