# phantasm

The core of *Desktop Mirror: Phantasm*, a small horror game that mirrors a
simulated desktop, learns the player's name and eventually takes the screen
over. The library in `src/` is verified with Verus; `app/` is the
program around it.

## Library (`src/`)

- `canvas` — the RGBA8 rasteriser (fill, rectangles, scanline shifts and
  inversion, bitmap text, text metrics) and the xorshift32 generator. Pixel
  blending and `next_range` are exact integer models of the single-precision
  arithmetic they perform.
- `rounding` — round-to-nearest-even onto a 24-bit significand.
- `font` — the 5x7 bitmap font.
- `text` — character helpers (line splitting, prefixes, ASCII case).
- `identity` — name sanitising and the environment/profile layers of
  identity reconnaissance.
- `sprite` — the farewell texture.
- `mirror` — the mirror painter's screens (boot, terminal, desktop overlay,
  farewell), its scanline and clock helpers and the ghost's scripts.
- `painter` — the mirror painter's discrete bookkeeping: the ghost writer
  (typing, holding and deleting its lines) and the painter's reaction to
  commands from the game.
- `state` — the phase machine: key presses, loss of focus and timed phase
  changes, with the effects they request.

## Application (`app/`)

Window and event loop (winit), audio synthesis (rodio), the painter thread,
float-timed animation (the ghost writer's alarm, glitch strength, blink), the
float-shaded monster sheet and wallpaper, and the shutdown sequence.
