# luola2

A cave-flying shooter. The game logic that works on integers lives in a
library verified with Verus (`src/`); the program around it (`app/`) opens the
window, reads settings and level files, handles SDL input events and runs the
floating point physics.

## Layout

- `src/terrain.rs` – terrain type bits and predicates
- `src/geometry.rs` – integer rectangles and lines
- `src/tile.rs` – terrain tiles and line tracing inside a tile
- `src/palette.rs` – the terrain palette of a level description
- `src/level.rs` – level terrain: loading from pixels, holes, drawing points,
  line traces, regeneration of destroyed bases
- `src/dynter.rs`, `src/dynstep.rs` – dynamic terrain cells and their
  simulation step
- `src/objarray.rs` – object arrays sorted for broadphase collision checks
- `src/controls.rs`, `src/gamepads.rs`, `src/keyicons.rs` – key bindings,
  menu button events, gamepad slots, key icons
- `src/menu.rs` – menu cursor and appear/disappear state machine
- `src/menustack.rs` – the stack of scripted menu screens
- `src/config.rs`, `src/player.rs` – user settings, players and game setup
- `src/texture.rs`, `src/texstore.rs` – texture references and the texture store
- `src/forcefield.rs` – a level's force fields, kept by id
- `src/hud.rs`, `src/physics.rs` – HUD overlay alignment, collision modes

Chance and colour decisions, which work on floating point numbers, are made by
the caller through small traits (`DynterEnv`, `PixelBlend`, `RegenChance`,
`LineClip`); the library's guarantees hold whatever they decide.
