# colony

A tile-based colony simulation. Entities (humans) wander a map that is
generated on demand and stored grid by grid; a tick clock drives the
environment, which moves the entities and keeps them apart; a small window
shows the map around a focus.

## Layout

- `src/` — the library, written in Verus and verified. Every public function
  states what it returns or changes in its `ensures`; the properties that span
  several calls are public proof functions (`lemma_*`) next to the code they
  speak of. The main parts:
  - `structs`, `usage`, `storage_thread`: cells and positions, the usage-counted
    cache of loaded grids, the storage of the map and its generator;
  - `environment_thread`, `entity_thread`, `mapmemory`, `human`: the entity
    environment and its tick, an entity's memory of the map and its routes,
    and the behaviour of a human;
  - `timer`, `tick`, `timecontrols`, `channel`: timers, the tick clock and the
    message channels between threads;
  - `frame`, `window`, `windowmanager`, `manager`, `splitter`, `button`,
    `buttonmenu`, `mapframe`, `mapdraw`, `map_input`, `inspector`, `viewport`,
    `ui_old`: layout and event routing of the user interface;
  - `engine`: the pixel universe and the physics of the engine.
- `app/` — the program around the library: the threads and their message
  loops, file and JSON handling, path finding over the map, and the SDL window.
- `tests/` — tests of the library on concrete values.
