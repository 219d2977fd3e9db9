# xenos

A bot for the game Screeps whose decisions live in a library verified with
Verus.

- `src/` is the verified library:
  - `collections`: a fixed-capacity ring queue, room-sized bit and byte maps
    and their run-length text encoding, and small indexed containers;
  - `constructions`: the exploration of a room square by square for space to
    build on, points and midpoints, where the first spawn, the storage and
    the roads go;
  - `creeps`: roles, how many creeps of each a room needs, which is spawned
    next and with which body, its name, and the choices creeps make (which
    source, which neighbouring room, when to load and unload);
  - `rooms`: room coordinates and names;
  - `bt`: behaviour tree decisions (bucket requirement, selector, sequence,
    task order);
  - `state`, `structures`, `expansion`: scout intel, construction plans,
    spawn and tower decisions, expansion markers;
  - `bounded`: the `arrayvec` containers the library fills, behind trusted
    wrappers.
- `app/` is the game glue: it reads the game through `screeps-game-api`,
  hands plain values to the library and carries out what it decides.
- `tests/` runs the library on concrete values.
