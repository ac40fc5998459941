# gbfr_sdk

A tool for Granblue Fantasy: Relink. The decisions it makes, the bytes it parses and writes, and
the lines it logs are a library verified with Verus; the program around it does the input and
output.

- `src/` is the library. Where the work alternates with calls to the system or to the game, a
  function takes the state and what was reported and gives the next state, what is said and what is
  wanted next (`detour`, `kick`, `antikick`, `guard`, `telemetry`, `scan`, `sdk`, `dispatch`,
  `worker`, `members`, `rooms`, `game`). What is read from memory is handed over as a `Snapshot`; a
  function that needs more says what (`snapshot`).
- `tests/` runs the library on values.
- `app/` is the program: the window, the reading and writing of the game's memory, the machine code
  that hooked functions run, the worker inside the game, and what loads it there.
