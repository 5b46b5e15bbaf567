# neogen

The deterministic core of a programming game in which players steer rovers
with Lua scripts, written in Verus and verified.

`src/` is the verified library:

- `ids`, `rng`, `hash`, `world`, `snapshot`: typed rover ids and their
  issuer, the seeded SplitMix64/xoshiro256** generator, FNV-1a state
  hashing, the world state with its rover registry and the world driver,
  and the snapshot codec (encoding, strict decoding, round trip);
- `commands`, `rover`, `tick`: command validation on `f64` bit patterns,
  the per-rover command queue and scan buffer, the tick rate;
- `errors`, `lifecycle`, `logbuffer`, `budget`, `scheduler`, `api`,
  `sandbox`, `lua_globals`: the script side: error texts and truncation,
  script states, the bounded log buffer, instruction-budget accounting,
  the scheduler's decisions, the script API's checks, the sandbox policy
  and the mlua calls that strip a state's globals;
- `script_store`: the script folder's contents, diffed pass by pass;
- `order`, `text`: string order and decimal rendering.

`app/` is the host around it: floating-point movement and world
generation, file I/O for the script store, the Lua runtime (mlua) and the
Godot extension (godot). `tests/` runs the library.
