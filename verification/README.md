# xindeler_sim_bridge

The bridge between an embedded simulation server and the scene that its clients see. The
simulation runs in the same process; the bridge mirrors its entities, streams its terrain,
carries requests back to it and moves players between dimensions.

## Layout

- `src/` decides. It works on plain values: entities are numbers, floating-point numbers are
  their bit patterns, and what the simulation knows comes in as rows. Each function says in its
  contract exactly what it returns or changes. The functions named `law_..` state what holds
  over several calls.
- `app/` acts. It reads the simulation and the local player's client into rows, calls the
  library, and carries the plans out in the engine. It also holds what only the engine and the
  simulation can do: input and output, and floating-point geometry.
- `tests/` runs the library on concrete values.

## Modules of the library

| module | what it decides |
| --- | --- |
| `ids`, `keys`, `text`, `number`, `once_list`, `plain_list`, `float_bits`, `axes`, `grid` | the values that the others work on |
| `net_value` | what is written again and what is left as it is |
| `mirror`, `mirror_laws`, `loadout`, `character` | which entities are shown, where and with what |
| `dimension_lifecycle`, `lifecycle_laws`, `player_transfer` | how dimensions begin and end, and who goes where |
| `combat_hud`, `hotbar`, `inventory`, `crafting`, `sfx` | what each mirror tells its owner and its neighbours |
| `session`, `chat`, `charlist`, `player` | who asks, who hears, and the local player |
| `terrain`, `lod_alt`, `lod_objects`, `map` | what is streamed of the world |
| `entity_factory`, `oracle`, `npc_spawn`, `aurora` | characters, events and minds |
| `schedule`, `plugins`, `boot` | what runs when |

## What is trusted

`lod_objects` keeps the known zones in a `hashbrown::HashSet`. Its five operations are stated
as contracts beside the calls; nothing else is taken on trust.
