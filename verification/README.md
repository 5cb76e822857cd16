# steel

The entity and mob-AI core of a Minecraft server, written in Verus.

- `src/` is the library, verified but for a few trusted wrappers around std
  and the `uuid` and `rand` crates (marked `external_body`, each with a doc
  comment saying what its contract claims): goal flags and the
  goal selector, the target goals and the melee attack timing, the entity
  data model and entity behaviours, mobs and their NBT, the entity tracker
  and the world's player list, the `/kill` and `/summon` commands, the
  SNBT parser of command arguments, the wire formats of the entity packets,
  registries of items, entity types and behaviours, and the integer side of
  navigation. Laws that span several calls are public proof functions
  named `law_*`.
- `tests/` runs the library on concrete values.
- `app/` is the server code around it: the configuration file, and
  everything that computes with floats or random numbers (movement,
  pathfinding costs, distances, angles, the float-driven goals), which hands
  its answers to the library.
