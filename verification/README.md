# Vale Village

The rules of a turn-based elemental RPG, written in Verus: every function of
the library carries a contract that Verus proves.

## Layout

- `src/shared` — identifiers, definitions and bounded values used across the game.
- `src/data.rs` — the default combat configuration.
- `src/text.rs` — decimal numbers, padding and joining for display text.
- `src/domains` — one module per part of the game:
  - `combat`, `status`, `damage_mods`, `djinn`, `equipment`, `ai` — the
    battle rules; `battle_engine` ties them into planned and executed rounds;
  - `progression`, `quest`, `shop`, `encounter`, `dungeon`, `dialogue`,
    `puzzle`, `town`, `screens`, `menu` — the world outside battle;
  - `data_loader` — assembling the content tables and checking their references;
  - `save` — the saved state and its format version;
  - `cli_runner` — the terminal battle's text and the demo battle;
  - `sprite_loader` — reading the sprite manifests.
- `tests` — the library's tests.
- `app` — the program around the library: reading the RON data and save
  files, printing the demo battle, and the parts that work on floating point.

Laws of the library (stock limits, recovery, quest order, XP in steps, the
screen stack, …) are public proof functions next to the functions they speak of.
