# third_principles_bot

A Minecraft bot that is controlled through chat, with its decisions verified by Verus.

Send `!<botname> <command>` in chat:

| Command | What the bot does |
|---|---|
| `come` | comes to the player who sent it, and follows |
| `stop` | drops what it is doing |
| `collect <target> [count]` | mines and picks up what was asked for |
| `build <description>` | has a language model design a structure, gathers what is missing and builds it |

A bot that loses health turns on the nearest hostile mob and goes back to its task afterwards.

## Layout

- `src/` is the verified library. It decides: it takes what is known of the game as plain values and
  gives back the next state and the actions to carry out.
  - Positions, kinds and counts: `geometry`, `measure`, `kinds`, `counts`, `structure`, `order`, `text`
  - Where to stand and what to hold: `stance`, `world`, `equip`, `actions`
  - The tasks: `targets` and `collect`, `building`, `combat`, and `mode`, which joins them
  - Commands: `chat`, `grammar`, `commands`
  - Around it: `llm`, `smoke`, `trace`, `calendar`
- `app/` plays the game: it connects, gathers the facts, calls the library and carries out the
  actions. With `live_smoke` as its first argument it runs the live smoke test, which exits with 0
  when it has passed, 1 when time ran out and 2 when it is not configured.
- `tests/` runs the library on concrete values.

## Configuration

`SERVER_URL` names the server. `OPENROUTER_BASE_URL`, `OPENROUTER_API_KEY` and `OPENROUTER_MODEL`
are needed to build. The `LIVE_TEST_*` variables configure the live smoke test.
