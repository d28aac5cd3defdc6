# luo9_sdk

SDK for writing plugins of the Luo9 chat bot, with its logic verified in Verus.

- `src/` — the verified library:
  - `pattern` — templates such as `[CQ:at,qq={qq}]{content}` and matching
    strings against them (captures by name);
  - `command` — commands and the chained matching of their first argument
    (`on`, `on_pattern`, `handle`, `otherwise`);
  - `message` — building messages from text, @-mentions, images and line breaks;
  - `send`, `version` — the JSON requests published on the bus;
  - `bus` — topics, bus errors and what the core's status codes mean, and the
    table of subscribers the host created;
  - `payload` — the bus events as plain data;
  - `text`, `text_map`, `json` — character-level helpers, a text-keyed map,
    and the calls into `serde_json`.
- `app/` — the host-facing side: the core's C interface, bus I/O, command
  parsing through the core, serde models of the payloads, publishing.
- `tests/` — tests of the library.
