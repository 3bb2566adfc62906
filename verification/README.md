# wmpvp_rank_overlay

Rank overlay for CS2 matches on the wmpvp platform, for OBS: a card of the own account and a board
of the running match, as pages of a local server, with a settings window.

`src/` is the library. It holds the rules of the program as functions of plain values, each with a
contract that Verus proves:

| module | what it decides |
|---|---|
| `text`, `number`, `json`, `table` | texts, doubles by their bits, JSON values, small tables |
| `wmpvp` | requests to the platform and the reading of its replies |
| `rank`, `form` | ladder tiers, badges, averages; the caches of ranks and of last results |
| `kills` | the kills that a message of a match adds, and their weapons |
| `monitor` | what a message of a match changes; season statistics; the avatar |
| `connection`, `session` | the way to a connection, and the frames on it |
| `state` | what the program knows, and the snapshot that the pages show |
| `plugin` | sources of further data: pace, extraction, made-up values |
| `mock`, `source` | placeholder data, and the change between it and real data |
| `server`, `status`, `console`, `datalog`, `config` | pages, icon, log panel, data log, settings |

Functions whose names start with `law_` state what holds of several of these together.

`app/` is the program around it: sockets, files, clocks and the window. It hands events to the
library and carries out the actions that come back. Where a library function asks something of its
arguments, `app/` tests that first.

`tests/` runs the library on concrete values.
