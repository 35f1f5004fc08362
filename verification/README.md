# rozed_core

The verified core of rozed, a sync bridge between a local Luau project (edited
in Zed) and Roblox Studio.

`src/` is the library, verified with Verus:

| Module | What it holds |
| --- | --- |
| `mappings` | Local folders mapped to Roblox paths (insertion-ordered, no folder twice) |
| `mapping` | Local script file → script name, class and Roblox path |
| `plain_path` | Plain relative paths, on which `std::path` splits exactly at `/` |
| `pull` | Roblox script → local file, conflict check, backup file name |
| `events` | Messages for the Studio plugin and the poll queue |
| `sync` | What a changed file pushes, with the `.rozedignore` match |
| `config` | The settings of `rozed.toml` (port, interval, push on save, mappings) and their defaults |
| `lsp` | Header parsing, request ids and replies of the editor handshake |
| `text` | Character-level string helpers with exact specifications |

`app/` is the server program around it: reading `rozed.toml` and
`.rozedignore`, the HTTP
endpoints, the file watchers, the periodic sync and the stdin/stdout
handshake. It converts the library's types to and from JSON and TOML.

`tests/` runs the library on concrete values.
