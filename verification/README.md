# chevron

Powerline segments for the shell, and what stands around them: a daemon that
keeps the state of repositories and the history of commands, a host that runs a
shell under a status bar, reports on the machine and on the installation, and a
banner.

- `src/` is the library. Its functions carry contracts that Verus proves, but for
  those that only call libgit2, the PNG encoder, the ULID generator or the standard
  library. The contracts of these few are believed, and the comment above each says
  what is claimed; of libgit2's version, which the build decides, nothing is.
- `tests/` runs the library on values, with the outside crates linked.
- `app/` is the program: files, sockets, processes, terminals. What it reads it hands
  to the library, and it does what the library answers. Decided there is which
  command runs, and what rests on floating point, on a serialiser, on the terminal
  emulator or on what libgit2 reports entry by entry: the gauges and shades of the
  banner, the figures of the machine, the text of the settings, the model of the
  child's screen, the count of changes in a repository.

## Modules

| Module | What it holds |
| --- | --- |
| `text`, `decimal`, `json`, `paths`, `order`, `table`, `span` | texts, numbers, paths, sorting, tables, lengths of time |
| `color`, `config`, `segments` | escapes for shells, settings, the state of a repository |
| `daemon` | the wire protocol, connections, the cache, the spool of events, starting and stopping |
| `event`, `capture`, `wire`, `legacy_cache` | what shell hooks send, kept output, the loop around a pseudoterminal, the retired cache |
| `history` | the arguments, the query and the output of `chevron history` |
| `host` | the scanner of terminal markers, the model of the screen, the bar, the collapsing prompt, the session |
| `health`, `doctor` | the reports |
| `configure` | presets, the wizard and safe writing |
| `repo_status` | `chevron status` |
| `banner` | glyphs, letters, boxes, bars, palettes, layout, PNG and terminal graphics |

Theorems that relate several functions are the public proof functions whose names
begin with `law_`.
