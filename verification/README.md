# clipdmenu

A clipboard manager for X11, with its logic verified by [Verus](https://verus-lang.github.io).

- `clipdmenud`, the daemon, watches `CLIPBOARD` (and `PRIMARY`, if told to) and keeps what is copied:
  text in a rolling history, images in a single slot. It serves what a client selects, large contents
  piece by piece (the ICCCM `INCR` protocol).
- `clipdmenu`, the client, lists the history in a launcher and tells the daemon what was picked.

## Layout

- `src/` is the library: all that the two programs decide or compute, with contracts that Verus
  proves. `src/lib.rs` lists its modules, `src/laws.rs` states what holds of them together, and
  `src/outside.rs` states what is taken from the standard library on trust.
- `tests/` runs the library on concrete values.
- `app/` reads and writes: files, socket, launcher, X server. It is one program that is the daemon
  when it is called `clipdmenud`, and the client otherwise.

## Configuration

| Variable              | Description                                                     |
|-----------------------|-----------------------------------------------------------------|
| `CM_LAUNCHER`         | Menu command (default `dmenu`), for example `rofi -dmenu`       |
| `CLIPDMENU_CACHE_DIR` | Cache directory (default `clipdmenu` in `$XDG_CACHE_HOME`, or in `~/.cache`) |
| `XDG_RUNTIME_DIR`     | Directory of the socket between client and daemon               |

| Flag of the daemon  | Description                                          |
|---------------------|------------------------------------------------------|
| `--max-items=<num>` | How many text entries to keep (default 200)          |
| `--watch-primary`   | Capture the `PRIMARY` selection too (off by default) |

Arguments of the client go to the launcher as they are.
