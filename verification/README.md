# maplayer

The host side of maplayer: a daemon that runs coding agents (codex, cursor)
as child processes and lets paired clients drive them over iroh, plus the
desktop launcher and client that talk to it.

## Layout

- `src/` — the verified library (Verus). Every decision the daemon and the
  launcher take is here with its contract:
  - `wire` — newline framing and the 1 MiB line cap, with the law that a
    reader gives back exactly the line that was framed;
  - `rpc` — method names, routing and authorization of control-plane calls
    (`-32001` / `-32601` / `-32000`), stream headers;
  - `pairing` — the one-shot pairing window and the launcher token;
  - `config` — file layout under `~/.maplayer/`, the allowlist, the secret
    key file;
  - `session` — the command a session runs, the seq-tagged replay backlog,
    replay/live de-duplication, cutting client bytes into lines;
  - `discovery` — which walked files are external sessions, newest first and
    capped, and what is said of each;
  - `tail` — which references may be tailed, the last lines of a rollout file
    and the offset they start at;
  - `profiles` — profile names, credentials, CODEX_HOME resolution, listing
    order;
  - `launcher` — reading the daemon's stdout, the launcher's state, where the
    server binary is looked for, the client's small decisions;
  - `text`, `proto` — helpers over characters and the protocol's values.
- `tests/` — tests of the library on concrete values.
- `app/` — the `maplayer-server` program: command line, files, processes,
  iroh endpoints and JSON, calling the library for every decision; and the
  desktop app's client, launcher and commands (its window is not built here).
