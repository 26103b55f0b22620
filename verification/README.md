# bsdkrun engine

The decision-making core of bsdkrun, a launcher for BSD, Linux and unikernel
microVMs, written in Verus: every function in `src/` carries a contract that
Verus proves, and the properties the engine relies on across calls are proved
as lemmas beside the code they are about.

## Layout

- `src/` — the verified library.
  - `text` — the string and number helpers the rest is specified with.
  - `dns`, `domains`, `resolver` — machine domains: the DNS
    responder's wire format, label and URL rules, resolver configuration.
  - `console` — the console filters (boot markers, firmware paint) and the
    replay window of the console broker.
  - `flavors`, `flavor_cmd` — the flavor catalog, user flavors, and what
    `flavor run/add/rm` and `flavors` decide and print.
  - `boot`, `machines`, `snapshot`, `prune`, `cp`, `guest`, `solo5` — the
    machine lifecycle: restart plans, the agent wait, networking choices,
    mounts, removal checks, snapshot naming and payloads, prune plans, copy
    plans, guest shells and `ssh` arguments, unikernel block devices.
  - `docker` — the Docker engine: API request framing, chunked bodies, log
    frames, container rows, port publishing, status and listing text.
  - `host`, `doctor`, `disk` — host facts, the KVM diagnosis and report, the
    doctor checks, disk headroom.
  - `db`, `ids`, `cache`, `ci` — state-directory paths and ages, machine ids,
    cache targets, the CI verbs and run listings with their calendar dates.
- `tests/` — executable tests of the library, one file per module.
- `app/` — the host side around the library: the SQLite state database, files
  and directories, sockets, child processes and the TOML flavor file. It hands
  the library plain values and acts on what comes back.
