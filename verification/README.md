# rev_toolkit

A toolkit for inspecting and modifying Windows processes, split in two:

- `src/` — the library, with its contracts and proofs. It holds the
  toolkit's logic: following pointer chains, scanning memory for byte
  patterns, matching masked signatures, reading NUL-terminated strings,
  looking processes and modules up in snapshots, resolving DLL file names,
  decoding key states, and the steps of a DLL injection (resolving the DLL
  path before any target is opened, then allocating, writing, loading and
  checking). Routines that need the operating system are written as small
  state machines: they say which read or call comes next and take its
  outcome back.
- `app/` — the Windows side: handles, `ReadProcessMemory`/`WriteProcessMemory`,
  Tool Help snapshots, remote threads, key states, path canonicalization, and
  the injector's command line. It drives the state machines of `src/`.

Modules of the library: `status` (status codes and messages), `text`
(character helpers), `pattern` (signatures and byte scans), `memory` (pointer
chains, C strings, snapshots, module tables), `process`, `utils` (keys and
paths), `inject` (the injection procedure), `interface` (the injector window's
state) and `cli` (the injector's arguments).
