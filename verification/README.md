# cs16_tool_v2

An external memory tool for Counter-Strike 1.6 (GoldSrc): it attaches to
`hl.exe`, reads money, ammo, health, armor and position through pointer chains
and entity offsets, optionally writes target values, and shows them in a
console line, a debug console and a transparent overlay on the game window.

The project is split in two:

- `src/` — the library, verified with Verus. It holds every decision the tool
  makes: configuration parsing and validation (hex values, value types,
  overlay corners), pointer-chain resolution, the engine's per-tick logic
  (address resolution and re-resolution, local player discovery, the money /
  clip / reserve strategies, the writes toward the targets, the value cache,
  readiness and reconnection), the integer side of position discovery and the
  position source bookkeeping, the status line, the overlay lines and their
  placement, the debug console text, the game window cache and search order,
  the process and module lookups by name, and the diagnostic scans of the
  dump mode. Memory is reached through closures (`Fn(u32) -> Option<u32>` for
  a 32-bit read), so each function is specified for every memory content.
- `app/` — the program around it: Win32 calls (process, memory, windows, GDI),
  threads, the command line, loading `config.toml`, and what depends on
  floating point (health and armor values, the map-position filters and the
  movement-based discovery strategies).

`tests/` exercises the library on concrete memory images and configurations.
