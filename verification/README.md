# darkheim_launcher

The verified core of the Darkheim Minecraft launcher, written in Verus.

`src/` is the library. Every function in it is verified except one trusted wrapper,
`paths::home_dir`, which asks the `dirs` crate for the home directory:

- `text` — character-level string helpers (`trim`, prefixes, `u16` parsing, decimal text).
- `env` — SFTP credentials from the environment's values and the parsing of the host setting.
- `server` — the Minecraft server address.
- `progress` — the byte counters behind the progress bar.
- `paths` — Unix path joining, file names, temporary download names, and the launcher's
  layout under the home directory (data, Java, instance, legacy moves).
- `java` — the Java download address and the search for an unpacked Java executable.
- `sync` — the plan of an SFTP mirror: directory walks, files to fetch, files to remove.
- `launch` — phases, the Java choice, nickname validation and the JVM options.
- `report` — the report shown when the game exits at once: log tails and the crash log.

`app/` is the Tauri application around it: file system, network, the game process and the
progress events. `tests/` runs the library on concrete values, several of them against the
standard library's own path and string functions.
