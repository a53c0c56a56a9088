# worst_minecraft_launcher

The backend of a small Minecraft launcher, verified with Verus, and the
window and network code around it.

## Layout

- `src/` — the verified library.
  - `mods.rs`: mod loaders, providers, mod references, resolved mods, errors.
  - `modrinth.rs`, `curseforge.rs`: the providers' listings, the requests for
    them, and the choice of the release to install (newest first, the first
    listed among equally dated ones).
  - `releases.rs`: a chosen release turned into a resolved mod with its
    required dependencies.
  - `resolver.rs`: resolution as a state machine, breadth-first; once done,
    the resolved set is the least closure of the roots under required
    dependencies, each mod once.
  - `installer.rs`: which instances take mods, and installation as a state
    machine: which files present are kept, whether a download matches its
    published SHA-1; once done, every mod's file is installed and every
    published hash was observed.
  - `digest.rs`: SHA-1 (from the `sha1` crate) as lower-case hex.
  - `text.rs`: byte order of strings, decimal numerals and their parsing, hex.
  - `console.rs`: instance directory names, clock stamps, the bounded console
    log, the install queue, and the end of an install.
  - `auth.rs`, `config.rs`, `instance.rs`, `java.rs`, `launch.rs`, `mojang.rs`:
    the launcher's data types.
- `app/` — the program: the egui window, the HTTP calls (reqwest), file I/O
  (tokio), JSON (serde) and error messages (thiserror). It sends the requests
  the library describes and feeds the replies back to it.
- `tests/` — tests of the library.
