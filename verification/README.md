# wallpaper_selector

A wallpaper picker for Hyprland (GTK4 overlay, favourites, type filters),
whose logic is a Verus-verified library.

- `src/` — the verified library:
  - `text.rs`: character-level helpers (trimming, splitting into words and
    lines, joining, decimal numbers, lexicographic order) with their
    specifications and lemmas;
  - `model.rs`: the catalogue entry (`Wallpaper`), its kinds and sources,
    the type tokens and the display order (favourites first, then titles
    without case), with a stable sort;
  - `favorites.rs`: the favourites file's format, reading and writing, with
    the law that a written file reads back as the same favourites;
  - `config.rs`: the `key = value` configuration and the settings it sets;
  - `scan.rs`: what the files of a Workshop folder or of the personal folder
    make of an entry;
  - `thumbs.rs`: thumbnail file names (FNV-1a) and the pacing of their
    generation;
  - `apply.rs`: which engine shows an entry, with which arguments, and the
    last-wallpaper record;
  - `ipc.rs`: the requests and replies of the resident process;
  - `ui.rs`: the search, the rows of the list, the selection moves, the type
    filter rotation, the keys and the status line;
  - `cli.rs`: the command line and what the listing commands print;
  - `json.rs`: the few JSON members read with `serde_json`.
- `tests/` — tests of the library.
- `app/` — the program around it: file system, processes, sockets, threads,
  the GTK window, and the fractional settings.
