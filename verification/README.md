# hypricons

Desktop icons for Hyprland (Wayland): a layer-shell window per monitor that
shows the files of a desktop folder as icons, with drag and drop, a
clipboard, renaming, trashing, disk-image mounting and saved positions.

The decision logic is a Verus-verified library (`src/`):

- `config` — settings, defaults < config file < command-line flags, `~` expansion.
- `positions` — saved icon positions and their JSON file.
- `text`, `paths`, `uri` — strings, Unix paths, percent-encoding, URI lists and
  clipboard payloads.
- `desktop_entry` — `.desktop` launchers: `Exec=` tokenizing, keys, launch plans.
- `layout` — the column-major icon grid, free placement, drops, arrow-key moves.
- `sorting` — stable sorting by name, date or type; "auto-arrange now".
- `icons` — which themed icon shows a path.
- `desktop` — the view's decisions: shown files, clicks, keys, menus, drops,
  renaming, pasting.
- `system` — helper programs (mounting disk images step by step), the trash
  folder, preloading the layer-shell library, windows per monitor, folder
  change debouncing.

`app/` is the GTK 4 front end: widgets, gestures, files, processes.
