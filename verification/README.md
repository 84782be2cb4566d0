# dark_inject

A dark mode for a desktop application that draws its own UI: a watcher
injects a DLL into every running `1cv8.exe`; inside the host, the DLL
recolours common controls as they are created and periodically, and
redirects the colour calls that the host makes to GDI and cairo.

- `src/` is the Verus-verified library: window classification, the colour
  palette and how the configuration spells a colour, the GDI colour rules,
  the recolouring plans, the PE32+ import-table walk over a module image,
  UTF-16 conversion, the shared on/off flag encoding, and the bookkeeping of
  redirected slots, installed hooks, logged hierarchies and injected
  processes.
- `app/` is the Windows side: API declarations, the file mapping, TOML
  reading, memory patching, hooks, the worker loop, injection and the tray
  window. It carries out what the library decides.
- `tests/` exercises the library on concrete values.
